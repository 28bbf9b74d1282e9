# sgxtuner

A simulated-annealing tuner for the parameters of SGX-enabled libc
libraries (sgx-musl), with its logic verified by Verus.

* `src/` is the verified library: the readers of the XML configuration, of
  the parameter file and of the deployment (docker-compose) description; the
  generation of parameter spaces, neighbouring and random configurations;
  the pools and counters shared by the parallel solvers; the messages
  exchanged with the target and benchmark agents; the rewriting of program
  arguments; the parsers of benchmark outputs; the rows of the result files;
  and the stopping rules of the solvers. Calls into `rand`, `xml-rs` and
  `yaml-rust` go through a few trusted wrappers.
* `app/` is the program around it: command-line handling, files, sockets
  and processes, and everything that works on floating-point energies and
  temperatures (cooling schedules, acceptance, averages).
* `tests/` exercises the library on concrete inputs.
