use vstd::prelude::*;
use crate::text::{decimal, parse_decimal, parse_unsigned, replace, replace_all, split_whitespace, split_ws, usize_to_string, views};
use super::shared::Process2Spawn;
use super::states_gen::State;
use super::xml_reader::XMLReader;

verus! {

/// What the energy of a configuration is measured with: the processes and
/// parameters of the configuration document.
pub struct EnergyEval {
    pub xml_reader: XMLReader,
}

/// The duration of the last benchmark run, in milliseconds.
pub struct BenchExecTime(u32);

impl View for BenchExecTime {
    type V = u32;

    closed spec fn view(&self) -> u32 {
        self.0
    }
}

impl BenchExecTime {
    pub fn new() -> (r: Self)
        ensures
            r@ == 0,
    {
        BenchExecTime(0)
    }

    pub fn set(&mut self, val: u32)
        ensures
            final(self)@ == val,
    {
        self.0 = val;
    }

    pub fn get(&self) -> (r: u32)
        ensures
            r == self@,
    {
        self.0
    }
}

/// The arguments of `bench` pointed at `target`: its port replaced by the
/// target's port and its address by the target's address. `None` when a
/// port is not a number below 65536.
pub open spec fn bench_args_spec(bench: Seq<char>, bench_port: Seq<char>, bench_address: Seq<char>, target_port: Seq<char>, target_address: Seq<char>) -> Option<Seq<char>> {
    match parse_unsigned(target_port, 65535) {
        None => None,
        Some(tp) => match parse_unsigned(bench_port, 65535) {
            None => None,
            Some(_) => Some(
                replace_all(replace_all(bench, bench_port, decimal(tp)), bench_address, target_address),
            ),
        },
    }
}

pub fn bench_args_for_target(bench: &Process2Spawn, target: &Process2Spawn) -> (r: Option<String>)
    ensures
        match r {
            Some(a) => bench_args_spec(bench.args@, bench.port@, bench.address@, target.port@, target.address@) == Some(a@),
            None => bench_args_spec(bench.args@, bench.port@, bench.address@, target.port@, target.address@) is None,
        },
{
    let target_port = match parse_decimal(target.port.as_str(), 65535) {
        Some(p) => p,
        None => return None,
    };
    if parse_decimal(bench.port.as_str(), 65535).is_none() {
        return None;
    }
    let port_text = usize_to_string(target_port as usize);
    let with_port = replace(bench.args.as_str(), bench.port.as_str(), port_text.as_str());
    let r = replace(with_port.as_str(), bench.address.as_str(), target.address.as_str());
    Some(r)
}

/// `export NAME=VALUE;` for each parameter of `params`, in order.
pub open spec fn exports(es: Seq<(Seq<char>, usize)>) -> Seq<char>
    decreases es.len(),
{
    if es.len() == 0 {
        seq![]
    } else {
        exports(es.drop_last()) + "export "@ + es.last().0 + "="@ + decimal(es.last().1 as nat) + ";"@
    }
}

/// Runs a target through a shell on a remote host.
pub struct RemoteCommandExecutor {
    pub host: String,
    pub user_4_agent: String,
}

/// Runs processes on this machine.
pub struct LocalCommandExecutor;

impl RemoteCommandExecutor {
    /// The shell command that starts the target with the parameters of
    /// `params` in its environment.
    pub fn target_command(params: &State, target_path: &str, target_bin: &str, target_args: &str) -> (r: String)
        ensures
            r@ == exports(params.entries()) + target_path@ + target_bin@ + " "@ + target_args@,
    {
        let n = params.len();
        let mut env_cmd = String::new();
        let mut i: usize = 0;
        assert(params.entries().take(0) =~= Seq::<(Seq<char>, usize)>::empty());
        while i < n
            invariant
                n == params.entries().len(),
                i <= n,
                env_cmd@ == exports(params.entries().take(i as int)),
            decreases n - i,
        {
            let (name, value) = params.entry_at(i);
            env_cmd.append("export ");
            env_cmd.append(name.as_str());
            env_cmd.append("=");
            let v = usize_to_string(*value);
            env_cmd.append(v.as_str());
            env_cmd.append(";");
            proof {
                let t = params.entries().take(i + 1);
                assert(t.drop_last() =~= params.entries().take(i as int));
                assert(t.last() == params.entries()[i as int]);
            }
            i = i + 1;
        }
        assert(params.entries().take(n as int) =~= params.entries());
        let mut cmd = env_cmd;
        cmd.append(target_path);
        cmd.append(target_bin);
        cmd.append(" ");
        cmd.append(target_args);
        cmd
    }

    /// The shell command that starts the benchmark.
    pub fn bench_command(bench_path: &str, bench_bin: &str, bench_args: &str) -> (r: String)
        ensures
            r@ == bench_path@ + bench_bin@ + " "@ + bench_args@,
    {
        let mut cmd = bench_path.to_owned();
        cmd.append(bench_bin);
        cmd.append(" ");
        cmd.append(bench_args);
        cmd
    }

    /// The shell command that stops the target.
    pub fn kill_command(target_bin: &str) -> (r: String)
        ensures
            r@ == "pkill "@ + target_bin@,
    {
        let mut cmd = "pkill ".to_owned();
        cmd.append(target_bin);
        cmd
    }
}

/// How a program is started: a command given to a remote shell, or a
/// process of this machine with its arguments and environment.
pub enum Launch {
    Shell(String),
    Process { program: String, args: Vec<String>, env: Vec<(String, String)> },
}

/// The variables `NAME=VALUE` of a configuration, in its order.
pub open spec fn env_of(es: Seq<(Seq<char>, usize)>) -> Seq<(Seq<char>, Seq<char>)> {
    es.map_values(|e: (Seq<char>, usize)| (e.0, decimal(e.1 as nat)))
}

/// Starts the target and the benchmark of an evaluation.
pub trait CommandExecutor {
    /// How the target `target_path + target_bin` is started with the
    /// arguments `target_args` and the configuration `params`.
    fn execute_target(&self, target_path: &str, target_bin: &str, target_args: &str, params: &State) -> Launch;

    /// How the benchmark `bench_path + bench_bin` is started with the
    /// arguments `bench_args`.
    fn execute_bench(&self, bench_path: &str, bench_bin: &str, bench_args: &str) -> Launch;
}

impl CommandExecutor for RemoteCommandExecutor {
    fn execute_target(&self, target_path: &str, target_bin: &str, target_args: &str, params: &State) -> (r: Launch)
        ensures
            r matches Launch::Shell(c) && c@ == exports(params.entries()) + target_path@ + target_bin@ + " "@
                + target_args@,
    {
        Launch::Shell(RemoteCommandExecutor::target_command(params, target_path, target_bin, target_args))
    }

    fn execute_bench(&self, bench_path: &str, bench_bin: &str, bench_args: &str) -> (r: Launch)
        ensures
            r matches Launch::Shell(c) && c@ == bench_path@ + bench_bin@ + " "@ + bench_args@,
    {
        Launch::Shell(RemoteCommandExecutor::bench_command(bench_path, bench_bin, bench_args))
    }
}

impl CommandExecutor for LocalCommandExecutor {
    fn execute_target(&self, target_path: &str, target_bin: &str, target_args: &str, params: &State) -> (r: Launch)
        ensures
            r matches Launch::Process { program, args, env } && program@ == target_path@ + target_bin@
                && views(args@) == split_ws(target_args@) && env@.map_values(
                |e: (String, String)| (e.0@, e.1@),
            ) == env_of(params.entries()),
    {
        let mut program = target_path.to_owned();
        program.append(target_bin);
        let args = split_whitespace(target_args);
        let n = params.len();
        let mut env: Vec<(String, String)> = Vec::new();
        let mut i: usize = 0;
        while i < n
            invariant
                n == params.entries().len(),
                i <= n,
                env@.map_values(|e: (String, String)| (e.0@, e.1@)) == env_of(params.entries().take(i as int)),
            decreases n - i,
        {
            let (name, value) = params.entry_at(i);
            let ghost before = env@.map_values(|e: (String, String)| (e.0@, e.1@));
            env.push((name.clone(), usize_to_string(*value)));
            proof {
                assert(env@.map_values(|e: (String, String)| (e.0@, e.1@)) =~= before.push(
                    (name@, decimal(*value as nat)),
                ));
                assert(env_of(params.entries().take(i + 1)) =~= env_of(params.entries().take(i as int)).push(
                    (name@, decimal(*value as nat)),
                ));
            }
            i = i + 1;
        }
        assert(params.entries().take(n as int) =~= params.entries());
        Launch::Process { program, args, env }
    }

    fn execute_bench(&self, bench_path: &str, bench_bin: &str, bench_args: &str) -> (r: Launch)
        ensures
            r matches Launch::Process { program, args, env } && program@ == bench_path@ + bench_bin@
                && views(args@) == split_ws(bench_args@) && env@.len() == 0,
    {
        let mut program = bench_path.to_owned();
        program.append(bench_bin);
        let args = split_whitespace(bench_args);
        Launch::Process { program, args, env: Vec::new() }
    }
}

} // verus!
