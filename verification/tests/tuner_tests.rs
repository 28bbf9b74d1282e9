use sgxtuner::agent_bench::BenchmarkName;
use sgxtuner::keyed::KeyedVec;
use sgxtuner::tuner::energy_eval::{
    bench_args_for_target, CommandExecutor, Launch, LocalCommandExecutor, RemoteCommandExecutor,
};
use sgxtuner::tuner::output_parser::{token_after_marker, Parser};
use sgxtuner::tuner::perf_metrics::{MeasuredCounters, PerfMetrics};
use sgxtuner::tuner::results_emitter::{header_row, state_values_row};
use sgxtuner::tuner::shared::{Process2Spawn, ProcessPool};
use sgxtuner::tuner::states_gen::{ParamsConfigurator, State};
use sgxtuner::tuner::xml_reader::{ConfigError, XMLReader};
use sgxtuner::tuner::{ExecutionType, SolverVersion};

const TUNER_DOC: &str = "<conf>\
<target><m1><execution>local</execution><bin>memcached</bin><path>/opt/</path>\
<args>-l 10.0.0.1 -p 14200</args><address>10.0.0.1</address><port>14200</port></m1></target>\
<bench><b1><name>memaslap</name><execution>local</execution><bin>memaslap</bin><path>/opt/</path>\
<args>-s 10.0.0.1:14200 -t 20s</args><address>10.0.0.1</address><port>14200</port></b1></bench>\
<annealing><max_step>10</max_step><num_iter>1</num_iter><energy>throughput</energy>\
<cooling>exponential</cooling><problem>default</problem><version>spis</version><workers>2</workers></annealing>\
<musl-params><p1><name>MUSL_ETHREADS</name><default>4</default><minimum>1</minimum><maximum>10</maximum>\
<step>1</step></p1><p2><name>MUSL_SSLEEP</name><default>3400</default><minimum>2800</minimum>\
<maximum>4200</maximum><step>100</step></p2></musl-params>\
</conf>";

fn reader() -> XMLReader {
    XMLReader::new(TUNER_DOC.as_bytes()).ok().expect("document is valid")
}

#[test]
fn tuner_xml_reader_reads_the_document() {
    let r = reader();
    assert_eq!(r.ann_max_steps(), 10);
    assert_eq!(r.ann_workers(), 2);
    assert!(matches!(r.ann_version(), SolverVersion::spis));
    let params = r.get_musl_params();
    assert_eq!(params.len(), 2);
    assert_eq!(params[1].name, "MUSL_SSLEEP");
    assert_eq!((params[1].min, params[1].max, params[1].step, params[1].default), (2800, 4200, 100, 3400));
    // one target is described, two workers: the first target is copied
    let targets = r.get_targs_pool();
    assert_eq!(targets.size(), 2);
    let copy = targets.get("1").expect("copied target");
    assert_eq!(copy.bin, "memcached");
    assert!(matches!(copy.execution_type, ExecutionType::local));
    assert_eq!(r.get_bench_pool().size(), 2);
}

#[test]
fn tuner_xml_reader_rejects_a_bad_document() {
    assert!(XMLReader::new(b"<conf><annealing>").is_err());
    let doc = "<conf><annealing><version>spis</version><workers>1</workers></annealing></conf>";
    assert!(matches!(XMLReader::new(doc.as_bytes()), Err(ConfigError::NoProcessToCopy)));
}

#[test]
fn space_of_a_parameter() {
    let mut s = ParamsConfigurator::get_space_state(2800, 3200, 100);
    s.sort();
    assert_eq!(s, vec![2800, 2900, 3000, 3100, 3200]);
    assert_eq!(ParamsConfigurator::get_space_state(1, 2, 5), vec![1]);
    assert_eq!(ParamsConfigurator::get_space_state(5, 5, 1), vec![5]);
    let mut t = ParamsConfigurator::get_space_state(0, 10, 3);
    t.sort();
    assert_eq!(t, vec![0, 3, 6, 9]);
}

#[test]
fn configurator_defaults_and_neighbours() {
    let mut pc = ParamsConfigurator::new(reader());
    pc.init();
    let init = pc.get_initial_param_conf();
    assert_eq!(init.get("MUSL_ETHREADS"), Some(&4));
    assert_eq!(init.get("MUSL_SSLEEP"), Some(&3400));
    let neighs = pc.get_neigh_one_varying(&init);
    assert_eq!(neighs.len(), 10 + 15);
    let n = pc.get_neighborhood(&init, 1).expect("a neighbour");
    assert!((1..=10).contains(n.get("MUSL_ETHREADS").unwrap()));
    assert_eq!(n.get("MUSL_SSLEEP"), Some(&3400));
    let r = pc.get_rand_param();
    assert_eq!(r.get("MUSL_SSLEEP").unwrap() % 100, 0);
    assert_eq!(pc.get_rand_population(3).len(), 3);
}

#[test]
fn output_parser_reads_the_measure() {
    let wrk = Parser { benchmark_name: BenchmarkName::Wrk };
    assert_eq!(wrk.parse("Latency 1ms\nRequests/sec: 1234.5\nTransfer/sec: 1MB"), Some("1234.5".to_string()));
    let memaslap = Parser { benchmark_name: BenchmarkName::Memaslap };
    assert_eq!(memaslap.parse("Run time: 20s Ops: 100 TPS: 5000 Net_rate: 1M"), Some("5000".to_string()));
    let ycsb = Parser { benchmark_name: BenchmarkName::Ycsb };
    // the measure follows the marker
    assert_eq!(ycsb.parse("[OVERALL], Throughput(ops/sec), 812.3"), Some("812.3".to_string()));
    assert_eq!(token_after_marker("a b", "x", 5), None);
}

#[test]
fn perf_metrics_cycles_per_instruction() {
    let mut m = PerfMetrics::new();
    m.StartCounters_4_CPI(MeasuredCounters { value_unhalted_core: 100, value_ret_instructions: 10 });
    m.StopCounters_4_CPI(MeasuredCounters { value_unhalted_core: 1100, value_ret_instructions: 310 });
    assert_eq!(m.get_CPI(), 3);
}

fn process(args: &str, address: &str, port: &str) -> Process2Spawn {
    Process2Spawn {
        execution_type: ExecutionType::local,
        host: String::new(),
        user: String::new(),
        bin: "b".to_string(),
        path: "/p/".to_string(),
        args: args.to_string(),
        address: address.to_string(),
        port: port.to_string(),
    }
}

#[test]
fn bench_arguments_point_at_the_target() {
    let bench = process("-s 10.0.0.1:14200 -t 20s", "10.0.0.1", "14200");
    let target = process("-l 10.0.0.2 -p 14300", "10.0.0.2", "14300");
    assert_eq!(bench_args_for_target(&bench, &target), Some("-s 10.0.0.2:14300 -t 20s".to_string()));
    let bad = process("", "10.0.0.2", "port");
    assert_eq!(bench_args_for_target(&bench, &bad), None);
}

#[test]
fn commands_of_the_executors() {
    let mut st: State = KeyedVec::new();
    st.insert("A".to_string(), 1);
    st.insert("B".to_string(), 20);
    let remote = RemoteCommandExecutor { host: "h:22".to_string(), user_4_agent: "u".to_string() };
    match remote.execute_target("/opt/", "memcached", "-p 1", &st) {
        Launch::Shell(c) => assert_eq!(c, "export A=1;export B=20;/opt/memcached -p 1"),
        _ => panic!("a shell command is expected"),
    }
    assert_eq!(RemoteCommandExecutor::kill_command("memcached"), "pkill memcached");
    match LocalCommandExecutor.execute_target("/opt/", "memcached", "-p  1", &st) {
        Launch::Process { program, args, env } => {
            assert_eq!(program, "/opt/memcached");
            assert_eq!(args, vec!["-p", "1"]);
            assert_eq!(env, vec![("A".to_string(), "1".to_string()), ("B".to_string(), "20".to_string())]);
        }
        _ => panic!("a process is expected"),
    }
}

#[test]
fn results_rows() {
    let names = vec!["A".to_string()];
    assert_eq!(header_row(&names), vec!["time_s", "cputime_s", "temperature", "best_nrg", "best_A", "last_nrg", "last_A"]);
    let mut st: State = KeyedVec::new();
    st.insert("A".to_string(), 7);
    assert_eq!(state_values_row(&st, &names), vec!["7"]);
}

#[test]
fn tuner_process_pool_by_index() {
    let mut p = ProcessPool::new();
    p.push(process("x", "a", "1"), "0".to_string());
    assert_eq!(p.size(), 1);
    let got = p.remove("0".to_string());
    assert_eq!(got.args, "x");
    assert_eq!(p.size(), 0);
}

use sgxtuner::xml_events::XmlEvent;

fn start(n: &str) -> XmlEvent {
    XmlEvent::StartElement(n.to_string())
}
fn end(n: &str) -> XmlEvent {
    XmlEvent::EndElement(n.to_string())
}
fn text(t: &str) -> XmlEvent {
    XmlEvent::Characters(t.to_string())
}

#[test]
fn reader_from_events_in_sequential_mode() {
    let events = vec![
        start("conf"),
        start("annealing"),
        start("version"),
        text("seqsea"),
        end("version"),
        end("annealing"),
        start("musl-params"),
        start("p"),
        start("name"),
        text("X"),
        end("name"),
        start("minimum"),
        text("1"),
        end("minimum"),
        start("maximum"),
        text("3"),
        end("maximum"),
        start("step"),
        text("1"),
        end("step"),
        start("default"),
        text("2"),
        end("default"),
        end("p"),
        end("musl-params"),
        end("conf"),
    ];
    let r = XMLReader::from_events(events).ok().expect("events describe a configuration");
    // no worker padding for the sequential solver
    assert_eq!(r.get_targs_pool().size(), 0);
    let params = r.get_musl_params();
    assert_eq!(params.len(), 1);
    assert_eq!((params[0].min, params[0].max, params[0].default), (1, 3, 2));
}

#[test]
fn reader_from_events_reports_missing_version() {
    let events = vec![start("conf"), end("conf")];
    assert!(matches!(
        XMLReader::from_events(events),
        Err(ConfigError::Missing(sgxtuner::tuner::xml_reader::Field::Version))
    ));
}

#[test]
fn reader_ignores_events_after_a_parser_failure() {
    let events = vec![start("annealing"), start("version"), text("seqsea"), XmlEvent::Failure, text("spis")];
    assert!(XMLReader::from_events(events).is_ok());
}
