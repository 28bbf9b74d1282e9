use sgxtuner::agent_bench::{reply_to, BenchmarkName};
use sgxtuner::agent_target::conf_handler::{locate_param, rewrite_contents, ConfWriter};
use sgxtuner::agent_target::messages::{handle_message, TargetAction, TargetCommand};
use sgxtuner::agent_target::xml_parser::XMLReader;
use sgxtuner::agent_target::ParameterLevel;
use sgxtuner::keyed::KeyedVec;

const AGENT_DOC: &str = "<conf>\
<int-parameter><name>threads</name><minimum>1</minimum><maximum>4</maximum><step>1</step>\
<default>2</default><level>runtime</level></int-parameter>\
<bool-parameter><name>cache</name><true>on</true><false>off</false><default>false</default>\
<level>service-config</level></bool-parameter>\
<builder-script><default>build.sh</default><fulltag>img:1</fulltag><envfile>env.list</envfile></builder-script>\
</conf>";

#[test]
fn agent_xml_reader_reads_the_levels() {
    let r = XMLReader::new(AGENT_DOC.as_bytes()).ok().expect("document is valid");
    let levels = r.get_target_hm_service_level();
    assert_eq!(levels.len(), 2);
    assert!(matches!(levels.get("threads"), Some(ParameterLevel::Runtime)));
    assert!(matches!(levels.get("cache"), Some(ParameterLevel::ServiceConfig)));
    let ints = r.get_target_int_hm_params();
    assert_eq!(ints[0].name, "threads");
    let bools = r.get_target_bool_params();
    assert_eq!(bools[0].default, false);
    assert_eq!(r.get_script_info().envfile, "env.list");
}

#[test]
fn stop_request_and_unknown_requests() {
    let levels: KeyedVec<ParameterLevel> = KeyedVec::new();
    assert!(matches!(handle_message("stop_target", &levels), TargetCommand::Stop));
    assert!(matches!(handle_message("hello", &levels), TargetCommand::Ignore));
}

#[test]
fn service_parameter_without_value_is_malformed() {
    let mut levels: KeyedVec<ParameterLevel> = KeyedVec::new();
    levels.insert("cache".to_string(), ParameterLevel::ServiceConfig);
    assert!(matches!(handle_message("start_target|cache|", &levels), TargetCommand::Malformed));
}

#[test]
fn compile_level_goes_to_the_environment_file() {
    let mut levels: KeyedVec<ParameterLevel> = KeyedVec::new();
    levels.insert("opt".to_string(), ParameterLevel::Compile);
    match handle_message("start_target|opt=3|other=1|", &levels) {
        TargetCommand::Start(a) => {
            assert_eq!(a.len(), 1);
            assert!(matches!(&a[0], TargetAction::EnvLine(l) if l == "opt=3\n"));
        }
        _ => panic!("a start request is expected"),
    }
}

#[test]
fn conf_writer_joins_its_lines() {
    let mut w = ConfWriter::new("env.list".to_string());
    w.push_line("A=1\n".to_string());
    w.push_line("B=2\n".to_string());
    assert_eq!(w.filename(), "env.list");
    assert_eq!(w.contents(), "A=1\nB=2\n");
}

fn lines(v: &[&str]) -> Vec<String> {
    v.iter().map(|s| s.to_string()).collect()
}

#[test]
fn locate_param_finds_the_line_after_the_name() {
    let files = vec![
        lines(&["# nothing", "other 1"]),
        lines(&["maxclients 10", "timeout 5"]),
    ];
    assert_eq!(locate_param(&files, "maxclients"), Some((1, "maxclients 10".to_string())));
    assert_eq!(locate_param(&files, "other"), Some((0, "other 1".to_string())));
    assert_eq!(locate_param(&files, "absent"), None);
}

#[test]
fn locate_param_name_at_end_of_line_takes_the_next_line() {
    let files = vec![lines(&["cache", "on"]), lines(&["x y"])];
    assert_eq!(locate_param(&files, "cache"), Some((0, "on".to_string())));
    let last = vec![lines(&["a b"]), lines(&["c"])];
    assert_eq!(locate_param(&last, "c"), Some((1, String::new())));
}

#[test]
fn rewrite_replaces_the_line() {
    assert_eq!(
        rewrite_contents("a 1\nmaxclients 10\n", "maxclients 10", "maxclients", "20"),
        "a 1\nmaxclients 20\n"
    );
}

#[test]
fn bench_agent_answers_start_requests() {
    assert_eq!(reply_to("start_bench"), Some("45.6".to_string()));
    assert_eq!(reply_to("stop"), None);
    assert!(matches!("wrk".parse::<BenchmarkName>(), Ok(BenchmarkName::Wrk)));
    assert!("nope".parse::<BenchmarkName>().is_err());
}
