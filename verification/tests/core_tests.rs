use sgxtuner::agent_target::messages::{handle_message, TargetAction, TargetCommand};
use sgxtuner::agent_target::ParameterLevel as AgentLevel;
use sgxtuner::core_tuner::energy_eval::{on_bench_reply, on_target_reply, start_target_message, EnergyEval, EvalAction};
use sgxtuner::core_tuner::res_emitters::{CSVEmitter, InfluxEmitter};
use sgxtuner::core_tuner::shared::{BoolParameter, IntParameter};
use sgxtuner::core_tuner::states_gen::{ParamsConfigurator, State};
use sgxtuner::core_tuner::xml_parser::{ConfigError, Field, XMLReader};
use sgxtuner::core_tuner::yml_parser::{services_of, YMLReader, YamlNode};
use sgxtuner::core_tuner::{CoolingSchedule, EnergyType, ParameterLevel, SolverVersion};
use sgxtuner::keyed::KeyedVec;

const CORE_DOC: &str = "<conf>\
<tuner-params><max_step>100</max_step><num_iter>3</num_iter><energy>throughput</energy>\
<cooling>exponential</cooling><version>spisa</version></tuner-params>\
<targ-params>\
<int-parameter><name>threads</name><minimum>1</minimum><maximum>4</maximum><step>1</step>\
<default>2</default><level>runtime</level></int-parameter>\
<bool-parameter><name>cache</name><true>on</true><false>off</false><default>true</default>\
<level>service-config</level></bool-parameter>\
</targ-params>\
<builder-script><default>build.sh</default><fulltag>img:1</fulltag><envfile>env.list</envfile></builder-script>\
</conf>";

fn int_param(name: &str, min: usize, max: usize, step: usize, default: usize) -> IntParameter {
    IntParameter { name: name.to_string(), min, max, step, default, level: ParameterLevel::runtime }
}

fn bool_param(name: &str, default: bool) -> BoolParameter {
    BoolParameter {
        name: name.to_string(),
        true_val: "on".to_string(),
        false_val: "off".to_string(),
        default,
        level: ParameterLevel::service_config,
    }
}

fn state(pairs: &[(&str, &str)]) -> State {
    let mut s: State = KeyedVec::new();
    for (k, v) in pairs {
        s.insert(k.to_string(), v.to_string());
    }
    s
}

#[test]
fn core_xml_reader_reads_the_document() {
    let r = XMLReader::new(CORE_DOC.as_bytes()).ok().expect("document is valid");
    assert_eq!(r.ann_max_steps(), 100);
    assert_eq!(r.ann_num_iter(), 3);
    assert!(matches!(r.ann_energy(), EnergyType::throughput));
    assert!(matches!(r.ann_cooling(), CoolingSchedule::exponential));
    assert!(matches!(r.ann_version(), SolverVersion::spisa));
    let ints = r.get_target_int_params();
    assert_eq!(ints.len(), 1);
    assert_eq!(ints[0].name, "threads");
    assert_eq!((ints[0].min, ints[0].max, ints[0].step, ints[0].default), (1, 4, 1, 2));
    let bools = r.get_target_bool_params();
    assert_eq!(bools.len(), 1);
    assert_eq!((bools[0].true_val.as_str(), bools[0].false_val.as_str(), bools[0].default), ("on", "off", true));
    assert!(matches!(bools[0].level, ParameterLevel::service_config));
    let script = r.get_script_info();
    assert_eq!((script.name.as_str(), script.fulltag.as_str(), script.envfile.as_str()), ("build.sh", "img:1", "env.list"));
}

#[test]
fn core_xml_reader_reports_a_missing_entry() {
    let doc = "<conf><int-parameter><name>x</name><minimum>1</minimum><maximum>4</maximum>\
               <default>2</default><level>runtime</level></int-parameter></conf>";
    assert!(matches!(XMLReader::new(doc.as_bytes()), Err(ConfigError::Missing(Field::Step))));
}

#[test]
fn core_xml_reader_reports_an_invalid_entry() {
    let doc = "<conf><int-parameter><name>x</name><minimum>one</minimum><maximum>4</maximum>\
               <step>1</step><default>2</default><level>runtime</level></int-parameter></conf>";
    assert!(matches!(XMLReader::new(doc.as_bytes()), Err(ConfigError::Invalid(Field::Minimum))));
}

#[test]
fn initial_configuration_uses_the_defaults() {
    let pc = ParamsConfigurator::new(vec![int_param("threads", 1, 4, 1, 2)], vec![bool_param("cache", false)]);
    let s = pc.get_initial_param_conf();
    assert_eq!(s.get("threads").map(|v| v.as_str()), Some("2"));
    assert_eq!(s.get("cache").map(|v| v.as_str()), Some("off"));
    assert_eq!(pc.get_params_name(), vec!["threads".to_string(), "cache".to_string()]);
}

#[test]
fn neighbours_vary_one_parameter_each() {
    let pc = ParamsConfigurator::new(vec![int_param("threads", 1, 4, 1, 2)], vec![bool_param("cache", true)]);
    let cur = pc.get_initial_param_conf();
    let neighs = pc.get_neigh_one_varying(&cur);
    // 4 values for the integer parameter, 2 texts for the switch
    assert_eq!(neighs.len(), 6);
    for n in neighs.iter() {
        let mut diff = 0;
        for k in ["threads", "cache"] {
            if n.get(k) != cur.get(k) {
                diff += 1;
            }
        }
        assert!(diff <= 1);
        let t: usize = n.get("threads").unwrap().parse().unwrap();
        assert!((1..=4).contains(&t));
    }
}

#[test]
fn neighbourhood_varies_only_the_first_parameters() {
    let pc = ParamsConfigurator::new(vec![int_param("threads", 10, 40, 10, 20)], vec![bool_param("cache", true)]);
    let cur = state(&[("threads", "20"), ("cache", "on")]);
    let same = pc.get_neighborhood(&cur, 0);
    assert_eq!(same.get("threads").map(|v| v.as_str()), Some("20"));
    assert_eq!(same.get("cache").map(|v| v.as_str()), Some("on"));
    let moved = pc.get_neighborhood(&cur, 1);
    let t: usize = moved.get("threads").unwrap().parse().unwrap();
    assert!([10, 20, 30, 40].contains(&t));
    assert_eq!(moved.get("cache").map(|v| v.as_str()), Some("on"));
}

#[test]
fn random_configurations_stay_in_their_spaces() {
    let pc = ParamsConfigurator::new(vec![int_param("threads", 1, 3, 1, 2)], vec![bool_param("cache", true)]);
    let pop = pc.get_rand_population(5);
    assert_eq!(pop.len(), 5);
    for s in pop.iter() {
        assert_eq!(s.len(), 2);
        assert!(["1", "2", "3"].contains(&s.get("threads").unwrap().as_str()));
        assert!(["on", "off"].contains(&s.get("cache").unwrap().as_str()));
    }
}

#[test]
fn start_message_lists_the_configuration() {
    let s = state(&[("threads", "4"), ("cache", "off")]);
    assert_eq!(start_target_message(&s), "start_target|threads=4|cache=off|");
    assert_eq!(start_target_message(&state(&[])), "start_target|");
}

#[test]
fn start_message_is_read_back_by_the_target_agent() {
    let s = state(&[("threads", "4"), ("cache", "off"), ("unknown", "1")]);
    let msg = start_target_message(&s);
    let mut levels: KeyedVec<AgentLevel> = KeyedVec::new();
    levels.insert("threads".to_string(), AgentLevel::Runtime);
    levels.insert("cache".to_string(), AgentLevel::ServiceConfig);
    match handle_message(&msg, &levels) {
        TargetCommand::Start(actions) => {
            assert_eq!(actions.len(), 2);
            assert!(matches!(&actions[0], TargetAction::EnvLine(l) if l == "threads=4\n"));
            assert!(matches!(&actions[1], TargetAction::ServiceConfig(n, v) if n == "cache" && v == "off"));
        }
        _ => panic!("a start request is expected"),
    }
}

#[test]
fn replies_of_the_agents_are_classified() {
    assert!(matches!(on_target_reply("target_ok"), EvalAction::StartBench));
    assert!(matches!(on_target_reply("error"), EvalAction::Abort));
    assert!(matches!(on_bench_reply("None"), EvalAction::Invalid));
    assert!(matches!(on_bench_reply("45.6"), EvalAction::Measured(t) if t == "45.6"));
}

#[test]
fn energy_eval_pools_hold_the_addresses() {
    let mut e = EnergyEval::new(vec!["t1".to_string(), "t2".to_string()], vec!["b1".to_string()]);
    assert_eq!(e.targets_pool.size(), 2);
    assert_eq!(e.targets_pool.pop(), "t2");
    assert_eq!(e.benchs_pool.pop(), "b1");
}

#[test]
fn csv_emitter_columns() {
    let names = vec!["a".to_string(), "b".to_string()];
    let e = CSVEmitter::new(2, names.clone());
    assert_eq!(e.ordered_params, vec!["a", "b"]);
    let headers = CSVEmitter::headers(2, &names);
    assert_eq!(headers.len(), 2);
    assert_eq!(
        headers[0],
        vec!["time_s", "cputime_s", "temperature", "best_nrg", "best_a", "best_b", "last_nrg", "last_a", "last_b"]
    );
    assert_eq!(headers[1], headers[0]);
    let one = e;
    let best = state(&[("a", "1"), ("b", "2")]);
    let last = state(&[("a", "3"), ("b", "4")]);
    let row = one.update_row(
        "1.5".to_string(),
        "0.5".to_string(),
        "90".to_string(),
        "7".to_string(),
        &best,
        "6".to_string(),
        &last,
    );
    assert_eq!(row, vec!["1.5", "0.5", "90", "7", "1", "2", "6", "3", "4"]);
}

#[test]
fn influx_emitter_keeps_its_credentials() {
    let e = InfluxEmitter::new("10.0.0.9".to_string(), "u".to_string(), "p".to_string(), "db".to_string());
    assert_eq!((e.address.as_str(), e.username.as_str(), e.password.as_str(), e.database.as_str()), ("10.0.0.9", "u", "p", "db"));
}

const COMPOSE: &str = "version: '2'
services:
  agent_target_0:
    expose:
      - 14200
    networks:
      app_net:
        ipv4_address: 172.16.0.2
  agent_target_1:
    expose:
      - 14201
    networks:
      app_net:
        ipv4_address: 172.16.0.3
  agent_bench_0:
    expose:
      - 15000
    networks:
      app_net:
        ipv4_address: 172.16.0.4
  influxdb:
    networks:
      app_net:
        ipv4_address: 172.16.0.9
";

#[test]
fn yml_reader_lists_the_agents() {
    let r = YMLReader::new(COMPOSE.to_string()).expect("valid YAML");
    assert!(r.agents_complete("agent_target_"));
    assert_eq!(r.get_target_addresses(), vec!["172.16.0.2:14200", "172.16.0.3:14201"]);
    assert_eq!(r.get_bench_addresses(), vec!["172.16.0.4:15000"]);
    assert_eq!(r.get_num_targets(), 2);
    assert_eq!(r.get_influx_address(), "172.16.0.9");
    assert_eq!(r.ipv4_text("nothing"), None);
}

#[test]
fn yml_reader_rejects_invalid_yaml() {
    assert!(YMLReader::new("a: [".to_string()).is_none());
    let empty = YMLReader::new("x: 1".to_string()).expect("valid YAML");
    assert_eq!(empty.get_num_targets(), 0);
    assert!(empty.get_target_addresses().is_empty());
}

#[test]
fn yml_reader_detects_an_agent_without_port() {
    let doc = "services:\n  agent_target_0:\n    networks:\n      app_net:\n        ipv4_address: 1.2.3.4\n";
    let r = YMLReader::new(doc.to_string()).expect("valid YAML");
    assert!(!r.agents_complete("agent_target_"));
    assert_eq!(r.get_num_targets(), 1);
}

use sgxtuner::core_tuner::yml_parser::{ServiceEntry, YamlText};

fn service(name: Option<&str>, ipv4: YamlText, port: Option<i64>) -> ServiceEntry {
    ServiceEntry { name: name.map(|n| n.to_string()), ipv4, port }
}

#[test]
fn agents_are_read_from_the_services_in_order() {
    let r = YMLReader {
        services: vec![
            service(Some("agent_target_1"), YamlText::Text("10.0.0.2".to_string()), Some(-5)),
            service(None, YamlText::Text("9.9.9.9".to_string()), Some(1)),
            service(Some("agent_target_0"), YamlText::Text("10.0.0.1".to_string()), Some(80)),
            service(Some("agent_target_3"), YamlText::Text("10.0.0.4".to_string()), Some(83)),
        ],
    };
    // agent_target_2 is missing: the agents end there
    assert_eq!(r.get_target_addresses(), vec!["10.0.0.1:80", "10.0.0.2:-5"]);
    assert_eq!(r.get_num_targets(), 2);
    assert!(r.get_bench_addresses().is_empty());
}

#[test]
fn agent_with_a_non_text_address_is_incomplete() {
    let r = YMLReader { services: vec![service(Some("agent_bench_0"), YamlText::Other, Some(1))] };
    assert!(!r.agents_complete("agent_bench_"));
    let missing = YMLReader { services: vec![service(Some("agent_bench_0"), YamlText::Missing, Some(1))] };
    assert!(missing.agents_complete("agent_bench_"));
    assert!(missing.get_bench_addresses().is_empty());
}

#[test]
fn services_are_read_from_a_node_table() {
    let s = |t: &str| YamlNode::Str(t.to_string());
    // { services: { agent_target_0: { expose: [7], networks: { app_net: { ipv4_address: "1.2.3.4" } } },
    //               5: null } }
    let t = vec![
        YamlNode::Mapping(1, 3),
        s("services"),
        YamlNode::Mapping(3, 7),
        s("agent_target_0"),
        YamlNode::Int(5),
        YamlNode::Mapping(7, 11),
        YamlNode::Other,
        s("expose"),
        s("networks"),
        YamlNode::List(11, 12),
        YamlNode::Mapping(12, 14),
        YamlNode::Int(7),
        s("app_net"),
        YamlNode::Mapping(14, 16),
        s("ipv4_address"),
        s("1.2.3.4"),
    ];
    let es = services_of(&t);
    assert_eq!(es.len(), 2);
    assert_eq!(es[0].name.as_deref(), Some("agent_target_0"));
    assert!(matches!(&es[0].ipv4, YamlText::Text(a) if a == "1.2.3.4"));
    assert_eq!(es[0].port, Some(7));
    assert_eq!(es[1].name, None);
    assert!(matches!(es[1].ipv4, YamlText::Missing));
    assert_eq!(es[1].port, None);
    assert!(services_of(&vec![YamlNode::Other]).is_empty());
}
