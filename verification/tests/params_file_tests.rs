use sgxtuner::params_file::ParamsConfigurator;

fn lines(v: &[&str]) -> Vec<String> {
    v.iter().map(|s| s.to_string()).collect()
}

#[test]
fn parameter_lines_are_read() {
    let mut pc = ParamsConfigurator::new();
    let st = pc.get_initial_param_conf(&lines(&["A:[10,30,10]:20", "B:[1,3,1]:2"]));
    assert_eq!(st.get("A"), Some(&20));
    assert_eq!(st.get("B"), Some(&2));
    let a = pc.params_info_list.get("A").unwrap();
    assert_eq!((a.lbound, a.ubound, a.step, a.default_value), (10, 30, 10, 20));
    let mut space = pc.params_space_state.get("A").unwrap().clone();
    space.sort();
    assert_eq!(space, vec![10, 20, 30]);
}

#[test]
fn reading_stops_at_an_incomplete_line() {
    let mut pc = ParamsConfigurator::new();
    let st = pc.get_initial_param_conf(&lines(&["A:[1,2,1]:1", "B:[1,2]:1", "C:[1,2,1]:1"]));
    assert_eq!(st.len(), 1);
    assert!(pc.params_info_list.get("C").is_none());
}

#[test]
fn space_holds_the_low_bound_when_the_interval_is_shorter_than_a_step() {
    let mut pc = ParamsConfigurator::new();
    pc.get_initial_param_conf(&lines(&["A:[1,2,5]:1"]));
    assert_eq!(pc.params_space_state.get("A").unwrap(), &vec![1]);
    pc.get_initial_param_conf(&lines(&["B:[5,5,1]:5"]));
    assert_eq!(pc.params_space_state.get("B").unwrap(), &vec![5]);
}

#[test]
fn neighbourhood_takes_a_neighbour() {
    let mut pc = ParamsConfigurator::new();
    pc.get_initial_param_conf(&lines(&["A:[1,3,1]:2"]));
    let n = pc.get_neighborhood_params(10, 0).expect("there are neighbours");
    assert!([1, 2, 3].contains(n.get("A").unwrap()));
    // three were added, one was taken
    assert_eq!(pc.neighborhoods.len(), 2);
}

#[test]
fn random_state_stays_in_the_space() {
    let mut pc = ParamsConfigurator::new();
    pc.get_initial_param_conf(&lines(&["A:[5,25,5]:5"]));
    for _ in 0..10 {
        let s = pc.get_random_state();
        assert!([5, 10, 15, 20, 25].contains(s.get("A").unwrap()));
    }
}
