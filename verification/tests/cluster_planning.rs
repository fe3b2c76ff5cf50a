use microbenchmarks::cluster::{
    allocate_client, allocate_replica, default_base_port, machine_named, meets_restrictions,
    plan_deployment, restriction_map, AllocatedState, AllocatorType, ClusterConfig,
    MachineConfig, MachineRestrictions, NodeState, PlanError, RoundRobinAllocator,
    TestRunScenario,
};

fn machine(name: &str, restrictions: Option<MachineRestrictions>) -> MachineConfig {
    MachineConfig::new(name.to_string(), format!("10.0.0.{}", name.len()), 10000, restrictions)
}

fn cluster(names: &[&str]) -> ClusterConfig {
    ClusterConfig::new(names.iter().map(|n| machine(n, None)).collect())
}

fn scenario(replicas: usize, clients: usize, first_cli_id: usize) -> TestRunScenario {
    TestRunScenario::new(replicas, clients, first_cli_id, 0, 0, 0, AllocatorType::RoundRobin)
}

#[test]
fn default_base_port_is_ten_thousand() {
    assert_eq!(default_base_port(), 10000);
}

#[test]
fn round_robin_visits_machines_in_name_order() {
    let c = cluster(&["gamma", "alpha", "beta"]);
    let mut state = AllocatedState::new(&c);
    let mut seen = Vec::new();
    for _ in 0..7 {
        seen.push(allocate_replica(&mut state, None));
    }
    assert_eq!(seen, vec!["alpha", "beta", "gamma", "alpha", "beta", "gamma", "alpha"]);
    assert_eq!(state.last_allocated_node().as_deref(), Some("alpha"));
}

#[test]
fn duplicate_machine_names_count_once() {
    let c = cluster(&["b", "a", "b", "a"]);
    let mut state = AllocatedState::new(&c);
    let first = allocate_replica(&mut state, None);
    let second = allocate_replica(&mut state, None);
    let third = allocate_replica(&mut state, None);
    assert_eq!((first.as_str(), second.as_str(), third.as_str()), ("a", "b", "a"));
}

#[test]
fn next_node_starts_at_the_least_name() {
    let c = cluster(&["node10", "node2", "node1"]);
    let state = AllocatedState::new(&c);
    assert_eq!(state.next_node(), "node1");
    assert!(state.last_allocated_node().is_none());
}

#[test]
fn meets_restrictions_uses_the_caps() {
    let c = ClusterConfig::new(vec![
        machine("full", Some(MachineRestrictions::new(0, 0))),
        machine("open", Some(MachineRestrictions::new(2, 3))),
        machine("free", None),
    ]);
    let state = AllocatedState::new(&c);
    let map = restriction_map(&c);
    assert!(!meets_restrictions(true, &"full".to_string(), &map, &state));
    assert!(!meets_restrictions(false, &"full".to_string(), &map, &state));
    assert!(meets_restrictions(true, &"open".to_string(), &map, &state));
    assert!(meets_restrictions(false, &"open".to_string(), &map, &state));
    assert!(meets_restrictions(true, &"free".to_string(), &map, &state));
}

#[test]
fn restriction_map_keeps_the_last_entry_of_a_name() {
    let c = ClusterConfig::new(vec![
        machine("m", Some(MachineRestrictions::new(1, 1))),
        machine("m", Some(MachineRestrictions::new(5, 7))),
        machine("n", None),
    ]);
    let map = restriction_map(&c);
    assert_eq!(map.len(), 1);
    let caps = map.get(&"m".to_string()).unwrap();
    assert_eq!((caps.max_replicas(), caps.max_clients()), (5, 7));
    assert!(!map.contains_key(&"n".to_string()));
}

#[test]
fn allocate_client_records_the_machine() {
    let c = cluster(&["x", "y"]);
    let map = restriction_map(&c);
    let mut state = AllocatedState::new(&c);
    assert_eq!(allocate_client(&mut state, Some(&map)), "x");
    assert_eq!(allocate_client(&mut state, Some(&map)), "y");
    assert_eq!(allocate_client(&mut state, Some(&map)), "x");
}

#[test]
fn allocator_dispatches_on_the_node_kind() {
    let c = cluster(&["p", "q"]);
    let map = restriction_map(&c);
    let mut state = AllocatedState::new(&c);
    let allocator = RoundRobinAllocator::new();
    assert_eq!(allocator.get_node_to_allocate(false, &mut state, Some(&map)), "p");
    assert_eq!(allocator.get_node_to_allocate(true, &mut state, Some(&map)), "q");
    assert_eq!(allocator.get_node_to_allocate(false, &mut state, None), "p");
}

#[test]
fn node_state_starts_idle() {
    let s = NodeState::new();
    assert_eq!((s.allocated_replicas(), s.allocated_clients()), (0, 0));
}

#[test]
fn machine_named_finds_the_last_entry() {
    let c = ClusterConfig::new(vec![
        MachineConfig::new("a".to_string(), "1.1.1.1".to_string(), 1, None),
        MachineConfig::new("a".to_string(), "2.2.2.2".to_string(), 2, None),
    ]);
    let m = machine_named(&c, &"a".to_string()).unwrap();
    assert_eq!(m.machine_ip(), "2.2.2.2");
    assert_eq!(m.base_port(), 2);
    assert!(machine_named(&c, &"b".to_string()).is_none());
}

#[test]
fn plan_places_replicas_then_clients_round_robin() {
    let c = cluster(&["m2", "m1", "m3"]);
    let plan = plan_deployment(&scenario(4, 2, 1000), &c).ok().unwrap();
    let got: Vec<(String, usize, bool)> =
        plan.into_iter().map(|p| (p.node, p.node_id, p.is_client)).collect();
    let want = vec![
        ("m1".to_string(), 0, false),
        ("m2".to_string(), 1, false),
        ("m3".to_string(), 2, false),
        ("m1".to_string(), 3, false),
        ("m2".to_string(), 1000, true),
        ("m3".to_string(), 1001, true),
    ];
    assert_eq!(got, want);
}

#[test]
fn plan_on_an_empty_cluster_fails() {
    let c = ClusterConfig::new(Vec::new());
    assert!(plan_deployment(&scenario(1, 0, 1000), &c).err() == Some(PlanError::EmptyCluster));
    assert!(plan_deployment(&scenario(0, 1, 1000), &c).err() == Some(PlanError::EmptyCluster));
    assert_eq!(plan_deployment(&scenario(0, 0, 1000), &c).ok().map(|v| v.len()), Some(0));
}

#[test]
fn plan_refuses_a_machine_without_client_room() {
    let c = ClusterConfig::new(vec![
        machine("a", None),
        machine("b", Some(MachineRestrictions::new(10, 0))),
    ]);
    // the replica check counts against the client cap, so the second
    // replica, offered machine b, is refused
    assert!(plan_deployment(&scenario(2, 0, 0), &c).err() == Some(PlanError::Refused));
    assert_eq!(plan_deployment(&scenario(1, 0, 0), &c).ok().map(|v| v.len()), Some(1));
}

#[test]
fn plan_reports_client_id_overflow() {
    let c = cluster(&["a"]);
    assert!(
        plan_deployment(&scenario(1, 2, usize::MAX), &c).err()
            == Some(PlanError::ClientIdOverflow)
    );
}

#[test]
fn scenario_getters_read_back() {
    let s = TestRunScenario::new(4, 1, 1000, 8, 16, 32, AllocatorType::RoundRobin);
    assert_eq!(
        (s.replica_count(), s.client_count(), s.first_cli_id(), s.request_size(), s.reply_size(), s.state_size()),
        (4, 1, 1000, 8, 16, 32)
    );
    assert!(*s.allocator() == AllocatorType::RoundRobin);
}
