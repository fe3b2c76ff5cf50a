use microbenchmarks::cluster::MachineConfig;
use microbenchmarks::placeholders::{
    build_placeholders_for_machine, docker_name_for, RegisteredPlaceHolders,
    RegisteredPlaceHoldersConfig, ReplaceFormatter,
};
use microbenchmarks::table::Table;

fn texts(pairs: &[(&str, &str)]) -> Table<String, String> {
    let mut t = Table::new();
    for (k, v) in pairs {
        t.insert(k.to_string(), v.to_string());
    }
    t
}

fn formatter(pairs: &[(&str, &str)]) -> ReplaceFormatter {
    let config = RegisteredPlaceHoldersConfig { placeholders: texts(pairs) };
    ReplaceFormatter::new(RegisteredPlaceHolders::from_config(config))
}

#[test]
fn placeholders_for_a_replica() {
    let m = MachineConfig::new("node-a".to_string(), "192.168.1.7".to_string(), 10000, None);
    let p = build_placeholders_for_machine(&m, 3, false);
    assert_eq!(p.len(), 5);
    assert_eq!(p.get(&"machine".to_string()).unwrap(), "node-a");
    assert_eq!(p.get(&"machineIp".to_string()).unwrap(), "192.168.1.7");
    assert_eq!(p.get(&"nodeId".to_string()).unwrap(), "3");
    assert_eq!(p.get(&"nodeType".to_string()).unwrap(), "Replica");
    assert_eq!(p.get(&"nodePort".to_string()).unwrap(), "10003");
}

#[test]
fn placeholders_for_a_client() {
    let m = MachineConfig::new("c".to_string(), "::1".to_string(), 20000, None);
    let p = build_placeholders_for_machine(&m, 1042, true);
    assert_eq!(p.get(&"nodeType".to_string()).unwrap(), "Client");
    assert_eq!(p.get(&"nodeId".to_string()).unwrap(), "1042");
    assert_eq!(p.get(&"nodePort".to_string()).unwrap(), "21042");
}

#[test]
fn docker_file_names() {
    assert_eq!(docker_name_for("node-a", false), "node-a-docker-compose.yml");
    assert_eq!(docker_name_for("node-a", true), "node-a-cli-docker-compose.yml");
}

#[test]
fn registered_placeholders_keep_configuration_order() {
    let config = RegisteredPlaceHoldersConfig { placeholders: texts(&[("b", "2"), ("a", "1"), ("b", "3")]) };
    let registered = RegisteredPlaceHolders::from_config(config);
    let order: Vec<(String, String)> =
        registered.placeholders().iter().map(|(k, v)| (k.clone(), v.clone())).collect();
    assert_eq!(order, vec![("a".to_string(), "1".to_string()), ("b".to_string(), "3".to_string())]);
}

#[test]
fn defaults_fill_slots_without_overrides() {
    let f = formatter(&[("image", "bft:latest"), ("replicas", "4")]);
    let doc = "image: ${image}\ncount: ${replicas} ${image}\n".to_string();
    assert_eq!(f.format_document(&doc, None), "image: bft:latest\ncount: 4 bft:latest\n");
}

#[test]
fn overrides_win_over_defaults_and_extra_overrides_apply() {
    let f = formatter(&[("nodeId", "X"), ("image", "bft")]);
    let doc = "${image} ${nodeId} ${machine} ${unknown}".to_string();
    let overrides = texts(&[("nodeId", "7"), ("machine", "m1")]);
    assert_eq!(f.format_document(&doc, Some(overrides)), "bft 7 m1 ${unknown}");
}

#[test]
fn slots_need_the_braces() {
    let f = formatter(&[("a", "1")]);
    let doc = "$a {a} ${a} ${ a}".to_string();
    assert_eq!(f.format_document(&doc, None), "$a {a} 1 ${ a}");
}

#[test]
fn registered_order_decides_chained_substitutions() {
    // "x" is filled first with a text holding the slot of "y", which is
    // filled next
    let f = formatter(&[("x", "${y}"), ("y", "done")]);
    assert_eq!(f.format_document(&"${x}".to_string(), None), "done");
    let g = formatter(&[("y", "done"), ("x", "${y}")]);
    assert_eq!(g.format_document(&"${x}".to_string(), None), "${y}");
}

#[test]
fn documents_without_slots_are_unchanged() {
    let f = formatter(&[("a", "1"), ("b", "2")]);
    let doc = "services:\n  a: {b}\n".to_string();
    assert_eq!(f.format_document(&doc, Some(texts(&[("c", "3")]))), doc);
}
