use microbenchmarks::config_entry::{
    entry_from_fields, parse_config, parse_entry, parse_lines, peer_addresses, ConfigEntry,
    FieldSplitter,
};

fn view(e: &ConfigEntry) -> (u32, String, String, u16, Option<u16>) {
    (e.id, e.hostname.clone(), e.ipaddr.clone(), e.portno, e.rep_portno)
}

fn regex() -> FieldSplitter {
    FieldSplitter::new("([^ ]+)").unwrap()
}

#[test]
fn parses_a_line_with_replica_port() {
    let e = parse_entry(&regex(), "0 srv0 127.0.0.1 10000 12000\n").unwrap();
    assert_eq!(view(&e), (0, "srv0".to_string(), "127.0.0.1".to_string(), 10000, Some(12000)));
}

#[test]
fn parses_a_line_without_replica_port() {
    let e = parse_entry(&regex(), "  1000 cli0 10.0.0.2 11000  ").unwrap();
    assert_eq!(view(&e), (1000, "cli0".to_string(), "10.0.0.2".to_string(), 11000, None));
}

#[test]
fn comment_lines_give_nothing() {
    assert!(parse_entry(&regex(), "# 0 srv0 127.0.0.1 10000").is_none());
    assert!(parse_entry(&regex(), "   #anything").is_none());
}

#[test]
fn short_or_bad_lines_give_nothing() {
    assert!(parse_entry(&regex(), "0 srv0 127.0.0.1").is_none());
    assert!(parse_entry(&regex(), "").is_none());
    assert!(parse_entry(&regex(), "x srv0 127.0.0.1 10000").is_none());
    assert!(parse_entry(&regex(), "0 srv0 127.0.0.1 70000").is_none());
    assert!(parse_entry(&regex(), "0 srv0 127.0.0.1 10000 port").is_none());
    assert!(parse_entry(&regex(), "-1 srv0 127.0.0.1 10000").is_none());
}

#[test]
fn numbers_accept_a_plus_sign() {
    let e = parse_entry(&regex(), "+5 h 1.2.3.4 +80").unwrap();
    assert_eq!((e.id, e.portno), (5, 80));
}

#[test]
fn tabs_stay_inside_fields_but_port_fields_are_trimmed() {
    let e = parse_entry(&regex(), "7 h\tx 1.2.3.4 80\t 90").unwrap();
    assert_eq!(view(&e), (7, "h\tx".to_string(), "1.2.3.4".to_string(), 80, Some(90)));
}

#[test]
fn fields_build_an_entry() {
    let fields: Vec<String> = vec!["3".into(), "h".into(), "ip".into(), "9\n".into()];
    let e = entry_from_fields(&fields).unwrap();
    assert_eq!(view(&e), (3, "h".to_string(), "ip".to_string(), 9, None));
    let few: Vec<String> = vec!["3".into(), "h".into(), "ip".into()];
    assert!(entry_from_fields(&few).is_none());
}

#[test]
fn parse_config_keeps_node_lines_in_order() {
    let lines: Vec<String> = vec![
        "# replicas\n".into(),
        "0 r0 127.0.0.1 10000 12000\n".into(),
        "garbage\n".into(),
        "1 r1 127.0.0.1 10001 12001\n".into(),
        "1000 c0 127.0.0.1 11000\n".into(),
    ];
    let entries = parse_config(&lines).unwrap();
    let ids: Vec<u32> = entries.iter().map(|e| e.id).collect();
    assert_eq!(ids, vec![0, 1, 1000]);
    assert_eq!(entries[2].rep_portno, None);
}

#[test]
fn surrounding_white_space_is_ignored() {
    let plain = parse_entry(&regex(), "4 h 1.1.1.1 99").unwrap();
    let padded = parse_entry(&regex(), "\t \u{a0}4 h 1.1.1.1 99\r\n\u{3000}").unwrap();
    assert_eq!(view(&plain), view(&padded));
}

#[test]
fn parse_lines_uses_the_given_expression() {
    let lines: Vec<String> = vec!["1 a 1.1.1.1 10\n".into(), "# c\n".into(), "2,b,2.2.2.2,20\n".into()];
    let by_space = parse_lines(&regex(), &lines);
    assert_eq!(by_space.iter().map(|e| e.id).collect::<Vec<_>>(), vec![1]);
    let by_comma = parse_lines(&FieldSplitter::new("([^,]+)").unwrap(), &lines);
    assert_eq!(by_comma.iter().map(|e| (e.id, e.portno)).collect::<Vec<_>>(), vec![(2, 20)]);
}

#[test]
fn splitters_exist_only_for_valid_patterns() {
    assert!(FieldSplitter::new("([^ ]+)").is_some());
    assert!(FieldSplitter::new("(unclosed").is_none());
}

#[test]
fn peer_addresses_of_replicas_and_clients() {
    let lines: Vec<String> = vec!["0 r0 10.0.0.1 10000 12000\n".into(), "1000 c0 10.0.0.9 11000\n".into()];
    let entries = parse_config(&lines).unwrap();
    let replicas = peer_addresses(&entries[..1].iter().map(|e| ConfigEntry {
        portno: e.portno, rep_portno: e.rep_portno, id: e.id, hostname: e.hostname.clone(), ipaddr: e.ipaddr.clone(),
    }).collect(), true);
    assert_eq!(replicas[0].address, "10.0.0.1:10000");
    assert_eq!(replicas[0].replica_address.as_deref(), Some("10.0.0.1:12000"));
    assert_eq!((replicas[0].id, replicas[0].hostname.as_str()), (0, "r0"));
    let all = peer_addresses(&entries, false);
    assert_eq!(all.len(), 2);
    assert_eq!(all[1].address, "10.0.0.9:11000");
    assert!(all[1].replica_address.is_none());
}
