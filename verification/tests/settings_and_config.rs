use microbenchmarks::settings::{
    client_count, concurrent_requests, id, measurement_interval, ops_number, reply_size,
    request_size, request_sleep_millis, state_size, verbose,
};
use microbenchmarks::test_config::{get_configuration_for_test, BenchmarkConfig, TestConfiguration};

#[test]
fn numbers_are_digits_only() {
    assert_eq!(id("42"), Some(42));
    assert_eq!(id("+42"), None);
    assert_eq!(id(" 42"), None);
    assert_eq!(id(""), None);
    assert_eq!(request_size("007"), Some(7));
    assert_eq!(reply_size("1k"), None);
    assert_eq!(state_size("0"), Some(0));
    assert_eq!(measurement_interval("18446744073709551616"), None);
    assert_eq!(ops_number("18446744073709551615"), Some(u64::MAX));
    assert_eq!(concurrent_requests("-1"), None);
    assert_eq!(client_count("12"), Some(12));
}

#[test]
fn request_sleep_defaults_to_zero() {
    assert_eq!(request_sleep_millis(None), Some(0));
    assert_eq!(request_sleep_millis(Some("250")), Some(250));
    assert_eq!(request_sleep_millis(Some("1.5")), None);
}

#[test]
fn verbose_reads_a_boolean_and_fails_on_the_default() {
    assert_eq!(verbose(Some("true")), Some(true));
    assert_eq!(verbose(Some("false")), Some(false));
    assert_eq!(verbose(Some("True")), None);
    assert_eq!(verbose(None), None);
}

#[test]
fn test_configuration_from_toml() {
    let text = "node_count = 4\nconcurrent_rqs_per_node = 10\nmessages_to_send = 1000\nmessage_size = 128\nbase_port = 10000\n";
    let c = get_configuration_for_test(text).unwrap();
    assert_eq!(
        (c.node_count(), c.concurrent_rqs_per_node(), c.messages_to_send(), c.message_size(), c.base_port()),
        (4, 10, 1000, 128, 10000)
    );
}

#[test]
fn test_configuration_needs_every_setting_in_range() {
    let missing = "node_count = 4\nconcurrent_rqs_per_node = 10\nmessages_to_send = 1000\nmessage_size = 128\n";
    assert!(get_configuration_for_test(missing).is_none());
    let big_port = "node_count = 4\nconcurrent_rqs_per_node = 10\nmessages_to_send = 1000\nmessage_size = 128\nbase_port = 70000\n";
    assert!(get_configuration_for_test(big_port).is_none());
    let negative = "node_count = -4\nconcurrent_rqs_per_node = 10\nmessages_to_send = 1000\nmessage_size = 128\nbase_port = 1\n";
    assert!(get_configuration_for_test(negative).is_none());
    assert!(get_configuration_for_test("not toml = = =").is_none());
}

#[test]
fn configuration_from_fields() {
    let c = TestConfiguration::from_fields(Some(1), Some(2), Some(3), Some(4), Some(5)).unwrap();
    assert!(c == TestConfiguration { node_count: 1, concurrent_rqs_per_node: 2, messages_to_send: 3, message_size: 4, base_port: 5 });
    assert!(TestConfiguration::from_fields(Some(1), None, Some(3), Some(4), Some(5)).is_none());
}

#[test]
fn benchmark_config_getters() {
    let b = BenchmarkConfig::new(8, 1000, 2);
    assert_eq!((b.concurrent_rqs(), b.ops_number(), b.request_sleep_millis()), (8, 1000, 2));
}

#[test]
fn local_network_addresses() {
    let c = TestConfiguration { node_count: 3, concurrent_rqs_per_node: 1, messages_to_send: 1, message_size: 1, base_port: 10000 };
    let nodes = microbenchmarks::test_config::node_addresses(&c);
    let got: Vec<(u32, String, u16, String)> =
        nodes.into_iter().map(|n| (n.id, n.hostname, n.port, n.correlation_id)).collect();
    assert_eq!(
        got,
        vec![
            (0, "node-0".to_string(), 10000, "0".to_string()),
            (1, "node-1".to_string(), 10001, "1".to_string()),
            (2, "node-2".to_string(), 10002, "2".to_string()),
        ]
    );
}

#[test]
fn reply_payload_fills_what_the_header_leaves() {
    let header = std::mem::size_of::<usize>();
    assert_eq!(microbenchmarks::settings::reply_payload(header + 3), vec![0u8; 3]);
    assert!(microbenchmarks::settings::reply_payload(header).is_empty());
    assert!(microbenchmarks::settings::reply_payload(0).is_empty());
}

#[test]
fn settings_accepted_by_both_parsers_agree() {
    // a value the strict parser accepts reads the same with std's parser
    for text in ["0", "17", "4096"] {
        assert_eq!(id(text), text.parse::<usize>().ok());
    }
    // std also takes a leading '+', the strict parser does not
    assert_eq!("+5".parse::<usize>().ok(), Some(5));
    assert_eq!(id("+5"), None);
}
