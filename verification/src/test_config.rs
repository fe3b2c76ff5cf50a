//! The settings of the network tests and of the benchmarks, read from TOML
//! text through the `config` crate.

use crate::strings::{decimal, spec_decimal};
use config::{Config, File, FileFormat};
use vstd::prelude::*;

verus! {

/// The value of `key` in the TOML document `text`, read as a `usize`; none
/// when the document does not parse, the key is absent or its value does
/// not convert.
pub uninterp spec fn toml_usize(text: Seq<char>, key: Seq<char>) -> Option<usize>;

/// As `toml_usize`, for a `u16` value.
pub uninterp spec fn toml_u16(text: Seq<char>, key: Seq<char>) -> Option<u16>;

/// `Config::builder` with the TOML source `text`, `build`, then
/// `Config::get::<usize>(key)`; errors are dropped.
#[verifier::external_body]
fn toml_usize_field(text: &str, key: &str) -> (r: Option<usize>)
    ensures
        r == toml_usize(text@, key@),
{
    Config::builder().add_source(File::from_str(text, FileFormat::Toml)).build().ok()?.get::<usize>(
        key,
    ).ok()
}

/// `Config::builder` with the TOML source `text`, `build`, then
/// `Config::get::<u16>(key)`; errors are dropped.
#[verifier::external_body]
fn toml_u16_field(text: &str, key: &str) -> (r: Option<u16>)
    ensures
        r == toml_u16(text@, key@),
{
    Config::builder().add_source(File::from_str(text, FileFormat::Toml)).build().ok()?.get::<u16>(
        key,
    ).ok()
}

/// The shape of a network test: how many nodes, how many requests each
/// keeps in flight, how many messages of what size, and the first port.
#[derive(PartialEq, Eq, Structural, Clone, Copy)]
pub struct TestConfiguration {
    pub node_count: usize,
    pub concurrent_rqs_per_node: usize,
    pub messages_to_send: usize,
    pub message_size: usize,
    pub base_port: u16,
}

/// The configuration with the given settings, when every one is present.
pub open spec fn spec_test_configuration(
    node_count: Option<usize>,
    concurrent_rqs_per_node: Option<usize>,
    messages_to_send: Option<usize>,
    message_size: Option<usize>,
    base_port: Option<u16>,
) -> Option<TestConfiguration> {
    if node_count is Some && concurrent_rqs_per_node is Some && messages_to_send is Some
        && message_size is Some && base_port is Some {
        Some(
            TestConfiguration {
                node_count: node_count->0,
                concurrent_rqs_per_node: concurrent_rqs_per_node->0,
                messages_to_send: messages_to_send->0,
                message_size: message_size->0,
                base_port: base_port->0,
            },
        )
    } else {
        None
    }
}

impl TestConfiguration {
    /// The configuration with the given settings, or none when one is
    /// missing.
    pub fn from_fields(
        node_count: Option<usize>,
        concurrent_rqs_per_node: Option<usize>,
        messages_to_send: Option<usize>,
        message_size: Option<usize>,
        base_port: Option<u16>,
    ) -> (r: Option<Self>)
        ensures
            r == spec_test_configuration(
                node_count,
                concurrent_rqs_per_node,
                messages_to_send,
                message_size,
                base_port,
            ),
    {
        match (node_count, concurrent_rqs_per_node, messages_to_send, message_size, base_port) {
            (Some(a), Some(b), Some(c), Some(d), Some(e)) => Some(
                TestConfiguration {
                    node_count: a,
                    concurrent_rqs_per_node: b,
                    messages_to_send: c,
                    message_size: d,
                    base_port: e,
                },
            ),
            _ => None,
        }
    }

    pub fn node_count(&self) -> (r: usize)
        ensures
            r == self.node_count,
    {
        self.node_count
    }

    pub fn concurrent_rqs_per_node(&self) -> (r: usize)
        ensures
            r == self.concurrent_rqs_per_node,
    {
        self.concurrent_rqs_per_node
    }

    pub fn messages_to_send(&self) -> (r: usize)
        ensures
            r == self.messages_to_send,
    {
        self.messages_to_send
    }

    pub fn message_size(&self) -> (r: usize)
        ensures
            r == self.message_size,
    {
        self.message_size
    }

    pub fn base_port(&self) -> (r: u16)
        ensures
            r == self.base_port,
    {
        self.base_port
    }
}

/// The test configuration that the TOML document `text` gives, or none
/// when a setting is missing or out of range.
pub fn get_configuration_for_test(text: &str) -> (r: Option<TestConfiguration>)
    ensures
        r == spec_test_configuration(
            toml_usize(text@, "node_count"@),
            toml_usize(text@, "concurrent_rqs_per_node"@),
            toml_usize(text@, "messages_to_send"@),
            toml_usize(text@, "message_size"@),
            toml_u16(text@, "base_port"@),
        ),
{
    let node_count = toml_usize_field(text, "node_count");
    let concurrent = toml_usize_field(text, "concurrent_rqs_per_node");
    let messages = toml_usize_field(text, "messages_to_send");
    let size = toml_usize_field(text, "message_size");
    let port = toml_u16_field(text, "base_port");
    TestConfiguration::from_fields(node_count, concurrent, messages, size, port)
}

/// Where one node of a local test network listens: its id, its host name
/// `node-<id>`, its port, and the id text that correlates its metrics.
pub struct NodeAddress {
    pub id: u32,
    pub hostname: String,
    pub port: u16,
    pub correlation_id: String,
}

impl View for NodeAddress {
    type V = (u32, Seq<char>, u16, Seq<char>);

    open spec fn view(&self) -> (u32, Seq<char>, u16, Seq<char>) {
        (self.id, self.hostname@, self.port, self.correlation_id@)
    }
}

/// The address of node `i` of a local test network whose ports start at
/// `base_port`.
pub open spec fn spec_node_address(i: nat, base_port: u16) -> (u32, Seq<char>, u16, Seq<char>) {
    (i as u32, "node-"@ + spec_decimal(i), (base_port + i) as u16, spec_decimal(i))
}

/// The addresses of the nodes of a local test network: node `i` listens on
/// the loopback address at port `base_port + i`.
pub fn node_addresses(test: &TestConfiguration) -> (r: Vec<NodeAddress>)
    requires
        test.node_count == 0 || test.base_port + test.node_count - 1 <= u16::MAX,
    ensures
        r@.len() == test.node_count,
        forall|i: int|
            0 <= i < r@.len() ==> (#[trigger] r@[i])@ == spec_node_address(i as nat, test.base_port),
{
    let mut nodes: Vec<NodeAddress> = Vec::new();
    let mut node: usize = 0;
    while node < test.node_count
        invariant
            node <= test.node_count,
            test.node_count == 0 || test.base_port + test.node_count - 1 <= u16::MAX,
            nodes@.len() == node,
            forall|i: int|
                0 <= i < node ==> (#[trigger] nodes@[i])@ == spec_node_address(
                    i as nat,
                    test.base_port,
                ),
        decreases test.node_count - node,
    {
        let mut hostname = String::from_str("node-");
        let number = decimal(node);
        hostname.append(number.as_str());
        let port: u16 = test.base_port + node as u16;
        let address = NodeAddress { id: node as u32, hostname, port, correlation_id: number };
        assert(address@ == spec_node_address(node as nat, test.base_port));
        nodes.push(address);
        node = node + 1;
    }
    nodes
}

/// The load a benchmark client generates: requests in flight, requests in
/// all, and the pause between requests.
#[derive(PartialEq, Eq, Structural, Clone, Copy)]
pub struct BenchmarkConfig {
    pub concurrent_rqs: usize,
    pub ops_number: usize,
    pub request_sleep_millis: usize,
}

impl BenchmarkConfig {
    pub fn new(concurrent_rqs: usize, ops_number: usize, request_sleep_millis: usize) -> (r: Self)
        ensures
            r == (BenchmarkConfig { concurrent_rqs, ops_number, request_sleep_millis }),
    {
        BenchmarkConfig { concurrent_rqs, ops_number, request_sleep_millis }
    }

    pub fn concurrent_rqs(&self) -> (r: usize)
        ensures
            r == self.concurrent_rqs,
    {
        self.concurrent_rqs
    }

    pub fn ops_number(&self) -> (r: usize)
        ensures
            r == self.ops_number,
    {
        self.ops_number
    }

    pub fn request_sleep_millis(&self) -> (r: usize)
        ensures
            r == self.request_sleep_millis,
    {
        self.request_sleep_millis
    }
}

} // verus!
