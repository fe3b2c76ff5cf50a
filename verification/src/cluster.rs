//! The deployment planner: the cluster description, the allocation state and
//! the round-robin placement of replicas and clients on machines.

use crate::strings::{
    lemma_text_lt_asymmetric, lemma_text_lt_irreflexive, lemma_text_lt_total,
    lemma_text_lt_transitive, text_lt, text_precedes,
};
use crate::table::Table;
use vstd::prelude::*;

verus! {

/// Caps on the replicas and clients that one machine may host.
#[derive(Clone, Copy)]
pub struct MachineRestrictions {
    pub max_replicas: usize,
    pub max_clients: usize,
}

impl MachineRestrictions {
    pub fn new(max_replicas: usize, max_clients: usize) -> (r: Self)
        ensures
            r.max_replicas == max_replicas,
            r.max_clients == max_clients,
    {
        MachineRestrictions { max_replicas, max_clients }
    }

    pub fn max_replicas(&self) -> (r: usize)
        ensures
            r == self.max_replicas,
    {
        self.max_replicas
    }

    pub fn max_clients(&self) -> (r: usize)
        ensures
            r == self.max_clients,
    {
        self.max_clients
    }
}

/// The port from which a machine's nodes are numbered when none is given.
pub fn default_base_port() -> (p: i32)
    ensures
        p == 10000,
{
    10000
}

/// One machine of the cluster.
pub struct MachineConfig {
    pub name: String,
    pub machine_ip: String,
    pub base_port: i32,
    pub restrictions: Option<MachineRestrictions>,
}

impl MachineConfig {
    pub fn new(
        name: String,
        machine_ip: String,
        base_port: i32,
        restrictions: Option<MachineRestrictions>,
    ) -> (m: Self)
        ensures
            m.name == name,
            m.machine_ip == machine_ip,
            m.base_port == base_port,
            m.restrictions == restrictions,
    {
        MachineConfig { name, machine_ip, base_port, restrictions }
    }

    pub fn name(&self) -> (r: &String)
        ensures
            *r == self.name,
    {
        &self.name
    }

    pub fn machine_ip(&self) -> (r: &String)
        ensures
            *r == self.machine_ip,
    {
        &self.machine_ip
    }

    pub fn base_port(&self) -> (r: i32)
        ensures
            r == self.base_port,
    {
        self.base_port
    }

    pub fn restrictions(&self) -> (r: &Option<MachineRestrictions>)
        ensures
            *r == self.restrictions,
    {
        &self.restrictions
    }
}

/// The machines a deployment may use.
pub struct ClusterConfig {
    pub machine_list: Vec<MachineConfig>,
}

impl ClusterConfig {
    pub fn new(machine_list: Vec<MachineConfig>) -> (c: Self)
        ensures
            c.machine_list == machine_list,
    {
        ClusterConfig { machine_list }
    }

    pub fn machine_list(&self) -> (r: &Vec<MachineConfig>)
        ensures
            *r == self.machine_list,
    {
        &self.machine_list
    }

    /// The names of the machines, in list order.
    pub open spec fn spec_names(&self) -> Seq<Seq<char>> {
        self.machine_list@.map_values(|m: MachineConfig| m.name@)
    }
}

/// The strategies for choosing a machine.
#[derive(PartialEq, Eq, Structural, Clone, Copy)]
pub enum AllocatorType {
    RoundRobin,
}

/// What to deploy: how many nodes of each kind, their sizes and the
/// placement strategy.
pub struct TestRunScenario {
    pub replica_count: usize,
    pub client_count: usize,
    pub first_cli_id: usize,
    pub request_size: usize,
    pub reply_size: usize,
    pub state_size: usize,
    pub allocator: AllocatorType,
}

impl TestRunScenario {
    pub fn new(
        replica_count: usize,
        client_count: usize,
        first_cli_id: usize,
        request_size: usize,
        reply_size: usize,
        state_size: usize,
        allocator: AllocatorType,
    ) -> (s: Self)
        ensures
            s.replica_count == replica_count,
            s.client_count == client_count,
            s.first_cli_id == first_cli_id,
            s.request_size == request_size,
            s.reply_size == reply_size,
            s.state_size == state_size,
            s.allocator == allocator,
    {
        TestRunScenario {
            replica_count,
            client_count,
            first_cli_id,
            request_size,
            reply_size,
            state_size,
            allocator,
        }
    }

    pub fn replica_count(&self) -> (r: usize)
        ensures
            r == self.replica_count,
    {
        self.replica_count
    }

    pub fn client_count(&self) -> (r: usize)
        ensures
            r == self.client_count,
    {
        self.client_count
    }

    pub fn first_cli_id(&self) -> (r: usize)
        ensures
            r == self.first_cli_id,
    {
        self.first_cli_id
    }

    pub fn request_size(&self) -> (r: usize)
        ensures
            r == self.request_size,
    {
        self.request_size
    }

    pub fn reply_size(&self) -> (r: usize)
        ensures
            r == self.reply_size,
    {
        self.reply_size
    }

    pub fn state_size(&self) -> (r: usize)
        ensures
            r == self.state_size,
    {
        self.state_size
    }

    pub fn allocator(&self) -> (r: &AllocatorType)
        ensures
            *r == self.allocator,
    {
        &self.allocator
    }
}

/// How many nodes of each kind a machine hosts.
#[derive(Clone, Copy)]
pub struct NodeState {
    pub allocated_replicas: usize,
    pub allocated_clients: usize,
}

impl NodeState {
    /// A machine that hosts nothing yet.
    pub fn new() -> (s: Self)
        ensures
            s.allocated_replicas == 0,
            s.allocated_clients == 0,
    {
        NodeState { allocated_replicas: 0, allocated_clients: 0 }
    }

    pub fn allocated_replicas(&self) -> (r: usize)
        ensures
            r == self.allocated_replicas,
    {
        self.allocated_replicas
    }

    pub fn allocated_clients(&self) -> (r: usize)
        ensures
            r == self.allocated_clients,
    {
        self.allocated_clients
    }
}

/// Names in strictly increasing order.
pub open spec fn sorted_names(s: Seq<Seq<char>>) -> bool {
    forall|i: int, j: int| 0 <= i < j < s.len() ==> text_lt(#[trigger] s[i], #[trigger] s[j])
}

/// The first name of the list that comes after `l`.
pub open spec fn first_after(names: Seq<Seq<char>>, l: Seq<char>) -> Option<Seq<char>>
    decreases names.len(),
{
    if names.len() == 0 {
        None
    } else if text_lt(l, names[0]) {
        Some(names[0])
    } else {
        first_after(names.drop_first(), l)
    }
}

/// The machine that round robin offers next: the one after the last
/// allocated machine, wrapping around to the first.
pub open spec fn round_robin_next(names: Seq<Seq<char>>, last: Option<Seq<char>>) -> Seq<char> {
    match last {
        Some(l) => match first_after(names, l) {
            Some(n) => n,
            None => names[0],
        },
        None => names[0],
    }
}

/// Whether a machine in state `state` may take one more node of the kind.
pub open spec fn admits(client: bool, state: NodeState, limits: Option<MachineRestrictions>) -> bool {
    match limits {
        Some(r) => if client {
            state.allocated_clients < r.max_clients
        } else {
            state.allocated_replicas < r.max_replicas
        },
        None => true,
    }
}

/// The allocation state: each machine's load, machines kept sorted by name,
/// and the machine that took the last node.
pub struct AllocatedState {
    last_allocated_node: Option<String>,
    cluster_state: Vec<(String, NodeState)>,
}

impl AllocatedState {
    /// The machine names, in increasing order.
    pub closed spec fn names(&self) -> Seq<Seq<char>> {
        self.cluster_state@.map_values(|e: (String, NodeState)| e.0@)
    }

    /// The machine that took the last node.
    pub closed spec fn last(&self) -> Option<Seq<char>> {
        match self.last_allocated_node {
            Some(s) => Some(s@),
            None => None,
        }
    }

    /// The load of each machine, by position in `names`.
    pub closed spec fn loads(&self) -> Seq<NodeState> {
        self.cluster_state@.map_values(|e: (String, NodeState)| e.1)
    }

    /// The load of the machine called `name`.
    pub open spec fn load_of(&self, name: Seq<char>) -> NodeState {
        self.loads()[self.names().index_of(name)]
    }

    /// The machine names are in strictly increasing order, each machine has
    /// one load, and the last allocated machine is one of them.
    pub open spec fn wf(&self) -> bool {
        &&& sorted_names(self.names())
        &&& self.loads().len() == self.names().len()
        &&& (self.last() matches Some(l) ==> self.names().contains(l))
    }

    /// The machine that round robin offers next.
    pub open spec fn spec_next(&self) -> Seq<char> {
        round_robin_next(self.names(), self.last())
    }

    /// Whether the machine `node` may take one more node of the kind.
    pub open spec fn spec_meets(
        &self,
        client: bool,
        node: Seq<char>,
        restrictions: Map<Seq<char>, MachineRestrictions>,
    ) -> bool {
        admits(client, self.load_of(node), restrictions.get(node))
    }

    /// The empty allocation over the machines of `cluster`: each name once,
    /// each machine hosting nothing.
    pub fn new(cluster: &ClusterConfig) -> (s: Self)
        ensures
            s.wf(),
            s.last() is None,
            forall|n: Seq<char>| s.names().contains(n) <==> cluster.spec_names().contains(n),
            forall|i: int|
                0 <= i < s.loads().len() ==> (#[trigger] s.loads()[i]).allocated_replicas == 0
                    && s.loads()[i].allocated_clients == 0,
    {
        let mut s = AllocatedState { last_allocated_node: None, cluster_state: Vec::new() };
        let ghost names = cluster.spec_names();
        let mut k: usize = 0;
        while k < cluster.machine_list.len()
            invariant
                k <= cluster.machine_list@.len(),
                names == cluster.spec_names(),
                s.wf(),
                s.last() is None,
                forall|n: Seq<char>| s.names().contains(n) <==> names.subrange(0, k as int).contains(n),
                forall|i: int|
                    0 <= i < s.loads().len() ==> (#[trigger] s.loads()[i]).allocated_replicas == 0
                        && s.loads()[i].allocated_clients == 0,
            decreases cluster.machine_list@.len() - k,
        {
            let name = cluster.machine_list[k].name.clone();
            assert(name@ == names[k as int]);
            let ghost before = s.names();
            s.add_machine(name);
            proof {
                assert forall|n: Seq<char>|
                    s.names().contains(n) <==> names.subrange(0, k + 1).contains(n) by {
                    assert(s.names().contains(n) <==> before.contains(n) || n == names[k as int]);
                    if names.subrange(0, k + 1).contains(n) {
                        let j = names.subrange(0, k + 1).index_of(n);
                        if j < k {
                            assert(names.subrange(0, k as int)[j] == n);
                        }
                    }
                    if names.subrange(0, k as int).contains(n) {
                        let j = names.subrange(0, k as int).index_of(n);
                        assert(names.subrange(0, k + 1)[j] == n);
                    }
                    if n == names[k as int] {
                        assert(names.subrange(0, k + 1)[k as int] == n);
                    }
                }
            }
            k = k + 1;
        }
        assert(names.subrange(0, k as int) =~= names);
        s
    }

    /// Adds an idle machine called `name`, keeping the names sorted; a name
    /// already present is left as it is.
    fn add_machine(&mut self, name: String)
        requires
            old(self).wf(),
        ensures
            final(self).wf(),
            final(self).last() == old(self).last(),
            forall|n: Seq<char>|
                final(self).names().contains(n) <==> old(self).names().contains(n) || n == name@,
            forall|i: int|
                0 <= i < final(self).loads().len() ==> (old(self).loads().contains(
                    #[trigger] final(self).loads()[i],
                ) || final(self).loads()[i] == NodeState { allocated_replicas: 0, allocated_clients: 0 }),
    {
        let ghost old_names = self.names();
        let mut p: usize = 0;
        while p < self.cluster_state.len()
            invariant
                p <= self.cluster_state@.len(),
                self.names() == old_names,
                sorted_names(old_names),
                forall|j: int| 0 <= j < p ==> text_lt(#[trigger] old_names[j], name@),
            ensures
                p <= self.cluster_state@.len(),
                self.names() == old_names,
                forall|j: int| 0 <= j < p ==> text_lt(#[trigger] old_names[j], name@),
                p < old_names.len() ==> !text_lt(old_names[p as int], name@),
            decreases self.cluster_state@.len() - p,
        {
            if !text_precedes(self.cluster_state[p].0.as_str(), name.as_str()) {
                break;
            }
            p = p + 1;
        }
        if p < self.cluster_state.len() && self.cluster_state[p].0 == name {
            assert(old_names[p as int] == name@);
            return;
        }
        proof {
            if p < old_names.len() {
                lemma_text_lt_total(old_names[p as int], name@);
            }
        }
        assert(p < old_names.len() ==> text_lt(name@, old_names[p as int]));
        let ghost old_loads = self.loads();
        self.cluster_state.insert(p, (name, NodeState::new()));
        let ghost new_names = self.names();
        assert(new_names =~= old_names.insert(p as int, name@));
        assert(self.loads() =~= old_loads.insert(p as int, NodeState { allocated_replicas: 0, allocated_clients: 0 }));
        proof {
            assert forall|i: int, j: int| 0 <= i < j < new_names.len() implies text_lt(
                #[trigger] new_names[i],
                #[trigger] new_names[j],
            ) by {
                if j == p {
                    assert(new_names[i] == old_names[i]);
                } else if i == p {
                    assert(new_names[j] == old_names[j - 1]);
                    if j - 1 > p {
                        lemma_text_lt_transitive(name@, old_names[p as int], old_names[j - 1]);
                    }
                } else {
                    let oi = if i < p { i } else { i - 1 };
                    let oj = if j < p { j } else { j - 1 };
                    assert(new_names[i] == old_names[oi]);
                    assert(new_names[j] == old_names[oj]);
                    if i < p && j > p {
                        if oj > p {
                            lemma_text_lt_transitive(name@, old_names[p as int], old_names[oj]);
                        }
                        lemma_text_lt_transitive(old_names[oi], name@, old_names[oj]);
                    }
                }
            }
            assert forall|n: Seq<char>|
                new_names.contains(n) <==> old_names.contains(n) || n == name@ by {
                if new_names.contains(n) {
                    let j = new_names.index_of(n);
                    if j < p {
                        assert(old_names[j] == n);
                    } else if j > p {
                        assert(old_names[j - 1] == n);
                    }
                }
                if old_names.contains(n) {
                    let j = old_names.index_of(n);
                    if j < p {
                        assert(new_names[j] == n);
                    } else {
                        assert(new_names[j + 1] == n);
                    }
                }
                if n == name@ {
                    assert(new_names[p as int] == n);
                }
            }
            assert forall|i: int| 0 <= i < self.loads().len() implies (old_loads.contains(
                #[trigger] self.loads()[i],
            ) || self.loads()[i] == NodeState { allocated_replicas: 0, allocated_clients: 0 }) by {
                if i < p {
                    assert(self.loads()[i] == old_loads[i]);
                } else if i > p {
                    assert(self.loads()[i] == old_loads[i - 1]);
                }
            }
        }
    }
}


/// With every name before position `i` not after `l`, the first name after
/// `l` is the one at `i` when it comes after `l`, and there is none when `i`
/// is the end.
proof fn lemma_first_after_at(names: Seq<Seq<char>>, l: Seq<char>, i: int)
    requires
        0 <= i <= names.len(),
        forall|j: int| 0 <= j < i ==> !text_lt(l, #[trigger] names[j]),
    ensures
        i < names.len() && text_lt(l, names[i]) ==> first_after(names, l) == Some(names[i]),
        i == names.len() ==> first_after(names, l) is None,
    decreases i,
{
    if i > 0 {
        let rest = names.drop_first();
        assert forall|j: int| 0 <= j < i - 1 implies !text_lt(l, #[trigger] rest[j]) by {
            assert(rest[j] == names[j + 1]);
        }
        lemma_first_after_at(rest, l, i - 1);
        assert(!text_lt(l, names[0]));
        if i < names.len() {
            assert(rest[i - 1] == names[i]);
        }
    }
}

/// The first name after `l`, when there is one, is a name of the list.
proof fn lemma_first_after_in(names: Seq<Seq<char>>, l: Seq<char>)
    ensures
        first_after(names, l) matches Some(n) ==> names.contains(n),
    decreases names.len(),
{
    if names.len() > 0 && !text_lt(l, names[0]) {
        let rest = names.drop_first();
        lemma_first_after_in(rest, l);
        if let Some(n) = first_after(rest, l) {
            let j = rest.index_of(n);
            assert(names[j + 1] == n);
        }
    }
}

/// In a sorted list a name occurs at one position only.
proof fn lemma_sorted_index(names: Seq<Seq<char>>, i: int)
    requires
        sorted_names(names),
        0 <= i < names.len(),
    ensures
        names.index_of(names[i]) == i,
{
    let j = names.index_of(names[i]);
    assert(names.contains(names[i]));
    if j < i {
        assert(text_lt(names[j], names[i]));
        lemma_text_lt_irreflexive(names[i]);
    } else if j > i {
        assert(text_lt(names[i], names[j]));
        lemma_text_lt_irreflexive(names[i]);
    }
}

/// Round robin over the sorted machines: the first allocation goes to the
/// first machine, and after the machine at position `i` comes the one at
/// `i + 1`, the last machine being followed by the first.
pub proof fn lemma_round_robin_cycles(names: Seq<Seq<char>>, i: int)
    requires
        sorted_names(names),
        0 <= i < names.len(),
    ensures
        round_robin_next(names, None) == names[0],
        round_robin_next(names, Some(names[i])) == names[(i + 1) % (names.len() as int)],
{
    let l = names[i];
    assert forall|j: int| 0 <= j <= i implies !text_lt(l, #[trigger] names[j]) by {
        if j < i {
            lemma_text_lt_asymmetric(names[j], l);
        } else {
            lemma_text_lt_irreflexive(l);
        }
    }
    lemma_first_after_at(names, l, i + 1);
    let n = names.len() as int;
    if i + 1 < n {
        assert((i + 1) % n == i + 1) by (nonlinear_arith)
            requires
                0 <= i + 1 < n,
        ;
    } else {
        assert((i + 1) % n == 0) by (nonlinear_arith)
            requires
                i + 1 == n,
                n > 0,
        ;
    }
}

/// The machine offered next is a machine of the cluster: the least name
/// after the last allocated one, or the least name when none comes after.
pub proof fn lemma_next_is_least_after(names: Seq<Seq<char>>, last: Option<Seq<char>>)
    requires
        sorted_names(names),
        names.len() > 0,
    ensures
        names.contains(round_robin_next(names, last)),
        forall|m: Seq<char>|
            names.contains(m) ==> !text_lt(m, #[trigger] round_robin_next(names, last)) || (
            last matches Some(l) && !text_lt(l, m)),
        last matches Some(l) ==> ((exists|m: Seq<char>| names.contains(m) && text_lt(l, m))
            <==> text_lt(l, round_robin_next(names, last))),
{
    let r = round_robin_next(names, last);
    assert(names[0] == names[0]);
    match last {
        Some(l) => {
            lemma_first_after_in(names, l);
            let k = first_after_index(names, l);
            lemma_first_after_index(names, l);
            assert forall|m: Seq<char>|
                names.contains(m) implies !text_lt(m, r) || !text_lt(l, m) by {
                let j = names.index_of(m);
                if k < names.len() {
                    if j < k {
                        assert(!text_lt(l, names[j]));
                    } else if j > k {
                        lemma_text_lt_asymmetric(names[k], names[j]);
                    } else {
                        lemma_text_lt_irreflexive(m);
                    }
                } else {
                    assert(!text_lt(l, names[j]));
                }
            }
            if exists|m: Seq<char>| names.contains(m) && text_lt(l, m) {
                let m = choose|m: Seq<char>| names.contains(m) && text_lt(l, m);
                let j = names.index_of(m);
                assert(k < names.len());
            }
        },
        None => {
            assert forall|m: Seq<char>| names.contains(m) implies !text_lt(m, r) by {
                let j = names.index_of(m);
                if j > 0 {
                    lemma_text_lt_asymmetric(names[0], names[j]);
                } else {
                    lemma_text_lt_irreflexive(m);
                }
            }
        },
    }
}

/// The position of the first name after `l`, or the length when none is.
spec fn first_after_index(names: Seq<Seq<char>>, l: Seq<char>) -> int
    decreases names.len(),
{
    if names.len() == 0 {
        0
    } else if text_lt(l, names[0]) {
        0
    } else {
        1 + first_after_index(names.drop_first(), l)
    }
}

proof fn lemma_first_after_index(names: Seq<Seq<char>>, l: Seq<char>)
    ensures
        0 <= first_after_index(names, l) <= names.len(),
        forall|j: int|
            0 <= j < first_after_index(names, l) ==> !text_lt(l, #[trigger] names[j]),
        first_after_index(names, l) < names.len() ==> text_lt(
            l,
            names[first_after_index(names, l)],
        ) && first_after(names, l) == Some(names[first_after_index(names, l)]),
        first_after_index(names, l) == names.len() ==> first_after(names, l) is None,
    decreases names.len(),
{
    if names.len() > 0 && !text_lt(l, names[0]) {
        let rest = names.drop_first();
        lemma_first_after_index(rest, l);
        assert forall|j: int| 0 <= j < first_after_index(names, l) implies !text_lt(
            l,
            #[trigger] names[j],
        ) by {
            if j > 0 {
                assert(names[j] == rest[j - 1]);
            }
        }
    }
}

impl AllocatedState {
    /// The machine that took the last node.
    pub fn last_allocated_node(&self) -> (r: &Option<String>)
        ensures
            match r {
                Some(s) => self.last() == Some(s@),
                None => self.last() is None,
            },
    {
        &self.last_allocated_node
    }

    /// Each machine with its load, by increasing name.
    pub fn cluster_state(&self) -> (r: &Vec<(String, NodeState)>)
        ensures
            r@.map_values(|e: (String, NodeState)| e.0@) == self.names(),
            r@.map_values(|e: (String, NodeState)| e.1) == self.loads(),
    {
        &self.cluster_state
    }

    /// The machine that round robin offers next.
    pub fn next_node(&self) -> (r: String)
        requires
            self.wf(),
            self.names().len() > 0,
        ensures
            r@ == self.spec_next(),
            self.names().contains(r@),
    {
        proof {
            lemma_next_is_least_after(self.names(), self.last());
        }
        match &self.last_allocated_node {
            Some(l) => {
                assert(self.last() == Some(l@));
                let mut i: usize = 0;
                while i < self.cluster_state.len()
                    invariant
                        i <= self.cluster_state@.len(),
                        self.last() == Some(l@),
                        forall|j: int| 0 <= j < i ==> !text_lt(l@, #[trigger] self.names()[j]),
                    decreases self.cluster_state@.len() - i,
                {
                    if text_precedes(l.as_str(), self.cluster_state[i].0.as_str()) {
                        proof {
                            assert(self.names()[i as int] == self.cluster_state@[i as int].0@);
                            lemma_first_after_at(self.names(), l@, i as int);
                        }
                        return self.cluster_state[i].0.clone();
                    }
                    i = i + 1;
                }
                proof {
                    lemma_first_after_at(self.names(), l@, i as int);
                    assert(self.last() == Some(l@));
                    assert(self.names()[0] == self.cluster_state@[0].0@);
                }
                self.cluster_state[0].0.clone()
            },
            None => {
                assert(self.names()[0] == self.cluster_state@[0].0@);
                self.cluster_state[0].0.clone()
            },
        }
    }

    /// The load of the machine called `node`.
    fn load_at(&self, node: &String) -> (r: NodeState)
        requires
            self.wf(),
            self.names().contains(node@),
        ensures
            r == self.load_of(node@),
    {
        let mut i: usize = 0;
        while i < self.cluster_state.len()
            invariant
                i <= self.cluster_state@.len(),
                self.wf(),
                self.names().contains(node@),
                forall|j: int| 0 <= j < i ==> #[trigger] self.names()[j] != node@,
            decreases self.cluster_state@.len() - i,
        {
            if self.cluster_state[i].0 == *node {
                proof {
                    lemma_sorted_index(self.names(), i as int);
                }
                return self.cluster_state[i].1;
            }
            i = i + 1;
        }
        proof {
            let j = self.names().index_of(node@);
            assert(self.names()[j] == node@);
        }
        self.cluster_state[0].1
    }
}

/// Whether the machine `node` may take one more node of the kind, under its
/// entry in `restrictions`; a machine without one takes any number.
pub fn meets_restrictions(
    client: bool,
    node: &String,
    restrictions: &Table<String, MachineRestrictions>,
    current_state: &AllocatedState,
) -> (r: bool)
    requires
        current_state.wf(),
        current_state.names().contains(node@),
        restrictions.wf(),
    ensures
        r == current_state.spec_meets(client, node@, restrictions.view()),
{
    let node_state = current_state.load_at(node);
    match restrictions.get(node) {
        Some(limits) => {
            if client {
                node_state.allocated_clients < limits.max_clients
            } else {
                node_state.allocated_replicas < limits.max_replicas
            }
        },
        None => true,
    }
}

/// Records `node` as the machine that took the last node.
fn record_allocation(current_state: &mut AllocatedState, node: &String)
    requires
        old(current_state).wf(),
        old(current_state).names().contains(node@),
    ensures
        final(current_state).wf(),
        final(current_state).last() == Some(node@),
        final(current_state).names() == old(current_state).names(),
        final(current_state).loads() == old(current_state).loads(),
{
    current_state.last_allocated_node = Some(node.clone());
}

/// Places a client on the machine round robin offers next. A client is only
/// placed under restrictions, on a machine whose client cap admits it.
pub fn allocate_client(
    current_state: &mut AllocatedState,
    restrictions: Option<&Table<String, MachineRestrictions>>,
) -> (r: String)
    requires
        old(current_state).wf(),
        old(current_state).names().len() > 0,
        restrictions matches Some(t) && t.wf() && old(current_state).spec_meets(
            true,
            old(current_state).spec_next(),
            t.view(),
        ),
    ensures
        r@ == old(current_state).spec_next(),
        final(current_state).wf(),
        final(current_state).last() == Some(r@),
        final(current_state).names() == old(current_state).names(),
        final(current_state).loads() == old(current_state).loads(),
{
    let next = current_state.next_node();
    record_allocation(current_state, &next);
    next
}

/// Places a replica on the machine round robin offers next. Without
/// restrictions any machine admits it; with them, the machine must admit one
/// more node under its client cap (the check counts a replica as a client).
pub fn allocate_replica(
    current_state: &mut AllocatedState,
    restrictions: Option<&Table<String, MachineRestrictions>>,
) -> (r: String)
    requires
        old(current_state).wf(),
        old(current_state).names().len() > 0,
        restrictions matches Some(t) ==> t.wf() && old(current_state).spec_meets(
            true,
            old(current_state).spec_next(),
            t.view(),
        ),
    ensures
        r@ == old(current_state).spec_next(),
        final(current_state).wf(),
        final(current_state).last() == Some(r@),
        final(current_state).names() == old(current_state).names(),
        final(current_state).loads() == old(current_state).loads(),
{
    let next = current_state.next_node();
    record_allocation(current_state, &next);
    next
}

/// The round-robin placement strategy.
pub struct RoundRobinAllocator;

impl RoundRobinAllocator {
    pub fn new() -> (a: Self) {
        RoundRobinAllocator
    }

    /// The machine for the next client or replica, recorded as the last
    /// allocated machine.
    pub fn get_node_to_allocate(
        &self,
        is_client: bool,
        current_state: &mut AllocatedState,
        restrictions: Option<&Table<String, MachineRestrictions>>,
    ) -> (r: String)
        requires
            old(current_state).wf(),
            old(current_state).names().len() > 0,
            is_client ==> restrictions is Some,
            restrictions matches Some(t) ==> t.wf() && old(current_state).spec_meets(
                true,
                old(current_state).spec_next(),
                t.view(),
            ),
        ensures
            r@ == old(current_state).spec_next(),
            final(current_state).wf(),
            final(current_state).last() == Some(r@),
            final(current_state).names() == old(current_state).names(),
            final(current_state).loads() == old(current_state).loads(),
    {
        if is_client {
            allocate_client(current_state, restrictions)
        } else {
            allocate_replica(current_state, restrictions)
        }
    }
}

/// The caps of the machines that declare them, a later entry for a name
/// overriding an earlier one.
pub open spec fn spec_restriction_map(machines: Seq<MachineConfig>) -> Map<
    Seq<char>,
    MachineRestrictions,
>
    decreases machines.len(),
{
    if machines.len() == 0 {
        Map::empty()
    } else {
        let rest = spec_restriction_map(machines.drop_last());
        match machines.last().restrictions {
            Some(r) => rest.insert(machines.last().name@, r),
            None => rest,
        }
    }
}

/// The caps of the cluster's machines, by machine name.
pub fn restriction_map(cluster: &ClusterConfig) -> (t: Table<String, MachineRestrictions>)
    ensures
        t.wf(),
        t.view() == spec_restriction_map(cluster.machine_list@),
{
    let mut t: Table<String, MachineRestrictions> = Table::new();
    let mut k: usize = 0;
    while k < cluster.machine_list.len()
        invariant
            k <= cluster.machine_list@.len(),
            t.wf(),
            t.view() == spec_restriction_map(cluster.machine_list@.subrange(0, k as int)),
        decreases cluster.machine_list@.len() - k,
    {
        let m = &cluster.machine_list[k];
        assert(cluster.machine_list@.subrange(0, k + 1).drop_last() =~= cluster.machine_list@.subrange(
            0,
            k as int,
        ));
        match m.restrictions {
            Some(r) => {
                t.insert(m.name.clone(), r);
            },
            None => {},
        }
        k = k + 1;
    }
    assert(cluster.machine_list@.subrange(0, k as int) =~= cluster.machine_list@);
    t
}

/// The machine called `name`: the last entry of the list with that name.
pub fn machine_named<'a>(cluster: &'a ClusterConfig, name: &String) -> (r: Option<&'a MachineConfig>)
    ensures
        match r {
            Some(m) => exists|i: int|
                0 <= i < cluster.machine_list@.len() && cluster.machine_list@[i] == *m && m.name@
                    == name@ && forall|j: int|
                    i < j < cluster.machine_list@.len() ==> (#[trigger] cluster.machine_list@[j]).name@
                        != name@,
            None => !cluster.spec_names().contains(name@),
        },
{
    let mut k: usize = cluster.machine_list.len();
    while k > 0
        invariant
            k <= cluster.machine_list@.len(),
            forall|j: int|
                k <= j < cluster.machine_list@.len() ==> (#[trigger] cluster.machine_list@[j]).name@
                    != name@,
        decreases k,
    {
        k = k - 1;
        if cluster.machine_list[k].name == *name {
            return Some(&cluster.machine_list[k]);
        }
    }
    proof {
        if cluster.spec_names().contains(name@) {
            let j = cluster.spec_names().index_of(name@);
            assert(cluster.machine_list@[j].name@ == name@);
        }
    }
    None
}


/// The machine names of a cluster in increasing order, each once.
pub open spec fn spec_sorted_names(cluster: &ClusterConfig) -> Seq<Seq<char>> {
    choose|s: Seq<Seq<char>>|
        sorted_names(s) && forall|n: Seq<char>| #[trigger]
            s.contains(n) <==> cluster.spec_names().contains(n)
}

/// Two increasing lists of the same names are the same list.
pub proof fn lemma_sorted_unique(s1: Seq<Seq<char>>, s2: Seq<Seq<char>>)
    requires
        sorted_names(s1),
        sorted_names(s2),
        forall|n: Seq<char>| s1.contains(n) <==> s2.contains(n),
    ensures
        s1 == s2,
    decreases s1.len(),
{
    if s1.len() == 0 {
        if s2.len() > 0 {
            assert(s2.contains(s2[0]));
        }
        assert(s1 =~= s2);
    } else {
        assert(s1.contains(s1[0]));
        assert(s2.len() > 0);
        assert(s2.contains(s2[0]));
        if s1[0] != s2[0] {
            let j = s2.index_of(s1[0]);
            let i = s1.index_of(s2[0]);
            assert(j > 0 && i > 0);
            assert(text_lt(s2[0], s2[j]));
            assert(text_lt(s1[0], s1[i]));
            lemma_text_lt_asymmetric(s1[0], s2[0]);
        }
        let t1 = s1.drop_first();
        let t2 = s2.drop_first();
        assert forall|n: Seq<char>| t1.contains(n) <==> t2.contains(n) by {
            if t1.contains(n) {
                let i = t1.index_of(n);
                assert(s1[i + 1] == n);
                assert(text_lt(s1[0], n));
                lemma_text_lt_irreflexive(n);
                assert(s2.contains(n));
                let j = s2.index_of(n);
                assert(j != 0);
                assert(t2[j - 1] == n);
            }
            if t2.contains(n) {
                let j = t2.index_of(n);
                assert(s2[j + 1] == n);
                assert(text_lt(s2[0], n));
                lemma_text_lt_irreflexive(n);
                assert(s1.contains(n));
                let i = s1.index_of(n);
                assert(i != 0);
                assert(t1[i - 1] == n);
            }
        }
        assert(sorted_names(t1)) by {
            assert forall|a: int, b: int| 0 <= a < b < t1.len() implies text_lt(
                #[trigger] t1[a],
                #[trigger] t1[b],
            ) by {
                assert(t1[a] == s1[a + 1] && t1[b] == s1[b + 1]);
            }
        }
        assert(sorted_names(t2)) by {
            assert forall|a: int, b: int| 0 <= a < b < t2.len() implies text_lt(
                #[trigger] t2[a],
                #[trigger] t2[b],
            ) by {
                assert(t2[a] == s2[a + 1] && t2[b] == s2[b + 1]);
            }
        }
        lemma_sorted_unique(t1, t2);
        assert(s1 =~= seq![s1[0]] + t1);
        assert(s2 =~= seq![s2[0]] + t2);
    }
}

/// The allocation state of a cluster lists its machines by increasing name,
/// each once.
pub proof fn lemma_names_in_order(cluster: &ClusterConfig, s: Seq<Seq<char>>)
    requires
        sorted_names(s),
        forall|n: Seq<char>| s.contains(n) <==> cluster.spec_names().contains(n),
    ensures
        spec_sorted_names(cluster) == s,
{
    let t = spec_sorted_names(cluster);
    assert(sorted_names(s) && forall|n: Seq<char>| #[trigger]
        s.contains(n) <==> cluster.spec_names().contains(n));
    lemma_sorted_unique(s, t);
}

/// One node placed on a machine.
pub struct Placement {
    pub node: String,
    pub node_id: usize,
    pub is_client: bool,
}

impl View for Placement {
    type V = (Seq<char>, usize, bool);

    open spec fn view(&self) -> (Seq<char>, usize, bool) {
        (self.node@, self.node_id, self.is_client)
    }
}

/// Why a deployment cannot be planned.
#[derive(PartialEq, Eq, Structural, Clone, Copy)]
pub enum PlanError {
    /// There is a node to place but no machine.
    EmptyCluster,
    /// The machine offered for a node does not admit it.
    Refused,
    /// The client ids run past the largest `usize`.
    ClientIdOverflow,
}

/// Whether the machine offered for the `k`-th node, counting replicas then
/// clients, admits it; every machine starts idle and allocation does not
/// change the loads.
pub open spec fn admitted_at(
    names: Seq<Seq<char>>,
    restrictions: Map<Seq<char>, MachineRestrictions>,
    k: nat,
) -> bool {
    admits(
        true,
        NodeState { allocated_replicas: 0, allocated_clients: 0 },
        restrictions.get(names[(k % names.len()) as int]),
    )
}

/// Whether each of the nodes `from..to` is admitted.
pub open spec fn all_admitted(
    names: Seq<Seq<char>>,
    restrictions: Map<Seq<char>, MachineRestrictions>,
    from: nat,
    to: nat,
) -> bool {
    forall|k: nat| from <= k < to ==> #[trigger] admitted_at(names, restrictions, k)
}

/// The outcome of planning: replicas `0..R` first, then clients
/// `first..first + C`, the `k`-th node going to the `k`-th machine in name
/// order, cyclically; the first failure in that order is reported.
pub open spec fn spec_plan(
    names: Seq<Seq<char>>,
    restrictions: Map<Seq<char>, MachineRestrictions>,
    replica_count: nat,
    client_count: nat,
    first_cli_id: nat,
) -> Result<Seq<(Seq<char>, usize, bool)>, PlanError> {
    let n = names.len();
    if replica_count > 0 && n == 0 {
        Err(PlanError::EmptyCluster)
    } else if !all_admitted(names, restrictions, 0, replica_count) {
        Err(PlanError::Refused)
    } else if first_cli_id + client_count > usize::MAX {
        Err(PlanError::ClientIdOverflow)
    } else if client_count > 0 && n == 0 {
        Err(PlanError::EmptyCluster)
    } else if !all_admitted(names, restrictions, replica_count, replica_count + client_count) {
        Err(PlanError::Refused)
    } else {
        Ok(
            Seq::new(
                replica_count + client_count,
                |k: int|
                    if k < replica_count {
                        (names[k % (n as int)], k as usize, false)
                    } else {
                        (
                            names[k % (n as int)],
                            (first_cli_id + k - replica_count) as usize,
                            true,
                        )
                    },
            ),
        )
    }
}

/// `(i % n + 1) % n == (i + 1) % n`.
proof fn lemma_mod_step(i: int, n: int)
    requires
        0 <= i,
        n > 0,
    ensures
        ((i % n) + 1) % n == (i + 1) % n,
{
    if n == 1 {
        assert(((i % n) + 1) % n == 0) by (nonlinear_arith)
            requires
                n == 1,
        ;
        assert((i + 1) % n == 0) by (nonlinear_arith)
            requires
                n == 1,
        ;
    } else {
        vstd::arithmetic::div_mod::lemma_add_mod_noop(i, 1, n);
        vstd::arithmetic::div_mod::lemma_small_mod(1nat, n as nat);
    }
}

impl AllocatedState {
    /// Places node number `k` (replicas then clients counted together)
    /// after `k` earlier placements.
    fn place_next(
        &mut self,
        restrictions: &Table<String, MachineRestrictions>,
        is_client: bool,
        Ghost(k): Ghost<nat>,
    ) -> (r: Option<String>)
        requires
            old(self).wf(),
            old(self).names().len() > 0,
            forall|i: int|
                0 <= i < old(self).loads().len() ==> (#[trigger] old(self).loads()[i]).allocated_replicas
                    == 0 && old(self).loads()[i].allocated_clients == 0,
            restrictions.wf(),
            k == 0 ==> old(self).last() is None,
            k > 0 ==> old(self).last() == Some(
                old(self).names()[((k - 1) % old(self).names().len() as int)],
            ),
        ensures
            final(self).wf(),
            final(self).names() == old(self).names(),
            final(self).loads() == old(self).loads(),
            match r {
                Some(node) => {
                    &&& admitted_at(old(self).names(), restrictions.view(), k)
                    &&& node@ == old(self).names()[(k % old(self).names().len()) as int]
                    &&& final(self).last() == Some(node@)
                },
                None => !admitted_at(old(self).names(), restrictions.view(), k) && *final(self)
                    == *old(self),
            },
    {
        let ghost names = self.names();
        let ghost n = names.len() as int;
        proof {
            if k == 0 {
                lemma_round_robin_cycles(names, 0);
                vstd::arithmetic::div_mod::lemma_small_mod(0nat, n as nat);
            } else {
                let i = ((k - 1) as int) % n;
                vstd::arithmetic::div_mod::lemma_mod_bound((k - 1) as int, n);
                lemma_round_robin_cycles(names, i);
                lemma_mod_step((k - 1) as int, n);
            }
        }
        let next = self.next_node();
        assert(next@ == names[(k % (n as nat)) as int]);
        proof {
            let j = names.index_of(next@);
            assert(names[j] == next@);
            assert(self.load_of(next@) == self.loads()[j]);
        }
        if !meets_restrictions(true, &next, restrictions, self) {
            return None;
        }
        if is_client {
            allocate_client(self, Some(restrictions));
        } else {
            allocate_replica(self, Some(restrictions));
        }
        Some(next)
    }
}

/// Plans a deployment: where each replica and each client goes, round
/// robin over the machines in name order, each machine's caps applied to
/// every node it takes.
pub fn plan_deployment(scenario: &TestRunScenario, cluster: &ClusterConfig) -> (r: Result<
    Vec<Placement>,
    PlanError,
>)
    ensures
        ({
            let state = spec_sorted_names(cluster);
            match r {
                Ok(v) => spec_plan(
                    state,
                    spec_restriction_map(cluster.machine_list@),
                    scenario.replica_count as nat,
                    scenario.client_count as nat,
                    scenario.first_cli_id as nat,
                ) == Ok::<Seq<(Seq<char>, usize, bool)>, PlanError>(
                    v@.map_values(|p: Placement| p@),
                ),
                Err(e) => spec_plan(
                    state,
                    spec_restriction_map(cluster.machine_list@),
                    scenario.replica_count as nat,
                    scenario.client_count as nat,
                    scenario.first_cli_id as nat,
                ) == Err::<Seq<(Seq<char>, usize, bool)>, PlanError>(e),
            }
        }),
{
    let mut state = AllocatedState::new(cluster);
    let restrictions = restriction_map(cluster);
    let ghost names = state.names();
    let ghost rmap = restrictions.view();
    proof {
        lemma_names_in_order(cluster, names);
    }
    let replica_count = scenario.replica_count;
    let client_count = scenario.client_count;
    let first = scenario.first_cli_id;
    let ghost total = replica_count + client_count;
    let mut placements: Vec<Placement> = Vec::new();
    let n = state.cluster_state.len();
    if replica_count > 0 && n == 0 {
        return Err(PlanError::EmptyCluster);
    }
    let mut k: usize = 0;
    while k < replica_count
        invariant
            k <= replica_count,
            names == spec_sorted_names(cluster),
            rmap == spec_restriction_map(cluster.machine_list@),
            replica_count == scenario.replica_count,
            client_count == scenario.client_count,
            first == scenario.first_cli_id,
            n == names.len(),
            replica_count > 0 ==> n > 0,
            state.wf(),
            state.names() == names,
            state.loads().len() == names.len(),
            forall|i: int|
                0 <= i < state.loads().len() ==> (#[trigger] state.loads()[i]).allocated_replicas
                    == 0 && state.loads()[i].allocated_clients == 0,
            restrictions.wf(),
            restrictions.view() == rmap,
            k == 0 ==> state.last() is None,
            k > 0 ==> state.last() == Some(names[((k - 1) % names.len() as int)]),
            all_admitted(names, rmap, 0, k as nat),
            placements@.len() == k,
            forall|i: int|
                0 <= i < k ==> (#[trigger] placements@[i])@ == (
                    names[i % (n as int)],
                    i as usize,
                    false,
                ),
        decreases replica_count - k,
    {
        match state.place_next(&restrictions, false, Ghost(k as nat)) {
            Some(node) => {
                placements.push(Placement { node, node_id: k, is_client: false });
            },
            None => {
                assert(!all_admitted(names, rmap, 0, replica_count as nat)) by {
                    assert(!admitted_at(names, rmap, k as nat));
                }
                return Err(PlanError::Refused);
            },
        }
        assert(all_admitted(names, rmap, 0, (k + 1) as nat)) by {
            assert forall|j: nat| 0 <= j < k + 1 implies #[trigger] admitted_at(names, rmap, j) by {
                if j < k {
                    assert(all_admitted(names, rmap, 0, k as nat));
                }
            }
        }
        k = k + 1;
    }
    if first > usize::MAX - client_count {
        return Err(PlanError::ClientIdOverflow);
    }
    if client_count > 0 && n == 0 {
        return Err(PlanError::EmptyCluster);
    }
    let mut j: usize = 0;
    while j < client_count
        invariant
            j <= client_count,
            names == spec_sorted_names(cluster),
            rmap == spec_restriction_map(cluster.machine_list@),
            replica_count == scenario.replica_count,
            client_count == scenario.client_count,
            first == scenario.first_cli_id,
            k == replica_count,
            first + client_count <= usize::MAX,
            n == names.len(),
            client_count > 0 ==> n > 0,
            replica_count > 0 ==> n > 0,
            state.wf(),
            state.names() == names,
            state.loads().len() == names.len(),
            forall|i: int|
                0 <= i < state.loads().len() ==> (#[trigger] state.loads()[i]).allocated_replicas
                    == 0 && state.loads()[i].allocated_clients == 0,
            restrictions.wf(),
            restrictions.view() == rmap,
            k + j == 0 ==> state.last() is None,
            k + j > 0 ==> state.last() == Some(names[((k + j - 1) % names.len() as int)]),
            all_admitted(names, rmap, 0, replica_count as nat),
            all_admitted(names, rmap, replica_count as nat, (replica_count + j) as nat),
            placements@.len() == k + j,
            forall|i: int|
                0 <= i < k ==> (#[trigger] placements@[i])@ == (
                    names[i % (n as int)],
                    i as usize,
                    false,
                ),
            forall|i: int|
                k <= i < k + j ==> (#[trigger] placements@[i])@ == (
                    names[i % (n as int)],
                    (first + i - k) as usize,
                    true,
                ),
        decreases client_count - j,
    {
        match state.place_next(&restrictions, true, Ghost((k + j) as nat)) {
            Some(node) => {
                placements.push(Placement { node, node_id: first + j, is_client: true });
            },
            None => {
                assert(!all_admitted(
                    names,
                    rmap,
                    replica_count as nat,
                    (replica_count + client_count) as nat,
                )) by {
                    assert(!admitted_at(names, rmap, (k + j) as nat));
                }
                return Err(PlanError::Refused);
            },
        }
        assert(all_admitted(names, rmap, replica_count as nat, (replica_count + j + 1) as nat))
            by {
            assert forall|i: nat|
                replica_count <= i < replica_count + j + 1 implies #[trigger] admitted_at(
                names,
                rmap,
                i,
            ) by {
                if i < replica_count + j {
                    assert(all_admitted(names, rmap, replica_count as nat, (replica_count + j) as nat));
                }
            }
        }
        j = j + 1;
    }
    let ghost expected = spec_plan(
        names,
        rmap,
        replica_count as nat,
        client_count as nat,
        first as nat,
    );
    assert(placements@.map_values(|p: Placement| p@) =~= expected->Ok_0);
    Ok(placements)
}
} // verus!
