//! The key-value service of the preemptive-execution benchmark: column
//! families of byte values, read, written and deleted by client requests.

use crate::table::{Table, TableKey};
use std::time::Duration;
use vstd::prelude::*;

verus! {

/// A four-byte key.
pub struct Key(pub [u8; 4]);

impl View for Key {
    type V = Seq<u8>;

    open spec fn view(&self) -> Seq<u8> {
        self.0@
    }
}

impl TableKey for Key {
    fn key_eq(&self, other: &Self) -> (r: bool) {
        let r = self.0[0] == other.0[0] && self.0[1] == other.0[1] && self.0[2] == other.0[2]
            && self.0[3] == other.0[3];
        assert(r ==> self.0@ =~= other.0@);
        r
    }

    fn key_clone(&self) -> (r: Self) {
        Key(self.0)
    }
}

impl Key {
    /// The key of the big-endian bytes of a random `i32`.
    pub fn gen_random_key() -> (k: Key)
        ensures
            k@.len() == 4,
    {
        let v = random_i32();
        Key(i32_be_bytes(v))
    }
}

/// `fastrand::i32(..)`: a random `i32`, any value possible.
#[verifier::external_body]
fn random_i32() -> i32 {
    fastrand::i32(..)
}

/// `i32::to_be_bytes`: the big-endian bytes of `v`'s two's-complement form.
#[verifier::external_body]
fn i32_be_bytes(v: i32) -> (b: [u8; 4])
    ensures
        b@ == crate::bytes::spec_be_i32(v),
{
    v.to_be_bytes()
}

pub enum PERequestType {
    Read { cf_name: String, key: Key },
    Write { cf_name: String, key: Key, data: Vec<u8> },
    Delete { cf_name: String, key: Key },
}

pub struct PERequest {
    time_delay: Duration,
    request_type: PERequestType,
}

impl PERequest {
    pub fn new(time_delay: Duration, request_type: PERequestType) -> (r: Self)
        ensures
            r.spec_time_delay() == time_delay,
            r.spec_request_type() == request_type,
    {
        Self { time_delay, request_type }
    }

    /// How long the replica waits after executing the request.
    pub fn time_delay(&self) -> (d: Duration)
        ensures
            d == self.spec_time_delay(),
    {
        self.time_delay
    }

    pub fn into_request_type(self) -> (t: PERequestType)
        ensures
            t == self.spec_request_type(),
    {
        self.request_type
    }

    pub closed spec fn spec_request_type(&self) -> PERequestType {
        self.request_type
    }

    pub closed spec fn spec_time_delay(&self) -> Duration {
        self.time_delay
    }
}

pub enum PEReply {
    ReadResult { data: Option<Vec<u8>> },
    WriteResult { previous_value: Option<Vec<u8>> },
}

/// A reply as plain values: whether it answers a read, and the bytes it
/// carries (the value read, or the value overwritten or deleted).
pub open spec fn spec_reply(r: PEReply) -> (bool, Option<Seq<u8>>) {
    match r {
        PEReply::ReadResult { data } => (true, opt_view(data)),
        PEReply::WriteResult { previous_value } => (false, opt_view(previous_value)),
    }
}

pub open spec fn opt_view(o: Option<Vec<u8>>) -> Option<Seq<u8>> {
    match o {
        Some(v) => Some(v@),
        None => None,
    }
}

/// The abstract store: column family name to (key to value).
pub type StoreView = Map<Seq<char>, Map<Seq<u8>, Seq<u8>>>;

/// The value under `key` in column family `cf`, if any.
pub open spec fn lookup(s: StoreView, cf: Seq<char>, key: Seq<u8>) -> Option<Seq<u8>> {
    if s.contains_key(cf) && s[cf].contains_key(key) {
        Some(s[cf][key])
    } else {
        None
    }
}

/// The store after writing `value` under `key` in `cf`; the column family
/// is created when missing.
pub open spec fn spec_set(s: StoreView, cf: Seq<char>, key: Seq<u8>, value: Seq<u8>) -> StoreView {
    let family = if s.contains_key(cf) {
        s[cf]
    } else {
        Map::empty()
    };
    s.insert(cf, family.insert(key, value))
}

/// The store after deleting `key` from `cf`; a missing column family is
/// left missing.
pub open spec fn spec_delete(s: StoreView, cf: Seq<char>, key: Seq<u8>) -> StoreView {
    if s.contains_key(cf) {
        s.insert(cf, s[cf].remove(key))
    } else {
        s
    }
}

/// The store after a request, and the reply it gets.
pub open spec fn spec_apply(s: StoreView, t: PERequestType) -> (StoreView, (bool, Option<Seq<u8>>)) {
    match t {
        PERequestType::Read { cf_name, key } => (s, (true, lookup(s, cf_name@, key@))),
        PERequestType::Write { cf_name, key, data } => (
            spec_set(s, cf_name@, key@, data@),
            (false, lookup(s, cf_name@, key@)),
        ),
        PERequestType::Delete { cf_name, key } => (
            spec_delete(s, cf_name@, key@),
            (false, lookup(s, cf_name@, key@)),
        ),
    }
}

/// The store after a batch of requests applied in order, and their replies.
pub open spec fn spec_run(s: StoreView, reqs: Seq<PERequestType>) -> (StoreView, Seq<(bool, Option<Seq<u8>>)>)
    decreases reqs.len(),
{
    if reqs.len() == 0 {
        (s, Seq::empty())
    } else {
        let (mid, replies) = spec_run(s, reqs.drop_last());
        let (end, reply) = spec_apply(mid, reqs.last());
        (end, replies.push(reply))
    }
}

pub struct State {
    inner: Table<String, Table<Key, Vec<u8>>>,
}

impl State {
    pub closed spec fn wf(&self) -> bool {
        &&& self.inner.wf()
        &&& forall|cf: Seq<char>| #[trigger]
            self.inner.view().contains_key(cf) ==> self.inner.view()[cf].wf()
    }

    pub closed spec fn view(&self) -> StoreView {
        self.inner.view().map_values(|t: Table<Key, Vec<u8>>| t.view().map_values(|v: Vec<u8>| v@))
    }

    pub fn new() -> (s: Self)
        ensures
            s.wf(),
            s.view() == StoreView::empty(),
    {
        let s = State { inner: Table::new() };
        assert(s.view() =~= StoreView::empty());
        s
    }

    /// The column families with their keys and values.
    pub fn families(&self) -> (r: &Table<String, Table<Key, Vec<u8>>>)
        requires
            self.wf(),
        ensures
            r.wf(),
            forall|cf: Seq<char>| #[trigger] r.view().contains_key(cf) ==> r.view()[cf].wf(),
            r.view().map_values(|t: Table<Key, Vec<u8>>| t.view().map_values(|v: Vec<u8>| v@))
                == self.view(),
    {
        &self.inner
    }

    pub fn get_value(&self, cf: &str, key: &Key) -> (r: Option<Vec<u8>>)
        requires
            self.wf(),
        ensures
            opt_view(r) == lookup(self.view(), cf@, key@),
    {
        let cf_name = String::from_str(cf);
        match self.inner.get(&cf_name) {
            Some(family) => {
                match family.get(key) {
                    Some(v) => Some(v.clone()),
                    None => None,
                }
            },
            None => None,
        }
    }

    pub fn set_value(&mut self, cf: &str, key: &Key, value: Vec<u8>) -> (r: Option<Vec<u8>>)
        requires
            old(self).wf(),
        ensures
            final(self).wf(),
            final(self).view() == spec_set(old(self).view(), cf@, key@, value@),
            opt_view(r) == lookup(old(self).view(), cf@, key@),
    {
        let ghost old_view = self.view();
        let cf_name = String::from_str(cf);
        let mut family = match self.inner.remove(&cf_name) {
            Some(t) => t,
            None => Table::new(),
        };
        let ghost value_view = value@;
        let prev = family.insert(key.key_clone(), value);
        let ghost fam = family;
        self.inner.insert(cf_name, family);
        proof {
            assert forall|c: Seq<char>| #[trigger] self.inner.view().contains_key(c) implies self.inner.view()[c].wf() by {
                if c != cf@ {
                    assert(old(self).inner.view().contains_key(c));
                }
            }
            let fv = fam.view().map_values(|v: Vec<u8>| v@);
            let ofam = if old_view.contains_key(cf@) { old_view[cf@] } else { Map::empty() };
            assert(fv =~= ofam.insert(key@, value_view));
            assert(self.view() =~= spec_set(old_view, cf@, key@, value_view));
        }
        prev
    }

    pub fn delete_value(&mut self, cf: &str, key: &Key) -> (r: Option<Vec<u8>>)
        requires
            old(self).wf(),
        ensures
            final(self).wf(),
            final(self).view() == spec_delete(old(self).view(), cf@, key@),
            opt_view(r) == lookup(old(self).view(), cf@, key@),
    {
        let ghost old_view = self.view();
        let cf_name = String::from_str(cf);
        match self.inner.remove(&cf_name) {
            Some(mut family) => {
                let prev = family.remove(key);
                let ghost fam = family;
                self.inner.insert(cf_name, family);
                proof {
                    assert forall|c: Seq<char>| #[trigger] self.inner.view().contains_key(c) implies self.inner.view()[c].wf() by {
                        if c != cf@ {
                            assert(old(self).inner.view().contains_key(c));
                        }
                    }
                    let fv = fam.view().map_values(|v: Vec<u8>| v@);
                    assert(fv =~= old_view[cf@].remove(key@));
                    assert(self.view() =~= spec_delete(old_view, cf@, key@));
                }
                prev
            },
            None => {
                assert(self.view() =~= old_view);
                None
            },
        }
    }
}

/// The replicated application of the preemptive-execution benchmark.
pub struct Microbenchmark {
    pub id: u32,
}

impl Microbenchmark {
    pub fn new(id: u32) -> (m: Self)
        ensures
            m.id == id,
    {
        Self { id }
    }

    pub fn initial_state() -> (s: State)
        ensures
            s.wf(),
            s.view() == StoreView::empty(),
    {
        State::new()
    }

    pub fn handle_read_request(state: &State, cf_name: &str, key: &Key) -> (r: PEReply)
        requires
            state.wf(),
        ensures
            spec_reply(r) == (true, lookup(state.view(), cf_name@, key@)),
    {
        let result = state.get_value(cf_name, key);
        PEReply::ReadResult { data: result }
    }

    pub fn handle_write_request(state: &mut State, cf_name: &str, key: &Key, value: Vec<u8>) -> (r: PEReply)
        requires
            old(state).wf(),
        ensures
            final(state).wf(),
            final(state).view() == spec_set(old(state).view(), cf_name@, key@, value@),
            spec_reply(r) == (false, lookup(old(state).view(), cf_name@, key@)),
    {
        let prev_value = state.set_value(cf_name, key, value);
        PEReply::WriteResult { previous_value: prev_value }
    }

    pub fn handle_delete_request(state: &mut State, cf_name: &str, key: &Key) -> (r: PEReply)
        requires
            old(state).wf(),
        ensures
            final(state).wf(),
            final(state).view() == spec_delete(old(state).view(), cf_name@, key@),
            spec_reply(r) == (false, lookup(old(state).view(), cf_name@, key@)),
    {
        let prev_value = state.delete_value(cf_name, key);
        PEReply::WriteResult { previous_value: prev_value }
    }

    /// Executes an ordered request. The wait of `time_delay` that follows
    /// it is left to the caller.
    pub fn update(&self, state: &mut State, request: PERequest) -> (r: PEReply)
        requires
            old(state).wf(),
        ensures
            final(state).wf(),
            (final(state).view(), spec_reply(r)) == spec_apply(old(state).view(), request.spec_request_type()),
    {
        match request.into_request_type() {
            PERequestType::Read { cf_name, key } => Self::handle_read_request(state, cf_name.as_str(), &key),
            PERequestType::Write { cf_name, key, data } => Self::handle_write_request(state, cf_name.as_str(), &key, data),
            PERequestType::Delete { cf_name, key } => Self::handle_delete_request(state, cf_name.as_str(), &key),
        }
    }

    /// Executes an unordered request; only reads are ever sent unordered.
    pub fn unordered_execution(&self, state: &State, request: PERequest) -> (r: PEReply)
        requires
            state.wf(),
            request.spec_request_type() is Read,
        ensures
            spec_reply(r) == spec_apply(state.view(), request.spec_request_type()).1,
    {
        match request.into_request_type() {
            PERequestType::Read { cf_name, key } => Self::handle_read_request(state, cf_name.as_str(), &key),
            _ => {
                proof {
                    assert(false);
                }
                PEReply::ReadResult { data: None }
            },
        }
    }

    /// Executes a batch of ordered requests in order, one reply each.
    pub fn update_batch(&self, state: &mut State, batch: Vec<PERequest>) -> (replies: Vec<PEReply>)
        requires
            old(state).wf(),
        ensures
            final(state).wf(),
            ({
                let (end, rs) = spec_run(old(state).view(), batch@.map_values(|r: PERequest| r.spec_request_type()));
                &&& final(state).view() == end
                &&& replies@.map_values(|r: PEReply| spec_reply(r)) == rs
            }),
    {
        let ghost reqs = batch@.map_values(|r: PERequest| r.spec_request_type());
        let ghost start = state.view();
        let mut replies: Vec<PEReply> = Vec::new();
        let mut batch = batch;
        let ghost orig = batch@;
        let n = batch.len();
        let mut i: usize = 0;
        while i < n
            invariant
                n == orig.len(),
                reqs == orig.map_values(|r: PERequest| r.spec_request_type()),
                i <= n,
                batch@ == orig.skip(i as int),
                state.wf(),
                ({
                    let (mid, rs) = spec_run(start, reqs.take(i as int));
                    &&& state.view() == mid
                    &&& replies@.map_values(|r: PEReply| spec_reply(r)) == rs
                }),
            decreases n - i,
        {
            let request = batch.remove(0);
            proof {
                assert(request == orig[i as int]);
                assert(reqs.take(i + 1).drop_last() =~= reqs.take(i as int));
                assert(reqs.take(i + 1).last() == reqs[i as int]);
            }
            let reply = self.update(state, request);
            replies.push(reply);
            proof {
                let (mid, rs) = spec_run(start, reqs.take(i as int));
                assert(replies@.map_values(|r: PEReply| spec_reply(r)) =~= rs.push(spec_reply(reply)));
                assert(batch@ =~= orig.skip(i + 1));
            }
            i = i + 1;
        }
        assert(reqs.take(n as int) =~= reqs);
        replies
    }
}

/// A read after a write of `value` under `(cf, key)` gives `value`.
pub proof fn lemma_read_after_write(s: StoreView, cf: Seq<char>, key: Seq<u8>, value: Seq<u8>)
    ensures
        lookup(spec_set(s, cf, key, value), cf, key) == Some(value),
{
}

/// A write under `(cf, key)` leaves every other key of every column family
/// as it was.
pub proof fn lemma_write_leaves_others(
    s: StoreView,
    cf: Seq<char>,
    key: Seq<u8>,
    value: Seq<u8>,
    cf2: Seq<char>,
    key2: Seq<u8>,
)
    requires
        cf != cf2 || key != key2,
    ensures
        lookup(spec_set(s, cf, key, value), cf2, key2) == lookup(s, cf2, key2),
{
}

/// After a delete of `(cf, key)` a read finds nothing there, and every other
/// key keeps its value.
pub proof fn lemma_delete_then_read(s: StoreView, cf: Seq<char>, key: Seq<u8>, cf2: Seq<char>, key2: Seq<u8>)
    ensures
        lookup(spec_delete(s, cf, key), cf, key) is None,
        (cf != cf2 || key != key2) ==> lookup(spec_delete(s, cf, key), cf2, key2) == lookup(s, cf2, key2),
{
}

/// Reads change nothing, and a write or delete answers with the value that
/// was there before it.
pub proof fn lemma_reply_is_previous_value(s: StoreView, t: PERequestType)
    ensures
        t is Read ==> spec_apply(s, t).0 == s,
        spec_apply(s, t).1.1 == match t {
            PERequestType::Read { cf_name, key } => lookup(s, cf_name@, key@),
            PERequestType::Write { cf_name, key, .. } => lookup(s, cf_name@, key@),
            PERequestType::Delete { cf_name, key } => lookup(s, cf_name@, key@),
        },
{
}

} // verus!
