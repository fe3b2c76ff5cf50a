//! The compact binary wire format of the microbenchmark's system messages:
//! a big-endian `i32` kind tag followed by the kind's payload.

use crate::bytes::{push_all, push_i32_be, read_i32_be, spec_be_i32, spec_i32_from_be, lemma_be_i32_roundtrip};
use vstd::prelude::*;

verus! {

/// A client request: the operation bytes, with the session and operation
/// numbers that ordered it.
pub struct RequestMessage {
    pub session_id: u32,
    pub operation_id: u32,
    pub operation: Vec<u8>,
}

/// A reply to a client: the digest of the request it answers.
pub struct ReplyMessage {
    pub digest: Vec<u8>,
}

/// A request forwarded inside a pre-prepare: the serialized form of its
/// header, and the request itself.
pub struct StoredMessage {
    pub header: Vec<u8>,
    pub message: RequestMessage,
}

pub enum ConsensusMessageKind {
    PrePrepare(Vec<StoredMessage>),
    Prepare(Vec<u8>),
    Commit(Vec<u8>),
}

pub struct ConsensusMessage {
    pub seq: u32,
    pub view: u32,
    pub kind: ConsensusMessageKind,
}

/// The messages the replicas and clients exchange. `Other` stands for the
/// kinds of system message (state transfer, view change, ...) that this
/// format has no encoding for.
pub enum SystemMessage {
    Request(RequestMessage),
    Reply(ReplyMessage),
    Consensus(ConsensusMessage),
    Other,
}

#[derive(Debug, PartialEq, Eq, Structural)]
pub enum WireError {
    /// The message kind has no encoding in this format.
    UnsupportedMessage,
    /// Fewer bytes than a kind tag.
    Truncated,
}

/// The kind tag written first for each message.
pub open spec fn spec_message_kind(m: SystemMessage) -> i32 {
    match m {
        SystemMessage::Request(_) => 1,
        SystemMessage::Reply(_) => 2,
        SystemMessage::Consensus(c) => match c.kind {
            ConsensusMessageKind::PrePrepare(_) => 3,
            ConsensusMessageKind::Prepare(_) => 4,
            ConsensusMessageKind::Commit(_) => 5,
        },
        SystemMessage::Other => 0,
    }
}

/// Header bytes followed by operation bytes of each forwarded request.
pub open spec fn spec_forwarded(reqs: Seq<StoredMessage>) -> Seq<u8>
    decreases reqs.len(),
{
    if reqs.len() == 0 {
        Seq::empty()
    } else {
        spec_forwarded(reqs.drop_last()) + reqs.last().header@ + reqs.last().message.operation@
    }
}

/// The encoding of a message this format supports.
/// A pre-prepare gives the count of its requests and the operation length
/// of its first one, then each request's header and operation bytes.
pub open spec fn spec_encode(m: SystemMessage) -> Seq<u8> {
    spec_be_i32(spec_message_kind(m)) + match m {
        SystemMessage::Request(r) => spec_be_i32(r.operation@.len() as i32) + r.operation@,
        SystemMessage::Reply(_) => Seq::empty(),
        SystemMessage::Consensus(c) => match c.kind {
            ConsensusMessageKind::PrePrepare(reqs) => spec_be_i32(reqs@.len() as i32)
                + spec_be_i32(reqs@[0].message.operation@.len() as i32) + spec_forwarded(reqs@),
            ConsensusMessageKind::Prepare(d) => d@,
            ConsensusMessageKind::Commit(d) => d@,
        },
        SystemMessage::Other => Seq::empty(),
    }
}

/// A pre-prepare is encoded with the operation length of its first
/// request, so it must carry at least one.
pub open spec fn spec_encodable(m: SystemMessage) -> bool {
    match m {
        SystemMessage::Consensus(c) => match c.kind {
            ConsensusMessageKind::PrePrepare(reqs) => reqs@.len() > 0,
            _ => true,
        },
        _ => true,
    }
}

/// The bytes written for the (unit) application state: `"OK"`.
pub fn serialize_state() -> (b: Vec<u8>)
    ensures
        b@ == seq![79u8, 75u8],
{
    let mut b: Vec<u8> = Vec::new();
    b.push(79u8);
    b.push(75u8);
    assert(b@ =~= seq![79u8, 75u8]);
    b
}

/// The state this format carries is `()`; reading it consumes nothing.
pub fn deserialize_state(_bytes: &[u8]) -> (r: Result<(), WireError>)
    ensures
        r is Ok,
{
    Ok(())
}

fn encode_forwarded(buf: &mut Vec<u8>, reqs: &Vec<StoredMessage>)
    ensures
        final(buf)@ == old(buf)@ + spec_forwarded(reqs@),
{
    let ghost start = buf@;
    let mut i: usize = 0;
    while i < reqs.len()
        invariant
            i <= reqs@.len(),
            buf@ == start + spec_forwarded(reqs@.take(i as int)),
        decreases reqs@.len() - i,
    {
        push_all(buf, reqs[i].header.as_slice());
        push_all(buf, reqs[i].message.operation.as_slice());
        proof {
            let t = reqs@.take(i + 1);
            assert(t.drop_last() =~= reqs@.take(i as int));
            assert(buf@ =~= start + spec_forwarded(reqs@.take(i + 1)));
        }
        i = i + 1;
    }
    assert(reqs@.take(i as int) =~= reqs@);
}

/// Encodes a message. Kinds without an encoding are refused with
/// `UnsupportedMessage`; every other kind is encoded as `spec_encode` says.
pub fn serialize_message(m: &SystemMessage) -> (r: Result<Vec<u8>, WireError>)
    requires
        spec_encodable(*m),
    ensures
        *m is Other ==> r == Err::<Vec<u8>, WireError>(WireError::UnsupportedMessage),
        !(*m is Other) ==> (r matches Ok(b) && b@ == spec_encode(*m)),
{
    let mut w: Vec<u8> = Vec::new();
    match m {
        SystemMessage::Request(req) => {
            push_i32_be(&mut w, 1);
            push_i32_be(&mut w, req.operation.len() as i32);
            push_all(&mut w, req.operation.as_slice());
        },
        SystemMessage::Reply(_) => {
            push_i32_be(&mut w, 2);
        },
        SystemMessage::Consensus(c) => {
            match &c.kind {
                ConsensusMessageKind::PrePrepare(requests) => {
                    push_i32_be(&mut w, 3);
                    let num_reqs = requests.len();
                    push_i32_be(&mut w, num_reqs as i32);
                    let req_len = requests[0].message.operation.len();
                    push_i32_be(&mut w, req_len as i32);
                    encode_forwarded(&mut w, requests);
                },
                ConsensusMessageKind::Prepare(digest) => {
                    push_i32_be(&mut w, 4);
                    push_all(&mut w, digest.as_slice());
                },
                ConsensusMessageKind::Commit(digest) => {
                    push_i32_be(&mut w, 5);
                    push_all(&mut w, digest.as_slice());
                },
            }
        },
        SystemMessage::Other => {
            return Err(WireError::UnsupportedMessage);
        },
    }
    assert(w@ =~= spec_encode(*m));
    Ok(w)
}

/// Whether `bytes` starts with the tag of a kind this format names
/// (1 to 5). Decoding the body of such a message is not implemented: the
/// decoder stops there, so `deserialize_message` is only defined on other
/// inputs.
pub open spec fn spec_starts_with_known_kind(bytes: Seq<u8>) -> bool {
    bytes.len() >= 4 && 1 <= spec_i32_from_be(bytes) <= 5
}

/// Reads a message: the kind tag first. Input shorter than a tag is
/// `Truncated`; a tag outside 1 to 5 is `UnsupportedMessage`.
pub fn deserialize_message(bytes: &[u8]) -> (r: Result<SystemMessage, WireError>)
    requires
        !spec_starts_with_known_kind(bytes@),
    ensures
        bytes@.len() < 4 ==> (r matches Err(e) && e == WireError::Truncated),
        bytes@.len() >= 4 ==> (r matches Err(e) && e == WireError::UnsupportedMessage),
{
    if bytes.len() < 4 {
        return Err(WireError::Truncated);
    }
    let kind = read_i32_be(bytes);
    if 1 <= kind && kind <= 5 {
        // ruled out by the precondition: the body decoder is not implemented
        proof {
            assert(false);
        }
    }
    Err(WireError::UnsupportedMessage)
}

/// The tag at the front of every encoding reads back as the message's kind,
/// one of 1 to 5.
pub proof fn lemma_encoding_starts_with_kind(m: SystemMessage)
    requires
        !(m is Other),
    ensures
        spec_encode(m).len() >= 4,
        spec_i32_from_be(spec_encode(m)) == spec_message_kind(m),
        1 <= spec_message_kind(m) <= 5,
{
    let k = spec_message_kind(m);
    lemma_be_i32_roundtrip(k);
    let e = spec_encode(m);
    let t = spec_be_i32(k);
    assert(e[0] == t[0] && e[1] == t[1] && e[2] == t[2] && e[3] == t[3]);
}

/// The forwarded requests begin with the first request's header and then
/// its operation.
proof fn lemma_forwarded_starts_with_first(reqs: Seq<StoredMessage>)
    requires
        reqs.len() > 0,
    ensures
        spec_forwarded(reqs).len() >= reqs[0].header@.len() + reqs[0].message.operation@.len(),
        spec_forwarded(reqs).subrange(
            0,
            (reqs[0].header@.len() + reqs[0].message.operation@.len()) as int,
        ) == reqs[0].header@ + reqs[0].message.operation@,
    decreases reqs.len(),
{
    let first = reqs[0].header@ + reqs[0].message.operation@;
    if reqs.len() == 1 {
        assert(reqs.drop_last() =~= Seq::<StoredMessage>::empty());
        assert(spec_forwarded(reqs.drop_last()) =~= Seq::<u8>::empty());
        assert(spec_forwarded(reqs) =~= first);
    } else {
        let d = reqs.drop_last();
        assert(d[0] == reqs[0]);
        lemma_forwarded_starts_with_first(d);
        let rest = reqs.last().header@ + reqs.last().message.operation@;
        assert(spec_forwarded(reqs) =~= spec_forwarded(d) + rest);
        assert(spec_forwarded(reqs).subrange(0, first.len() as int) =~= spec_forwarded(d).subrange(
            0,
            first.len() as int,
        ));
    }
}

/// Field by field, what each encoding reads back as. A request: its tag,
/// then the big-endian length of its operation, then the operation. A reply:
/// the tag alone. A pre-prepare: its tag, the number of its requests, the
/// operation length of its first request, then that request's header and
/// operation (the others follow). A prepare or a commit: its tag, then the
/// digest.
pub proof fn lemma_encoding_fields(m: SystemMessage)
    requires
        spec_encodable(m),
        !(m is Other),
    ensures
        ({
            let e = spec_encode(m);
            &&& e.len() >= 4
            &&& spec_i32_from_be(e) == spec_message_kind(m)
            &&& match m {
                SystemMessage::Request(r) => {
                    &&& e.len() == 8 + r.operation@.len()
                    &&& spec_i32_from_be(e.subrange(4, 8)) == r.operation@.len() as i32
                    &&& e.subrange(8, e.len() as int) == r.operation@
                },
                SystemMessage::Reply(_) => e.len() == 4,
                SystemMessage::Consensus(c) => match c.kind {
                    ConsensusMessageKind::PrePrepare(reqs) => {
                        let h = reqs@[0].header@;
                        let op = reqs@[0].message.operation@;
                        &&& e.len() >= 12 + h.len() + op.len()
                        &&& spec_i32_from_be(e.subrange(4, 8)) == reqs@.len() as i32
                        &&& spec_i32_from_be(e.subrange(8, 12)) == op.len() as i32
                        &&& e.subrange(12, (12 + h.len() + op.len()) as int) == h + op
                    },
                    ConsensusMessageKind::Prepare(d) => e.len() == 4 + d@.len() && e.subrange(
                        4,
                        e.len() as int,
                    ) == d@,
                    ConsensusMessageKind::Commit(d) => e.len() == 4 + d@.len() && e.subrange(
                        4,
                        e.len() as int,
                    ) == d@,
                },
                SystemMessage::Other => true,
            }
        }),
{
    lemma_encoding_starts_with_kind(m);
    let e = spec_encode(m);
    match m {
        SystemMessage::Request(r) => {
            let l = r.operation@.len() as i32;
            lemma_be_i32_roundtrip(l);
            assert(e.subrange(4, 8) =~= spec_be_i32(l));
            assert(e.subrange(8, e.len() as int) =~= r.operation@);
        },
        SystemMessage::Reply(_) => {},
        SystemMessage::Consensus(c) => match c.kind {
            ConsensusMessageKind::PrePrepare(reqs) => {
                let n = reqs@.len() as i32;
                let l = reqs@[0].message.operation@.len() as i32;
                lemma_be_i32_roundtrip(n);
                lemma_be_i32_roundtrip(l);
                lemma_forwarded_starts_with_first(reqs@);
                let f = spec_forwarded(reqs@);
                assert(e =~= spec_be_i32(3) + spec_be_i32(n) + spec_be_i32(l) + f);
                assert(e.subrange(4, 8) =~= spec_be_i32(n));
                assert(e.subrange(8, 12) =~= spec_be_i32(l));
                let k = (reqs@[0].header@.len() + reqs@[0].message.operation@.len()) as int;
                assert(e.subrange(12, 12 + k) =~= f.subrange(0, k));
            },
            ConsensusMessageKind::Prepare(d) => {
                assert(e.subrange(4, e.len() as int) =~= d@);
            },
            ConsensusMessageKind::Commit(d) => {
                assert(e.subrange(4, e.len() as int) =~= d@);
            },
        },
        SystemMessage::Other => {},
    }
}

} // verus!
