use microbenchmarks::bytes::{push_all, push_i32_be, read_i32_be};
use microbenchmarks::tolerance::BFT;
use microbenchmarks::wire::{
    deserialize_message, deserialize_state, serialize_message, serialize_state, ConsensusMessage,
    ConsensusMessageKind, ReplyMessage, RequestMessage, StoredMessage, SystemMessage, WireError,
};

#[test]
fn fault_tolerance_arithmetic() {
    assert_eq!(BFT::get_n_for_f(0), 1);
    assert_eq!(BFT::get_n_for_f(1), 4);
    assert_eq!(BFT::get_n_for_f(2), 7);
    assert_eq!(BFT::get_f_for_n(1), 0);
    assert_eq!(BFT::get_f_for_n(4), 1);
    assert_eq!(BFT::get_f_for_n(6), 1);
    assert_eq!(BFT::get_f_for_n(7), 2);
    assert_eq!(BFT::get_quorum_for_n(4), 3);
    assert_eq!(BFT::get_quorum_for_n(7), 5);
}

#[test]
fn two_quorums_of_four_share_a_correct_replica() {
    let n = BFT::get_n_for_f(1);
    let q = BFT::get_quorum_for_n(n);
    assert!(2 * q - n >= BFT::get_f_for_n(n) + 1);
}

#[test]
fn big_endian_round_trip() {
    let mut buf = Vec::new();
    push_i32_be(&mut buf, -2);
    push_i32_be(&mut buf, 0x01020304);
    assert_eq!(buf, vec![0xff, 0xff, 0xff, 0xfe, 1, 2, 3, 4]);
    assert_eq!(read_i32_be(&buf[..4]), -2);
    assert_eq!(read_i32_be(&buf[4..]), 0x01020304);
    push_all(&mut buf, &[9, 9]);
    assert_eq!(buf.len(), 10);
}

#[test]
fn state_encoding_is_ok() {
    assert_eq!(serialize_state(), b"OK".to_vec());
    assert!(deserialize_state(b"anything").is_ok());
}

#[test]
fn request_encoding() {
    let m = SystemMessage::Request(RequestMessage { session_id: 1, operation_id: 2, operation: vec![7, 8, 9] });
    let b = serialize_message(&m).ok().unwrap();
    assert_eq!(b, vec![0, 0, 0, 1, 0, 0, 0, 3, 7, 8, 9]);
}

#[test]
fn reply_and_vote_encodings() {
    let reply = SystemMessage::Reply(ReplyMessage { digest: vec![1; 32] });
    assert_eq!(serialize_message(&reply).ok().unwrap(), vec![0, 0, 0, 2]);
    let prepare = SystemMessage::Consensus(ConsensusMessage { seq: 1, view: 0, kind: ConsensusMessageKind::Prepare(vec![5, 6]) });
    assert_eq!(serialize_message(&prepare).ok().unwrap(), vec![0, 0, 0, 4, 5, 6]);
    let commit = SystemMessage::Consensus(ConsensusMessage { seq: 1, view: 0, kind: ConsensusMessageKind::Commit(vec![5]) });
    assert_eq!(serialize_message(&commit).ok().unwrap(), vec![0, 0, 0, 5, 5]);
}

#[test]
fn pre_prepare_encoding() {
    let stored = |h: u8, op: Vec<u8>| StoredMessage {
        header: vec![h, h],
        message: RequestMessage { session_id: 0, operation_id: 0, operation: op },
    };
    let m = SystemMessage::Consensus(ConsensusMessage {
        seq: 3,
        view: 1,
        kind: ConsensusMessageKind::PrePrepare(vec![stored(1, vec![10]), stored(2, vec![20])]),
    });
    let b = serialize_message(&m).ok().unwrap();
    assert_eq!(b, vec![0, 0, 0, 3, 0, 0, 0, 2, 0, 0, 0, 1, 1, 1, 10, 2, 2, 20]);
}

#[test]
fn unsupported_and_truncated_messages() {
    assert!(serialize_message(&SystemMessage::Other).err() == Some(WireError::UnsupportedMessage));
    assert!(deserialize_message(&[0, 0, 1]).err() == Some(WireError::Truncated));
    assert!(deserialize_message(&[0, 0, 0, 9, 1]).err() == Some(WireError::UnsupportedMessage));
    assert!(deserialize_message(&[0, 0, 0, 0]).err() == Some(WireError::UnsupportedMessage));
}
