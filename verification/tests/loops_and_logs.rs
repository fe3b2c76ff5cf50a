use microbenchmarks::logs::{debug_log_name, format_log, format_old_log, info_log_name, log_folder, InitTrigger};
use microbenchmarks::transport::{client_test2_sync, server_test1_sync, LoopStep};

#[test]
fn server_loop_serves_connections_in_turn() {
    let mut step = LoopStep::Connect;
    let outcomes = [true, true, true, true, true, true, false];
    let mut trace = Vec::new();
    for ok in outcomes {
        step = server_test1_sync(step, ok);
        trace.push(step);
    }
    assert!(
        trace
            == vec![
                LoopStep::Read,
                LoopStep::Write,
                LoopStep::Connect,
                LoopStep::Read,
                LoopStep::Write,
                LoopStep::Connect,
                LoopStep::Finished,
            ]
    );
}

#[test]
fn a_failed_read_or_write_ends_the_loop_with_an_error() {
    assert!(server_test1_sync(LoopStep::Read, false) == LoopStep::Failed);
    assert!(client_test2_sync(LoopStep::Write, false) == LoopStep::Failed);
    assert!(client_test2_sync(LoopStep::Connect, false) == LoopStep::Finished);
}

#[test]
fn ended_loops_stay_ended() {
    for ok in [true, false] {
        assert!(server_test1_sync(LoopStep::Finished, ok) == LoopStep::Finished);
        assert!(client_test2_sync(LoopStep::Failed, ok) == LoopStep::Failed);
    }
}

#[test]
fn log_paths() {
    assert_eq!(format_log(3, "_comm"), "./logs/log_3/febft_comm.log");
    assert_eq!(format_log(12, ""), "./logs/log_12/febft.log");
    assert_eq!(format_old_log(0, "_replica"), "./logs/log_0/old/febft_replica.log.{}");
}

#[test]
fn trigger_rolls_over_once() {
    let mut t = InitTrigger::new();
    assert!(t.trigger(10));
    assert!(!t.trigger(10));
    assert!(!t.trigger(0));
}

#[test]
fn trigger_skips_an_empty_file_and_then_never_fires() {
    let mut t = InitTrigger::new();
    assert!(!t.trigger(0));
    assert!(t.has_been_triggered);
    assert!(!t.trigger(100));
}

#[test]
fn trace_file_names() {
    assert_eq!(log_folder(4), "./logs/log_4");
    assert_eq!(debug_log_name(4), "atlas_debug_4.log");
    assert_eq!(info_log_name(40), "atlas_40.log");
}
