use microbenchmarks::pacing::{ops_per_second, ClientAction, ClientRun};

/// Runs a schedule whose requests are answered only when it waits for an
/// answer; gives back the actions and the most requests ever in flight.
fn run_lazily(run: &mut ClientRun) -> (Vec<ClientAction>, usize) {
    let mut out = Vec::new();
    let mut in_flight = 0usize;
    let mut most = 0usize;
    loop {
        let a = run.next();
        match a {
            ClientAction::Send { .. } => {
                in_flight += 1;
                most = most.max(in_flight);
            }
            ClientAction::Await => {
                run.reply_received();
                in_flight -= 1;
            }
            _ => {}
        }
        let done = matches!(a, ClientAction::Finish);
        out.push(a);
        if done {
            break;
        }
    }
    (out, most)
}

/// Runs a schedule whose requests are answered as soon as they are sent.
fn run_promptly(run: &mut ClientRun) -> Vec<ClientAction> {
    let mut out = Vec::new();
    loop {
        let a = run.next();
        if matches!(a, ClientAction::Send { .. }) {
            run.reply_received();
        }
        let done = matches!(a, ClientAction::Finish);
        out.push(a);
        if done {
            break;
        }
    }
    out
}

fn sends(actions: &[ClientAction]) -> Vec<(usize, bool)> {
    actions
        .iter()
        .filter_map(|a| match a {
            ClientAction::Send { req, measured } => Some((*req, *measured)),
            _ => None,
        })
        .collect()
}

fn pauses(actions: &[ClientAction]) -> Vec<u64> {
    actions
        .iter()
        .filter_map(|a| match a {
            ClientAction::Pause { millis } => Some(*millis),
            _ => None,
        })
        .collect()
}

#[test]
fn a_run_sends_both_phases_then_waits() {
    let mut run = ClientRun::new(4, 5, 2);
    let (actions, most) = run_lazily(&mut run);
    assert_eq!(sends(&actions), vec![(0, false), (1, false), (0, true), (1, true)]);
    assert_eq!(pauses(&actions), vec![5, 5, 5, 5]);
    let awaits = actions.iter().filter(|a| matches!(a, ClientAction::Await)).count();
    assert_eq!(awaits, 4);
    assert_eq!(actions.len(), 4 + 4 + 4 + 1);
    assert!(most <= 2);
    assert!(matches!(run.next(), ClientAction::Finish));
}

#[test]
fn requests_in_flight_never_exceed_the_slots() {
    for slots in 1..4 {
        let mut run = ClientRun::new(10, 0, slots);
        let (actions, most) = run_lazily(&mut run);
        assert_eq!(most, slots);
        assert_eq!(sends(&actions).len(), 10);
    }
}

#[test]
fn prompt_answers_need_no_waiting() {
    let mut run = ClientRun::new(4, 5, 1);
    let actions = run_promptly(&mut run);
    assert_eq!(actions.len(), 4 * 2 + 1);
    assert!(!actions.iter().any(|a| matches!(a, ClientAction::Await)));
}

#[test]
fn warm_up_pauses_ramp_down_without_a_configured_pause() {
    let mut run = ClientRun::new(24, 0, 1);
    let actions = run_promptly(&mut run);
    let pauses = pauses(&actions);
    assert_eq!(pauses.len(), 24);
    let mut ramp = 1000u64;
    for p in &pauses[..10] {
        assert!(ramp / 2 <= *p && *p < ramp, "pause {} outside {}..{}", p, ramp / 2, ramp);
        ramp -= 100;
    }
    assert!(pauses[10..].iter().all(|p| *p == 0));
}

#[test]
fn odd_operation_counts_drop_the_last_operation() {
    let mut run = ClientRun::new(3, 1, 1);
    let actions = run_promptly(&mut run);
    assert_eq!(sends(&actions).len(), 2);
}

#[test]
fn no_slots_means_waiting() {
    let mut run = ClientRun::new(2, 0, 0);
    assert!(matches!(run.next(), ClientAction::Await));
    assert!(matches!(run.next(), ClientAction::Await));
}

#[test]
fn throughput_formula() {
    assert_eq!(ops_per_second(500, 2_000_000), 250);
    assert_eq!(ops_per_second(3, 7), 428_571);
}
