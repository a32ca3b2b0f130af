use pumpkin_net::address::scrub_address;
use pumpkin_net::reactor::{drain_step, AcceptOutcome, DrainStep};

#[test]
fn accept_loop_drains_all_pending() {
    let outcomes = [
        AcceptOutcome::Accepted,
        AcceptOutcome::Accepted,
        AcceptOutcome::Interrupted,
        AcceptOutcome::Accepted,
        AcceptOutcome::WouldBlock,
        AcceptOutcome::Accepted,
    ];
    let mut registered = 0;
    let mut back_to_polling = false;
    for o in outcomes {
        match drain_step(o) {
            DrainStep::Register => registered += 1,
            DrainStep::Retry => {}
            DrainStep::Done => {
                back_to_polling = true;
                break;
            }
            DrainStep::Fatal => panic!("fatal"),
        }
    }
    assert_eq!(registered, 3);
    assert!(back_to_polling);
}

#[test]
fn accept_errors() {
    assert_eq!(drain_step(AcceptOutcome::Failed), DrainStep::Fatal);
    assert_eq!(drain_step(AcceptOutcome::Interrupted), DrainStep::Retry);
    assert_eq!(drain_step(AcceptOutcome::WouldBlock), DrainStep::Done);
}

#[test]
fn scrubbed_addresses() {
    assert_eq!(scrub_address("127.0.0.1:25565", true), "xxx.x.x.x:xxxxx");
    assert_eq!(scrub_address("[::1]:80", true), "x::xx:xx");
    assert_eq!(scrub_address("127.0.0.1:25565", false), "127.0.0.1:25565");
    assert_eq!(scrub_address("", true), "");
}
