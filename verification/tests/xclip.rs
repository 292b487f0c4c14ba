use superclip::xclip::{wait_step, ChildPoll, ClaimStep, ClaimWatch, WaitStep};

#[test]
fn a_child_is_collected_killed_or_polled() {
    assert_eq!(wait_step(ChildPoll::Exited, false), WaitStep::Collect);
    assert_eq!(wait_step(ChildPoll::Exited, true), WaitStep::Collect);
    assert_eq!(wait_step(ChildPoll::Running, false), WaitStep::Poll);
    assert_eq!(wait_step(ChildPoll::Running, true), WaitStep::Kill);
    assert_eq!(wait_step(ChildPoll::Failed, false), WaitStep::Fail);
}

#[test]
fn ownership_needs_two_looks_in_a_row() {
    let served = Some("TARGETS\nimage/png\n");
    let mut watch = ClaimWatch::new();
    assert_eq!(watch.look(served, false), ClaimStep::Confirm);
    assert!(watch.confirmed);
    assert_eq!(watch.look(served, false), ClaimStep::Claimed);
}

#[test]
fn a_lapse_between_looks_starts_over() {
    let served = Some("TARGETS\nimage/png");
    let mut watch = ClaimWatch::new();
    assert_eq!(watch.look(served, false), ClaimStep::Confirm);
    assert_eq!(watch.look(Some("TARGETS\ntext/plain"), false), ClaimStep::Wait);
    assert!(!watch.confirmed);
    assert_eq!(watch.look(served, false), ClaimStep::Confirm);
    assert_eq!(watch.look(served, true), ClaimStep::Claimed);
}

#[test]
fn the_deadline_ends_an_unserved_claim() {
    let mut watch = ClaimWatch::new();
    assert_eq!(watch.look(None, false), ClaimStep::Wait);
    assert_eq!(watch.look(None, true), ClaimStep::Abandon);
    let mut late = ClaimWatch::new();
    assert_eq!(late.look(Some("image/png"), true), ClaimStep::Confirm);
    assert_eq!(late.look(Some("image/pngx"), true), ClaimStep::Abandon);
}
