//! Asking one source after another.
use bgumcl::rounds::{SourceAction, SourceEvent, SourceRound};

#[test]
fn the_first_readable_answer_is_used() {
    let (mut round, action) = SourceRound::begin(3);
    assert_eq!(action, SourceAction::Ask(0));
    assert_eq!(round.step(SourceEvent::Unreachable), SourceAction::Ask(1));
    assert_eq!(round.step(SourceEvent::Read), SourceAction::Use);
}

#[test]
fn a_failed_round_tells_unreadable_from_unreachable() {
    let (mut round, _) = SourceRound::begin(2);
    round.step(SourceEvent::Unreadable);
    assert_eq!(
        round.step(SourceEvent::Unreachable),
        SourceAction::Fail { unreadable: true }
    );
    let (mut round, _) = SourceRound::begin(1);
    assert_eq!(
        round.step(SourceEvent::Unreachable),
        SourceAction::Fail { unreadable: false }
    );
    let (_, action) = SourceRound::begin(0);
    assert_eq!(action, SourceAction::Fail { unreadable: false });
}
