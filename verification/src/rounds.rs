//! Asking one source after another until one gives a readable answer.
use vstd::prelude::*;

verus! {

/// What came of asking a source.
#[derive(Clone, Copy, Debug, PartialEq, Eq, Structural)]
pub enum SourceEvent {
    /// No answer came.
    Unreachable,
    /// An answer came that could not be read.
    Unreadable,
    /// The answer was read.
    Read,
}

/// What to do next.
#[derive(Clone, Copy, Debug, PartialEq, Eq, Structural)]
pub enum SourceAction {
    /// Ask the source at a position.
    Ask(usize),
    /// Use the answer that was read.
    Use,
    /// No source is left. Some answer came that could not be read, or none came at all.
    Fail { unreadable: bool },
}

/// How far the asking has come.
#[derive(Clone, Copy, Debug, PartialEq, Eq, Structural)]
pub struct SourceRound {
    pub count: usize,
    pub at: usize,
    pub saw_unreadable: bool,
}

impl SourceRound {
    /// What to do while nothing was read.
    pub open spec fn next(self) -> SourceAction {
        if self.at < self.count {
            SourceAction::Ask(self.at)
        } else {
            SourceAction::Fail { unreadable: self.saw_unreadable }
        }
    }

    /// The state once a source was asked.
    pub open spec fn after(self, event: SourceEvent) -> SourceRound {
        SourceRound {
            count: self.count,
            at: (self.at + 1) as usize,
            saw_unreadable: self.saw_unreadable || event == SourceEvent::Unreadable,
        }
    }

    /// What to do once a source was asked.
    pub open spec fn reply(self, event: SourceEvent) -> SourceAction {
        if event == SourceEvent::Read {
            SourceAction::Use
        } else {
            self.after(event).next()
        }
    }

    fn next_action(&self) -> (r: SourceAction)
        ensures
            r == self.next(),
    {
        if self.at < self.count {
            SourceAction::Ask(self.at)
        } else {
            SourceAction::Fail { unreadable: self.saw_unreadable }
        }
    }

    /// Begins with a number of sources.
    pub fn begin(count: usize) -> (r: (Self, SourceAction))
        ensures
            r.0 == (SourceRound { count, at: 0, saw_unreadable: false }),
            r.1 == r.0.next(),
    {
        let round = SourceRound { count, at: 0, saw_unreadable: false };
        let action = round.next_action();
        (round, action)
    }

    /// Goes on with what came of the source that was asked.
    pub fn step(&mut self, event: SourceEvent) -> (r: SourceAction)
        requires
            old(self).at < old(self).count,
        ensures
            *final(self) == old(self).after(event),
            r == old(self).reply(event),
    {
        self.at = self.at + 1;
        match event {
            SourceEvent::Read => SourceAction::Use,
            SourceEvent::Unreadable => {
                self.saw_unreadable = true;
                self.next_action()
            },
            SourceEvent::Unreachable => self.next_action(),
        }
    }
}

/// An answer that was read is used, and nothing else is. After any other event the next source is
/// asked, and the round fails only behind the last one.
pub proof fn read_answers_are_used(s: SourceRound, event: SourceEvent)
    requires
        s.at < s.count,
    ensures
        s.reply(event) == SourceAction::Use <==> event == SourceEvent::Read,
        event != SourceEvent::Read && s.at + 1 < s.count ==> s.reply(event) == SourceAction::Ask(
            (s.at + 1) as usize,
        ),
        s.reply(event) is Fail <==> event != SourceEvent::Read && s.at + 1 == s.count,
        s.reply(event) matches SourceAction::Fail { unreadable } ==> unreadable == (s.saw_unreadable
            || event == SourceEvent::Unreadable),
{
}

/// The state after several sources.
pub open spec fn after_sources(s: SourceRound, events: Seq<SourceEvent>) -> SourceRound
    decreases events.len(),
{
    if events.len() == 0 {
        s
    } else {
        after_sources(s, events.drop_last()).after(events.last())
    }
}

/// Every source is asked in its turn; and when all have failed, the failure tells whether some
/// answer came that could not be read.
pub proof fn every_source_is_asked_in_turn(count: usize, events: Seq<SourceEvent>)
    requires
        events.len() <= count,
    ensures
        ({
            let start = SourceRound { count, at: 0, saw_unreadable: false };
            let end = after_sources(start, events);
            &&& end.count == count
            &&& end.at == events.len()
            &&& end.saw_unreadable == events.contains(SourceEvent::Unreadable)
            &&& events.len() < count ==> end.next() == SourceAction::Ask(end.at)
            &&& events.len() == count ==> end.next() == (SourceAction::Fail {
                unreadable: events.contains(SourceEvent::Unreadable),
            })
        }),
    decreases events.len(),
{
    if events.len() > 0 {
        let front = events.drop_last();
        every_source_is_asked_in_turn(count, front);
        let e = SourceEvent::Unreadable;
        if events.contains(e) && events.last() != e {
            let k = choose|k: int| 0 <= k < events.len() && events[k] == e;
            assert(front[k] == e);
        }
        if front.contains(e) {
            let k = choose|k: int| 0 <= k < front.len() && front[k] == e;
            assert(events[k] == e);
        }
    }
}

} // verus!
