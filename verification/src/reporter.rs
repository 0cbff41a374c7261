//! The event vocabulary through which the engine reports progress to an
//! external presentation layer. Events are a passive record: they never
//! influence control flow.

use vstd::prelude::*;
use crate::config::ModeIntent;
use crate::version::Version;

verus! {

/// What the engine is doing while a step is underway.
#[derive(Clone, Copy, Debug, PartialEq, Eq, Structural)]
pub enum ProgressAction {
    Installing(Version),
    Checking(Version),
    FetchingIndex,
}

/// The fixed vocabulary of progress and result events of a run.
///
/// A run announces its mode once, sets its step total once the catalog size
/// is known, emits one progress/completion pair per check performed, and
/// ends with exactly one terminal event.
#[derive(Clone, Copy, Debug, PartialEq, Eq, Structural)]
pub enum Event {
    ModeAnnounced(ModeIntent),
    StepsSet(u64),
    Progress(ProgressAction),
    StepCompleted(Version, bool),
    FinishedSuccess(ModeIntent, Version),
    FinishedFailure(ModeIntent),
}

/// A terminal event closes a run.
pub open spec fn is_terminal_event(e: Event) -> bool {
    e is FinishedSuccess || e is FinishedFailure
}

/// How many terminal events a stream holds.
pub open spec fn count_terminal(es: Seq<Event>) -> int
    decreases es.len(),
{
    if es.len() == 0 {
        0
    } else {
        count_terminal(es.drop_last()) + if is_terminal_event(es.last()) {
            1int
        } else {
            0int
        }
    }
}

/// Terminal-event counts add over concatenation.
pub proof fn lemma_count_terminal_add(a: Seq<Event>, b: Seq<Event>)
    ensures
        count_terminal(a + b) == count_terminal(a) + count_terminal(b),
    decreases b.len(),
{
    if b.len() == 0 {
        assert(a + b =~= a);
    } else {
        assert((a + b).drop_last() =~= a + b.drop_last());
        assert((a + b).last() == b.last());
        lemma_count_terminal_add(a, b.drop_last());
    }
}

} // verus!
