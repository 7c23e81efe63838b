//! The process watcher's decisions: when to broadcast running and stopped.

use vstd::prelude::*;

verus! {

/// How long the watcher sleeps between two liveness polls, in milliseconds.
pub const WATCH_POLL_MS: u64 = 2000;

/// Where a process watcher stands in the life of the watched process.
#[derive(Clone, Copy, Debug, PartialEq, Eq, Structural)]
pub enum WatchPhase {
    /// The process has not been seen yet.
    WaitingForStart,
    /// The process was seen and `true` was broadcast.
    Running,
    /// The process disappeared and `false` was broadcast; the watch is over.
    Stopped,
}

/// The decisions of the process watcher: given each liveness poll, whether a
/// status value must be broadcast.
///
/// The thread that polls the process list and sleeps between polls hands each
/// observation to `observe` and broadcasts what comes back.
#[derive(Clone, Copy, Debug)]
pub struct Watcher {
    pub phase: WatchPhase,
}

/// One poll: the next phase, and the value to broadcast, if any.
pub open spec fn watch_step(p: WatchPhase, present: bool) -> (WatchPhase, Option<bool>) {
    match p {
        WatchPhase::WaitingForStart => if present {
            (WatchPhase::Running, Some(true))
        } else {
            (WatchPhase::WaitingForStart, None)
        },
        WatchPhase::Running => if present {
            (WatchPhase::Running, None)
        } else {
            (WatchPhase::Stopped, Some(false))
        },
        WatchPhase::Stopped => (WatchPhase::Stopped, None),
    }
}

/// A sequence of polls from phase `p`: the phase reached and every value
/// broadcast on the way, in order.
pub open spec fn watch_run(p: WatchPhase, polls: Seq<bool>) -> (WatchPhase, Seq<bool>)
    decreases polls.len(),
{
    if polls.len() == 0 {
        (p, Seq::empty())
    } else {
        let (q, sent) = watch_run(p, polls.drop_last());
        let (r, out) = watch_step(q, polls.last());
        (r, match out {
            Some(v) => sent.push(v),
            None => sent,
        })
    }
}

impl Watcher {
    /// A watcher that has not yet seen the process.
    pub fn new() -> (r: Watcher)
        ensures
            r.phase == WatchPhase::WaitingForStart,
    {
        Watcher { phase: WatchPhase::WaitingForStart }
    }

    /// Feeds one liveness poll; returns the status value to broadcast, if any.
    pub fn observe(&mut self, present: bool) -> (r: Option<bool>)
        ensures
            (final(self).phase, r) == watch_step(old(self).phase, present),
    {
        match self.phase {
            WatchPhase::WaitingForStart => {
                if present {
                    self.phase = WatchPhase::Running;
                    Some(true)
                } else {
                    None
                }
            },
            WatchPhase::Running => {
                if present {
                    None
                } else {
                    self.phase = WatchPhase::Stopped;
                    Some(false)
                }
            },
            WatchPhase::Stopped => None,
        }
    }

    /// Whether the watched process has come and gone, so polling can end.
    pub fn is_finished(&self) -> (r: bool)
        ensures
            r == (self.phase == WatchPhase::Stopped),
    {
        match self.phase {
            WatchPhase::Stopped => true,
            _ => false,
        }
    }
}

/// Whatever the polls, a watcher started before the process broadcasts
/// nothing, or `true` alone, or `true` then `false`; it is stopped exactly
/// when it has broadcast both, and it never broadcasts `true` twice in a row.
pub proof fn lemma_status_broadcasts(polls: Seq<bool>)
    ensures
        ({
            let (p, sent) = watch_run(WatchPhase::WaitingForStart, polls);
            &&& (p == WatchPhase::WaitingForStart && sent == Seq::<bool>::empty())
                || (p == WatchPhase::Running && sent == seq![true])
                || (p == WatchPhase::Stopped && sent == seq![true, false])
            &&& forall|i: int| 0 <= i < sent.len() - 1 ==> !(#[trigger] sent[i] && sent[i + 1])
        }),
    decreases polls.len(),
{
    if polls.len() > 0 {
        lemma_status_broadcasts(polls.drop_last());
        let (q, sent) = watch_run(WatchPhase::WaitingForStart, polls.drop_last());
        let (r, out) = watch_step(q, polls.last());
        assert(seq![true].push(false) == seq![true, false]);
        assert(Seq::<bool>::empty().push(true) == seq![true]);
    }
    let (p, sent) = watch_run(WatchPhase::WaitingForStart, polls);
    assert forall|i: int| 0 <= i < sent.len() - 1 implies !(#[trigger] sent[i] && sent[i + 1]) by {
        if sent.len() == 2 {
            assert(sent[1] == false);
        }
    }
}

} // verus!
