//! Sliding replay window over 64-bit sequence numbers.

use vstd::prelude::*;
use crate::REPLAY_WINDOW_SIZE;

verus! {

/// What a replay window stands for: the highest sequence number accepted so
/// far and the accepted numbers that the window still covers.
pub struct ReplayView {
    pub highest: u64,
    pub seen: Set<u64>,
}

impl ReplayView {
    /// The window before anything was accepted.
    pub open spec fn empty() -> ReplayView {
        ReplayView { highest: 0, seen: Set::empty() }
    }

    /// Whether `sequence` still lies inside a window whose top is `highest`.
    pub open spec fn covers(highest: u64, sequence: u64) -> bool {
        sequence + REPLAY_WINDOW_SIZE > highest
    }

    /// Whether the window refuses `sequence`: it is too old, or it was
    /// accepted before.
    pub open spec fn rejects(self, sequence: u64) -> bool {
        !Self::covers(self.highest, sequence) || self.seen.contains(sequence)
    }

    /// The window after `sequence` was accepted: the number is marked, the top
    /// moves up to it if it is higher, and marks that fall out of the low end
    /// are cleared.
    pub open spec fn accept(self, sequence: u64) -> ReplayView {
        let highest = if sequence > self.highest { sequence } else { self.highest };
        ReplayView {
            highest,
            seen: self.seen.insert(sequence).filter(|s: u64| Self::covers(highest, s)),
        }
    }
}

/// Replay window: one slot per residue of the sequence number, each holding
/// the last number accepted with that residue.
pub struct ReplayProtection {
    most_recent_sequence: u64,
    received_packet: [Option<u64>; REPLAY_WINDOW_SIZE],
}

impl View for ReplayProtection {
    type V = ReplayView;

    closed spec fn view(&self) -> ReplayView {
        ReplayView {
            highest: self.most_recent_sequence,
            seen: Set::new(
                |s: u64|
                    self.received_packet@[(s % 256) as int] == Some(s) && ReplayView::covers(
                        self.most_recent_sequence,
                        s,
                    ),
            ),
        }
    }
}

impl ReplayProtection {
    /// Every occupied slot holds a number of its own residue that is not above
    /// the highest accepted one.
    pub closed spec fn wf(&self) -> bool {
        forall|i: int|
            0 <= i < 256 ==> match #[trigger] self.received_packet@[i] {
                Some(s) => s % 256 == i && s <= self.most_recent_sequence,
                None => true,
            }
    }

    /// A window that has accepted nothing.
    pub fn new() -> (window: ReplayProtection)
        ensures
            window.wf(),
            window@ == ReplayView::empty(),
    {
        let window = ReplayProtection {
            most_recent_sequence: 0,
            received_packet: [None;REPLAY_WINDOW_SIZE],
        };
        assert(window@.seen =~= Set::empty());
        window
    }

    /// The highest sequence number accepted so far (0 before the first).
    pub fn most_recent_sequence(&self) -> (highest: u64)
        ensures
            highest == self@.highest,
    {
        self.most_recent_sequence
    }

    /// Whether the window refuses `sequence`.
    pub fn is_already_received(&self, sequence: u64) -> (refused: bool)
        requires
            self.wf(),
        ensures
            refused == self@.rejects(sequence),
    {
        if sequence <= u64::MAX - 256 && sequence + 256 <= self.most_recent_sequence {
            return true;
        }
        let index: usize = (sequence % 256) as usize;
        match self.received_packet[index] {
            Some(held) => held >= sequence,
            None => false,
        }
    }

    /// Marks `sequence` as accepted. Meant for a number that the window does
    /// not refuse.
    pub fn advance_sequence(&mut self, sequence: u64)
        requires
            old(self).wf(),
            !old(self)@.rejects(sequence),
        ensures
            final(self).wf(),
            final(self)@ == old(self)@.accept(sequence),
    {
        if sequence > self.most_recent_sequence {
            self.most_recent_sequence = sequence;
        }
        let index: usize = (sequence % 256) as usize;
        self.received_packet[index] = Some(sequence);
        assert(self@.seen =~= old(self)@.accept(sequence).seen);
    }
}

/// A sequence number that the window has accepted is refused from then on.
pub proof fn lemma_accepted_is_rejected(window: ReplayView, sequence: u64)
    ensures
        window.accept(sequence).rejects(sequence),
{
}

/// A sequence number that the window refuses stays refused whatever is
/// accepted afterwards.
pub proof fn lemma_rejection_is_stable(window: ReplayView, earlier: u64, sequence: u64)
    requires
        window.rejects(earlier),
    ensures
        window.accept(sequence).rejects(earlier),
{
}

} // verus!
