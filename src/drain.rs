use vstd::prelude::*;
use crate::queue::{parse_queue, queue_entries};

verus! {

/// Where the watcher stands within one notification batch.
#[derive(Clone, Copy, PartialEq, Eq, Structural, Debug)]
pub enum Phase {
    /// Waiting for the queue file to change.
    Idle,
    /// A batch has been read; the queue file is being emptied.
    Truncating,
    /// The batch entry at this position is being captured.
    Capturing(usize),
}

/// What the watcher's driver reports back.
#[derive(Clone, Debug)]
pub enum DrainEvent {
    /// The queue file changed; this is its text as read.
    QueueChanged(String),
    /// The queue file has been emptied.
    Truncated,
    /// The capture asked for last finished, successfully or not.
    CaptureDone(bool),
}

/// What the watcher's driver is to do next.
#[derive(Clone, Debug, PartialEq, Eq)]
pub enum DrainAction {
    /// Nothing to do until the next event.
    Wait,
    /// Empty the queue file.
    TruncateQueue,
    /// Run the capture pipeline for this identifier.
    Capture(String),
}

/// The decisions of the queue watcher: which identifiers of a batch to capture,
/// when to empty the queue file, and which identifiers are done.
#[derive(Clone, Debug)]
pub struct QueueDrainer {
    /// Identifiers captured successfully since the watcher started.
    pub handled: Vec<String>,
    /// The identifiers read at the start of the current batch.
    pub batch: Vec<String>,
    pub phase: Phase,
}

/// The first position at or after `k` whose identifier has not been handled,
/// or the batch's length if there is none.
pub open spec fn next_pending(batch: Seq<Seq<char>>, k: int, handled: Seq<Seq<char>>) -> int
    decreases batch.len() - k,
{
    if k >= batch.len() {
        batch.len() as int
    } else if !handled.contains(batch[k]) {
        k
    } else {
        next_pending(batch, k + 1, handled)
    }
}

impl QueueDrainer {
    pub open spec fn wf(&self) -> bool {
        match self.phase {
            Phase::Capturing(k) => k < self.batch@.len(),
            _ => true,
        }
    }

    /// Moving on from position `k` of the batch with `handled` as the handled
    /// identifiers: capture the next pending one, or go back to idle.
    pub open spec fn advanced(&self, old_batch: Seq<Seq<char>>, k: int, a: DrainAction) -> bool {
        let handled = self.handled.deep_view();
        let p = next_pending(old_batch, k, handled);
        &&& self.batch.deep_view() == old_batch
        &&& p < old_batch.len() ==> self.phase == Phase::Capturing(p as usize) && a
            == DrainAction::Capture(self.batch@[p])
        &&& p >= old_batch.len() ==> self.phase == Phase::Idle && a == DrainAction::Wait
    }

    pub fn new() -> (d: QueueDrainer)
        ensures
            d.wf(),
            d.handled@.len() == 0,
            d.batch@.len() == 0,
            d.phase == Phase::Idle,
    {
        QueueDrainer { handled: Vec::new(), batch: Vec::new(), phase: Phase::Idle }
    }

    /// Whether `id` has been captured successfully before.
    pub fn is_handled(&self, id: &String) -> (r: bool)
        ensures
            r == self.handled.deep_view().contains(id@),
    {
        let mut i: usize = 0;
        while i < self.handled.len()
            invariant
                i <= self.handled@.len(),
                forall|j: int| 0 <= j < i ==> self.handled@[j]@ != id@,
            decreases self.handled@.len() - i,
        {
            if self.handled[i] == *id {
                proof {
                    assert(self.handled.deep_view()[i as int] == id@);
                }
                return true;
            }
            i += 1;
        }
        proof {
            if self.handled.deep_view().contains(id@) {
                let j = choose|j: int|
                    0 <= j < self.handled.deep_view().len() && self.handled.deep_view()[j]
                        == id@;
                assert(self.handled@[j]@ == id@);
            }
        }
        false
    }

    /// Moves on from position `k`: skips identifiers already handled and asks
    /// for the capture of the next one, or goes idle at the end of the batch.
    fn advance(&mut self, k: usize) -> (a: DrainAction)
        requires
            k <= old(self).batch@.len(),
        ensures
            final(self).wf(),
            final(self).handled == old(self).handled,
            final(self).advanced(old(self).batch.deep_view(), k as int, a),
    {
        let ghost b = self.batch.deep_view();
        let ghost h = self.handled.deep_view();
        let mut j: usize = k;
        while j < self.batch.len()
            invariant
                k <= j <= self.batch@.len(),
                self.handled == old(self).handled,
                self.batch == old(self).batch,
                b == self.batch.deep_view(),
                h == self.handled.deep_view(),
                next_pending(b, k as int, h) == next_pending(b, j as int, h),
            decreases self.batch@.len() - j,
        {
            if !self.is_handled(&self.batch[j]) {
                proof {
                    assert(b[j as int] == self.batch@[j as int]@);
                }
                self.phase = Phase::Capturing(j);
                return DrainAction::Capture(self.batch[j].clone());
            }
            j += 1;
        }
        self.phase = Phase::Idle;
        DrainAction::Wait
    }

    /// Takes one event and says what to do next.
    ///
    /// - When idle, a change of the queue file starts a batch of the
    ///   identifiers in its text, and the file is emptied once for the batch.
    ///   A file already empty is left alone: there is nothing to remove, and
    ///   emptying it again would only report another change. A change reported during a batch leaves the batch as it
    ///   is: identifiers added meanwhile wait for the next change.
    /// - Once the file is emptied, and after each capture, the next identifier
    ///   of the batch that has not been handled is captured; after the last one
    ///   the watcher goes idle.
    /// - A successful capture marks its identifier handled; a failed one does not.
    /// - An event that does not fit the phase changes nothing.
    pub fn step(&mut self, ev: DrainEvent) -> (a: DrainAction)
        requires
            old(self).wf(),
        ensures
            final(self).wf(),
            match (old(self).phase, ev) {
                (Phase::Idle, DrainEvent::QueueChanged(text)) => {
                    &&& final(self).handled == old(self).handled
                    &&& final(self).batch.deep_view() == queue_entries(text@)
                    &&& text@.len() == 0 ==> final(self).phase == Phase::Idle && a
                        == DrainAction::Wait
                    &&& text@.len() > 0 ==> final(self).phase == Phase::Truncating && a
                        == DrainAction::TruncateQueue
                },
                (Phase::Truncating, DrainEvent::Truncated) => {
                    &&& final(self).handled == old(self).handled
                    &&& final(self).advanced(old(self).batch.deep_view(), 0, a)
                },
                (Phase::Capturing(k), DrainEvent::CaptureDone(ok)) => {
                    &&& ok ==> final(self).handled.deep_view() == old(
                        self,
                    ).handled.deep_view().push(old(self).batch@[k as int]@)
                    &&& !ok ==> final(self).handled == old(self).handled
                    &&& final(self).advanced(old(self).batch.deep_view(), k + 1, a)
                },
                _ => *final(self) == *old(self) && a == DrainAction::Wait,
            },
    {
        match (self.phase, ev) {
            (Phase::Idle, DrainEvent::QueueChanged(text)) => {
                self.batch = parse_queue(text.as_str());
                if text.as_str().unicode_len() == 0 {
                    DrainAction::Wait
                } else {
                    self.phase = Phase::Truncating;
                    DrainAction::TruncateQueue
                }
            },
            (Phase::Truncating, DrainEvent::Truncated) => self.advance(0),
            (Phase::Capturing(k), DrainEvent::CaptureDone(ok)) => {
                let n: usize = self.batch.len();
                assert(k < n);
                if ok {
                    let id = self.batch[k].clone();
                    let ghost before = self.handled.deep_view();
                    self.handled.push(id);
                    proof {
                        assert(self.handled.deep_view() =~= before.push(id@));
                    }
                }
                self.advance(k + 1)
            },
            _ => DrainAction::Wait,
        }
    }
}

} // verus!
