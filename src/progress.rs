//! Per-file progress of a copy: events carrying bytes copied, bytes in all and
//! a whole percentage, and a stream that keeps them increasing and complete.
use vstd::prelude::*;

verus! {

/// The whole percentage of `total` that `copied` makes up; an empty file counts as done.
pub open spec fn percent_of(copied: nat, total: nat) -> nat {
    if total == 0 {
        100
    } else {
        copied * 100 / total
    }
}

pub struct ProgressEvent {
    pub subject_path: String,
    pub bytes_copied: u64,
    pub bytes_total: u64,
    pub percent: u64,
}

impl ProgressEvent {
    pub open spec fn wf(&self) -> bool {
        &&& self.bytes_copied <= self.bytes_total
        &&& self.percent == percent_of(self.bytes_copied as nat, self.bytes_total as nat)
    }

    /// The event that closes a file's stream.
    pub open spec fn is_terminal(&self) -> bool {
        self.bytes_copied == self.bytes_total && self.percent == 100
    }

    pub fn new(subject_path: String, bytes_copied: u64, bytes_total: u64) -> (r: Self)
        requires
            bytes_copied <= bytes_total,
        ensures
            r.wf(),
            r.subject_path@ == subject_path@,
            r.bytes_copied == bytes_copied,
            r.bytes_total == bytes_total,
    {
        let percent: u64 = if bytes_total == 0 {
            100
        } else {
            let scaled: u128 = (bytes_copied as u128) * 100;
            proof {
                let c = bytes_copied as int;
                let t = bytes_total as int;
                assert(c * 100 <= t * 100) by (nonlinear_arith)
                    requires c <= t;
                assert((c * 100) / t <= (t * 100) / t) by (nonlinear_arith)
                    requires c * 100 <= t * 100, t > 0, c >= 0;
                assert((t * 100) / t == 100) by (nonlinear_arith)
                    requires t > 0;
            }
            (scaled / (bytes_total as u128)) as u64
        };
        ProgressEvent { subject_path, bytes_copied, bytes_total, percent }
    }
}

/// A full copy reports one hundred percent, whatever the file's size.
pub proof fn lemma_full_copy_is_complete(total: nat)
    ensures
        percent_of(total, total) == 100,
{
    if total > 0 {
        assert((total * 100) / total == 100) by (nonlinear_arith)
            requires total > 0;
    }
}

/// The events reported while one file is copied.
pub struct ProgressStream {
    pub subject_path: String,
    pub bytes_total: u64,
    pub events: Vec<ProgressEvent>,
}

impl ProgressStream {
    /// Every event is well formed and about this file, and bytes copied strictly increase.
    pub open spec fn wf(&self) -> bool {
        &&& forall|i: int|
            0 <= i < self.events.len() ==> {
                &&& #[trigger] self.events@[i].wf()
                &&& self.events@[i].bytes_total == self.bytes_total
                &&& self.events@[i].subject_path@ == self.subject_path@
            }
        &&& forall|i: int, j: int|
            0 <= i < j < self.events.len() ==> self.events@[i].bytes_copied
                < self.events@[j].bytes_copied
    }

    pub open spec fn is_complete(&self) -> bool {
        self.events.len() > 0 && self.events@.last().is_terminal()
    }

    pub fn start(subject_path: String, bytes_total: u64) -> (r: Self)
        ensures
            r.wf(),
            r.subject_path@ == subject_path@,
            r.bytes_total == bytes_total,
            r.events@.len() == 0,
    {
        ProgressStream { subject_path, bytes_total, events: Vec::new() }
    }

    /// Records that `processed` bytes have been written so far (capped at the
    /// total). An event is emitted only when this moves past the last one.
    pub fn observe(&mut self, processed: u64) -> (emitted: bool)
        requires
            old(self).wf(),
        ensures
            final(self).wf(),
            final(self).subject_path@ == old(self).subject_path@,
            final(self).bytes_total == old(self).bytes_total,
            ({
                let c = if processed < old(self).bytes_total {
                    processed
                } else {
                    old(self).bytes_total
                };
                emitted == (old(self).events.len() == 0 || old(self).events@.last().bytes_copied
                    < c)
            }),
            emitted ==> final(self).events@.len() == old(self).events@.len() + 1
                && final(self).events@.drop_last() == old(self).events@
                && final(self).events@.last().bytes_copied == (if processed
                < old(self).bytes_total {
                processed
            } else {
                old(self).bytes_total
            }),
            !emitted ==> final(self).events@ == old(self).events@,
    {
        let c = if processed < self.bytes_total {
            processed
        } else {
            self.bytes_total
        };
        let n = self.events.len();
        if n == 0 || self.events[n - 1].bytes_copied < c {
            let ev = ProgressEvent::new(self.subject_path.clone(), c, self.bytes_total);
            self.events.push(ev);
            assert(self.events@.drop_last() =~= old(self).events@);
            true
        } else {
            false
        }
    }

    /// Closes the stream: afterwards its last event reports every byte copied
    /// and one hundred percent. An event is added only if the last one did not.
    pub fn finish(&mut self)
        requires
            old(self).wf(),
        ensures
            final(self).wf(),
            final(self).is_complete(),
            final(self).subject_path@ == old(self).subject_path@,
            final(self).bytes_total == old(self).bytes_total,
            old(self).is_complete() ==> final(self).events@ == old(self).events@,
            !old(self).is_complete() ==> final(self).events@.drop_last() == old(self).events@,
    {
        let n = self.events.len();
        if n > 0 {
            assert(self.events@[n - 1].wf());
            assert(self.events@.last() == self.events@[n - 1]);
        }
        if n == 0 || self.events[n - 1].bytes_copied < self.bytes_total {
            let ev = ProgressEvent::new(self.subject_path.clone(), self.bytes_total, self.bytes_total);
            proof {
                lemma_full_copy_is_complete(self.bytes_total as nat);
            }
            self.events.push(ev);
            assert(self.events@.drop_last() =~= old(self).events@);
        } else {
            proof {
                lemma_full_copy_is_complete(self.bytes_total as nat);
            }
        }
    }
}

} // verus!
