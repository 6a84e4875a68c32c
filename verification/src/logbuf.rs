//! The most recent log records, kept in memory.
use std::collections::VecDeque;

use vstd::prelude::*;
use vstd::slice::*;
use vstd::string::*;

use crate::text;
use crate::text::upper;

verus! {

/// How many records are kept.
pub const CAPACITY: usize = 2000;

/// What is logged: with debugging, more of this program, but no more of others.
pub fn filter_directive(debug: bool) -> (r: &'static str)
    ensures
        r@ == (if debug {
            "ferrite=debug"@
        } else {
            "ferrite=info"@
        }),
{
    if debug {
        "ferrite=debug"
    } else {
        "ferrite=info"
    }
}

/// The rank of a level: the more severe, the higher; zero for an unknown one.
pub open spec fn rank(level: Seq<char>) -> u8 {
    let l = upper(level);
    if l == "ERROR"@ {
        4
    } else if l == "WARN"@ {
        3
    } else if l == "INFO"@ {
        2
    } else if l == "DEBUG"@ {
        1
    } else {
        0
    }
}

/// The rank of a level, in any case.
pub fn rank_of(level: &str) -> (r: u8)
    ensures
        r == rank(level@),
{
    let cs = text::chars_of(level);
    let up = text::to_upper(cs.as_slice());
    let l = up.as_slice();
    if text::is_text(l, "ERROR") {
        4
    } else if text::is_text(l, "WARN") {
        3
    } else if text::is_text(l, "INFO") {
        2
    } else if text::is_text(l, "DEBUG") {
        1
    } else {
        0
    }
}

/// A log record.
#[derive(Debug)]
pub struct LogEntry {
    /// Increases with every record of the process.
    pub id: u64,
    /// In milliseconds since 1970.
    pub timestamp: i64,
    pub level: String,
    pub target: String,
    pub message: String,
}

impl Clone for LogEntry {
    fn clone(&self) -> (r: LogEntry)
        ensures
            r == *self,
    {
        LogEntry {
            id: self.id,
            timestamp: self.timestamp,
            level: self.level.clone(),
            target: self.target.clone(),
            message: self.message.clone(),
        }
    }
}

/// The records are numbered in their order, from one on and below `next`.
pub open spec fn numbered(entries: Seq<LogEntry>, next: u64) -> bool {
    &&& forall|i: int, j: int|
        0 <= i < j < entries.len() ==> (#[trigger] entries[i]).id < (#[trigger] entries[j]).id
    &&& forall|i: int| 0 <= i < entries.len() ==> 1 <= (#[trigger] entries[i]).id < next
}

/// The record is asked for: behind `after_id` and at least of this rank.
pub open spec fn asked_for(e: LogEntry, after_id: u64, min_rank: u8) -> bool {
    e.id > after_id && rank(e.level@) >= min_rank
}

/// The last items of a list.
pub open spec fn last_of<A>(s: Seq<A>, limit: usize) -> Seq<A> {
    if s.len() > limit {
        s.skip(s.len() - limit)
    } else {
        s
    }
}

/// The records with a new one behind them, and without the first one where there
/// are too many.
pub open spec fn pushed(entries: Seq<LogEntry>, e: LogEntry) -> Seq<LogEntry> {
    if entries.len() == CAPACITY {
        entries.skip(1).push(e)
    } else {
        entries.push(e)
    }
}

/// The most recent log records.
pub struct LogBuffer {
    entries: VecDeque<LogEntry>,
    next_id: u64,
}

impl LogBuffer {
    /// The records, the oldest first.
    pub closed spec fn entries(&self) -> Seq<LogEntry> {
        self.entries@
    }

    /// The number of the next record.
    pub closed spec fn next_id(&self) -> u64 {
        self.next_id
    }

    /// There are no more records than are kept, and they are numbered in order.
    pub open spec fn wf(&self) -> bool {
        &&& self.entries().len() <= CAPACITY
        &&& self.next_id() >= 1
        &&& numbered(self.entries(), self.next_id())
    }

    /// A buffer without records.
    pub fn new() -> (r: LogBuffer)
        ensures
            r.wf(),
            r.entries().len() == 0,
            r.next_id() == 1,
    {
        LogBuffer { entries: VecDeque::new(), next_id: 1 }
    }

    /// Adds a record. The oldest one makes room for it.
    pub fn push(&mut self, level: &str, target: String, message: String, timestamp: i64)
        requires
            old(self).wf(),
            old(self).next_id() < u64::MAX,
        ensures
            final(self).wf(),
            final(self).next_id() == old(self).next_id() + 1,
            exists|e: LogEntry|
                {
                    &&& e.id == old(self).next_id()
                    &&& e.timestamp == timestamp
                    &&& e.level@ == level@
                    &&& e.target == target
                    &&& e.message == message
                    &&& final(self).entries() == #[trigger] pushed(old(self).entries(), e)
                },
    {
        let ghost before = self.entries@;
        let e = LogEntry { id: self.next_id, timestamp, level: level.to_string(), target, message };
        let ghost entry = e;
        if self.entries.len() == CAPACITY {
            let _ = self.entries.pop_front();
            assert(self.entries@ =~= before.skip(1));
        }
        self.entries.push_back(e);
        self.next_id = self.next_id + 1;
        proof {
            assert(self.entries() =~= pushed(before, entry));
            assert forall|i: int, j: int| 0 <= i < j < self.entries().len() implies (#[trigger] self.entries()[i]).id < (
            #[trigger] self.entries()[j]).id by {
                let k = if before.len() == CAPACITY {
                    1int
                } else {
                    0int
                };
                assert(self.entries()[i] == before[i + k]);
                if j < self.entries().len() - 1 {
                    assert(self.entries()[j] == before[j + k]);
                }
            }
        }
    }

    /// The records behind `after_id` and at least of a rank, the oldest first, and of
    /// these no more than the last `limit`.
    pub fn recent(&self, after_id: u64, min_rank: u8, limit: usize) -> (r: Vec<LogEntry>)
        ensures
            r@ == last_of(self.entries().filter(|e: LogEntry| asked_for(e, after_id, min_rank)), limit),
    {
        let ghost f = |e: LogEntry| asked_for(e, after_id, min_rank);
        let ghost all = self.entries@;
        let mut out: Vec<LogEntry> = Vec::new();
        let mut i: usize = 0;
        assert(all.take(0).filter(f) =~= Seq::<LogEntry>::empty()) by {
            reveal(Seq::filter);
        }
        while i < self.entries.len()
            invariant
                i <= self.entries@.len(),
                all == self.entries@,
                f == (|e: LogEntry| asked_for(e, after_id, min_rank)),
                out@ == all.take(i as int).filter(f),
            decreases self.entries@.len() - i,
        {
            proof {
                assert(all.take(i + 1) =~= all.take(i as int).push(all[i as int]));
                text::lemma_filter_push(all.take(i as int), all[i as int], f);
            }
            let e = &self.entries[i];
            if e.id > after_id && rank_of(e.level.as_str()) >= min_rank {
                out.push(e.clone());
            }
            i = i + 1;
        }
        assert(all.take(all.len() as int) =~= all);
        if out.len() > limit {
            let n = out.len() - limit;
            let ghost full = out@;
            let kept = out.split_off(n);
            assert(kept@ =~= full.skip(n as int));
            return kept;
        }
        out
    }
}

/// After any record, the next poll from its number on shows every later one that is
/// kept, and none that was shown before.
pub proof fn cursors_miss_nothing(entries: Seq<LogEntry>, next: u64, i: int, e: LogEntry, min_rank: u8)
    requires
        numbered(entries, next),
        0 <= i < entries.len(),
    ensures
        entries.filter(|x: LogEntry| asked_for(x, entries[i].id, min_rank)).contains(e) <==> (exists|j: int|
            i < j < entries.len() && #[trigger] entries[j] == e && rank(e.level@) >= min_rank),
{
    let f = |x: LogEntry| asked_for(x, entries[i].id, min_rank);
    let shown = entries.filter(f);
    if shown.contains(e) {
        let k = choose|k: int| 0 <= k < shown.len() && shown[k] == e;
        entries.lemma_filter_pred(f, k);
        entries.lemma_filter_contains_rev(f, e);
        let j = choose|j: int| 0 <= j < entries.len() && entries[j] == e;
        assert(i < j);
    }
    if exists|j: int| i < j < entries.len() && #[trigger] entries[j] == e && rank(e.level@) >= min_rank {
        let j = choose|j: int| i < j < entries.len() && #[trigger] entries[j] == e && rank(e.level@) >= min_rank;
        entries.lemma_filter_contains(f, j);
    }
}

}
