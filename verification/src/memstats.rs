//! How much memory the program uses, and how many connections are alive.
use vstd::prelude::*;
use vstd::slice::*;
use vstd::string::*;

use crate::text;
use crate::text::{char_texts, first_found, lines, number, without_plus, words};

verus! {

/// How many bytes are allocated now, and how many were at most.
#[derive(Debug)]
pub struct HeapCount {
    live: usize,
    peak: usize,
}

impl HeapCount {
    /// The bytes that are allocated.
    pub closed spec fn live(&self) -> usize {
        self.live
    }

    /// The most bytes that ever were.
    pub closed spec fn peak(&self) -> usize {
        self.peak
    }

    /// The peak is never below what is allocated.
    pub open spec fn wf(&self) -> bool {
        self.live() <= self.peak()
    }

    /// Nothing is allocated.
    pub fn new() -> (r: HeapCount)
        ensures
            r.wf(),
            r.live() == 0,
            r.peak() == 0,
    {
        HeapCount { live: 0, peak: 0 }
    }

    /// Some bytes were allocated.
    pub fn add(&mut self, size: usize)
        requires
            old(self).wf(),
            old(self).live() + size <= usize::MAX,
        ensures
            final(self).wf(),
            final(self).live() == old(self).live() + size,
            final(self).peak() == (if old(self).live() + size > old(self).peak() {
                old(self).live() + size
            } else {
                old(self).peak() as int
            }),
    {
        self.live = self.live + size;
        if self.live > self.peak {
            self.peak = self.live;
        }
    }

    /// Some bytes were freed.
    pub fn sub(&mut self, size: usize)
        requires
            old(self).wf(),
            size <= old(self).live(),
        ensures
            final(self).wf(),
            final(self).live() == old(self).live() - size,
            final(self).peak() == old(self).peak(),
    {
        self.live = self.live - size;
    }

    /// An allocation has got another size.
    pub fn resize(&mut self, before: usize, after: usize)
        requires
            old(self).wf(),
            before <= old(self).live(),
            old(self).live() - before + after <= usize::MAX,
        ensures
            final(self).wf(),
            final(self).live() == old(self).live() - before + after,
            final(self).peak() == (if old(self).live() - before + after > old(self).peak() {
                old(self).live() - before + after
            } else {
                old(self).peak() as int
            }),
    {
        self.sub(before);
        self.add(after);
    }
}

/// The bytes that are allocated.
pub fn heap_live_bytes(heap: &HeapCount) -> (r: usize)
    ensures
        r == heap.live(),
{
    heap.live
}

/// The most bytes that ever were allocated.
pub fn heap_peak_bytes(heap: &HeapCount) -> (r: usize)
    ensures
        r == heap.peak(),
{
    heap.peak
}

/// Counts what is alive. Each that is counted holds a guard, and gives it back once.
#[derive(Debug)]
pub struct Gauge {
    count: usize,
}

/// The sign that something is counted. It cannot be copied.
#[derive(Debug)]
pub struct GaugeGuard {
    counted: bool,
}

impl Gauge {
    /// How many are alive.
    pub closed spec fn count(&self) -> usize {
        self.count
    }

    /// Nothing is alive.
    pub fn new() -> (r: Gauge)
        ensures
            r.count() == 0,
    {
        Gauge { count: 0 }
    }

    /// One more is alive, until its guard comes back.
    pub fn guard(&mut self) -> (r: GaugeGuard)
        requires
            old(self).count() < usize::MAX,
        ensures
            final(self).count() == old(self).count() + 1,
    {
        self.count = self.count + 1;
        GaugeGuard { counted: true }
    }

    /// One of those alive is no more.
    pub fn release(&mut self, guard: GaugeGuard)
        requires
            old(self).count() > 0,
        ensures
            final(self).count() == old(self).count() - 1,
    {
        self.count = self.count - 1;
    }

    /// How many are alive.
    pub fn get(&self) -> (r: usize)
        ensures
            r == self.count(),
    {
        self.count
    }
}

impl Default for Gauge {
    fn default() -> (r: Gauge)
        ensures
            r.count() == 0,
    {
        Gauge::new()
    }
}

/// The memory that is resident, and how much of it belongs to no file.
#[derive(Debug)]
pub struct SmapsRollup {
    pub rss_bytes: u64,
    pub anonymous_bytes: u64,
}

/// The number on a line, in KiB: its second word.
pub open spec fn second_number(line: Seq<char>) -> Option<nat> {
    let w = words(line);
    if w.len() < 2 {
        None
    } else {
        match number(without_plus(w[1]), 10) {
            Some(n) => if n <= u64::MAX {
                Some(n)
            } else {
                None
            },
            None => None,
        }
    }
}

/// The number of the first line that starts with a name.
pub open spec fn kib_of(report: Seq<char>, name: Seq<char>) -> Option<nat> {
    match first_found(
        lines(report),
        |l: Seq<char>|
            if name.is_prefix_of(l) {
                Some(second_number(l))
            } else {
                None
            },
    ) {
        Some(n) => n,
        None => None,
    }
}

fn read_kib(report: &str, name: &str) -> (r: Option<u64>)
    ensures
        match r {
            Some(n) => kib_of(report@, name@) == Some(n as nat),
            None => kib_of(report@, name@) is None,
        },
{
    let cs = text::chars_of(report);
    let ls = text::split_lines(cs.as_slice());
    let ghost lv = char_texts(ls@);
    let ghost f = |l: Seq<char>|
        if name@.is_prefix_of(l) {
            Some(second_number(l))
        } else {
            None
        };
    let mut i: usize = 0;
    while i < ls.len()
        invariant
            i <= ls@.len(),
            lv == char_texts(ls@),
            lv == lines(report@),
            f == (|l: Seq<char>|
                if name@.is_prefix_of(l) {
                    Some(second_number(l))
                } else {
                    None
                }),
            first_found(lv.take(i as int), f) is None,
        decreases ls@.len() - i,
    {
        proof {
            assert(lv.take(i + 1) =~= lv.take(i as int).push(ls@[i as int]@));
            text::lemma_first_found_push(lv.take(i as int), ls@[i as int]@, f);
            text::lemma_first_found_prefix(lv.take(i + 1), lv.skip(i + 1), f);
            assert(lv.take(i + 1) + lv.skip(i + 1) =~= lv);
        }
        let line = ls[i].as_slice();
        if text::starts_with(line, name) {
            let ws = text::split_words(line);
            if ws.len() < 2 {
                return None;
            }
            assert(char_texts(ws@)[1] == ws@[1]@);
            return text::parse_unsigned(ws[1].as_slice(), u64::MAX);
        }
        i = i + 1;
    }
    assert(lv.take(lv.len() as int) =~= lv);
    None
}

/// Reads what the system reports of the program's memory. The report gives its
/// numbers in KiB.
pub fn smaps_rollup(report: &str) -> (r: Option<SmapsRollup>)
    requires
        kib_of(report@, "Rss:"@) matches Some(n) ==> n * 1024 <= u64::MAX,
        kib_of(report@, "Anonymous:"@) matches Some(n) ==> n * 1024 <= u64::MAX,
    ensures
        match (kib_of(report@, "Rss:"@), kib_of(report@, "Anonymous:"@)) {
            (Some(a), Some(b)) => match r {
                Some(s) => s.rss_bytes == a * 1024 && s.anonymous_bytes == b * 1024,
                None => false,
            },
            _ => r is None,
        },
{
    let rss = read_kib(report, "Rss:");
    let anonymous = read_kib(report, "Anonymous:");
    match (rss, anonymous) {
        (Some(a), Some(b)) => Some(SmapsRollup { rss_bytes: a * 1024, anonymous_bytes: b * 1024 }),
        _ => None,
    }
}

}
