//! What is shown of the machine.
use vstd::prelude::*;
use vstd::slice::*;
use vstd::string::*;

use crate::startup::minus;
use crate::text;
use crate::text::{first_found, number, texts, trim, without_plus};

verus! {

/// How long statistics of the machine are shown before they are taken again, in
/// milliseconds.
pub const SYSTEM_STATS_TTL_MS: u64 = 3000;

/// How long network traffic is measured, in milliseconds.
pub const NET_SAMPLE_WINDOW_MS: u64 = 200;

/// Memory in bytes.
#[derive(Debug, Clone, Copy)]
pub struct MemorySnapshot {
    pub total: u64,
    /// What is not available: caches that can be given up do not count.
    pub used: u64,
    pub available: u64,
    pub free: u64,
    /// What is not free.
    pub allocated: u64,
    /// What is available though it is not free.
    pub reclaimable: u64,
}

/// Memory as it is shown.
pub fn memory_snapshot(total: u64, available: u64, free: u64) -> (r: MemorySnapshot)
    ensures
        r.total == total,
        r.available == available,
        r.free == free,
        r.used == minus(total as int, available as int),
        r.allocated == minus(total as int, free as int),
        r.reclaimable == minus(available as int, free as int),
{
    MemorySnapshot {
        total,
        used: total.saturating_sub(available),
        available,
        free,
        allocated: total.saturating_sub(free),
        reclaimable: available.saturating_sub(free),
    }
}

/// What was seen of a network interface.
#[derive(Debug)]
pub struct InterfaceSample {
    pub name: String,
    /// What the system says of its state; empty where it says nothing.
    pub operstate: String,
    pub received: u64,
    pub transmitted: u64,
    /// What the system says of its speed, in Mbit/s.
    pub speed: Option<String>,
}

/// What was seen of all interfaces that are up.
#[derive(Debug)]
pub struct NetworkTotals {
    pub rx_bytes: u64,
    pub tx_bytes: u64,
    pub link_speed_mbps: Option<u64>,
    pub interfaces: Vec<String>,
}

/// The interface counts: it leads out of the machine and is not down.
pub open spec fn active(s: InterfaceSample) -> bool {
    let state = trim(s.operstate@);
    &&& s.name@ != "lo"@
    &&& s.name@ != "lo0"@
    &&& state != "down"@
    &&& state != "notpresent"@
    &&& state != "lowerlayerdown"@
}

/// The speed of an interface, where it is a positive number.
pub open spec fn speed_of(s: InterfaceSample) -> Option<u64> {
    match s.speed {
        Some(t) => match number(without_plus(trim(t@)), 10) {
            Some(n) => if 0 < n && n <= i64::MAX {
                Some(n as u64)
            } else {
                None
            },
            None => None,
        },
        None => None,
    }
}

/// The interfaces that count.
pub open spec fn active_ones(samples: Seq<InterfaceSample>) -> Seq<InterfaceSample> {
    samples.filter(|s: InterfaceSample| active(s))
}

/// What interfaces have received and sent.
pub open spec fn traffic(samples: Seq<InterfaceSample>) -> (nat, nat)
    decreases samples.len(),
{
    if samples.len() == 0 {
        (0, 0)
    } else {
        let (r, t) = traffic(samples.drop_last());
        (r + samples.last().received as nat, t + samples.last().transmitted as nat)
    }
}

/// The names of interfaces.
pub open spec fn interface_names(samples: Seq<InterfaceSample>) -> Seq<Seq<char>> {
    samples.map_values(|s: InterfaceSample| s.name@)
}

/// The speed of the first interface that has one.
pub open spec fn link_speed(samples: Seq<InterfaceSample>) -> Option<u64> {
    first_found(samples, |s: InterfaceSample| speed_of(s))
}

fn is_active(s: &InterfaceSample) -> (r: bool)
    ensures
        r == active(*s),
{
    let cs = text::chars_of(s.operstate.as_str());
    let state = text::trimmed(cs.as_slice());
    !text::str_same(s.name.as_str(), "lo") && !text::str_same(s.name.as_str(), "lo0") && !text::is_text(state, "down")
        && !text::is_text(state, "notpresent") && !text::is_text(state, "lowerlayerdown")
}

fn read_speed(s: &InterfaceSample) -> (r: Option<u64>)
    ensures
        r == speed_of(*s),
{
    match &s.speed {
        Some(t) => {
            let cs = text::chars_of(t.as_str());
            match text::parse_unsigned(text::trimmed(cs.as_slice()), 0x7fff_ffff_ffff_ffff) {
                Some(n) => if n > 0 {
                    Some(n)
                } else {
                    None
                },
                None => None,
            }
        },
        None => None,
    }
}

proof fn lemma_traffic_grows(samples: Seq<InterfaceSample>, n: int)
    requires
        0 <= n <= samples.len(),
    ensures
        traffic(active_ones(samples.take(n))).0 <= traffic(active_ones(samples)).0,
        traffic(active_ones(samples.take(n))).1 <= traffic(active_ones(samples)).1,
    decreases samples.len() - n,
{
    if n < samples.len() {
        lemma_traffic_grows(samples, n + 1);
        let f = |s: InterfaceSample| active(s);
        assert(samples.take(n + 1) =~= samples.take(n).push(samples[n]));
        text::lemma_filter_push(samples.take(n), samples[n], f);
        if active(samples[n]) {
            let t = active_ones(samples.take(n));
            assert(t.push(samples[n]).drop_last() =~= t);
        }
    } else {
        assert(samples.take(n) =~= samples);
    }
}

/// Adds up what was seen of the interfaces that count.
pub fn collect_network(samples: &Vec<InterfaceSample>) -> (r: NetworkTotals)
    requires
        traffic(active_ones(samples@)).0 <= u64::MAX,
        traffic(active_ones(samples@)).1 <= u64::MAX,
    ensures
        (r.rx_bytes as nat, r.tx_bytes as nat) == traffic(active_ones(samples@)),
        texts(r.interfaces@) == interface_names(active_ones(samples@)),
        r.link_speed_mbps == link_speed(active_ones(samples@)),
{
    let ghost f = |s: InterfaceSample| active(s);
    let ghost g = |s: InterfaceSample| speed_of(s);
    let mut rx: u64 = 0;
    let mut tx: u64 = 0;
    let mut speed: Option<u64> = None;
    let mut names: Vec<String> = Vec::new();
    let mut i: usize = 0;
    proof {
        assert(samples@.take(0).filter(f) =~= Seq::<InterfaceSample>::empty()) by {
            reveal(Seq::filter);
        }
        assert(texts(names@) =~= interface_names(active_ones(samples@.take(0))));
    }
    while i < samples.len()
        invariant
            i <= samples@.len(),
            f == (|s: InterfaceSample| active(s)),
            g == (|s: InterfaceSample| speed_of(s)),
            traffic(active_ones(samples@)).0 <= u64::MAX,
            traffic(active_ones(samples@)).1 <= u64::MAX,
            (rx as nat, tx as nat) == traffic(active_ones(samples@.take(i as int))),
            texts(names@) == interface_names(active_ones(samples@.take(i as int))),
            speed == link_speed(active_ones(samples@.take(i as int))),
        decreases samples@.len() - i,
    {
        let s = &samples[i];
        let ghost done = active_ones(samples@.take(i as int));
        proof {
            assert(samples@.take(i + 1) =~= samples@.take(i as int).push(*s));
            text::lemma_filter_push(samples@.take(i as int), *s, f);
            lemma_traffic_grows(samples@, i + 1);
            assert(done.push(*s).drop_last() =~= done);
            text::lemma_first_found_push(done, *s, g);
        }
        if is_active(s) {
            rx = rx + s.received;
            tx = tx + s.transmitted;
            let name = s.name.clone();
            proof {
                text::lemma_texts_push(names@, name);
                assert(interface_names(done.push(*s)) =~= interface_names(done).push(s.name@));
            }
            names.push(name);
            if speed.is_none() {
                speed = read_speed(s);
            }
        }
        i = i + 1;
    }
    assert(samples@.take(samples@.len() as int) =~= samples@);
    NetworkTotals { rx_bytes: rx, tx_bytes: tx, link_speed_mbps: speed, interfaces: names }
}

/// Which disk is shown: the one at the root, or else the first one.
pub fn shown_disk(mounts: &Vec<String>) -> (r: Option<usize>)
    ensures
        match r {
            Some(i) => {
                &&& i < mounts@.len()
                &&& if texts(mounts@).contains("/"@) {
                    mounts@[i as int]@ == "/"@ && forall|j: int| 0 <= j < i ==> (#[trigger] mounts@[j])@ != "/"@
                } else {
                    i == 0
                }
            },
            None => mounts@.len() == 0,
        },
{
    let ghost t = texts(mounts@);
    let mut i: usize = 0;
    while i < mounts.len()
        invariant
            i <= mounts@.len(),
            t == texts(mounts@),
            forall|j: int| 0 <= j < i ==> (#[trigger] mounts@[j])@ != "/"@,
        decreases mounts@.len() - i,
    {
        if text::str_same(mounts[i].as_str(), "/") {
            assert(t[i as int] == "/"@);
            return Some(i);
        }
        i = i + 1;
    }
    proof {
        if t.contains("/"@) {
            let j = choose|j: int| 0 <= j < t.len() && t[j] == "/"@;
            assert(mounts@[j]@ == "/"@);
        }
    }
    if mounts.len() > 0 {
        Some(0)
    } else {
        None
    }
}

/// How much of a disk is used.
pub fn disk_used(total: u64, available: u64) -> (r: u64)
    ensures
        r == minus(total as int, available as int),
{
    total.saturating_sub(available)
}

}
