//! The metrics page, in the text format of Prometheus.
use vstd::prelude::*;
use vstd::string::*;

use crate::text;
use crate::text::{decimal, flat_map, join};

verus! {

/// The media type of the page.
pub fn content_type() -> (r: &'static str)
    ensures
        r@ == "text/plain; version=0.0.4; charset=utf-8"@,
{
    "text/plain; version=0.0.4; charset=utf-8"
}

/// A measured value with its labels.
#[derive(Debug)]
pub struct Sample {
    pub labels: Vec<(&'static str, String)>,
    pub value: u64,
}

/// A metric: its name, what it means, its type, and its values.
#[derive(Debug)]
pub struct Family {
    pub name: &'static str,
    pub help: &'static str,
    pub typ: &'static str,
    pub samples: Vec<Sample>,
}

/// A measured value as a plain value.
pub ghost struct SampleView {
    pub labels: Seq<(Seq<char>, Seq<char>)>,
    pub value: u64,
}

/// A metric as a plain value.
pub ghost struct FamilyView {
    pub name: Seq<char>,
    pub help: Seq<char>,
    pub typ: Seq<char>,
    pub samples: Seq<SampleView>,
}

/// Labels as plain values.
pub open spec fn label_views(v: Seq<(&'static str, String)>) -> Seq<(Seq<char>, Seq<char>)> {
    v.map_values(|l: (&'static str, String)| (l.0@, l.1@))
}

impl View for Sample {
    type V = SampleView;

    open spec fn view(&self) -> SampleView {
        SampleView { labels: label_views(self.labels@), value: self.value }
    }
}

/// Measured values as plain values.
pub open spec fn sample_views(v: Seq<Sample>) -> Seq<SampleView> {
    v.map_values(|s: Sample| s@)
}

impl View for Family {
    type V = FamilyView;

    open spec fn view(&self) -> FamilyView {
        FamilyView {
            name: self.name@,
            help: self.help@,
            typ: self.typ@,
            samples: sample_views(self.samples@),
        }
    }
}

/// Metrics as plain values.
pub open spec fn family_views(v: Seq<Family>) -> Seq<FamilyView> {
    v.map_values(|f: Family| f@)
}

/// A character as it stands inside a label value.
pub open spec fn escaped_char(c: char) -> Seq<char> {
    if c == '\\' {
        seq!['\\', '\\']
    } else if c == '"' {
        seq!['\\', '"']
    } else if c == '\n' {
        seq!['\\', 'n']
    } else {
        seq![c]
    }
}

/// A label value with backslashes, quotation marks and line ends escaped.
pub open spec fn escaped(v: Seq<char>) -> Seq<char> {
    flat_map(v, |c: char| escaped_char(c))
}

/// A label: `key="value"`.
pub open spec fn label_text(l: (Seq<char>, Seq<char>)) -> Seq<char> {
    l.0 + seq!['=', '"'] + escaped(l.1) + seq!['"']
}

/// The labels of a value in braces; nothing without labels.
pub open spec fn labels_text(labels: Seq<(Seq<char>, Seq<char>)>) -> Seq<char> {
    if labels.len() == 0 {
        seq![]
    } else {
        seq!['{'] + join(labels.map_values(|l: (Seq<char>, Seq<char>)| label_text(l)), seq![',']) + seq!['}']
    }
}

/// The line of a value.
pub open spec fn sample_text(name: Seq<char>, s: SampleView) -> Seq<char> {
    name + labels_text(s.labels) + seq![' '] + decimal(s.value as nat) + seq!['\n']
}

/// The two lines that introduce a metric.
pub open spec fn head_text(f: FamilyView) -> Seq<char> {
    "# HELP "@ + f.name + seq![' '] + f.help + "\n# TYPE "@ + f.name + seq![' '] + f.typ + seq!['\n']
}

/// A metric: its head, and right behind it all its values.
pub open spec fn family_text(f: FamilyView) -> Seq<char> {
    head_text(f) + flat_map(f.samples, |s: SampleView| sample_text(f.name, s))
}

/// The page.
pub open spec fn page_text(fs: Seq<FamilyView>) -> Seq<char> {
    flat_map(fs, |f: FamilyView| family_text(f))
}

/// Escapes a label value: backslash, quotation mark and line end.
pub fn escape_label(v: &str) -> (r: String)
    ensures
        r@ == escaped(v@),
{
    let cs = text::chars_of(v);
    let ghost f = |c: char| escaped_char(c);
    let mut out = String::new();
    let mut i: usize = 0;
    assert(flat_map(cs@.take(0), f) =~= Seq::<char>::empty());
    while i < cs.len()
        invariant
            i <= cs@.len(),
            f == (|c: char| escaped_char(c)),
            out@ == flat_map(cs@.take(i as int), f),
        decreases cs@.len() - i,
    {
        let c = cs[i];
        let ghost before = out@;
        proof {
            assert(cs@.take(i + 1) =~= cs@.take(i as int).push(c));
            text::lemma_flat_map_push(cs@.take(i as int), c, f);
        }
        if c == '\\' {
            out.push('\\');
            out.push('\\');
        } else if c == '"' {
            out.push('\\');
            out.push('"');
        } else if c == '\n' {
            out.push('\\');
            out.push('n');
        } else {
            out.push(c);
        }
        assert(out@ =~= before + escaped_char(c));
        i = i + 1;
    }
    assert(cs@.take(cs@.len() as int) =~= cs@);
    out
}

/// Writes the two lines that introduce a metric.
fn family(out: &mut String, f: &Family)
    ensures
        final(out)@ == old(out)@ + head_text(f@),
{
    let ghost start = out@;
    out.append("# HELP ");
    out.append(f.name);
    out.push(' ');
    out.append(f.help);
    out.append("\n# TYPE ");
    out.append(f.name);
    out.push(' ');
    out.append(f.typ);
    out.push('\n');
    assert(out@ =~= start + head_text(f@));
}

fn label(out: &mut String, key: &str, value: &str)
    ensures
        final(out)@ == old(out)@ + label_text((key@, value@)),
{
    let ghost start = out@;
    let e = escape_label(value);
    out.append(key);
    out.push('=');
    out.push('"');
    out.append(e.as_str());
    out.push('"');
    assert(out@ =~= start + label_text((key@, value@)));
}

/// Writes the line of a value.
fn sample(out: &mut String, name: &str, s: &Sample)
    ensures
        final(out)@ == old(out)@ + sample_text(name@, s@),
{
    let ghost start = out@;
    let ghost lv = label_views(s.labels@);
    let ghost f = |l: (Seq<char>, Seq<char>)| label_text(l);
    out.append(name);
    if s.labels.len() > 0 {
        out.push('{');
        let ghost open = out@;
        let mut i: usize = 0;
        assert(open + join(lv.take(0).map_values(f), seq![',']) =~= open);
        while i < s.labels.len()
            invariant
                i <= s.labels@.len(),
                lv == label_views(s.labels@),
                f == (|l: (Seq<char>, Seq<char>)| label_text(l)),
                out@ == open + join(lv.take(i as int).map_values(f), seq![',']),
            decreases s.labels@.len() - i,
        {
            let ghost before = out@;
            let ghost pre = lv.take(i as int).map_values(f);
            if i > 0 {
                out.push(',');
            }
            label(out, s.labels[i].0, s.labels[i].1.as_str());
            proof {
                let cur = lv.take(i + 1).map_values(f);
                assert(cur =~= pre.push(label_text(lv[i as int])));
                assert(cur.drop_last() =~= pre);
                if i > 0 {
                    assert(out@ =~= before + seq![','] + label_text(lv[i as int]));
                    assert(out@ =~= open + join(cur, seq![',']));
                } else {
                    assert(out@ =~= open + label_text(lv[0]));
                    assert(join(cur, seq![',']) =~= label_text(lv[0]));
                }
            }
            i = i + 1;
        }
        assert(lv.take(lv.len() as int) =~= lv);
        out.push('}');
        assert(out@ =~= start + name@ + labels_text(lv));
    } else {
        assert(out@ =~= start + name@ + labels_text(lv));
    }
    out.push(' ');
    text::push_decimal(out, s.value);
    out.push('\n');
    assert(out@ =~= start + sample_text(name@, s@));
}

fn write_family(out: &mut String, f: &Family)
    ensures
        final(out)@ == old(out)@ + family_text(f@),
{
    let ghost start = out@;
    family(out, f);
    let ghost head = out@;
    let ghost g = |s: SampleView| sample_text(f@.name, s);
    let ghost sv = sample_views(f.samples@);
    let mut i: usize = 0;
    assert(out@ =~= head + flat_map(sv.take(0), g));
    while i < f.samples.len()
        invariant
            i <= f.samples@.len(),
            sv == sample_views(f.samples@),
            g == (|s: SampleView| sample_text(f@.name, s)),
            out@ == head + flat_map(sv.take(i as int), g),
        decreases f.samples@.len() - i,
    {
        let ghost before = out@;
        proof {
            assert(sv.take(i + 1) =~= sv.take(i as int).push(sv[i as int]));
            text::lemma_flat_map_push(sv.take(i as int), sv[i as int], g);
        }
        sample(out, f.name, &f.samples[i]);
        assert(out@ =~= head + flat_map(sv.take(i + 1), g));
        i = i + 1;
    }
    assert(sv.take(sv.len() as int) =~= sv);
    assert(out@ =~= start + family_text(f@));
}

/// Writes metrics out.
pub fn render(families: &Vec<Family>) -> (r: String)
    ensures
        r@ == page_text(family_views(families@)),
{
    let ghost f = |x: FamilyView| family_text(x);
    let ghost fv = family_views(families@);
    let mut out = String::new();
    let mut i: usize = 0;
    assert(flat_map(fv.take(0), f) =~= Seq::<char>::empty());
    while i < families.len()
        invariant
            i <= families@.len(),
            fv == family_views(families@),
            f == (|x: FamilyView| family_text(x)),
            out@ == flat_map(fv.take(i as int), f),
        decreases families@.len() - i,
    {
        proof {
            assert(fv.take(i + 1) =~= fv.take(i as int).push(fv[i as int]));
            text::lemma_flat_map_push(fv.take(i as int), fv[i as int], f);
        }
        write_family(&mut out, &families[i]);
        i = i + 1;
    }
    assert(fv.take(fv.len() as int) =~= fv);
    out
}

/// What an active probe through a route found.
#[derive(Debug)]
pub struct ProbeSample {
    pub ok: bool,
    pub rtt_ms: Option<u64>,
}

/// What was measured of a route.
#[derive(Debug)]
pub struct EgressSample {
    pub id: String,
    pub up: bool,
    pub down_secs: u64,
    pub handshake_age: Option<u64>,
    pub probe: Option<ProbeSample>,
    pub active: u64,
    pub total_conns: u64,
    pub bytes_up: u64,
    pub bytes_down: u64,
    pub connect_fails: u64,
    pub fail_closed_drops: u64,
}

/// How often a routing rule applied.
#[derive(Debug)]
pub struct RuleHits {
    pub pattern: String,
    pub egress: String,
    pub hits: u64,
}

/// Everything that is measured.
#[derive(Debug)]
pub struct MetricsSnapshot {
    pub version: String,
    pub blocked: u64,
    pub allowed: u64,
    pub cached: u64,
    pub upstream: u64,
    pub routed: u64,
    pub dropped: u64,
    pub cache_entries: u64,
    pub cache_bytes: u64,
    pub blocklist_domains: u64,
    pub heap_live: u64,
    pub heap_peak: u64,
    pub open_fds: Option<u64>,
    /// Resident memory, all and anonymous.
    pub resident: Option<(u64, u64)>,
    pub proxy_splices: u64,
    pub wg_connections: u64,
    pub egresses: Vec<EgressSample>,
    pub rule_hits: Vec<RuleHits>,
}

/// What is shown of a route.
#[derive(Debug, Clone, Copy)]
pub enum EgressField {
    Up,
    DownSeconds,
    HandshakeAge,
    ProbeUp,
    ProbeRtt,
    Active,
    Total,
    Bytes,
    ConnectFailures,
    FailClosedDrops,
}

/// A value without labels.
pub open spec fn plain(value: u64) -> SampleView {
    SampleView { labels: seq![], value }
}

/// A value with one label.
pub open spec fn labelled(key: Seq<char>, text: Seq<char>, value: u64) -> SampleView {
    SampleView { labels: seq![(key, text)], value }
}

/// One for yes, zero for no.
pub open spec fn flag(b: bool) -> u64 {
    if b {
        1
    } else {
        0
    }
}

/// A value of a route, if it is known.
pub open spec fn if_known(id: Seq<char>, value: Option<u64>) -> Seq<SampleView> {
    match value {
        Some(v) => seq![labelled("egress"@, id, v)],
        None => seq![],
    }
}

/// What is shown of a route in one metric.
pub open spec fn field_samples(e: EgressSample, field: EgressField) -> Seq<SampleView> {
    let id = e.id@;
    match field {
        EgressField::Up => seq![labelled("egress"@, id, flag(e.up))],
        EgressField::DownSeconds => seq![labelled("egress"@, id, e.down_secs)],
        EgressField::HandshakeAge => if_known(id, e.handshake_age),
        EgressField::ProbeUp => match e.probe {
            Some(p) => seq![labelled("egress"@, id, flag(p.ok))],
            None => seq![],
        },
        EgressField::ProbeRtt => match e.probe {
            Some(p) => if_known(id, p.rtt_ms),
            None => seq![],
        },
        EgressField::Active => seq![labelled("egress"@, id, e.active)],
        EgressField::Total => seq![labelled("egress"@, id, e.total_conns)],
        EgressField::Bytes => seq![
            SampleView { labels: seq![("egress"@, id), ("direction"@, "up"@)], value: e.bytes_up },
            SampleView { labels: seq![("egress"@, id), ("direction"@, "down"@)], value: e.bytes_down },
        ],
        EgressField::ConnectFailures => seq![labelled("egress"@, id, e.connect_fails)],
        EgressField::FailClosedDrops => seq![labelled("egress"@, id, e.fail_closed_drops)],
    }
}

/// The values of all routes in one metric.
pub open spec fn egress_samples(es: Seq<EgressSample>, field: EgressField) -> Seq<SampleView> {
    flat_map(es, |e: EgressSample| field_samples(e, field))
}

/// The value of a routing rule.
pub open spec fn rule_sample(h: RuleHits) -> SampleView {
    SampleView { labels: seq![("pattern"@, h.pattern@), ("egress"@, h.egress@)], value: h.hits }
}

/// A metric.
pub open spec fn fam(name: Seq<char>, help: Seq<char>, typ: Seq<char>, samples: Seq<SampleView>) -> FamilyView {
    FamilyView { name, help, typ, samples }
}

/// The metrics of name resolution.
pub open spec fn dns_page(s: MetricsSnapshot) -> Seq<FamilyView> {
    Seq::<FamilyView>::empty().push(
        fam(
            "ferrite_build_info"@,
            "Constant 1, labeled with the ferrite version."@,
            "gauge"@,
            seq![labelled("version"@, s.version@, 1)],
        ),
    ).push(
        fam(
            "ferrite_dns_queries_total"@,
            "DNS queries handled, by outcome. The statuses sum to the overall total."@,
            "counter"@,
            seq![
                labelled("status"@, "blocked"@, s.blocked),
                labelled("status"@, "allowed"@, s.allowed),
                labelled("status"@, "cached"@, s.cached),
                labelled("status"@, "upstream"@, s.upstream),
                labelled("status"@, "routed"@, s.routed),
            ],
        ),
    ).push(
        fam(
            "ferrite_dns_queries_dropped_total"@,
            "Query log entries dropped because the stats writer lagged (back-pressure)."@,
            "counter"@,
            seq![plain(s.dropped)],
        ),
    ).push(
        fam(
            "ferrite_dns_cache_entries"@,
            "Entries currently in the DNS response cache."@,
            "gauge"@,
            seq![plain(s.cache_entries)],
        ),
    ).push(
        fam(
            "ferrite_dns_cache_bytes"@,
            "Approximate bytes held by the DNS response cache."@,
            "gauge"@,
            seq![plain(s.cache_bytes)],
        ),
    ).push(
        fam(
            "ferrite_blocklist_domains"@,
            "Domains in the compiled blocklist."@,
            "gauge"@,
            seq![plain(s.blocklist_domains)],
        ),
    )
}

/// The metrics of the process, behind others.
pub open spec fn process_page(fs: Seq<FamilyView>, s: MetricsSnapshot) -> Seq<FamilyView> {
    let heap = fs.push(
        fam(
            "ferrite_heap_live_bytes"@,
            "Live heap bytes (allocated minus freed)."@,
            "gauge"@,
            seq![plain(s.heap_live)],
        ),
    ).push(
        fam(
            "ferrite_heap_peak_bytes"@,
            "High-water mark of live heap bytes."@,
            "gauge"@,
            seq![plain(s.heap_peak)],
        ),
    );
    let fds = match s.open_fds {
        Some(n) => heap.push(
            fam("ferrite_open_fds"@, "Open file descriptors (Linux only)."@, "gauge"@, seq![plain(n)]),
        ),
        None => heap,
    };
    let resident = match s.resident {
        Some((all, anonymous)) => fds.push(
            fam("ferrite_rss_bytes"@, "Resident set size (Linux only)."@, "gauge"@, seq![plain(all)]),
        ).push(
            fam(
                "ferrite_rss_anonymous_bytes"@,
                "Anonymous (non file-backed) resident memory (Linux only)."@,
                "gauge"@,
                seq![plain(anonymous)],
            ),
        ),
        None => fds,
    };
    resident.push(
        fam(
            "ferrite_proxy_splices_active"@,
            "Intercepted proxy connections currently alive (client-egress splices)."@,
            "gauge"@,
            seq![plain(s.proxy_splices)],
        ),
    ).push(
        fam(
            "ferrite_wg_virtual_connections_active"@,
            "Virtual TCP connections currently open inside WireGuard tunnels."@,
            "gauge"@,
            seq![plain(s.wg_connections)],
        ),
    )
}

/// The metrics of the routes, behind others.
pub open spec fn egress_page(fs: Seq<FamilyView>, es: Seq<EgressSample>) -> Seq<FamilyView> {
    fs.push(
        fam(
            "ferrite_egress_up"@,
            "1 when the egress is healthy (breaker closed and, for WireGuard, handshake live)."@,
            "gauge"@,
            egress_samples(es, EgressField::Up),
        ),
    ).push(
        fam(
            "ferrite_egress_down_seconds"@,
            "Seconds the egress has been unhealthy (0 while healthy)."@,
            "gauge"@,
            egress_samples(es, EgressField::DownSeconds),
        ),
    ).push(
        fam(
            "ferrite_egress_wg_handshake_age_seconds"@,
            "Seconds since the WireGuard handshake (absent for other egress kinds)."@,
            "gauge"@,
            egress_samples(es, EgressField::HandshakeAge),
        ),
    ).push(
        fam(
            "ferrite_egress_probe_up"@,
            "1 if the last active probe through the egress succeeded, else 0."@,
            "gauge"@,
            egress_samples(es, EgressField::ProbeUp),
        ),
    ).push(
        fam(
            "ferrite_egress_probe_rtt_ms"@,
            "Round-trip of the last successful active probe through the egress (ms)."@,
            "gauge"@,
            egress_samples(es, EgressField::ProbeRtt),
        ),
    ).push(
        fam(
            "ferrite_egress_connections_active"@,
            "Connections currently spliced through the egress."@,
            "gauge"@,
            egress_samples(es, EgressField::Active),
        ),
    ).push(
        fam(
            "ferrite_egress_connections_total"@,
            "Connections ever opened through the egress."@,
            "counter"@,
            egress_samples(es, EgressField::Total),
        ),
    ).push(
        fam(
            "ferrite_egress_bytes_total"@,
            "Bytes moved through the egress, by direction (up = client to destination)."@,
            "counter"@,
            egress_samples(es, EgressField::Bytes),
        ),
    ).push(
        fam(
            "ferrite_egress_connect_failures_total"@,
            "Failed connect attempts through the egress."@,
            "counter"@,
            egress_samples(es, EgressField::ConnectFailures),
        ),
    ).push(
        fam(
            "ferrite_egress_fail_closed_drops_total"@,
            "Client connections dropped by fail-closed rules."@,
            "counter"@,
            egress_samples(es, EgressField::FailClosedDrops),
        ),
    )
}

/// All metrics.
pub open spec fn metrics_page(s: MetricsSnapshot) -> Seq<FamilyView> {
    egress_page(process_page(dns_page(s), s), s.egresses@).push(
        fam(
            "ferrite_rule_hits_total"@,
            "Connections routed per rule (pattern + egress)."@,
            "counter"@,
            s.rule_hits@.map_values(|h: RuleHits| rule_sample(h)),
        ),
    )
}

fn plain_sample(value: u64) -> (r: Vec<Sample>)
    ensures
        sample_views(r@) == seq![plain(value)],
{
    let labels: Vec<(&'static str, String)> = Vec::new();
    assert(label_views(labels@) =~= seq![]);
    let mut v: Vec<Sample> = Vec::new();
    v.push(Sample { labels, value });
    assert(sample_views(v@) =~= seq![plain(value)]);
    v
}

fn push_sample(v: &mut Vec<Sample>, key: &'static str, label: &str, value: u64)
    ensures
        sample_views(final(v)@) == sample_views(old(v)@).push(labelled(key@, label@, value)),
{
    let ghost before = v@;
    let mut labels: Vec<(&'static str, String)> = Vec::new();
    labels.push((key, label.to_string()));
    assert(label_views(labels@) =~= seq![(key@, label@)]);
    v.push(Sample { labels, value });
    assert(sample_views(v@) =~= sample_views(before).push(labelled(key@, label@, value)));
}

fn push_sample2(v: &mut Vec<Sample>, key: &'static str, label: &str, key2: &'static str, label2: &str, value: u64)
    ensures
        sample_views(final(v)@) == sample_views(old(v)@).push(
            SampleView { labels: seq![(key@, label@), (key2@, label2@)], value },
        ),
{
    let ghost before = v@;
    let mut labels: Vec<(&'static str, String)> = Vec::new();
    labels.push((key, label.to_string()));
    labels.push((key2, label2.to_string()));
    assert(label_views(labels@) =~= seq![(key@, label@), (key2@, label2@)]);
    let s = Sample { labels, value };
    v.push(s);
    assert(sample_views(v@) =~= sample_views(before).push(s@));
}

fn push_field(v: &mut Vec<Sample>, e: &EgressSample, field: EgressField)
    ensures
        sample_views(final(v)@) == sample_views(old(v)@) + field_samples(*e, field),
{
    let ghost start = sample_views(v@);
    let id = e.id.as_str();
    match field {
        EgressField::Up => push_sample(
            v,
            "egress",
            id,
            if e.up {
                1
            } else {
                0
            },
        ),
        EgressField::DownSeconds => push_sample(v, "egress", id, e.down_secs),
        EgressField::HandshakeAge => if let Some(age) = e.handshake_age {
            push_sample(v, "egress", id, age);
        },
        EgressField::ProbeUp => if let Some(p) = &e.probe {
            push_sample(
                v,
                "egress",
                id,
                if p.ok {
                    1
                } else {
                    0
                },
            );
        },
        EgressField::ProbeRtt => if let Some(p) = &e.probe {
            if let Some(rtt) = p.rtt_ms {
                push_sample(v, "egress", id, rtt);
            }
        },
        EgressField::Active => push_sample(v, "egress", id, e.active),
        EgressField::Total => push_sample(v, "egress", id, e.total_conns),
        EgressField::Bytes => {
            push_sample2(v, "egress", id, "direction", "up", e.bytes_up);
            push_sample2(v, "egress", id, "direction", "down", e.bytes_down);
        },
        EgressField::ConnectFailures => push_sample(v, "egress", id, e.connect_fails),
        EgressField::FailClosedDrops => push_sample(v, "egress", id, e.fail_closed_drops),
    }
    assert(sample_views(v@) =~= start + field_samples(*e, field));
}

fn all_egresses(es: &Vec<EgressSample>, field: EgressField) -> (r: Vec<Sample>)
    ensures
        sample_views(r@) == egress_samples(es@, field),
{
    let ghost f = |e: EgressSample| field_samples(e, field);
    let mut v: Vec<Sample> = Vec::new();
    let mut i: usize = 0;
    assert(sample_views(v@) =~= flat_map(es@.take(0), f));
    while i < es.len()
        invariant
            i <= es@.len(),
            f == (|e: EgressSample| field_samples(e, field)),
            sample_views(v@) == flat_map(es@.take(i as int), f),
        decreases es@.len() - i,
    {
        proof {
            assert(es@.take(i + 1) =~= es@.take(i as int).push(es@[i as int]));
            text::lemma_flat_map_push(es@.take(i as int), es@[i as int], f);
        }
        push_field(&mut v, &es[i], field);
        i = i + 1;
    }
    assert(es@.take(es@.len() as int) =~= es@);
    v
}

fn put(
    out: &mut Vec<Family>,
    name: &'static str,
    help: &'static str,
    typ: &'static str,
    samples: Vec<Sample>,
)
    ensures
        family_views(final(out)@) == family_views(old(out)@).push(fam(name@, help@, typ@, sample_views(samples@))),
{
    let ghost before = out@;
    let f = Family { name, help, typ, samples };
    out.push(f);
    assert(family_views(out@) =~= family_views(before).push(f@));
}

fn dns_families(out: &mut Vec<Family>, s: &MetricsSnapshot)
    requires
        old(out)@.len() == 0,
    ensures
        family_views(final(out)@) == dns_page(*s),
{
    assert(family_views(out@) =~= Seq::<FamilyView>::empty());
    let mut build: Vec<Sample> = Vec::new();
    assert(sample_views(build@) =~= Seq::<SampleView>::empty());
    push_sample(&mut build, "version", s.version.as_str(), 1);
    assert(sample_views(build@) =~= seq![labelled("version"@, s.version@, 1)]);
    put(out, "ferrite_build_info", "Constant 1, labeled with the ferrite version.", "gauge", build);
    let mut queries: Vec<Sample> = Vec::new();
    assert(sample_views(queries@) =~= Seq::<SampleView>::empty());
    push_sample(&mut queries, "status", "blocked", s.blocked);
    push_sample(&mut queries, "status", "allowed", s.allowed);
    push_sample(&mut queries, "status", "cached", s.cached);
    push_sample(&mut queries, "status", "upstream", s.upstream);
    push_sample(&mut queries, "status", "routed", s.routed);
    assert(sample_views(queries@) =~= seq![
        labelled("status"@, "blocked"@, s.blocked),
        labelled("status"@, "allowed"@, s.allowed),
        labelled("status"@, "cached"@, s.cached),
        labelled("status"@, "upstream"@, s.upstream),
        labelled("status"@, "routed"@, s.routed),
    ]);
    put(
        out,
        "ferrite_dns_queries_total",
        "DNS queries handled, by outcome. The statuses sum to the overall total.",
        "counter",
        queries,
    );
    put(
        out,
        "ferrite_dns_queries_dropped_total",
        "Query log entries dropped because the stats writer lagged (back-pressure).",
        "counter",
        plain_sample(s.dropped),
    );
    put(
        out,
        "ferrite_dns_cache_entries",
        "Entries currently in the DNS response cache.",
        "gauge",
        plain_sample(s.cache_entries),
    );
    put(
        out,
        "ferrite_dns_cache_bytes",
        "Approximate bytes held by the DNS response cache.",
        "gauge",
        plain_sample(s.cache_bytes),
    );
    put(
        out,
        "ferrite_blocklist_domains",
        "Domains in the compiled blocklist.",
        "gauge",
        plain_sample(s.blocklist_domains),
    );
}

fn process_families(out: &mut Vec<Family>, s: &MetricsSnapshot)
    ensures
        family_views(final(out)@) == process_page(family_views(old(out)@), *s),
{
    put(
        out,
        "ferrite_heap_live_bytes",
        "Live heap bytes (allocated minus freed).",
        "gauge",
        plain_sample(s.heap_live),
    );
    put(
        out,
        "ferrite_heap_peak_bytes",
        "High-water mark of live heap bytes.",
        "gauge",
        plain_sample(s.heap_peak),
    );
    if let Some(n) = s.open_fds {
        put(out, "ferrite_open_fds", "Open file descriptors (Linux only).", "gauge", plain_sample(n));
    }
    if let Some((all, anonymous)) = s.resident {
        put(out, "ferrite_rss_bytes", "Resident set size (Linux only).", "gauge", plain_sample(all));
        put(
            out,
            "ferrite_rss_anonymous_bytes",
            "Anonymous (non file-backed) resident memory (Linux only).",
            "gauge",
            plain_sample(anonymous),
        );
    }
    put(
        out,
        "ferrite_proxy_splices_active",
        "Intercepted proxy connections currently alive (client-egress splices).",
        "gauge",
        plain_sample(s.proxy_splices),
    );
    put(
        out,
        "ferrite_wg_virtual_connections_active",
        "Virtual TCP connections currently open inside WireGuard tunnels.",
        "gauge",
        plain_sample(s.wg_connections),
    );
}

fn egress_families(out: &mut Vec<Family>, es: &Vec<EgressSample>)
    ensures
        family_views(final(out)@) == egress_page(family_views(old(out)@), es@),
{
    put(
        out,
        "ferrite_egress_up",
        "1 when the egress is healthy (breaker closed and, for WireGuard, handshake live).",
        "gauge",
        all_egresses(es, EgressField::Up),
    );
    put(
        out,
        "ferrite_egress_down_seconds",
        "Seconds the egress has been unhealthy (0 while healthy).",
        "gauge",
        all_egresses(es, EgressField::DownSeconds),
    );
    put(
        out,
        "ferrite_egress_wg_handshake_age_seconds",
        "Seconds since the WireGuard handshake (absent for other egress kinds).",
        "gauge",
        all_egresses(es, EgressField::HandshakeAge),
    );
    put(
        out,
        "ferrite_egress_probe_up",
        "1 if the last active probe through the egress succeeded, else 0.",
        "gauge",
        all_egresses(es, EgressField::ProbeUp),
    );
    put(
        out,
        "ferrite_egress_probe_rtt_ms",
        "Round-trip of the last successful active probe through the egress (ms).",
        "gauge",
        all_egresses(es, EgressField::ProbeRtt),
    );
    put(
        out,
        "ferrite_egress_connections_active",
        "Connections currently spliced through the egress.",
        "gauge",
        all_egresses(es, EgressField::Active),
    );
    put(
        out,
        "ferrite_egress_connections_total",
        "Connections ever opened through the egress.",
        "counter",
        all_egresses(es, EgressField::Total),
    );
    put(
        out,
        "ferrite_egress_bytes_total",
        "Bytes moved through the egress, by direction (up = client to destination).",
        "counter",
        all_egresses(es, EgressField::Bytes),
    );
    put(
        out,
        "ferrite_egress_connect_failures_total",
        "Failed connect attempts through the egress.",
        "counter",
        all_egresses(es, EgressField::ConnectFailures),
    );
    put(
        out,
        "ferrite_egress_fail_closed_drops_total",
        "Client connections dropped by fail-closed rules.",
        "counter",
        all_egresses(es, EgressField::FailClosedDrops),
    );
}

/// The metrics of a snapshot.
pub fn metric_families(s: &MetricsSnapshot) -> (r: Vec<Family>)
    ensures
        family_views(r@) == metrics_page(*s),
{
    let mut out: Vec<Family> = Vec::new();
    dns_families(&mut out, s);
    process_families(&mut out, s);
    egress_families(&mut out, &s.egresses);
    let ghost f = |h: RuleHits| rule_sample(h);
    let mut hits: Vec<Sample> = Vec::new();
    let mut i: usize = 0;
    assert(sample_views(hits@) =~= s.rule_hits@.take(0).map_values(f));
    while i < s.rule_hits.len()
        invariant
            i <= s.rule_hits@.len(),
            f == (|h: RuleHits| rule_sample(h)),
            sample_views(hits@) == s.rule_hits@.take(i as int).map_values(f),
        decreases s.rule_hits@.len() - i,
    {
        let h = &s.rule_hits[i];
        push_sample2(&mut hits, "pattern", h.pattern.as_str(), "egress", h.egress.as_str(), h.hits);
        assert(s.rule_hits@.take(i + 1).map_values(f) =~= s.rule_hits@.take(i as int).map_values(f).push(
            rule_sample(*h),
        ));
        i = i + 1;
    }
    assert(s.rule_hits@.take(s.rule_hits@.len() as int) =~= s.rule_hits@);
    put(
        &mut out,
        "ferrite_rule_hits_total",
        "Connections routed per rule (pattern + egress).",
        "counter",
        hits,
    );
    out
}

/// The metrics page of a snapshot.
pub fn get_metrics(s: &MetricsSnapshot) -> (r: String)
    ensures
        r@ == page_text(metrics_page(*s)),
{
    let families = metric_families(s);
    render(&families)
}

}
