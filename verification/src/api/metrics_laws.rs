//! What holds of every metrics page.
use vstd::prelude::*;
use vstd::string::*;

use crate::api::metrics::{
    dns_page, egress_page, egress_samples, escaped, escaped_char, fam, family_text, field_samples, head_text,
    label_text, labelled, labels_text, metrics_page, page_text, plain, process_page, rule_sample, sample_text,
    EgressField, EgressSample, FamilyView, MetricsSnapshot, RuleHits, SampleView,
};
use crate::text;
use crate::text::{before, decimal, flat_map, join, lines, position, strip_cr};

verus! {

/// The metric that a line introduces, where it is a `# TYPE` line.
pub open spec fn typed(line: Seq<char>) -> Option<Seq<char>> {
    if "# TYPE "@.is_prefix_of(line) {
        Some(before(line.skip(7), ' '))
    } else {
        None
    }
}

/// A line that holds no value.
pub open spec fn is_comment(line: Seq<char>) -> bool {
    line.len() > 0 && line[0] == '#'
}

/// The metric whose value a line holds: what stands before its labels or its value.
pub open spec fn measured(line: Seq<char>) -> Seq<char> {
    before(before(line, '{'), ' ')
}

/// The line stands in the block of its metric: the nearest line before it that is no
/// value is the `# TYPE` line of the metric.
pub open spec fn in_its_block(ls: Seq<Seq<char>>, i: int) -> bool {
    exists|j: int|
        #![trigger ls[j]]
        0 <= j < i && typed(ls[j]) == Some(measured(ls[i])) && forall|k: int| j < k <= i ==> !is_comment(
            #[trigger] ls[k],
        )
}

/// The metrics that the lines introduce, in order.
pub open spec fn typed_in(ls: Seq<Seq<char>>) -> Seq<Seq<char>> {
    flat_map(ls, |l: Seq<char>| typed_by(l))
}

/// The metric that one line introduces, as a list.
pub open spec fn typed_by(line: Seq<char>) -> Seq<Seq<char>> {
    match typed(line) {
        Some(n) => seq![n],
        None => seq![],
    }
}

/// The names of metrics.
pub open spec fn names_of(fs: Seq<FamilyView>) -> Seq<Seq<char>> {
    fs.map_values(|f: FamilyView| f.name)
}

/// The labels that are used. None of them names a domain that was asked for.
pub open spec fn known_label(key: Seq<char>) -> bool {
    key == "version"@ || key == "status"@ || key == "egress"@ || key == "direction"@ || key == "pattern"@
}

/// A value with known labels only.
pub open spec fn known_labels(s: SampleView) -> bool {
    forall|i: int| 0 <= i < s.labels.len() ==> known_label((#[trigger] s.labels[i]).0)
}

/// The line of a value, without its end.
pub open spec fn sample_line(name: Seq<char>, s: SampleView) -> Seq<char> {
    name + labels_text(s.labels) + seq![' '] + decimal(s.value as nat)
}

/// The line holds a value of its metric with known labels.
pub open spec fn labelled_well(line: Seq<char>) -> bool {
    exists|s: SampleView| known_labels(s) && line == #[trigger] sample_line(measured(line), s)
}

/// A text without line ends.
spec fn one_line(t: Seq<char>) -> bool {
    t.len() > 0 && forall|i: int| 0 <= i < t.len() ==> #[trigger] t[i] != '\n' && t[i] != '\r'
}

/// Characters of a metric's name.
spec fn name_char(c: char) -> bool {
    ('a' <= c && c <= 'z') || c == '_'
}

/// The name of a metric.
spec fn metric_name(n: Seq<char>) -> bool {
    n.len() > 0 && forall|i: int| 0 <= i < n.len() ==> name_char(#[trigger] n[i])
}

/// A metric whose texts fit into the page.
spec fn tidy(f: FamilyView) -> bool {
    &&& metric_name(f.name)
    &&& one_line(f.help)
    &&& one_line(f.typ)
    &&& forall|i: int| 0 <= i < f.samples.len() ==> known_labels(#[trigger] f.samples[i])
}

spec fn help_line(f: FamilyView) -> Seq<char> {
    "# HELP "@ + f.name + seq![' '] + f.help
}

spec fn type_line(f: FamilyView) -> Seq<char> {
    "# TYPE "@ + f.name + seq![' '] + f.typ
}

/// The lines of a metric.
spec fn family_lines(f: FamilyView) -> Seq<Seq<char>> {
    seq![help_line(f), type_line(f)] + f.samples.map_values(|s: SampleView| sample_line(f.name, s))
}

/// A line that stays one line when it is read back.
spec fn plain_line(l: Seq<char>) -> bool {
    !l.contains('\n') && (l.len() > 0 ==> l.last() != '\r')
}

/// Lines with their ends.
spec fn ended(ls: Seq<Seq<char>>) -> Seq<char> {
    flat_map(ls, |l: Seq<char>| l + seq!['\n'])
}

proof fn lemma_line_added(t: Seq<char>, l: Seq<char>)
    requires
        t.len() == 0 || t.last() == '\n',
        plain_line(l),
    ensures
        lines(t + l + seq!['\n']) == lines(t).push(l),
    decreases t.len(),
{
    let all = t + l + seq!['\n'];
    if t.len() == 0 {
        assert forall|j: int| 0 <= j < l.len() implies #[trigger] all[j] != '\n' by {
            assert(all[j] == l[j]);
            assert(l.contains(l[j]));
        }
        assert(all[l.len() as int] == '\n');
        text::lemma_position_is(all, '\n', l.len() as int);
        assert(all.take(l.len() as int) =~= l);
        assert(all.skip(l.len() as int + 1) =~= Seq::<char>::empty());
        assert(lines(Seq::<char>::empty()) =~= Seq::<Seq<char>>::empty());
        assert(t =~= Seq::<char>::empty());
        assert(lines(all) =~= seq![l]);
    } else {
        text::lemma_position(t, '\n');
        assert(t[t.len() - 1] == '\n');
        assert(t.contains('\n'));
        let p = position(t, '\n') as int;
        assert forall|j: int| 0 <= j < p implies #[trigger] all[j] != '\n' by {
            assert(all[j] == t[j]);
        }
        assert(all[p] == '\n');
        text::lemma_position_is(all, '\n', p);
        let u = t.skip(p + 1);
        assert(all.skip(p + 1) =~= u + l + seq!['\n']);
        assert(all.take(p) =~= t.take(p));
        if u.len() > 0 {
            assert(u.last() == t.last());
        }
        lemma_line_added(u, l);
        assert(lines(all) =~= seq![strip_cr(t.take(p))] + lines(u).push(l));
    }
}

proof fn lemma_lines_added(t: Seq<char>, ls: Seq<Seq<char>>)
    requires
        t.len() == 0 || t.last() == '\n',
        forall|i: int| 0 <= i < ls.len() ==> plain_line(#[trigger] ls[i]),
    ensures
        lines(t + ended(ls)) == lines(t) + ls,
        (t + ended(ls)).len() == 0 || (t + ended(ls)).last() == '\n',
    decreases ls.len(),
{
    if ls.len() == 0 {
        assert(t + ended(ls) =~= t);
        assert(lines(t) + ls =~= lines(t));
    } else {
        let r = ls.drop_last();
        let l = ls.last();
        assert(plain_line(ls[ls.len() - 1]));
        assert forall|i: int| 0 <= i < r.len() implies plain_line(#[trigger] r[i]) by {
            assert(plain_line(ls[i]));
        }
        lemma_lines_added(t, r);
        lemma_line_added(t + ended(r), l);
        assert(t + ended(ls) =~= t + ended(r) + l + seq!['\n']);
        assert(lines(t) + ls =~= (lines(t) + r).push(l));
    }
}

/// The text of a metric is that of its lines.
proof fn lemma_family_text(f: FamilyView)
    ensures
        family_text(f) == ended(family_lines(f)),
{
    reveal_strlit("# HELP ");
    reveal_strlit("\n# TYPE ");
    reveal_strlit("# TYPE ");
    let g = |l: Seq<char>| l + seq!['\n'];
    let head = seq![help_line(f), type_line(f)];
    let ms = f.samples.map_values(|s: SampleView| sample_line(f.name, s));
    text::lemma_flat_map_added(head, ms, g);
    assert(head =~= Seq::<Seq<char>>::empty().push(help_line(f)).push(type_line(f)));
    text::lemma_flat_map_push(Seq::<Seq<char>>::empty(), help_line(f), g);
    text::lemma_flat_map_push(Seq::<Seq<char>>::empty().push(help_line(f)), type_line(f), g);
    assert(flat_map(head, g) =~= head_text(f));
    lemma_sample_texts(f.name, f.samples);
}

proof fn lemma_sample_texts(name: Seq<char>, samples: Seq<SampleView>)
    ensures
        flat_map(samples, |s: SampleView| sample_text(name, s)) == ended(
            samples.map_values(|s: SampleView| sample_line(name, s)),
        ),
    decreases samples.len(),
{
    if samples.len() > 0 {
        let t = samples.drop_last();
        lemma_sample_texts(name, t);
        let ms = samples.map_values(|s: SampleView| sample_line(name, s));
        assert(ms.drop_last() =~= t.map_values(|s: SampleView| sample_line(name, s)));
        assert(ms.last() == sample_line(name, samples.last()));
        assert(sample_text(name, samples.last()) =~= sample_line(name, samples.last()) + seq!['\n']);
    }
}

proof fn lemma_escaped(v: Seq<char>)
    ensures
        !escaped(v).contains('\n'),
    decreases v.len(),
{
    if v.len() > 0 {
        let t = v.drop_last();
        lemma_escaped(t);
        let a = escaped(t);
        let b = escaped_char(v.last());
        let all = escaped(v);
        assert(all == a + b);
        if all.contains('\n') {
            let i = choose|i: int| 0 <= i < all.len() && all[i] == '\n';
            if i < a.len() {
                assert(a[i] == '\n');
            } else {
                assert(b[i - a.len()] == '\n');
            }
        }
    }
}

proof fn lemma_known_label(key: Seq<char>)
    requires
        known_label(key),
    ensures
        !key.contains('\n'),
{
    reveal_strlit("version");
    reveal_strlit("status");
    reveal_strlit("egress");
    reveal_strlit("direction");
    reveal_strlit("pattern");
}

proof fn lemma_joined_labels(labels: Seq<(Seq<char>, Seq<char>)>)
    requires
        forall|i: int| 0 <= i < labels.len() ==> known_label((#[trigger] labels[i]).0),
    ensures
        !join(labels.map_values(|l: (Seq<char>, Seq<char>)| label_text(l)), seq![',']).contains('\n'),
    decreases labels.len(),
{
    let f = |l: (Seq<char>, Seq<char>)| label_text(l);
    let ts = labels.map_values(f);
    if labels.len() > 0 {
        let l = labels.last();
        let r = labels.drop_last();
        assert(known_label(labels[labels.len() - 1].0));
        assert forall|i: int| 0 <= i < r.len() implies known_label((#[trigger] r[i]).0) by {
            assert(known_label(labels[i].0));
        }
        lemma_joined_labels(r);
        lemma_known_label(l.0);
        lemma_escaped(l.1);
        let t = label_text(l);
        let e = escaped(l.1);
        assert forall|i: int| 0 <= i < t.len() implies #[trigger] t[i] != '\n' by {
            if i < l.0.len() {
                assert(t[i] == l.0[i]);
                assert(l.0.contains(l.0[i]));
            } else if l.0.len() + 2 <= i < l.0.len() + 2 + e.len() {
                assert(t[i] == e[i - l.0.len() - 2]);
                assert(e.contains(e[i - l.0.len() - 2]));
            }
        }
        assert(ts.drop_last() =~= r.map_values(f));
        assert(ts.last() == t);
        let a = join(ts.drop_last(), seq![',']);
        let all = join(ts, seq![',']);
        assert forall|i: int| 0 <= i < all.len() implies #[trigger] all[i] != '\n' by {
            if labels.len() == 1 {
                assert(all[i] == t[i]);
            } else if i < a.len() {
                assert(all[i] == a[i]);
                assert(a.contains(a[i]));
            } else if i > a.len() {
                assert(all[i] == t[i - a.len() - 1]);
            }
        }
    }
}

/// The line of a value stays one line and shows its metric.
proof fn lemma_sample_line(name: Seq<char>, s: SampleView)
    requires
        metric_name(name),
        known_labels(s),
    ensures
        plain_line(sample_line(name, s)),
        !is_comment(sample_line(name, s)),
        typed(sample_line(name, s)) is None,
        measured(sample_line(name, s)) == name,
        labelled_well(sample_line(name, s)),
{
    reveal_strlit("# TYPE ");
    let n = name.len() as int;
    let d = decimal(s.value as nat);
    let ls = labels_text(s.labels);
    let l = sample_line(name, s);
    text::numbers_read_back(s.value as nat, 10);
    assert(name_char(name[0]));
    assert(l[0] == name[0]);
    assert(l.last() == d.last());
    assert(text::is_digit(d[d.len() - 1]));
    if "# TYPE "@.is_prefix_of(l) {
        assert("# TYPE "@[0] == l[0]);
    }
    lemma_joined_labels(s.labels);
    let j = join(s.labels.map_values(|x: (Seq<char>, Seq<char>)| label_text(x)), seq![',']);
    assert forall|i: int| 0 <= i < l.len() implies #[trigger] l[i] != '\n' by {
        if i < n {
            assert(l[i] == name[i]);
            assert(name_char(name[i]));
        } else if i < n + ls.len() {
            assert(l[i] == ls[i - n]);
            if 0 < i - n <= j.len() {
                assert(ls[i - n] == j[i - n - 1]);
                assert(j.contains(j[i - n - 1]));
            }
        } else if i > n + ls.len() {
            assert(l[i] == d[i - n - ls.len() - 1]);
            assert(text::is_digit(d[i - n - ls.len() - 1]));
        }
    }
    assert forall|i: int| 0 <= i < n implies #[trigger] l[i] != '{' && l[i] != ' ' by {
        assert(l[i] == name[i]);
        assert(name_char(name[i]));
    }
    if s.labels.len() == 0 {
        assert(l =~= name + seq![' '] + d);
        text::lemma_position(l, '{');
        if l.contains('{') {
            let i = choose|i: int| 0 <= i < l.len() && l[i] == '{';
            if i > n {
                assert(l[i] == d[i - n - 1]);
                assert(text::is_digit(d[i - n - 1]));
            }
        }
        assert(before(l, '{') =~= l);
        assert(l[n] == ' ');
        text::lemma_position_is(l, ' ', n);
        assert(l.take(n) =~= name);
    } else {
        assert(l[n] == ls[0]);
        text::lemma_position_is(l, '{', n);
        assert(l.take(n) =~= name);
        text::lemma_position(name, ' ');
        if name.contains(' ') {
            let i = choose|i: int| 0 <= i < name.len() && name[i] == ' ';
            assert(name_char(name[i]));
        }
        assert(before(name, ' ') =~= name);
    }
    assert(known_labels(s) && l == sample_line(measured(l), s));
}

/// The lines that introduce a metric.
proof fn lemma_head_lines(f: FamilyView)
    requires
        tidy(f),
    ensures
        plain_line(help_line(f)),
        is_comment(help_line(f)),
        typed(help_line(f)) is None,
        plain_line(type_line(f)),
        is_comment(type_line(f)),
        typed(type_line(f)) == Some(f.name),
{
    reveal_strlit("# HELP ");
    reveal_strlit("# TYPE ");
    let n = f.name.len() as int;
    let h = help_line(f);
    let t = type_line(f);
    assert(h[2] == 'H' && "# TYPE "@[2] == 'T');
    assert(h.last() == f.help[f.help.len() - 1]);
    assert(t.last() == f.typ[f.typ.len() - 1]);
    assert("# TYPE "@ =~= t.take(7));
    assert forall|i: int| 0 <= i < h.len() implies #[trigger] h[i] != '\n' by {
        if 7 <= i < 7 + n {
            assert(h[i] == f.name[i - 7]);
            assert(name_char(f.name[i - 7]));
        } else if i > 7 + n {
            assert(h[i] == f.help[i - 8 - n]);
        }
    }
    assert forall|i: int| 0 <= i < t.len() implies #[trigger] t[i] != '\n' by {
        if 7 <= i < 7 + n {
            assert(t[i] == f.name[i - 7]);
            assert(name_char(f.name[i - 7]));
        } else if i > 7 + n {
            assert(t[i] == f.typ[i - 8 - n]);
        }
    }
    let r = t.skip(7);
    assert(r =~= f.name + seq![' '] + f.typ);
    assert forall|i: int| 0 <= i < n implies #[trigger] r[i] != ' ' by {
        assert(r[i] == f.name[i]);
        assert(name_char(f.name[i]));
    }
    assert(r[n] == ' ');
    text::lemma_position_is(r, ' ', n);
    assert(r.take(n) =~= f.name);
}

/// A page of tidy metrics.
spec fn tidy_page(fs: Seq<FamilyView>) -> bool {
    forall|i: int| 0 <= i < fs.len() ==> tidy(#[trigger] fs[i])
}

/// The lines of a page.
spec fn page_lines(fs: Seq<FamilyView>) -> Seq<Seq<char>> {
    flat_map(fs, |f: FamilyView| family_lines(f))
}

proof fn lemma_page_lines(fs: Seq<FamilyView>)
    requires
        tidy_page(fs),
    ensures
        lines(page_text(fs)) == page_lines(fs),
        page_text(fs).len() == 0 || page_text(fs).last() == '\n',
    decreases fs.len(),
{
    if fs.len() == 0 {
        assert(lines(page_text(fs)) =~= page_lines(fs));
    } else {
        let r = fs.drop_last();
        let f = fs.last();
        lemma_tidy_parts(fs);
        lemma_page_lines(r);
        lemma_family_text(f);
        let ls = family_lines(f);
        lemma_head_lines(f);
        assert forall|i: int| 0 <= i < ls.len() implies plain_line(#[trigger] ls[i]) by {
            if i >= 2 {
                assert(ls[i] == sample_line(f.name, f.samples[i - 2]));
                lemma_sample_line(f.name, f.samples[i - 2]);
            }
        }
        lemma_lines_added(page_text(r), ls);
    }
}

proof fn lemma_tidy_parts(fs: Seq<FamilyView>)
    requires
        tidy_page(fs),
        fs.len() > 0,
    ensures
        tidy_page(fs.drop_last()),
        tidy(fs.last()),
{
    assert(tidy(fs[fs.len() - 1]));
    assert forall|i: int| 0 <= i < fs.drop_last().len() implies tidy(#[trigger] fs.drop_last()[i]) by {
        assert(tidy(fs[i]));
    }
}

proof fn lemma_samples_type_nothing(name: Seq<char>, samples: Seq<SampleView>)
    requires
        metric_name(name),
        forall|i: int| 0 <= i < samples.len() ==> known_labels(#[trigger] samples[i]),
    ensures
        typed_in(samples.map_values(|s: SampleView| sample_line(name, s))) == Seq::<Seq<char>>::empty(),
    decreases samples.len(),
{
    if samples.len() > 0 {
        let t = samples.drop_last();
        assert(known_labels(samples[samples.len() - 1]));
        assert forall|i: int| 0 <= i < t.len() implies known_labels(#[trigger] t[i]) by {
            assert(known_labels(samples[i]));
        }
        lemma_samples_type_nothing(name, t);
        lemma_sample_line(name, samples.last());
        let ms = samples.map_values(|s: SampleView| sample_line(name, s));
        assert(ms.drop_last() =~= t.map_values(|s: SampleView| sample_line(name, s)));
        assert(typed_in(ms) =~= Seq::<Seq<char>>::empty());
    }
}

/// The lines of a page introduce its metrics in order, and each value stands in the
/// block of its metric.
proof fn lemma_page_order(fs: Seq<FamilyView>)
    requires
        tidy_page(fs),
    ensures
        typed_in(page_lines(fs)) == names_of(fs),
        forall|i: int|
            0 <= i < page_lines(fs).len() && !is_comment(#[trigger] page_lines(fs)[i]) ==> in_its_block(
                page_lines(fs),
                i,
            ) && labelled_well(page_lines(fs)[i]),
    decreases fs.len(),
{
    let all = page_lines(fs);
    if fs.len() == 0 {
        assert(typed_in(all) =~= names_of(fs));
    } else {
        let r = fs.drop_last();
        let f = fs.last();
        lemma_tidy_parts(fs);
        lemma_page_order(r);
        let a = page_lines(r);
        let b = family_lines(f);
        assert(all == a + b);
        let n = a.len() as int;
        let g = |l: Seq<char>| typed_by(l);
        let head = seq![help_line(f), type_line(f)];
        let ms = f.samples.map_values(|s: SampleView| sample_line(f.name, s));
        lemma_head_lines(f);
        text::lemma_flat_map_added(a, b, g);
        text::lemma_flat_map_added(head, ms, g);
        lemma_samples_type_nothing(f.name, f.samples);
        assert(head =~= Seq::<Seq<char>>::empty().push(help_line(f)).push(type_line(f)));
        text::lemma_flat_map_push(Seq::<Seq<char>>::empty(), help_line(f), g);
        text::lemma_flat_map_push(Seq::<Seq<char>>::empty().push(help_line(f)), type_line(f), g);
        assert(typed_in(b) =~= seq![f.name]);
        assert(typed_in(all) =~= names_of(r).push(f.name));
        assert(names_of(fs) =~= names_of(r).push(f.name));
        assert forall|i: int| 0 <= i < all.len() && !is_comment(#[trigger] all[i]) implies in_its_block(all, i)
            && labelled_well(all[i]) by {
            if i < n {
                assert(all[i] == a[i]);
                assert(in_its_block(a, i));
                let j = choose|j: int|
                    #![trigger a[j]]
                    0 <= j < i && typed(a[j]) == Some(measured(a[i])) && forall|k: int| j < k <= i ==> !is_comment(
                        #[trigger] a[k],
                    );
                assert(all[j] == a[j]);
                assert forall|k: int| j < k <= i implies !is_comment(#[trigger] all[k]) by {
                    assert(all[k] == a[k]);
                }
            } else {
                assert(all[n] == help_line(f));
                assert(all[n + 1] == type_line(f));
                assert(i >= n + 2);
                assert forall|k: int| n + 1 < k < all.len() implies !is_comment(#[trigger] all[k]) && measured(all[k])
                    == f.name && labelled_well(all[k]) by {
                    assert(all[k] == sample_line(f.name, f.samples[k - n - 2]));
                    lemma_sample_line(f.name, f.samples[k - n - 2]);
                }
                assert(typed(all[n + 1]) == Some(measured(all[i])));
            }
        }
    }
}

/// The metrics that a page can hold, in order.
pub open spec fn all_names() -> Seq<Seq<char>> {
    seq![
        "ferrite_build_info"@,
        "ferrite_dns_queries_total"@,
        "ferrite_dns_queries_dropped_total"@,
        "ferrite_dns_cache_entries"@,
        "ferrite_dns_cache_bytes"@,
        "ferrite_blocklist_domains"@,
        "ferrite_heap_live_bytes"@,
        "ferrite_heap_peak_bytes"@,
        "ferrite_open_fds"@,
        "ferrite_rss_bytes"@,
        "ferrite_rss_anonymous_bytes"@,
        "ferrite_proxy_splices_active"@,
        "ferrite_wg_virtual_connections_active"@,
        "ferrite_egress_up"@,
        "ferrite_egress_down_seconds"@,
        "ferrite_egress_wg_handshake_age_seconds"@,
        "ferrite_egress_probe_up"@,
        "ferrite_egress_probe_rtt_ms"@,
        "ferrite_egress_connections_active"@,
        "ferrite_egress_connections_total"@,
        "ferrite_egress_bytes_total"@,
        "ferrite_egress_connect_failures_total"@,
        "ferrite_egress_fail_closed_drops_total"@,
        "ferrite_rule_hits_total"@,
    ]
}

proof fn lemma_all_names()
    ensures
        all_names().no_duplicates(),
        all_names().len() == 24,
{
    reveal_strlit("ferrite_build_info");
    reveal_strlit("ferrite_dns_queries_total");
    reveal_strlit("ferrite_dns_queries_dropped_total");
    reveal_strlit("ferrite_dns_cache_entries");
    reveal_strlit("ferrite_dns_cache_bytes");
    reveal_strlit("ferrite_blocklist_domains");
    reveal_strlit("ferrite_heap_live_bytes");
    reveal_strlit("ferrite_heap_peak_bytes");
    reveal_strlit("ferrite_open_fds");
    reveal_strlit("ferrite_rss_bytes");
    reveal_strlit("ferrite_rss_anonymous_bytes");
    reveal_strlit("ferrite_proxy_splices_active");
    reveal_strlit("ferrite_wg_virtual_connections_active");
    reveal_strlit("ferrite_egress_up");
    reveal_strlit("ferrite_egress_down_seconds");
    reveal_strlit("ferrite_egress_wg_handshake_age_seconds");
    reveal_strlit("ferrite_egress_probe_up");
    reveal_strlit("ferrite_egress_probe_rtt_ms");
    reveal_strlit("ferrite_egress_connections_active");
    reveal_strlit("ferrite_egress_connections_total");
    reveal_strlit("ferrite_egress_bytes_total");
    reveal_strlit("ferrite_egress_connect_failures_total");
    reveal_strlit("ferrite_egress_fail_closed_drops_total");
    reveal_strlit("ferrite_rule_hits_total");
    assert("ferrite_dns_queries_total"@[12] != "ferrite_dns_cache_entries"@[12]);
    assert("ferrite_dns_queries_total"@[8] != "ferrite_blocklist_domains"@[8]);
    assert("ferrite_dns_queries_dropped_total"@[8] != "ferrite_egress_connections_active"@[8]);
    assert("ferrite_dns_cache_entries"@[8] != "ferrite_blocklist_domains"@[8]);
    assert("ferrite_dns_cache_bytes"@[8] != "ferrite_heap_live_bytes"@[8]);
    assert("ferrite_dns_cache_bytes"@[8] != "ferrite_heap_peak_bytes"@[8]);
    assert("ferrite_dns_cache_bytes"@[8] != "ferrite_egress_probe_up"@[8]);
    assert("ferrite_dns_cache_bytes"@[8] != "ferrite_rule_hits_total"@[8]);
    assert("ferrite_heap_live_bytes"@[13] != "ferrite_heap_peak_bytes"@[13]);
    assert("ferrite_heap_live_bytes"@[8] != "ferrite_egress_probe_up"@[8]);
    assert("ferrite_heap_live_bytes"@[8] != "ferrite_rule_hits_total"@[8]);
    assert("ferrite_heap_peak_bytes"@[8] != "ferrite_egress_probe_up"@[8]);
    assert("ferrite_heap_peak_bytes"@[8] != "ferrite_rule_hits_total"@[8]);
    assert("ferrite_rss_bytes"@[8] != "ferrite_egress_up"@[8]);
    assert("ferrite_rss_anonymous_bytes"@[8] != "ferrite_egress_down_seconds"@[8]);
    assert("ferrite_rss_anonymous_bytes"@[8] != "ferrite_egress_probe_rtt_ms"@[8]);
    assert("ferrite_wg_virtual_connections_active"@[8] != "ferrite_egress_connect_failures_total"@[8]);
    assert("ferrite_egress_down_seconds"@[15] != "ferrite_egress_probe_rtt_ms"@[15]);
    assert("ferrite_egress_probe_up"@[8] != "ferrite_rule_hits_total"@[8]);
    let all = all_names();
    assert forall|i: int, j: int| 0 <= i < all.len() && 0 <= j < all.len() && i != j implies all[i] != all[j] by {
        assert(all[i].len() > 0 && all[j].len() > 0);
    }
}

/// The metrics are tidy, each once, and among the first `k` that a page can hold.
spec fn placed(fs: Seq<FamilyView>, k: int) -> bool {
    &&& tidy_page(fs)
    &&& forall|i: int| 0 <= i < fs.len() ==> all_names().take(k).contains((#[trigger] fs[i]).name)
    &&& names_of(fs).no_duplicates()
}

proof fn lemma_place_next(fs: Seq<FamilyView>, f: FamilyView, k: int, p: int)
    requires
        placed(fs, k),
        tidy(f),
        0 <= k <= p < 24,
        f.name == all_names()[p],
    ensures
        placed(fs.push(f), p + 1),
{
    lemma_all_names();
    let all = fs.push(f);
    let ns = names_of(all);
    let held = all_names().take(p + 1);
    assert forall|i: int| 0 <= i < fs.len() implies held.contains((#[trigger] fs[i]).name) && fs[i].name != f.name by {
        let before_k = all_names().take(k);
        let j = choose|j: int| 0 <= j < before_k.len() && before_k[j] == fs[i].name;
        assert(held[j] == fs[i].name);
        assert(all_names()[j] == fs[i].name);
    }
    assert(held[p] == f.name);
    assert forall|i: int| 0 <= i < all.len() implies tidy(#[trigger] all[i]) && held.contains(all[i].name) by {
        if i < fs.len() {
            assert(tidy(fs[i]));
            assert(held.contains(fs[i].name));
        }
    }
    assert forall|i: int, j: int| 0 <= i < ns.len() && 0 <= j < ns.len() && i != j implies ns[i] != ns[j] by {
        if i < fs.len() && j < fs.len() {
            assert(names_of(fs)[i] != names_of(fs)[j]);
        } else if i < fs.len() {
            assert(fs[i].name != f.name);
        } else {
            assert(fs[j].name != f.name);
        }
    }
}

proof fn lemma_types()
    ensures
        one_line("gauge"@),
        one_line("counter"@),
{
    reveal_strlit("gauge");
    reveal_strlit("counter");
}

proof fn lemma_egress_samples(es: Seq<EgressSample>, field: EgressField)
    ensures
        forall|i: int|
            0 <= i < egress_samples(es, field).len() ==> known_labels(#[trigger] egress_samples(es, field)[i]),
    decreases es.len(),
{
    let all = egress_samples(es, field);
    if es.len() > 0 {
        let r = es.drop_last();
        lemma_egress_samples(r, field);
        let a = egress_samples(r, field);
        let b = field_samples(es.last(), field);
        assert(all == a + b);
        assert forall|i: int| 0 <= i < b.len() implies known_labels(#[trigger] b[i]) by {}
        assert forall|i: int| 0 <= i < all.len() implies known_labels(#[trigger] all[i]) by {
            if i < a.len() {
                assert(all[i] == a[i]);
            } else {
                assert(all[i] == b[i - a.len()]);
            }
        }
    }
}

proof fn lemma_place_plain(
    fs: Seq<FamilyView>,
    name: Seq<char>,
    help: Seq<char>,
    value: u64,
    typ: Seq<char>,
    k: int,
    p: int,
)
    requires
        placed(fs, k),
        0 <= k <= p < 24,
        name == all_names()[p],
        metric_name(name),
        one_line(help),
        one_line(typ),
    ensures
        placed(fs.push(fam(name, help, typ, seq![plain(value)])), p + 1),
{
    lemma_place_next(fs, fam(name, help, typ, seq![plain(value)]), k, p);
}

proof fn lemma_place_egress(
    fs: Seq<FamilyView>,
    name: Seq<char>,
    help: Seq<char>,
    typ: Seq<char>,
    es: Seq<EgressSample>,
    field: EgressField,
    k: int,
)
    requires
        placed(fs, k),
        0 <= k < 24,
        name == all_names()[k],
        metric_name(name),
        one_line(help),
        one_line(typ),
    ensures
        placed(fs.push(fam(name, help, typ, egress_samples(es, field))), k + 1),
{
    lemma_egress_samples(es, field);
    lemma_place_next(fs, fam(name, help, typ, egress_samples(es, field)), k, k);
}

proof fn lemma_dns_page(s: MetricsSnapshot)
    ensures
        placed(dns_page(s), 6),
{
    lemma_types();
    let e = Seq::<FamilyView>::empty();
    assert(placed(e, 0));
    reveal_strlit("ferrite_build_info");
    reveal_strlit("Constant 1, labeled with the ferrite version.");
    let f0 = fam(
        "ferrite_build_info"@,
        "Constant 1, labeled with the ferrite version."@,
        "gauge"@,
        seq![labelled("version"@, s.version@, 1)],
    );
    lemma_place_next(e, f0, 0, 0);
    let p0 = e.push(f0);
    reveal_strlit("ferrite_dns_queries_total");
    reveal_strlit("DNS queries handled, by outcome. The statuses sum to the overall total.");
    let counts = seq![
        labelled("status"@, "blocked"@, s.blocked),
        labelled("status"@, "allowed"@, s.allowed),
        labelled("status"@, "cached"@, s.cached),
        labelled("status"@, "upstream"@, s.upstream),
        labelled("status"@, "routed"@, s.routed),
    ];
    assert forall|i: int| 0 <= i < counts.len() implies known_labels(#[trigger] counts[i]) by {}
    let f1 = fam(
        "ferrite_dns_queries_total"@,
        "DNS queries handled, by outcome. The statuses sum to the overall total."@,
        "counter"@,
        counts,
    );
    lemma_place_next(p0, f1, 1, 1);
    let p1 = p0.push(f1);
    reveal_strlit("ferrite_dns_queries_dropped_total");
    reveal_strlit("Query log entries dropped because the stats writer lagged (back-pressure).");
    lemma_place_plain(
        p1,
        "ferrite_dns_queries_dropped_total"@,
        "Query log entries dropped because the stats writer lagged (back-pressure)."@,
        s.dropped,
        "counter"@,
        2,
        2,
    );
    let p2 = p1.push(fam(
        "ferrite_dns_queries_dropped_total"@,
        "Query log entries dropped because the stats writer lagged (back-pressure)."@,
        "counter"@,
        seq![plain(s.dropped)]),
    );
    reveal_strlit("ferrite_dns_cache_entries");
    reveal_strlit("Entries currently in the DNS response cache.");
    lemma_place_plain(
        p2,
        "ferrite_dns_cache_entries"@,
        "Entries currently in the DNS response cache."@,
        s.cache_entries,
        "gauge"@,
        3,
        3,
    );
    let p3 = p2.push(fam(
        "ferrite_dns_cache_entries"@,
        "Entries currently in the DNS response cache."@,
        "gauge"@,
        seq![plain(s.cache_entries)]),
    );
    reveal_strlit("ferrite_dns_cache_bytes");
    reveal_strlit("Approximate bytes held by the DNS response cache.");
    lemma_place_plain(
        p3,
        "ferrite_dns_cache_bytes"@,
        "Approximate bytes held by the DNS response cache."@,
        s.cache_bytes,
        "gauge"@,
        4,
        4,
    );
    let p4 = p3.push(fam(
        "ferrite_dns_cache_bytes"@,
        "Approximate bytes held by the DNS response cache."@,
        "gauge"@,
        seq![plain(s.cache_bytes)]),
    );
    reveal_strlit("ferrite_blocklist_domains");
    reveal_strlit("Domains in the compiled blocklist.");
    lemma_place_plain(
        p4,
        "ferrite_blocklist_domains"@,
        "Domains in the compiled blocklist."@,
        s.blocklist_domains,
        "gauge"@,
        5,
        5,
    );
    let p5 = p4.push(fam(
        "ferrite_blocklist_domains"@,
        "Domains in the compiled blocklist."@,
        "gauge"@,
        seq![plain(s.blocklist_domains)]),
    );
    assert(p5 == dns_page(s));
}

proof fn lemma_process_page(fs: Seq<FamilyView>, s: MetricsSnapshot)
    requires
        placed(fs, 6),
    ensures
        placed(process_page(fs, s), 13),
{
    lemma_types();
    reveal_strlit("ferrite_heap_live_bytes");
    reveal_strlit("Live heap bytes (allocated minus freed).");
    lemma_place_plain(
        fs,
        "ferrite_heap_live_bytes"@,
        "Live heap bytes (allocated minus freed)."@,
        s.heap_live,
        "gauge"@,
        6,
        6,
    );
    let p6 = fs.push(fam(
        "ferrite_heap_live_bytes"@,
        "Live heap bytes (allocated minus freed)."@,
        "gauge"@,
        seq![plain(s.heap_live)]),
    );
    reveal_strlit("ferrite_heap_peak_bytes");
    reveal_strlit("High-water mark of live heap bytes.");
    lemma_place_plain(
        p6,
        "ferrite_heap_peak_bytes"@,
        "High-water mark of live heap bytes."@,
        s.heap_peak,
        "gauge"@,
        7,
        7,
    );
    let heap = p6.push(fam(
        "ferrite_heap_peak_bytes"@,
        "High-water mark of live heap bytes."@,
        "gauge"@,
        seq![plain(s.heap_peak)]),
    );
    let fds = match s.open_fds {
        Some(n) => heap.push(fam(
            "ferrite_open_fds"@,
            "Open file descriptors (Linux only)."@,
            "gauge"@,
            seq![plain(n)]),
        ),
        None => heap,
    };
    if let Some(n) = s.open_fds {
        reveal_strlit("ferrite_open_fds");
        reveal_strlit("Open file descriptors (Linux only).");
        lemma_place_plain(heap, "ferrite_open_fds"@, "Open file descriptors (Linux only)."@, n, "gauge"@, 8, 8);
    }
    assert(placed(fds, 9));
    let resident = match s.resident {
        Some((all, anonymous)) => fds.push(fam(
            "ferrite_rss_bytes"@,
            "Resident set size (Linux only)."@,
            "gauge"@,
            seq![plain(all)]),
        ).push(
            fam(
                "ferrite_rss_anonymous_bytes"@,
                "Anonymous (non file-backed) resident memory (Linux only)."@,
                "gauge"@,
                seq![plain(anonymous)],
            ),
        ),
        None => fds,
    };
    if let Some((all, anonymous)) = s.resident {
        reveal_strlit("ferrite_rss_bytes");
        reveal_strlit("Resident set size (Linux only).");
        lemma_place_plain(fds, "ferrite_rss_bytes"@, "Resident set size (Linux only)."@, all, "gauge"@, 9, 9);
        let p9 = fds.push(fam("ferrite_rss_bytes"@, "Resident set size (Linux only)."@, "gauge"@, seq![plain(all)]));
        reveal_strlit("ferrite_rss_anonymous_bytes");
        reveal_strlit("Anonymous (non file-backed) resident memory (Linux only).");
        lemma_place_plain(
            p9,
            "ferrite_rss_anonymous_bytes"@,
            "Anonymous (non file-backed) resident memory (Linux only)."@,
            anonymous,
            "gauge"@,
            10,
            10,
        );
    }
    assert(placed(resident, 11));
    reveal_strlit("ferrite_proxy_splices_active");
    reveal_strlit("Intercepted proxy connections currently alive (client-egress splices).");
    lemma_place_plain(
        resident,
        "ferrite_proxy_splices_active"@,
        "Intercepted proxy connections currently alive (client-egress splices)."@,
        s.proxy_splices,
        "gauge"@,
        11,
        11,
    );
    let p11 = resident.push(fam(
        "ferrite_proxy_splices_active"@,
        "Intercepted proxy connections currently alive (client-egress splices)."@,
        "gauge"@,
        seq![plain(s.proxy_splices)]),
    );
    reveal_strlit("ferrite_wg_virtual_connections_active");
    reveal_strlit("Virtual TCP connections currently open inside WireGuard tunnels.");
    lemma_place_plain(
        p11,
        "ferrite_wg_virtual_connections_active"@,
        "Virtual TCP connections currently open inside WireGuard tunnels."@,
        s.wg_connections,
        "gauge"@,
        12,
        12,
    );
    let p12 = p11.push(fam(
        "ferrite_wg_virtual_connections_active"@,
        "Virtual TCP connections currently open inside WireGuard tunnels."@,
        "gauge"@,
        seq![plain(s.wg_connections)]),
    );
    assert(p12 == process_page(fs, s));
}

proof fn lemma_egress_page(fs: Seq<FamilyView>, es: Seq<EgressSample>)
    requires
        placed(fs, 13),
    ensures
        placed(egress_page(fs, es), 23),
{
    lemma_types();
    reveal_strlit("ferrite_egress_up");
    reveal_strlit("1 when the egress is healthy (breaker closed and, for WireGuard, handshake live).");
    lemma_place_egress(
        fs,
        "ferrite_egress_up"@,
        "1 when the egress is healthy (breaker closed and, for WireGuard, handshake live)."@,
        "gauge"@,
        es,
        EgressField::Up,
        13,
    );
    let p13 = fs.push(fam(
        "ferrite_egress_up"@,
        "1 when the egress is healthy (breaker closed and, for WireGuard, handshake live)."@,
        "gauge"@,
        egress_samples(es, EgressField::Up)),
    );
    reveal_strlit("ferrite_egress_down_seconds");
    reveal_strlit("Seconds the egress has been unhealthy (0 while healthy).");
    lemma_place_egress(
        p13,
        "ferrite_egress_down_seconds"@,
        "Seconds the egress has been unhealthy (0 while healthy)."@,
        "gauge"@,
        es,
        EgressField::DownSeconds,
        14,
    );
    let p14 = p13.push(fam(
        "ferrite_egress_down_seconds"@,
        "Seconds the egress has been unhealthy (0 while healthy)."@,
        "gauge"@,
        egress_samples(es, EgressField::DownSeconds)),
    );
    reveal_strlit("ferrite_egress_wg_handshake_age_seconds");
    reveal_strlit("Seconds since the WireGuard handshake (absent for other egress kinds).");
    lemma_place_egress(
        p14,
        "ferrite_egress_wg_handshake_age_seconds"@,
        "Seconds since the WireGuard handshake (absent for other egress kinds)."@,
        "gauge"@,
        es,
        EgressField::HandshakeAge,
        15,
    );
    let p15 = p14.push(fam(
        "ferrite_egress_wg_handshake_age_seconds"@,
        "Seconds since the WireGuard handshake (absent for other egress kinds)."@,
        "gauge"@,
        egress_samples(es, EgressField::HandshakeAge)),
    );
    reveal_strlit("ferrite_egress_probe_up");
    reveal_strlit("1 if the last active probe through the egress succeeded, else 0.");
    lemma_place_egress(
        p15,
        "ferrite_egress_probe_up"@,
        "1 if the last active probe through the egress succeeded, else 0."@,
        "gauge"@,
        es,
        EgressField::ProbeUp,
        16,
    );
    let p16 = p15.push(fam(
        "ferrite_egress_probe_up"@,
        "1 if the last active probe through the egress succeeded, else 0."@,
        "gauge"@,
        egress_samples(es, EgressField::ProbeUp)),
    );
    reveal_strlit("ferrite_egress_probe_rtt_ms");
    reveal_strlit("Round-trip of the last successful active probe through the egress (ms).");
    lemma_place_egress(
        p16,
        "ferrite_egress_probe_rtt_ms"@,
        "Round-trip of the last successful active probe through the egress (ms)."@,
        "gauge"@,
        es,
        EgressField::ProbeRtt,
        17,
    );
    let p17 = p16.push(fam(
        "ferrite_egress_probe_rtt_ms"@,
        "Round-trip of the last successful active probe through the egress (ms)."@,
        "gauge"@,
        egress_samples(es, EgressField::ProbeRtt)),
    );
    reveal_strlit("ferrite_egress_connections_active");
    reveal_strlit("Connections currently spliced through the egress.");
    lemma_place_egress(
        p17,
        "ferrite_egress_connections_active"@,
        "Connections currently spliced through the egress."@,
        "gauge"@,
        es,
        EgressField::Active,
        18,
    );
    let p18 = p17.push(fam(
        "ferrite_egress_connections_active"@,
        "Connections currently spliced through the egress."@,
        "gauge"@,
        egress_samples(es, EgressField::Active)),
    );
    reveal_strlit("ferrite_egress_connections_total");
    reveal_strlit("Connections ever opened through the egress.");
    lemma_place_egress(
        p18,
        "ferrite_egress_connections_total"@,
        "Connections ever opened through the egress."@,
        "counter"@,
        es,
        EgressField::Total,
        19,
    );
    let p19 = p18.push(fam(
        "ferrite_egress_connections_total"@,
        "Connections ever opened through the egress."@,
        "counter"@,
        egress_samples(es, EgressField::Total)),
    );
    reveal_strlit("ferrite_egress_bytes_total");
    reveal_strlit("Bytes moved through the egress, by direction (up = client to destination).");
    lemma_place_egress(
        p19,
        "ferrite_egress_bytes_total"@,
        "Bytes moved through the egress, by direction (up = client to destination)."@,
        "counter"@,
        es,
        EgressField::Bytes,
        20,
    );
    let p20 = p19.push(fam(
        "ferrite_egress_bytes_total"@,
        "Bytes moved through the egress, by direction (up = client to destination)."@,
        "counter"@,
        egress_samples(es, EgressField::Bytes)),
    );
    reveal_strlit("ferrite_egress_connect_failures_total");
    reveal_strlit("Failed connect attempts through the egress.");
    lemma_place_egress(
        p20,
        "ferrite_egress_connect_failures_total"@,
        "Failed connect attempts through the egress."@,
        "counter"@,
        es,
        EgressField::ConnectFailures,
        21,
    );
    let p21 = p20.push(fam(
        "ferrite_egress_connect_failures_total"@,
        "Failed connect attempts through the egress."@,
        "counter"@,
        egress_samples(es, EgressField::ConnectFailures)),
    );
    reveal_strlit("ferrite_egress_fail_closed_drops_total");
    reveal_strlit("Client connections dropped by fail-closed rules.");
    lemma_place_egress(
        p21,
        "ferrite_egress_fail_closed_drops_total"@,
        "Client connections dropped by fail-closed rules."@,
        "counter"@,
        es,
        EgressField::FailClosedDrops,
        22,
    );
    let p22 = p21.push(fam(
        "ferrite_egress_fail_closed_drops_total"@,
        "Client connections dropped by fail-closed rules."@,
        "counter"@,
        egress_samples(es, EgressField::FailClosedDrops)),
    );
    assert(p22 == egress_page(fs, es));
}

proof fn lemma_metrics_page(s: MetricsSnapshot)
    ensures
        placed(metrics_page(s), 24),
{
    lemma_types();
    lemma_dns_page(s);
    let p = process_page(dns_page(s), s);
    lemma_process_page(dns_page(s), s);
    lemma_egress_page(p, s.egresses@);
    reveal_strlit("ferrite_rule_hits_total");
    reveal_strlit("Connections routed per rule (pattern + egress).");
    let hits = s.rule_hits@.map_values(|h: RuleHits| rule_sample(h));
    assert forall|i: int| 0 <= i < hits.len() implies known_labels(#[trigger] hits[i]) by {
        assert(hits[i] == rule_sample(s.rule_hits@[i]));
    }
    lemma_place_next(
        egress_page(p, s.egresses@),
        fam("ferrite_rule_hits_total"@, "Connections routed per rule (pattern + egress)."@, "counter"@, hits),
        23,
        23,
    );
}

/// On every page each metric has one `# TYPE` line, all its values stand right below
/// that line, so that no two metrics are mixed, and the only labels are the version,
/// the status, the route, the direction and the pattern of a rule.
pub proof fn values_stand_under_their_metric(s: MetricsSnapshot)
    ensures
        ({
            let ls = lines(page_text(metrics_page(s)));
            &&& typed_in(ls) == names_of(metrics_page(s))
            &&& names_of(metrics_page(s)).no_duplicates()
            &&& forall|i: int|
                0 <= i < ls.len() && !is_comment(#[trigger] ls[i]) ==> in_its_block(ls, i) && labelled_well(ls[i])
        }),
{
    lemma_metrics_page(s);
    lemma_page_lines(metrics_page(s));
    lemma_page_order(metrics_page(s));
}

/// In a label's value backslashes, quotes and line feeds are escaped, and nothing else is.
pub proof fn label_values_are_escaped(v: Seq<char>, c: char)
    ensures
        escaped(Seq::<char>::empty()).len() == 0,
        c == '\\' ==> escaped(v.push(c)) == escaped(v) + seq!['\\', '\\'],
        c == '"' ==> escaped(v.push(c)) == escaped(v) + seq!['\\', '"'],
        c == '\n' ==> escaped(v.push(c)) == escaped(v) + seq!['\\', 'n'],
        c != '\\' && c != '"' && c != '\n' ==> escaped(v.push(c)) == escaped(v).push(c),
{
    assert(v.push(c).drop_last() =~= v);
    assert(escaped(v) + seq![c] =~= escaped(v).push(c));
}

/// A value is written behind its metric's name and its labels, which stand in braces with
/// commas between them, each with its value in quotes.
pub proof fn values_are_written_behind_their_labels(
    name: Seq<char>,
    a: (Seq<char>, Seq<char>),
    b: (Seq<char>, Seq<char>),
    value: u64,
)
    ensures
        sample_text(name, (SampleView { labels: seq![], value })) == name + seq![' '] + decimal(value as nat) + seq!['\n'],
        sample_text(name, (SampleView { labels: seq![a], value })) == name + seq!['{'] + a.0 + seq!['=', '"'] + escaped(a.1)
            + seq!['"', '}', ' '] + decimal(value as nat) + seq!['\n'],
        sample_text(name, (SampleView { labels: seq![a, b], value })) == name + seq!['{'] + a.0 + seq!['=', '"'] + escaped(
            a.1,
        ) + seq!['"', ','] + b.0 + seq!['=', '"'] + escaped(b.1) + seq!['"', '}', ' '] + decimal(value as nat)
            + seq!['\n'],
{
    let f = |l: (Seq<char>, Seq<char>)| label_text(l);
    let none = Seq::<(Seq<char>, Seq<char>)>::empty();
    let one = seq![a];
    let two = seq![a, b];
    assert(one.map_values(f) =~= seq![label_text(a)]);
    assert(two.map_values(f) =~= seq![label_text(a), label_text(b)]);
    let m = two.map_values(f);
    assert(m.drop_last() =~= seq![label_text(a)]);
    assert(join(m.drop_last(), seq![',']) =~= label_text(a));
    assert(join(m, seq![',']) =~= label_text(a) + seq![','] + label_text(b));
    assert(labels_text(one) =~= seq!['{'] + label_text(a) + seq!['}']);
    assert(labels_text(two) =~= seq!['{'] + (label_text(a) + seq![','] + label_text(b)) + seq!['}']);
    assert(sample_text(name, (SampleView { labels: none, value })) =~= name + seq![' '] + decimal(value as nat) + seq!['\n']);
    assert(sample_text(name, (SampleView { labels: one, value })) =~= name + seq!['{'] + a.0 + seq!['=', '"'] + escaped(a.1)
        + seq!['"', '}', ' '] + decimal(value as nat) + seq!['\n']);
    assert(sample_text(name, (SampleView { labels: two, value })) =~= name + seq!['{'] + a.0 + seq!['=', '"'] + escaped(a.1)
        + seq!['"', ','] + b.0 + seq!['=', '"'] + escaped(b.1) + seq!['"', '}', ' '] + decimal(value as nat) + seq!['\n']);
}

}
