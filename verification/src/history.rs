//! Deletion-run grouping, thousands separators and deletion-manifest retention.

use vstd::prelude::*;
use crate::text::{push_char, chars_of, lex_lt, lex_less, lemma_lex_irreflexive, lemma_lex_transitive, lemma_lex_total};
use vstd::utf8::encode_utf8;

verus! {

/// One deleted directory as surfaced in the history view.
#[derive(Debug, PartialEq, Eq)]
pub struct HistoryEntry {
    pub path: String,
    pub size_bytes: i64,
    pub deleted_at: i64,
}

impl HistoryEntry {
    /// A copy of this entry.
    pub fn duplicate(&self) -> (r: Self)
        ensures
            r == *self,
    {
        HistoryEntry { path: self.path.clone(), size_bytes: self.size_bytes, deleted_at: self.deleted_at }
    }
}


/// A group of deletions that happened close together in time.
#[derive(Debug, PartialEq, Eq)]
pub struct HistoryRun {
    pub started_at: i64,
    pub entries: Vec<HistoryEntry>,
    pub total_bytes: i64,
}

/// Two deletions within this many seconds of each other are treated as part of
/// the same "run".
pub const RUN_WINDOW_SECS: i64 = 60;

/// Keep at most this many deletion manifests on disk; older ones are pruned.
pub const MANIFEST_RETENTION: usize = 50;

/// Mathematical picture of a run: start, entries, total bytes.
pub struct RunSpec {
    pub started_at: int,
    pub entries: Seq<HistoryEntry>,
    pub total: int,
}

/// The abstract view of a run.
pub open spec fn run_view(r: HistoryRun) -> RunSpec {
    RunSpec { started_at: r.started_at as int, entries: r.entries@, total: r.total_bytes as int }
}

pub open spec fn abs_int(x: int) -> int {
    if x < 0 { -x } else { x }
}

/// Whether `e` folds into the run `r`: within the window of the run's start.
pub open spec fn joins_run(r: RunSpec, e: HistoryEntry) -> bool {
    abs_int(r.started_at - e.deleted_at) <= RUN_WINDOW_SECS
}

/// Runs produced by folding the entries left to right: an entry joins the
/// last run when it lies within the window of that run's start (moving the
/// start back if it is earlier), and opens a new run otherwise.
pub open spec fn runs_of(es: Seq<HistoryEntry>) -> Seq<RunSpec>
    decreases es.len(),
{
    if es.len() == 0 {
        Seq::empty()
    } else {
        let prev = runs_of(es.drop_last());
        let e = es.last();
        if prev.len() > 0 && joins_run(prev.last(), e) {
            let r = prev.last();
            prev.update(prev.len() - 1, RunSpec {
                started_at: if e.deleted_at < r.started_at { e.deleted_at as int } else { r.started_at },
                entries: r.entries.push(e),
                total: r.total + e.size_bytes,
            })
        } else {
            prev.push(RunSpec { started_at: e.deleted_at as int, entries: seq![e], total: e.size_bytes as int })
        }
    }
}

/// Every running total that the fold computes fits in an `i64`.
pub open spec fn run_totals_fit(es: Seq<HistoryEntry>) -> bool {
    forall|k: int, j: int| 0 <= k <= es.len() && 0 <= j < runs_of(es.take(k)).len()
        ==> i64::MIN <= #[trigger] runs_of(es.take(k))[j].total <= i64::MAX
}


/// All entries of `rs`, run after run.
pub open spec fn entries_of_runs(rs: Seq<RunSpec>) -> Seq<HistoryEntry>
    decreases rs.len(),
{
    if rs.len() == 0 { Seq::empty() } else { entries_of_runs(rs.drop_last()) + rs.last().entries }
}

/// Sum of the sizes of `es`.
pub open spec fn sum_sizes(es: Seq<HistoryEntry>) -> int
    decreases es.len(),
{
    if es.len() == 0 { 0 } else { sum_sizes(es.drop_last()) + es.last().size_bytes }
}

/// Earliest deletion time in a non-empty `es`.
pub open spec fn earliest(es: Seq<HistoryEntry>) -> int
    decreases es.len(),
{
    if es.len() <= 1 {
        es[0].deleted_at as int
    } else {
        let m = earliest(es.drop_last());
        if (es.last().deleted_at as int) < m { es.last().deleted_at as int } else { m }
    }
}

/// Grouping into runs loses, duplicates and reorders nothing: reading the
/// runs' entries one run after another gives back the input. Every run is
/// non-empty, its total is the sum of its entries' sizes, and it starts at the
/// earliest deletion it holds.
pub proof fn lemma_runs_partition(es: Seq<HistoryEntry>)
    ensures
        entries_of_runs(runs_of(es)) == es,
        forall|j: int| 0 <= j < runs_of(es).len() ==> {
            let r = #[trigger] runs_of(es)[j];
            &&& r.entries.len() > 0
            &&& r.total == sum_sizes(r.entries)
            &&& r.started_at == earliest(r.entries)
        },
    decreases es.len(),
{
    if es.len() > 0 {
        let pre = es.drop_last();
        lemma_runs_partition(pre);
        let prev = runs_of(pre);
        let e = es.last();
        let rs = runs_of(es);
        if prev.len() > 0 && joins_run(prev.last(), e) {
            let r = prev.last();
            let nr = rs.last();
            assert(rs.drop_last() =~= prev.drop_last());
            assert(nr.entries.drop_last() =~= r.entries);
            assert(entries_of_runs(prev) == entries_of_runs(prev.drop_last()) + r.entries);
            assert(nr.entries == r.entries.push(e));
            assert(entries_of_runs(rs) == entries_of_runs(rs.drop_last()) + nr.entries);
            assert(es =~= pre.push(e));
            assert(entries_of_runs(rs) =~= es);
            assert forall|j: int| 0 <= j < rs.len() implies {
                let q = #[trigger] rs[j];
                &&& q.entries.len() > 0
                &&& q.total == sum_sizes(q.entries)
                &&& q.started_at == earliest(q.entries)
            } by {
                if j < rs.len() - 1 {
                    assert(rs[j] == prev[j]);
                } else {
                    assert(prev[j] == r);
                }
            }
        } else {
            assert(rs.drop_last() =~= prev);
            assert(entries_of_runs(rs) =~= es);
            assert forall|j: int| 0 <= j < rs.len() implies {
                let q = #[trigger] rs[j];
                &&& q.entries.len() > 0
                &&& q.total == sum_sizes(q.entries)
                &&& q.started_at == earliest(q.entries)
            } by {
                if j < rs.len() - 1 {
                    assert(rs[j] == prev[j]);
                } else {
                    let q = rs[j];
                    assert(q.entries == seq![e]);
                    assert(q.entries.drop_last() =~= Seq::<HistoryEntry>::empty());
                    assert(sum_sizes(q.entries) == sum_sizes(q.entries.drop_last()) + e.size_bytes);
                    assert(earliest(q.entries) == q.entries[0].deleted_at);
                }
            }
        }
    }
}

/// Group deletion entries into runs.
///
/// Entries are expected to be in descending order by `deleted_at` (as returned
/// by the database). An entry within [`RUN_WINDOW_SECS`] of the current run's
/// start is folded into that run.
pub fn group_into_runs(entries: Vec<HistoryEntry>) -> (runs: Vec<HistoryRun>)
    requires
        run_totals_fit(entries@),
    ensures
        runs@.map_values(|r: HistoryRun| run_view(r)) == runs_of(entries@),
{
    let mut runs: Vec<HistoryRun> = Vec::new();
    let mut i: usize = 0;
    assert(entries@.take(0) =~= Seq::<HistoryEntry>::empty());
    while i < entries.len()
        invariant
            i <= entries@.len(),
            run_totals_fit(entries@),
            runs@.map_values(|r: HistoryRun| run_view(r)) == runs_of(entries@.take(i as int)),
        decreases entries@.len() - i,
    {
        let entry = entries[i].duplicate();
        let ghost prefix = entries@.take(i as int);
        let ghost next = entries@.take(i + 1);
        assert(next.drop_last() =~= prefix);
        assert(next.last() == entry);
        let ghost prev = runs_of(prefix);
        let n = runs.len();
        let mut joins = false;
        if n > 0 {
            let last_start = runs[n - 1].started_at;
            assert(run_view(runs@[n - 1]) == prev.last());
            let diff: i128 = last_start as i128 - entry.deleted_at as i128;
            let adiff: i128 = if diff < 0 { -diff } else { diff };
            joins = adiff <= 60;
        }
        if joins {
            let mut run = runs.pop().unwrap();
            assert(run_view(run) == prev.last());
            assert(runs_of(next).len() == prev.len());
            assert(runs_of(next)[prev.len() - 1].total == run.total_bytes + entry.size_bytes);
            assert(i64::MIN <= runs_of(entries@.take(i + 1))[prev.len() - 1].total <= i64::MAX);
            if entry.deleted_at < run.started_at {
                run.started_at = entry.deleted_at;
            }
            run.total_bytes = run.total_bytes + entry.size_bytes;
            run.entries.push(entry);
            runs.push(run);
            assert(runs@.map_values(|r: HistoryRun| run_view(r)) =~= runs_of(next));
        } else {
            let started = entry.deleted_at;
            let total = entry.size_bytes;
            let mut v: Vec<HistoryEntry> = Vec::new();
            v.push(entry);
            runs.push(HistoryRun { started_at: started, entries: v, total_bytes: total });
            assert(runs@.map_values(|r: HistoryRun| run_view(r)) =~= runs_of(next));
        }
        i = i + 1;
    }
    assert(entries@.take(entries@.len() as int) =~= entries@);
    runs
}

/// The decimal digit character for `d < 10`.
pub open spec fn digit_char(d: int) -> char {
    if d == 0 { '0' } else if d == 1 { '1' } else if d == 2 { '2' } else if d == 3 { '3' }
    else if d == 4 { '4' } else if d == 5 { '5' } else if d == 6 { '6' } else if d == 7 { '7' }
    else if d == 8 { '8' } else { '9' }
}

/// Plain decimal rendering of `n` (no separators, no leading zeros).
pub open spec fn decimal(n: nat) -> Seq<char>
    decreases n,
{
    if n < 10 {
        seq![digit_char(n as int)]
    } else {
        decimal(n / 10).push(digit_char((n % 10) as int))
    }
}

/// The three zero-padded digits of `n < 1000`.
pub open spec fn three_digits(n: nat) -> Seq<char> {
    seq![digit_char((n / 100) as int), digit_char(((n / 10) % 10) as int), digit_char((n % 10) as int)]
}

/// Decimal rendering of `n` with a `,` between every group of three digits.
pub open spec fn grouped(n: nat) -> Seq<char>
    decreases n,
{
    if n < 1000 {
        decimal(n)
    } else {
        grouped(n / 1000) + seq![','] + three_digits(n % 1000)
    }
}

/// `s` with every `,` removed.
pub open spec fn strip_commas(s: Seq<char>) -> Seq<char> {
    s.filter(|c: char| c != ',')
}


proof fn lemma_decimal_no_commas(n: nat)
    ensures
        strip_commas(decimal(n)) == decimal(n),
    decreases n,
{
    broadcast use vstd::seq_lib::group_filter_ensures;
    if n < 10 {
        reveal_with_fuel(Seq::filter, 2);
        assert(strip_commas(decimal(n)) =~= decimal(n));
    } else {
        lemma_decimal_no_commas(n / 10);
        let d = decimal(n / 10);
        let c = digit_char((n % 10) as int);
        d.lemma_filter_push(c, |c: char| c != ',');
        assert(strip_commas(decimal(n)) =~= decimal(n));
    }
}

proof fn lemma_decimal_split(n: nat)
    requires
        n >= 1000,
    ensures
        decimal(n) == decimal(n / 1000) + three_digits(n % 1000),
{
    let a = n / 10;
    let b = n / 100;
    let c = n / 1000;
    assert(a / 10 == b) by (nonlinear_arith)
        requires a == n / 10, b == n / 100;
    assert(b / 10 == c) by (nonlinear_arith)
        requires b == n / 100, c == n / 1000;
    assert(b % 10 == (n % 1000) / 100) by (nonlinear_arith)
        requires b == n / 100;
    assert(a % 10 == ((n % 1000) / 10) % 10) by (nonlinear_arith)
        requires a == n / 10;
    assert(n % 10 == (n % 1000) % 10) by (nonlinear_arith);
    assert(b >= 10);
    assert(a >= 10);
    assert(decimal(n) == decimal(a).push(digit_char((n % 10) as int)));
    assert(decimal(a) == decimal(b).push(digit_char((a % 10) as int)));
    assert(decimal(b) == decimal(c).push(digit_char((b % 10) as int)));
    assert(decimal(n) =~= decimal(c) + three_digits(n % 1000));
}

/// Thousands separators only: removing the commas from `format_number(n)`
/// leaves the plain decimal digits of `n`.
pub proof fn lemma_grouped_strips_to_decimal(n: nat)
    ensures
        strip_commas(grouped(n)) == decimal(n),
    decreases n,
{
    broadcast use vstd::seq_lib::group_filter_ensures;
    if n < 1000 {
        lemma_decimal_no_commas(n);
    } else {
        lemma_grouped_strips_to_decimal(n / 1000);
        lemma_decimal_split(n);
        lemma_decimal_no_commas(n % 1000);
        let p = |c: char| c != ',';
        let g = grouped(n / 1000);
        let t = three_digits(n % 1000);
        Seq::filter_distributes_over_add(g + seq![','], t, p);
        Seq::filter_distributes_over_add(g, seq![','], p);
        reveal_with_fuel(Seq::filter, 2);
        assert(seq![','].filter(p) =~= Seq::<char>::empty());
        assert(t.filter(p) =~= t) by {
            reveal_with_fuel(Seq::filter, 4);
        }
        assert(strip_commas(grouped(n)) =~= decimal(n));
    }
}

fn digit(d: usize) -> (c: char)
    requires
        d < 10,
    ensures
        c == digit_char(d as int),
{
    if d == 0 { '0' } else if d == 1 { '1' } else if d == 2 { '2' } else if d == 3 { '3' }
    else if d == 4 { '4' } else if d == 5 { '5' } else if d == 6 { '6' } else if d == 7 { '7' }
    else if d == 8 { '8' } else { '9' }
}

fn push_decimal(out: &mut String, n: usize)
    ensures
        final(out)@ == old(out)@ + decimal(n as nat),
    decreases n,
{
    if n < 10 {
        push_char(out, digit(n));
    } else {
        push_decimal(out, n / 10);
        push_char(out, digit(n % 10));
    }
}

fn push_grouped(out: &mut String, n: usize)
    ensures
        final(out)@ == old(out)@ + grouped(n as nat),
    decreases n,
{
    if n < 1000 {
        push_decimal(out, n);
    } else {
        push_grouped(out, n / 1000);
        push_char(out, ',');
        let r = n % 1000;
        push_char(out, digit(r / 100));
        push_char(out, digit((r / 10) % 10));
        push_char(out, digit(r % 10));
        assert(out@ =~= old(out)@ + grouped(n as nat));
    }
}

/// Format an integer with thousands separators (e.g. `1234567` -> `"1,234,567"`).
pub fn format_number(n: usize) -> (s: String)
    ensures
        s@ == grouped(n as nat),
        n < 1000 ==> s@ == decimal(n as nat),
{
    let mut s = String::new();
    push_grouped(&mut s, n);
    assert(s@ =~= grouped(n as nat));
    s
}

/// `delete-`, the prefix of every deletion-manifest file name.
pub open spec fn manifest_prefix() -> Seq<char> {
    seq!['d', 'e', 'l', 'e', 't', 'e', '-']
}

/// `.toml`, the suffix of every deletion-manifest file name.
pub open spec fn manifest_suffix() -> Seq<char> {
    seq!['.', 't', 'o', 'm', 'l']
}

/// Whether a file name has the `delete-*.toml` shape of a deletion manifest.
pub open spec fn is_manifest_name(s: Seq<char>) -> bool {
    manifest_prefix().is_prefix_of(s) && manifest_suffix().is_suffix_of(s)
}

/// Manifest order: shorter names (in UTF-8 bytes) first, then lexicographic.
/// Length in UTF-8 bytes, as `str::len` reports it.
pub open spec fn byte_len(s: Seq<char>) -> usize {
    encode_utf8(s).len() as usize
}

pub open spec fn manifest_before(a: Seq<char>, b: Seq<char>) -> bool {
    let la = byte_len(a);
    let lb = byte_len(b);
    la < lb || (la == lb && lex_lt(a, b))
}

/// `s` is in manifest order (oldest first).
pub open spec fn manifests_sorted(s: Seq<String>) -> bool {
    forall|i: int, j: int| 0 <= i < j < s.len() ==> !manifest_before(#[trigger] s[j]@, #[trigger] s[i]@)
}

/// The names of `names` that look like deletion manifests, in input order.
pub open spec fn manifest_names(names: Seq<String>) -> Seq<String> {
    names.filter(|s: String| is_manifest_name(s@))
}

proof fn lemma_manifest_before_transitive(a: Seq<char>, b: Seq<char>, c: Seq<char>)
    requires
        manifest_before(a, b),
        manifest_before(b, c),
    ensures
        manifest_before(a, c),
{
    if byte_len(a) == byte_len(b) && byte_len(b) == byte_len(c) {
        lemma_lex_transitive(a, b, c);
    }
}

proof fn lemma_manifest_before_irreflexive(a: Seq<char>)
    ensures
        !manifest_before(a, a),
{
    lemma_lex_irreflexive(a);
}

proof fn lemma_manifest_before_total(a: Seq<char>, b: Seq<char>)
    requires
        a != b,
    ensures
        manifest_before(a, b) || manifest_before(b, a),
{
    lemma_lex_total(a, b);
}

fn has_prefix(cs: &Vec<char>, p: &Vec<char>) -> (r: bool)
    ensures
        r == p@.is_prefix_of(cs@),
{
    if p.len() > cs.len() {
        return false;
    }
    let mut i: usize = 0;
    while i < p.len()
        invariant
            p@.len() <= cs@.len(),
            i <= p@.len(),
            forall|j: int| 0 <= j < i ==> p@[j] == cs@[j],
        decreases p@.len() - i,
    {
        if p[i] != cs[i] {
            return false;
        }
        i = i + 1;
    }
    assert(p@ =~= cs@.subrange(0, p@.len() as int));
    true
}

fn has_suffix(cs: &Vec<char>, p: &Vec<char>) -> (r: bool)
    ensures
        r == p@.is_suffix_of(cs@),
{
    if p.len() > cs.len() {
        return false;
    }
    let off = cs.len() - p.len();
    let mut i: usize = 0;
    while i < p.len()
        invariant
            p@.len() <= cs@.len(),
            off == cs@.len() - p@.len(),
            off + p@.len() <= usize::MAX,
            i <= p@.len(),
            forall|j: int| 0 <= j < i ==> p@[j] == cs@[off + j],
        decreases p@.len() - i,
    {
        let k: usize = off + i;
        if p[i] != cs[k] {
            return false;
        }
        i = i + 1;
    }
    assert(p@ =~= cs@.subrange(off as int, cs@.len() as int));
    true
}

fn is_manifest(name: &String) -> (r: bool)
    ensures
        r == is_manifest_name(name@),
{
    let cs = chars_of(name.as_str());
    let pre = chars_of("delete-");
    let suf = chars_of(".toml");
    proof {
        reveal_strlit("delete-");
        reveal_strlit(".toml");
        assert(pre@ =~= manifest_prefix());
        assert(suf@ =~= manifest_suffix());
    }
    has_prefix(&cs, &pre) && has_suffix(&cs, &suf)
}

fn manifest_less(a: &String, b: &String) -> (r: bool)
    ensures
        r == manifest_before(a@, b@),
{
    let la = a.as_str().len();
    let lb = b.as_str().len();
    if la != lb {
        return la < lb;
    }
    let ca = chars_of(a.as_str());
    let cb = chars_of(b.as_str());
    lex_less(&ca, &cb)
}

/// Sort names into manifest order (insertion sort).
fn sort_manifests(v: &Vec<String>) -> (out: Vec<String>)
    ensures
        out@.to_multiset() == v@.to_multiset(),
        manifests_sorted(out@),
{
    broadcast use vstd::seq_lib::group_to_multiset_ensures;
    let mut out: Vec<String> = Vec::new();
    let mut i: usize = 0;
    assert(v@.take(0) =~= Seq::<String>::empty());
    while i < v.len()
        invariant
            i <= v@.len(),
            manifests_sorted(out@),
            out@.to_multiset() == v@.take(i as int).to_multiset(),
        decreases v@.len() - i,
    {
        let x = v[i].clone();
        let mut p: usize = 0;
        while p < out.len() && !manifest_less(&x, &out[p])
            invariant
                p <= out@.len(),
                forall|q: int| 0 <= q < p ==> !manifest_before(x@, #[trigger] out@[q]@),
            decreases out@.len() - p,
        {
            p = p + 1;
        }
        let ghost old_out = out@;
        out.insert(p, x);
        assert(out@ == old_out.insert(p as int, x));
        assert forall|a: int, b: int| 0 <= a < b < out@.len() implies !manifest_before(#[trigger] out@[b]@, #[trigger] out@[a]@) by {
            if a < p && b < p {
                assert(out@[a] == old_out[a] && out@[b] == old_out[b]);
            } else if a < p && b == p {
                assert(out@[a] == old_out[a]);
            } else if a < p && b > p {
                assert(out@[a] == old_out[a] && out@[b] == old_out[b - 1]);
            } else if a == p {
                assert(out@[b] == old_out[b - 1]);
                assert(manifest_before(x@, old_out[p as int]@));
                if manifest_before(old_out[b - 1]@, x@) {
                    if b - 1 == p {
                        lemma_manifest_before_transitive(x@, old_out[p as int]@, x@);
                        lemma_manifest_before_irreflexive(x@);
                    } else {
                        lemma_manifest_before_transitive(old_out[b - 1]@, x@, old_out[p as int]@);
                    }
                }
            } else {
                assert(out@[a] == old_out[a - 1] && out@[b] == old_out[b - 1]);
            }
        }
        assert(v@.take(i + 1) =~= v@.take(i as int).push(v@[i as int]));
        proof {
            vstd::seq_lib::to_multiset_insert(old_out, p as int, x);
            vstd::seq_lib::to_multiset_build(v@.take(i as int), v@[i as int]);
        }
        i = i + 1;
    }
    assert(v@.take(v@.len() as int) =~= v@);
    out
}

/// Given a list of manifest file names and a retention count, decide which
/// files to delete so that at most `keep` remain.
///
/// Only names of the `delete-*.toml` shape are considered; the rest are never
/// returned. They are ordered oldest first (shorter names first, then
/// lexicographically) and all but the newest `keep` are returned.
pub fn manifests_to_prune(file_names: Vec<String>, keep: usize) -> (pruned: Vec<String>)
    ensures
        manifest_names(file_names@).len() <= keep ==> pruned@.len() == 0,
        manifest_names(file_names@).len() > keep ==> exists|s: Seq<String>| {
            &&& s.to_multiset() == manifest_names(file_names@).to_multiset()
            &&& manifests_sorted(s)
            &&& pruned@ == s.take(manifest_names(file_names@).len() - keep)
        },
{
    broadcast use vstd::seq_lib::group_filter_ensures;
    let ghost pred = |s: String| is_manifest_name(s@);
    let mut kept: Vec<String> = Vec::new();
    let mut i: usize = 0;
    assert(file_names@.take(0) =~= Seq::<String>::empty());
    while i < file_names.len()
        invariant
            i <= file_names@.len(),
            pred == (|s: String| is_manifest_name(s@)),
            kept@ == file_names@.take(i as int).filter(pred),
        decreases file_names@.len() - i,
    {
        let name = &file_names[i];
        let ghost t = file_names@.take(i as int);
        assert(file_names@.take(i + 1) =~= t.push(file_names@[i as int]));
        proof { t.lemma_filter_push(file_names@[i as int], pred); }
        if is_manifest(name) {
            kept.push(name.clone());
        }
        i = i + 1;
    }
    assert(file_names@.take(file_names@.len() as int) =~= file_names@);
    if kept.len() <= keep {
        return Vec::new();
    }
    let mut sorted = sort_manifests(&kept);
    proof {
        vstd::seq_lib::to_multiset_len(sorted@);
        vstd::seq_lib::to_multiset_len(kept@);
    }
    let prune_count = kept.len() - keep;
    sorted.truncate(prune_count);
    sorted
}

} // verus!
