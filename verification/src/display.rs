//! Text and summaries shown by the user interface: truncated paths, kind
//! labels, run timestamps and the per-language size buckets.

use vstd::prelude::*;
use crate::clock::unix_time_secs;
use crate::database::{decimal_u64, decimal_text};
use crate::directory_item::{DirectoryItem, DirectoryType};
use crate::rules::{ArtifactRule, ColorHint, all_rules, find, is_first_named, rules_spec};
use crate::error::join2;
use crate::history::digit_char;
use crate::config::DeleteMode;
use crate::session::size_sum;
use crate::text::{chars_of, push_char, str_eq, string_of, lex_lt, lex_less, lemma_lex_irreflexive, lemma_lex_transitive, lemma_lex_total};

verus! {

/// `text` cut to at most `max` characters: unchanged when it fits, else its
/// first `max - 3` characters (none when `max < 3`) followed by `...`.
pub open spec fn truncated(text: Seq<char>, max: nat) -> Seq<char> {
    if text.len() <= max {
        text
    } else {
        text.take(if max >= 3 { max - 3 } else { 0 }) + seq!['.', '.', '.']
    }
}

/// Truncate `text` to at most `max` characters (not bytes), appending an
/// ellipsis when shortened.
pub fn truncate_end(text: &str, max: usize) -> (s: String)
    ensures
        s@ == truncated(text@, max as nat),
{
    let cs = chars_of(text);
    if cs.len() <= max {
        return string_of(&cs);
    }
    let keep: usize = if max >= 3 { max - 3 } else { 0 };
    let mut out: Vec<char> = Vec::new();
    let mut i: usize = 0;
    while i < keep
        invariant
            keep < cs@.len(),
            i <= keep,
            out@ == cs@.take(i as int),
        decreases keep - i,
    {
        out.push(cs[i]);
        i = i + 1;
        assert(out@ =~= cs@.take(i as int));
    }
    out.push('.');
    out.push('.');
    out.push('.');
    assert(out@ =~= truncated(text@, max as nat));
    string_of(&out)
}

/// A truncated text has at most `max` characters (when `max` leaves room
/// for the ellipsis) and begins with a prefix of the original.
pub proof fn lemma_truncated_fits(text: Seq<char>, max: nat)
    requires
        max >= 3 || text.len() <= max,
    ensures
        truncated(text, max).len() <= max,
        text.len() <= max ==> truncated(text, max) == text,
        text.len() > max ==> truncated(text, max).len() == max
            && truncated(text, max).take(max - 3) == text.take(max - 3),
{
    if text.len() > max {
        assert(truncated(text, max).take(max - 3) =~= text.take(max - 3));
    }
}

/// The short label of an artifact kind in the results table: a fixed label
/// for the common kinds, else the rule's language.
pub open spec fn entry_label(name: Seq<char>, language: Seq<char>) -> Seq<char> {
    if name == "rust_target"@ {
        "Build Output"@
    } else if name == "python_venv"@ || name == "python_venv_alt"@ {
        "Python Venv"@
    } else if name == "pycache"@ {
        "Python"@
    } else if name == "next_cache"@ {
        "NextJS"@
    } else if name == "composer_vendor"@ {
        "Vendor"@
    } else if name == "node_modules"@ {
        "NodeJS"@
    } else {
        language
    }
}

/// The label shown for an artifact kind in the results table.
pub fn entry_type_label(dir_type: DirectoryType) -> (s: &'static str)
    ensures
        s@ == entry_label(dir_type.rule.name@, dir_type.rule.language@),
{
    let name = dir_type.rule.name;
    if str_eq(name, "rust_target") {
        "Build Output"
    } else if str_eq(name, "python_venv") || str_eq(name, "python_venv_alt") {
        "Python Venv"
    } else if str_eq(name, "pycache") {
        "Python"
    } else if str_eq(name, "next_cache") {
        "NextJS"
    } else if str_eq(name, "composer_vendor") {
        "Vendor"
    } else if str_eq(name, "node_modules") {
        "NodeJS"
    } else {
        dir_type.rule.language
    }
}

/// Decimal text of a signed integer, with a leading `-` when negative.
pub open spec fn signed_decimal(v: int) -> Seq<char> {
    if v < 0 {
        seq!['-'] + decimal_u64((-v) as nat)
    } else {
        decimal_u64(v as nat)
    }
}

/// How long ago something happened, `delta` seconds before now.
pub open spec fn age_text(delta: int) -> Seq<char> {
    if delta < 60 {
        "just now"@
    } else if delta < 3_600 {
        decimal_u64((delta / 60) as nat) + "m ago"@
    } else if delta < 86_400 {
        decimal_u64((delta / 3_600) as nat) + "h ago"@
    } else if delta < 604_800 {
        decimal_u64((delta / 86_400) as nat) + "d ago"@
    } else {
        decimal_u64((delta / 604_800) as nat) + "w ago"@
    }
}

/// The heading of a deletion run that started at `ts`, seen at `now`
/// (both in seconds since the Unix epoch).
pub open spec fn run_time_text(ts: int, now: int) -> Seq<char> {
    "RUN @ "@ + signed_decimal(ts) + " // "@ + age_text(now - ts)
}

fn signed_decimal_text(v: i64) -> (s: String)
    ensures
        s@ == signed_decimal(v as int),
{
    if v < 0 {
        let magnitude: i128 = -(v as i128);
        let m: u64 = magnitude as u64;
        let digits = decimal_text(m);
        let mut out = String::new();
        push_char(&mut out, '-');
        let r = join2(out.as_str(), digits.as_str());
        assert(r@ =~= signed_decimal(v as int));
        r
    } else {
        decimal_text(v as u64)
    }
}

fn age_text_of(delta: i128) -> (s: String)
    requires
        delta < 604_800 * 0x1_0000_0000_0000_0000,
    ensures
        s@ == age_text(delta as int),
{
    if delta < 60 {
        let mut out = String::new();
        let r = join2(out.as_str(), "just now");
        assert(r@ =~= "just now"@);
        r
    } else if delta < 3_600 {
        let d = decimal_text((delta / 60) as u64);
        join2(d.as_str(), "m ago")
    } else if delta < 86_400 {
        let d = decimal_text((delta / 3_600) as u64);
        join2(d.as_str(), "h ago")
    } else if delta < 604_800 {
        let d = decimal_text((delta / 86_400) as u64);
        join2(d.as_str(), "d ago")
    } else {
        let d = decimal_text((delta / 604_800) as u64);
        join2(d.as_str(), "w ago")
    }
}

/// The heading of a deletion run that started at `ts`, as seen at `now`.
pub fn format_run_time(ts: i64, now: i64) -> (s: String)
    ensures
        s@ == run_time_text(ts as int, now as int),
{
    let delta: i128 = (now as i128) - (ts as i128);
    let head = join2("RUN @ ", signed_decimal_text(ts).as_str());
    let mid = join2(head.as_str(), " // ");
    let age = age_text_of(delta);
    let r = join2(mid.as_str(), age.as_str());
    assert(r@ =~= run_time_text(ts as int, now as int));
    r
}

/// The heading of a deletion run that started at `ts`, as seen now; when the
/// clock cannot be read the run counts as just started.
pub fn format_unix_time(ts: i64) -> (s: String)
    ensures
        exists|now: i64| s@ == run_time_text(ts as int, now as int),
{
    let now: i64 = match unix_time_secs() {
        Some(secs) => secs as i64,
        None => ts,
    };
    format_run_time(ts, now)
}

/// A labelled size, one bar of the savings chart.
#[derive(Debug)]
pub struct ArtifactBucket {
    pub label: String,
    pub size_bytes: u64,
}

/// `W1` .. `W4`, the label of window `i` (from zero).
pub open spec fn window_label(i: int) -> Seq<char> {
    seq!['W', digit_char(i + 1)]
}

/// The four chart windows: the sizes of the first four buckets, labelled
/// `W1`..`W4`, padded with empty windows.
pub fn summary_windows(buckets: &Vec<ArtifactBucket>) -> (out: Vec<ArtifactBucket>)
    ensures
        out@.len() == 4,
        forall|i: int| #![trigger out@[i]] 0 <= i < 4 ==> {
            &&& out@[i].label@ == window_label(i)
            &&& out@[i].size_bytes == if i < buckets@.len() { buckets@[i].size_bytes } else { 0 }
        },
{
    let mut out: Vec<ArtifactBucket> = Vec::new();
    let mut i: usize = 0;
    while i < 4
        invariant
            i <= 4,
            out@.len() == i,
            forall|k: int| #![trigger out@[k]] 0 <= k < i ==> {
                &&& out@[k].label@ == window_label(k)
                &&& out@[k].size_bytes == if k < buckets@.len() { buckets@[k].size_bytes } else { 0 }
            },
        decreases 4 - i,
    {
        let digit: char = if i == 0 { '1' } else if i == 1 { '2' } else if i == 2 { '3' } else { '4' };
        let mut label = String::new();
        push_char(&mut label, 'W');
        push_char(&mut label, digit);
        assert(label@ =~= window_label(i as int));
        let size: u64 = if i < buckets.len() { buckets[i].size_bytes } else { 0 };
        out.push(ArtifactBucket { label, size_bytes: size });
        i = i + 1;
    }
    out
}

/// Text that `str::to_uppercase` gives for `s`.
pub uninterp spec fn uppercase_text(s: Seq<char>) -> Seq<char>;

/// `str::to_uppercase`.
///
/// Trusted: the result is `uppercase_text(s)`, a function of the text alone
/// (the standard library maps each character by the Unicode tables, with no
/// locale).
#[verifier::external_body]
fn to_uppercase(s: &str) -> (r: String)
    ensures
        r@ == uppercase_text(s@),
{
    s.to_uppercase()
}

/// The bucket an artifact is counted in: its language, upper-cased.
pub open spec fn bucket_label(item: DirectoryItem) -> Seq<char> {
    uppercase_text(item.dir_type.rule.language@)
}

/// Total size of the artifacts of `items` that fall in bucket `label`.
pub open spec fn bucket_total(items: Seq<DirectoryItem>, label: Seq<char>) -> int
    decreases items.len(),
{
    if items.len() == 0 {
        0
    } else {
        bucket_total(items.drop_last(), label)
            + if bucket_label(items.last()) == label { items.last().size_bytes as int } else { 0 }
    }
}

/// Chart order: larger buckets first, equal sizes by label.
pub open spec fn bucket_before(a: (Seq<char>, u64), b: (Seq<char>, u64)) -> bool {
    a.1 > b.1 || (a.1 == b.1 && lex_lt(a.0, b.0))
}

/// The (label, size) pair of a bucket.
pub open spec fn bucket_pair(b: ArtifactBucket) -> (Seq<char>, u64) {
    (b.label@, b.size_bytes)
}

proof fn lemma_bucket_total_prefix(items: Seq<DirectoryItem>, k: int, label: Seq<char>)
    requires
        0 <= k <= items.len(),
    ensures
        0 <= bucket_total(items.take(k), label) <= bucket_total(items, label),
    decreases items.len(),
{
    if k < items.len() {
        assert(items.drop_last().take(k) =~= items.take(k));
        lemma_bucket_total_prefix(items.drop_last(), k, label);
    } else {
        assert(items.take(k) =~= items);
        lemma_bucket_total_nonneg(items, label);
    }
}

proof fn lemma_bucket_total_nonneg(items: Seq<DirectoryItem>, label: Seq<char>)
    ensures
        bucket_total(items, label) >= 0,
    decreases items.len(),
{
    if items.len() > 0 {
        lemma_bucket_total_nonneg(items.drop_last(), label);
    }
}

proof fn lemma_bucket_before_order(a: (Seq<char>, u64), b: (Seq<char>, u64), c: (Seq<char>, u64))
    ensures
        !bucket_before(a, a),
        bucket_before(a, b) && bucket_before(b, c) ==> bucket_before(a, c),
        a.0 != b.0 ==> (bucket_before(a, b) || bucket_before(b, a)),
        bucket_before(a, b) ==> !bucket_before(b, a),
{
    lemma_lex_irreflexive(a.0);
    if a.1 == b.1 && b.1 == c.1 && lex_lt(a.0, b.0) && lex_lt(b.0, c.0) {
        lemma_lex_transitive(a.0, b.0, c.0);
    }
    if a.0 != b.0 {
        lemma_lex_total(a.0, b.0);
    }
    if a.1 == b.1 && lex_lt(a.0, b.0) && lex_lt(b.0, a.0) {
        lemma_lex_transitive(a.0, b.0, a.0);
    }
}

fn bucket_precedes(a: &ArtifactBucket, b: &ArtifactBucket) -> (r: bool)
    ensures
        r == bucket_before(bucket_pair(*a), bucket_pair(*b)),
{
    if a.size_bytes != b.size_bytes {
        a.size_bytes > b.size_bytes
    } else {
        lex_less(&chars_of(a.label.as_str()), &chars_of(b.label.as_str()))
    }
}

/// Bucket `b` carries label `l`.
pub open spec fn has_label(b: ArtifactBucket, l: Seq<char>) -> bool {
    b.label@ == l
}

/// Some bucket of `out` carries label `l`.
pub open spec fn label_listed(l: Seq<char>, out: Seq<ArtifactBucket>) -> bool {
    exists|i: int| 0 <= i < out.len() && has_label(out[i], l)
}

/// Some artifact of `items` falls in bucket `l`.
pub open spec fn label_seen(l: Seq<char>, items: Seq<DirectoryItem>) -> bool {
    exists|k: int| 0 <= k < items.len() && bucket_label(items[k]) == l
}

/// Each bucket's size is the total of its label over `items`.
pub open spec fn totals_match(out: Seq<ArtifactBucket>, items: Seq<DirectoryItem>) -> bool {
    forall|i: int| 0 <= i < out.len() ==> (#[trigger] out[i]).size_bytes == bucket_total(items, out[i].label@)
}

/// Each bucket is labelled after some artifact of `items`.
pub open spec fn labels_drawn_from(out: Seq<ArtifactBucket>, items: Seq<DirectoryItem>) -> bool {
    forall|i: int| 0 <= i < out.len() ==> #[trigger] label_seen(out[i].label@, items)
}

/// Each artifact of `items` has a bucket.
pub open spec fn labels_cover(items: Seq<DirectoryItem>, out: Seq<ArtifactBucket>) -> bool {
    forall|k: int| 0 <= k < items.len() ==> #[trigger] label_listed(bucket_label(items[k]), out)
}

/// No two buckets share a label.
pub open spec fn labels_distinct(out: Seq<ArtifactBucket>) -> bool {
    forall|i: int, j: int| 0 <= i < j < out.len() ==> (#[trigger] out[i]).label@ != (#[trigger] out[j]).label@
}

/// The buckets of `out` are exactly the per-label totals of `items`: one
/// bucket per label that occurs, holding that label's total.
pub open spec fn groups_of(out: Seq<ArtifactBucket>, items: Seq<DirectoryItem>) -> bool {
    &&& totals_match(out, items)
    &&& labels_drawn_from(out, items)
    &&& labels_cover(items, out)
    &&& labels_distinct(out)
}

proof fn lemma_total_step(items: Seq<DirectoryItem>, k: int, label: Seq<char>)
    requires
        0 <= k < items.len(),
    ensures
        bucket_total(items.take(k + 1), label) == bucket_total(items.take(k), label)
            + if bucket_label(items[k]) == label { items[k].size_bytes as int } else { 0 },
{
    let next = items.take(k + 1);
    assert(next.drop_last() =~= items.take(k));
    assert(next.last() == items[k]);
}

proof fn lemma_seen_grows(l: Seq<char>, items: Seq<DirectoryItem>, k: int)
    requires
        0 <= k < items.len(),
        label_seen(l, items.take(k)),
    ensures
        label_seen(l, items.take(k + 1)),
{
    let q = choose|q: int| 0 <= q < items.take(k).len() && bucket_label(items.take(k)[q]) == l;
    assert(items.take(k + 1)[q] == items[q]);
}

proof fn lemma_seen_last(items: Seq<DirectoryItem>, k: int)
    requires
        0 <= k < items.len(),
    ensures
        label_seen(bucket_label(items[k]), items.take(k + 1)),
{
    assert(items.take(k + 1)[k] == items[k]);
}

proof fn lemma_group_existing(old_g: Seq<ArtifactBucket>, new_g: Seq<ArtifactBucket>, j: int, items: Seq<DirectoryItem>, k: int)
    requires
        0 <= k < items.len(),
        groups_of(old_g, items.take(k)),
        0 <= j < old_g.len(),
        old_g[j].label@ == bucket_label(items[k]),
        new_g.len() == old_g.len(),
        new_g[j].label@ == old_g[j].label@,
        new_g[j].size_bytes == old_g[j].size_bytes + items[k].size_bytes,
        forall|i: int| 0 <= i < old_g.len() && i != j ==> new_g[i] == old_g[i],
    ensures
        groups_of(new_g, items.take(k + 1)),
{
    let pre = items.take(k);
    let post = items.take(k + 1);
    assert forall|i: int| 0 <= i < new_g.len() implies (#[trigger] new_g[i]).size_bytes == bucket_total(post, new_g[i].label@) by {
        lemma_total_step(items, k, new_g[i].label@);
        if i != j {
            assert(new_g[i] == old_g[i]);
            if i < j {
                assert(old_g[i].label@ != old_g[j].label@);
            } else {
                assert(old_g[j].label@ != old_g[i].label@);
            }
        }
    }
    assert forall|i: int| 0 <= i < new_g.len() implies #[trigger] label_seen(new_g[i].label@, post) by {
        if i != j {
            assert(new_g[i] == old_g[i]);
        }
        assert(label_seen(old_g[i].label@, pre));
        lemma_seen_grows(old_g[i].label@, items, k);
    }
    assert forall|q: int| 0 <= q < post.len() implies #[trigger] label_listed(bucket_label(post[q]), new_g) by {
        if q == k {
            assert(post[q] == items[k]);
            assert(has_label(new_g[j], bucket_label(post[q])));
        } else {
            assert(post[q] == pre[q]);
            assert(label_listed(bucket_label(pre[q]), old_g));
            let i = choose|i: int| 0 <= i < old_g.len() && has_label(old_g[i], bucket_label(pre[q]));
            if i != j {
                assert(new_g[i] == old_g[i]);
            }
            assert(has_label(new_g[i], bucket_label(post[q])));
        }
    }
    assert forall|a: int, b: int| 0 <= a < b < new_g.len() implies (#[trigger] new_g[a]).label@ != (#[trigger] new_g[b]).label@ by {
        assert(old_g[a].label@ != old_g[b].label@);
        if a != j {
            assert(new_g[a] == old_g[a]);
        }
        if b != j {
            assert(new_g[b] == old_g[b]);
        }
    }
}

proof fn lemma_group_new(old_g: Seq<ArtifactBucket>, new_g: Seq<ArtifactBucket>, items: Seq<DirectoryItem>, k: int)
    requires
        0 <= k < items.len(),
        groups_of(old_g, items.take(k)),
        forall|i: int| 0 <= i < old_g.len() ==> (#[trigger] old_g[i]).label@ != bucket_label(items[k]),
        new_g.len() == old_g.len() + 1,
        new_g[old_g.len() as int].label@ == bucket_label(items[k]),
        new_g[old_g.len() as int].size_bytes == items[k].size_bytes,
        forall|i: int| 0 <= i < old_g.len() ==> new_g[i] == old_g[i],
    ensures
        groups_of(new_g, items.take(k + 1)),
{
    let pre = items.take(k);
    let post = items.take(k + 1);
    let lab = bucket_label(items[k]);
    let n = old_g.len() as int;
    assert(bucket_total(pre, lab) == 0) by {
        if bucket_total(pre, lab) != 0 {
            lemma_nonzero_total_has_item(pre, lab);
            let q = choose|q: int| 0 <= q < pre.len() && bucket_label(pre[q]) == lab;
            assert(label_listed(bucket_label(pre[q]), old_g));
            let i = choose|i: int| 0 <= i < old_g.len() && has_label(old_g[i], bucket_label(pre[q]));
            assert(old_g[i].label@ != lab);
        }
    }
    assert forall|i: int| 0 <= i < new_g.len() implies (#[trigger] new_g[i]).size_bytes == bucket_total(post, new_g[i].label@) by {
        lemma_total_step(items, k, new_g[i].label@);
        if i < n {
            assert(new_g[i] == old_g[i]);
            assert(old_g[i].label@ != lab);
        }
    }
    assert forall|i: int| 0 <= i < new_g.len() implies #[trigger] label_seen(new_g[i].label@, post) by {
        if i < n {
            assert(new_g[i] == old_g[i]);
            assert(label_seen(old_g[i].label@, pre));
            lemma_seen_grows(old_g[i].label@, items, k);
        } else {
            lemma_seen_last(items, k);
        }
    }
    assert forall|q: int| 0 <= q < post.len() implies #[trigger] label_listed(bucket_label(post[q]), new_g) by {
        if q == k {
            assert(post[q] == items[k]);
            assert(has_label(new_g[n], bucket_label(post[q])));
        } else {
            assert(post[q] == pre[q]);
            assert(label_listed(bucket_label(pre[q]), old_g));
            let i = choose|i: int| 0 <= i < old_g.len() && has_label(old_g[i], bucket_label(pre[q]));
            assert(new_g[i] == old_g[i]);
            assert(has_label(new_g[i], bucket_label(post[q])));
        }
    }
    assert forall|a: int, b: int| 0 <= a < b < new_g.len() implies (#[trigger] new_g[a]).label@ != (#[trigger] new_g[b]).label@ by {
        assert(new_g[a] == old_g[a]);
        if b < n {
            assert(new_g[b] == old_g[b]);
            assert(old_g[a].label@ != old_g[b].label@);
        } else {
            assert(old_g[a].label@ != lab);
        }
    }
}

proof fn lemma_sorted_groups(out: Seq<ArtifactBucket>, groups: Seq<ArtifactBucket>, items: Seq<DirectoryItem>)
    requires
        groups_of(groups, items),
        bucket_covers(out, groups),
        bucket_covers(groups, out),
        buckets_sorted(out),
    ensures
        groups_of(out, items),
{
    assert forall|i: int| 0 <= i < out.len() implies (#[trigger] out[i]).size_bytes == bucket_total(items, out[i].label@) by {
        assert(bucket_in(out[i], groups));
        let j = choose|j: int| 0 <= j < groups.len() && same_bucket(out[i], groups[j]);
        assert(groups[j].size_bytes == bucket_total(items, groups[j].label@));
    }
    assert forall|i: int| 0 <= i < out.len() implies #[trigger] label_seen(out[i].label@, items) by {
        assert(bucket_in(out[i], groups));
        let j = choose|j: int| 0 <= j < groups.len() && same_bucket(out[i], groups[j]);
        assert(label_seen(groups[j].label@, items));
    }
    assert forall|q: int| 0 <= q < items.len() implies #[trigger] label_listed(bucket_label(items[q]), out) by {
        assert(label_listed(bucket_label(items[q]), groups));
        let j = choose|j: int| 0 <= j < groups.len() && has_label(groups[j], bucket_label(items[q]));
        assert(bucket_in(groups[j], out));
        let i = choose|i: int| 0 <= i < out.len() && same_bucket(groups[j], out[i]);
        assert(has_label(out[i], bucket_label(items[q])));
    }
    assert forall|a: int, b: int| 0 <= a < b < out.len() implies (#[trigger] out[a]).label@ != (#[trigger] out[b]).label@ by {
        if out[a].label@ == out[b].label@ {
            assert(bucket_in(out[a], groups));
            assert(bucket_in(out[b], groups));
            let ja = choose|j: int| 0 <= j < groups.len() && same_bucket(out[a], groups[j]);
            let jb = choose|j: int| 0 <= j < groups.len() && same_bucket(out[b], groups[j]);
            if ja < jb {
                assert(groups[ja].label@ != groups[jb].label@);
            } else if jb < ja {
                assert(groups[jb].label@ != groups[ja].label@);
            }
            assert(bucket_pair(out[a]) == bucket_pair(out[b]));
            assert(bucket_before(bucket_pair(out[a]), bucket_pair(out[b])));
            lemma_bucket_before_order(bucket_pair(out[a]), bucket_pair(out[b]), bucket_pair(out[b]));
        }
    }
}

/// The size of each language among `items`, one bucket per upper-cased
/// language, largest first (equal sizes by label).
pub fn summarize_artifacts(items: &Vec<DirectoryItem>) -> (out: Vec<ArtifactBucket>)
    requires
        forall|k: int| 0 <= k < items@.len() ==> bucket_total(items@, #[trigger] bucket_label(items@[k])) <= u64::MAX,
    ensures
        groups_of(out@, items@),
        buckets_sorted(out@),
{
    // Group by label, in order of first appearance.
    let mut groups: Vec<ArtifactBucket> = Vec::new();
    let mut k: usize = 0;
    assert(groups_of(groups@, items@.take(0)));
    while k < items.len()
        invariant
            k <= items@.len(),
            forall|q: int| 0 <= q < items@.len() ==> bucket_total(items@, #[trigger] bucket_label(items@[q])) <= u64::MAX,
            groups_of(groups@, items@.take(k as int)),
        decreases items@.len() - k,
    {
        let item = &items[k];
        let label = to_uppercase(item.dir_type.rule.language);
        let ghost lab = label@;
        assert(lab == bucket_label(items@[k as int]));
        proof {
            lemma_bucket_total_prefix(items@, k as int + 1, lab);
            lemma_total_step(items@, k as int, lab);
            lemma_bucket_total_nonneg(items@.take(k as int), lab);
        }
        let mut found: Option<usize> = None;
        let mut j: usize = 0;
        while j < groups.len() && found.is_none()
            invariant
                j <= groups@.len(),
                lab == label@,
                found matches Some(f) ==> f < groups@.len() && groups@[f as int].label@ == lab,
                found is None ==> forall|i: int| 0 <= i < j ==> (#[trigger] groups@[i]).label@ != lab,
            decreases groups@.len() - j + if found is None { 1int } else { 0int },
        {
            if str_eq(groups[j].label.as_str(), label.as_str()) {
                found = Some(j);
            } else {
                j = j + 1;
            }
        }
        let ghost old_groups = groups@;
        match found {
            Some(j) => {
                assert(groups@[j as int].size_bytes == bucket_total(items@.take(k as int), lab));
                let total: u64 = groups[j].size_bytes + item.size_bytes;
                let lbl = groups[j].label.clone();
                groups.set(j, ArtifactBucket { label: lbl, size_bytes: total });
                proof {
                    lemma_group_existing(old_groups, groups@, j as int, items@, k as int);
                }
            },
            None => {
                groups.push(ArtifactBucket { label, size_bytes: item.size_bytes });
                proof {
                    lemma_group_new(old_groups, groups@, items@, k as int);
                }
            },
        }
        k = k + 1;
    }
    assert(items@.take(items@.len() as int) =~= items@);
    let out = sort_buckets(groups);
    proof {
        lemma_sorted_groups(out@, groups@, items@);
    }
    out
}

proof fn lemma_bucket_within_total(items: Seq<DirectoryItem>, label: Seq<char>)
    ensures
        bucket_total(items, label) <= size_sum(items),
    decreases items.len(),
{
    if items.len() > 0 {
        lemma_bucket_within_total(items.drop_last(), label);
    }
}

proof fn lemma_size_sum_prefix(items: Seq<DirectoryItem>, k: int)
    requires
        0 <= k <= items.len(),
    ensures
        0 <= size_sum(items.take(k)) <= size_sum(items),
    decreases items.len(),
{
    if k < items.len() {
        assert(items.drop_last().take(k) =~= items.take(k));
        lemma_size_sum_prefix(items.drop_last(), k);
    } else {
        assert(items.take(k) =~= items);
        if items.len() > 0 {
            lemma_size_sum_prefix(items.drop_last(), k - 1);
            assert(items.drop_last().take(k - 1) =~= items.drop_last());
        }
    }
}

/// Whether the sizes of `items` add up to no more than `u64::MAX`.
pub fn total_size_fits(items: &Vec<DirectoryItem>) -> (b: bool)
    ensures
        b == (size_sum(items@) <= u64::MAX),
{
    let mut total: u64 = 0;
    let mut i: usize = 0;
    assert(items@.take(0) =~= Seq::<DirectoryItem>::empty());
    while i < items.len()
        invariant
            i <= items@.len(),
            total == size_sum(items@.take(i as int)),
        decreases items@.len() - i,
    {
        let ghost n = items@.take(i + 1);
        assert(n.drop_last() =~= items@.take(i as int));
        match total.checked_add(items[i].size_bytes) {
            Some(t) => total = t,
            None => {
                proof { lemma_size_sum_prefix(items@, i + 1); }
                return false;
            },
        }
        i = i + 1;
    }
    assert(items@.take(items@.len() as int) =~= items@);
    true
}

/// The language summary of `items` when their sizes add up to no more than
/// `u64::MAX` (then no bucket total can overflow), else `None`.
pub fn summarize_artifacts_checked(items: &Vec<DirectoryItem>) -> (out: Option<Vec<ArtifactBucket>>)
    ensures
        size_sum(items@) <= u64::MAX ==> (out matches Some(v) && groups_of(v@, items@) && buckets_sorted(v@)),
        size_sum(items@) > u64::MAX ==> out is None,
{
    if !total_size_fits(items) {
        return None;
    }
    proof {
        assert forall|k: int| 0 <= k < items@.len() implies
            bucket_total(items@, #[trigger] bucket_label(items@[k])) <= u64::MAX by {
            lemma_bucket_within_total(items@, bucket_label(items@[k]));
        }
    }
    Some(summarize_artifacts(items))
}

proof fn lemma_nonzero_total_has_item(items: Seq<DirectoryItem>, label: Seq<char>)
    requires
        bucket_total(items, label) != 0,
    ensures
        exists|q: int| 0 <= q < items.len() && bucket_label(items[q]) == label,
    decreases items.len(),
{
    if bucket_label(items.last()) != label {
        lemma_nonzero_total_has_item(items.drop_last(), label);
        let q = choose|q: int| 0 <= q < items.drop_last().len() && bucket_label(items.drop_last()[q]) == label;
        assert(items[q] == items.drop_last()[q]);
    } else {
        assert(bucket_label(items[items.len() - 1]) == label);
    }
}

/// Two buckets with the same label and size.
pub open spec fn same_bucket(a: ArtifactBucket, b: ArtifactBucket) -> bool {
    a.label@ == b.label@ && a.size_bytes == b.size_bytes
}

/// Some bucket of `s` has the label and size of `x`.
pub open spec fn bucket_in(x: ArtifactBucket, s: Seq<ArtifactBucket>) -> bool {
    exists|j: int| 0 <= j < s.len() && same_bucket(x, s[j])
}

/// Every bucket of `a` has the label and size of some bucket of `b`.
pub open spec fn bucket_covers(a: Seq<ArtifactBucket>, b: Seq<ArtifactBucket>) -> bool {
    forall|i: int| 0 <= i < a.len() ==> #[trigger] bucket_in(a[i], b)
}

/// Buckets in chart order.
pub open spec fn buckets_sorted(s: Seq<ArtifactBucket>) -> bool {
    forall|i: int, j: int| 0 <= i < j < s.len() ==> bucket_before(bucket_pair(#[trigger] s[i]), bucket_pair(#[trigger] s[j]))
}

/// Insert `g` into the sorted `out` at its place in chart order.
fn insert_bucket(out: &mut Vec<ArtifactBucket>, g: ArtifactBucket)
    requires
        buckets_sorted(old(out)@),
        forall|i: int| 0 <= i < old(out)@.len() ==> (#[trigger] old(out)@[i]).label@ != g.label@,
    ensures
        buckets_sorted(final(out)@),
        exists|p: int| 0 <= p <= old(out)@.len() && final(out)@ == old(out)@.insert(p, g),
{
    let ghost gp = bucket_pair(g);
    let mut p: usize = 0;
    let mut stop = false;
    while p < out.len() && !stop
        invariant
            p <= out@.len(),
            gp == bucket_pair(g),
            forall|q: int| 0 <= q < p ==> !bucket_before(gp, bucket_pair(#[trigger] out@[q])),
            stop ==> p < out@.len() && bucket_before(gp, bucket_pair(out@[p as int])),
        decreases out@.len() - p + if stop { 0int } else { 1int },
    {
        if bucket_precedes(&g, &out[p]) {
            stop = true;
        } else {
            p = p + 1;
        }
    }
    let ghost old_out = out@;
    proof {
        assert forall|q: int| 0 <= q < p implies bucket_before(bucket_pair(#[trigger] old_out[q]), gp) by {
            lemma_bucket_before_order(bucket_pair(old_out[q]), gp, gp);
        }
        assert forall|q: int| p <= q < old_out.len() implies bucket_before(gp, bucket_pair(#[trigger] old_out[q])) by {
            if q > p {
                lemma_bucket_before_order(gp, bucket_pair(old_out[p as int]), bucket_pair(old_out[q]));
            }
        }
    }
    out.insert(p, g);
    assert forall|i: int, j: int| 0 <= i < j < out@.len() implies bucket_before(bucket_pair(#[trigger] out@[i]), bucket_pair(#[trigger] out@[j])) by {
        if j < p {
            assert(out@[i] == old_out[i] && out@[j] == old_out[j]);
        } else if j == p {
            assert(out@[i] == old_out[i]);
        } else if i < p {
            assert(out@[i] == old_out[i] && out@[j] == old_out[j - 1]);
            lemma_bucket_before_order(bucket_pair(old_out[i]), gp, bucket_pair(old_out[j - 1]));
        } else if i == p {
            assert(out@[j] == old_out[j - 1]);
        } else {
            assert(out@[i] == old_out[i - 1] && out@[j] == old_out[j - 1]);
        }
    }
}

proof fn lemma_covers_after_insert(
    old_out: Seq<ArtifactBucket>,
    out: Seq<ArtifactBucket>,
    p: int,
    g: ArtifactBucket,
    groups: Seq<ArtifactBucket>,
    k: int,
)
    requires
        0 <= k < groups.len(),
        0 <= p <= old_out.len(),
        out == old_out.insert(p, g),
        same_bucket(g, groups[k]),
        bucket_covers(old_out, groups.take(k)),
        bucket_covers(groups.take(k), old_out),
    ensures
        bucket_covers(out, groups.take(k + 1)),
        bucket_covers(groups.take(k + 1), out),
{
    let pre = groups.take(k);
    let post = groups.take(k + 1);
    assert forall|i: int| 0 <= i < out.len() implies #[trigger] bucket_in(out[i], post) by {
        if i == p {
            assert(post[k] == groups[k]);
            assert(same_bucket(out[i], post[k]));
        } else {
            let oi = if i < p { i } else { i - 1 };
            assert(out[i] == old_out[oi]);
            assert(bucket_in(old_out[oi], pre));
            let j = choose|j: int| 0 <= j < pre.len() && same_bucket(old_out[oi], pre[j]);
            assert(post[j] == pre[j]);
            assert(same_bucket(out[i], post[j]));
        }
    }
    assert forall|j: int| 0 <= j < post.len() implies #[trigger] bucket_in(post[j], out) by {
        if j == k {
            assert(post[j] == groups[k]);
            assert(same_bucket(post[j], out[p]));
        } else {
            assert(post[j] == pre[j]);
            assert(bucket_in(pre[j], old_out));
            let i = choose|i: int| 0 <= i < old_out.len() && same_bucket(pre[j], old_out[i]);
            let ni = if i < p { i } else { i + 1 };
            assert(out[ni] == old_out[i]);
            assert(same_bucket(post[j], out[ni]));
        }
    }
}

/// Sort buckets into chart order; labels are distinct.
fn sort_buckets(groups: Vec<ArtifactBucket>) -> (out: Vec<ArtifactBucket>)
    requires
        labels_distinct(groups@),
    ensures
        out@.len() == groups@.len(),
        bucket_covers(out@, groups@),
        bucket_covers(groups@, out@),
        buckets_sorted(out@),
{
    let mut out: Vec<ArtifactBucket> = Vec::new();
    let mut k: usize = 0;
    while k < groups.len()
        invariant
            k <= groups@.len(),
            out@.len() == k,
            labels_distinct(groups@),
            bucket_covers(out@, groups@.take(k as int)),
            bucket_covers(groups@.take(k as int), out@),
            buckets_sorted(out@),
        decreases groups@.len() - k,
    {
        let g = ArtifactBucket { label: groups[k].label.clone(), size_bytes: groups[k].size_bytes };
        let ghost pre = groups@.take(k as int);
        assert(same_bucket(g, groups@[k as int]));
        assert forall|i: int| 0 <= i < out@.len() implies (#[trigger] out@[i]).label@ != g.label@ by {
            assert(bucket_in(out@[i], pre));
            let j = choose|j: int| 0 <= j < pre.len() && same_bucket(out@[i], pre[j]);
            assert(pre[j] == groups@[j]);
            assert(groups@[j].label@ != groups@[k as int].label@);
        }
        let ghost old_out = out@;
        insert_bucket(&mut out, g);
        proof {
            let p = choose|p: int| 0 <= p <= old_out.len() && out@ == old_out.insert(p, g);
            lemma_covers_after_insert(old_out, out@, p, g, groups@, k as int);
        }
        k = k + 1;
    }
    assert(groups@.take(k as int) =~= groups@);
    out
}

/// One language row of the settings panel: how many of its rules are
/// enabled, and the badge color of the language.
#[derive(Debug, Clone, Copy)]
pub struct LanguageSetting {
    pub label: &'static str,
    pub enabled: bool,
    pub enabled_count: usize,
    pub total_count: usize,
    pub color_hint: ColorHint,
}

/// Whether the built-in rule named `name` belongs to language `lang`.
pub open spec fn name_in_language(name: Seq<char>, lang: Seq<char>) -> bool {
    exists|i: int| is_first_named(name, i) && rules_spec()[i].language@ == lang
}

/// How many of the (rule name, enabled) pairs name a rule of `lang`; with
/// `only_enabled`, only the enabled ones.
pub open spec fn language_count(pairs: Seq<(&str, bool)>, lang: Seq<char>, only_enabled: bool) -> int
    decreases pairs.len(),
{
    if pairs.len() == 0 {
        0
    } else {
        language_count(pairs.drop_last(), lang, only_enabled)
            + if name_in_language(pairs.last().0@, lang) && (!only_enabled || pairs.last().1) { 1int } else { 0 }
    }
}

/// Position of the first built-in rule of language `lang` at or after `i`
/// (the table length when there is none).
pub open spec fn first_rule_from(lang: Seq<char>, i: int) -> int
    decreases rules_spec().len() - i,
{
    if i < 0 || i >= rules_spec().len() {
        rules_spec().len() as int
    } else if rules_spec()[i].language@ == lang {
        i
    } else {
        first_rule_from(lang, i + 1)
    }
}

/// Position of the first built-in rule of language `lang`.
pub open spec fn first_rule_of(lang: Seq<char>) -> int {
    first_rule_from(lang, 0)
}

/// Some row of `out` is for language `lang`.
pub open spec fn has_setting(out: Seq<LanguageSetting>, lang: Seq<char>) -> bool {
    exists|a: int| 0 <= a < out.len() && out[a].label@ == lang
}

proof fn lemma_first_rule_from(lang: Seq<char>, i: int, t: int)
    requires
        0 <= i <= t < rules_spec().len(),
        rules_spec()[t].language@ == lang,
        forall|j: int| 0 <= j < t ==> rules_spec()[j].language@ != lang,
    ensures
        first_rule_from(lang, i) == t,
    decreases t - i,
{
    if i < t {
        lemma_first_rule_from(lang, i + 1, t);
    }
}

proof fn lemma_first_rule_earlier(lang: Seq<char>, i: int, j: int)
    requires
        0 <= i <= j < rules_spec().len(),
        rules_spec()[j].language@ == lang,
    ensures
        first_rule_from(lang, i) <= j,
    decreases j - i,
{
    if i < j && rules_spec()[i].language@ != lang {
        lemma_first_rule_earlier(lang, i + 1, j);
    }
}

proof fn lemma_first_rule_is_rule(lang: Seq<char>, i: int)
    requires
        0 <= i,
    ensures
        first_rule_from(lang, i) < rules_spec().len() ==> rules_spec()[first_rule_from(lang, i)].language@ == lang,
    decreases rules_spec().len() - i,
{
    if 0 <= i < rules_spec().len() && rules_spec()[i].language@ != lang {
        lemma_first_rule_is_rule(lang, i + 1);
    }
}

/// The language of the built-in rule named `name`, if there is one.
fn language_of(name: &str) -> (r: Option<&'static str>)
    ensures
        match r {
            Some(l) => name_in_language(name@, l@),
            None => forall|lang: Seq<char>| !name_in_language(name@, lang),
        },
        forall|lang: Seq<char>| r matches Some(l) && l@ != lang ==> !name_in_language(name@, lang),
{
    match find(name) {
        Some(rule) => {
            assert forall|lang: Seq<char>| rule.language@ != lang implies !name_in_language(name@, lang) by {
                if name_in_language(name@, lang) {
                    let i = choose|i: int| is_first_named(name@, i) && rules_spec()[i].language@ == lang;
                    let k = choose|k: int| is_first_named(name@, k) && rule == rules_spec()[k];
                    if i < k {
                        assert(rules_spec()[i].name@ == name@);
                    } else if k < i {
                        assert(rules_spec()[k].name@ == name@);
                    }
                }
            }
            Some(rule.language)
        },
        None => None,
    }
}

/// Count the pairs naming a rule of `lang` (all, and enabled).
fn count_language(pairs: &Vec<(&'static str, bool)>, lang: &str) -> (r: (usize, usize))
    ensures
        r.0 == language_count(pairs@, lang@, false),
        r.1 == language_count(pairs@, lang@, true),
{
    let mut total: usize = 0;
    let mut on: usize = 0;
    let mut k: usize = 0;
    while k < pairs.len()
        invariant
            k <= pairs@.len(),
            total == language_count(pairs@.take(k as int), lang@, false),
            on == language_count(pairs@.take(k as int), lang@, true),
            on <= total <= k,
        decreases pairs@.len() - k,
    {
        let (name, enabled) = pairs[k];
        let ghost next = pairs@.take(k as int + 1);
        assert(next.drop_last() =~= pairs@.take(k as int));
        assert(next.last() == pairs@[k as int]);
        match language_of(name) {
            Some(l) => {
                if crate::text::str_eq(l, lang) {
                    total = total + 1;
                    if enabled {
                        on = on + 1;
                    }
                }
            },
            None => {},
        }
        k = k + 1;
    }
    assert(pairs@.take(pairs@.len() as int) =~= pairs@);
    (total, on)
}

/// The language rows of the settings panel for the given (rule name,
/// enabled) pairs: one row per language that some pair names, in the order
/// of the languages' first rules in the table, counting the enabled and all
/// named rules; a row is enabled when all its named rules are.
pub fn summarize_languages(pairs: &Vec<(&'static str, bool)>) -> (out: Vec<LanguageSetting>)
    ensures
        forall|a: int| #![trigger out@[a]] 0 <= a < out@.len() ==> {
            &&& first_rule_of(out@[a].label@) < rules_spec().len()
            &&& out@[a].total_count == language_count(pairs@, out@[a].label@, false)
            &&& out@[a].total_count > 0
            &&& out@[a].enabled_count == language_count(pairs@, out@[a].label@, true)
            &&& out@[a].enabled == (out@[a].enabled_count == out@[a].total_count)
            &&& out@[a].color_hint == rules_spec()[first_rule_of(out@[a].label@)].color_hint
        },
        forall|a: int, b: int| 0 <= a < b < out@.len() ==> first_rule_of((#[trigger] out@[a]).label@) < first_rule_of((#[trigger] out@[b]).label@),
        forall|t: int| 0 <= t < rules_spec().len() && language_count(pairs@, #[trigger] rules_spec()[t].language@, false) > 0
            ==> has_setting(out@, rules_spec()[t].language@),
{
    let rules = all_rules();
    let mut out: Vec<LanguageSetting> = Vec::new();
    let mut t: usize = 0;
    while t < rules.len()
        invariant
            rules@ == rules_spec(),
            t <= rules@.len(),
            forall|a: int| #![trigger out@[a]] 0 <= a < out@.len() ==> {
                &&& first_rule_of(out@[a].label@) < t
                &&& out@[a].total_count == language_count(pairs@, out@[a].label@, false)
                &&& out@[a].total_count > 0
                &&& out@[a].enabled_count == language_count(pairs@, out@[a].label@, true)
                &&& out@[a].enabled == (out@[a].enabled_count == out@[a].total_count)
                &&& out@[a].color_hint == rules_spec()[first_rule_of(out@[a].label@)].color_hint
            },
            forall|a: int, b: int| 0 <= a < b < out@.len() ==> first_rule_of((#[trigger] out@[a]).label@) < first_rule_of((#[trigger] out@[b]).label@),
            forall|j: int| 0 <= j < t && language_count(pairs@, #[trigger] rules_spec()[j].language@, false) > 0
                ==> has_setting(out@, rules_spec()[j].language@),
        decreases rules@.len() - t,
    {
        let rule = rules[t];
        let ghost lang = rule.language@;
        // Was this language met at an earlier rule?
        let mut j: usize = 0;
        let mut seen = false;
        while j < t && !seen
            invariant
                rules@ == rules_spec(),
                t < rules@.len(),
                j <= t,
                lang == rules_spec()[t as int].language@,
                rule.language@ == lang,
                seen ==> j < t && rules_spec()[j as int].language@ == lang,
                !seen ==> forall|q: int| 0 <= q < j ==> rules_spec()[q].language@ != lang,
            decreases t - j + if seen { 0int } else { 1int },
        {
            if crate::text::str_eq(rules[j].language, rule.language) {
                seen = true;
            } else {
                j = j + 1;
            }
        }
        if seen {
            proof {
                lemma_first_rule_earlier(lang, 0, j as int);
                assert forall|q: int| 0 <= q < t + 1 && language_count(pairs@, #[trigger] rules_spec()[q].language@, false) > 0
                    implies has_setting(out@, rules_spec()[q].language@) by {
                    if q == t {
                        assert(rules_spec()[j as int].language@ == rules_spec()[q].language@);
                    }
                }
            }
        } else {
            proof {
                lemma_first_rule_from(lang, 0, t as int);
            }
            let (total, on) = count_language(pairs, rule.language);
            if total > 0 {
                let ghost old_out = out@;
                out.push(LanguageSetting {
                    label: rule.language,
                    enabled: on == total,
                    enabled_count: on,
                    total_count: total,
                    color_hint: rule.color_hint,
                });
                assert(out@[old_out.len() as int].label@ == lang);
                assert forall|q: int| 0 <= q < t + 1 && language_count(pairs@, #[trigger] rules_spec()[q].language@, false) > 0
                    implies has_setting(out@, rules_spec()[q].language@) by {
                    if q == t {
                        assert(out@[old_out.len() as int].label@ == rules_spec()[q].language@);
                    } else {
                        let a = choose|a: int| 0 <= a < old_out.len() && old_out[a].label@ == rules_spec()[q].language@;
                        assert(out@[a] == old_out[a]);
                    }
                }
            } else {
                assert forall|q: int| 0 <= q < t + 1 && language_count(pairs@, #[trigger] rules_spec()[q].language@, false) > 0
                    implies has_setting(out@, rules_spec()[q].language@) by {
                }
            }
        }
        t = t + 1;
    }
    out
}


/// Where the scan is.
#[derive(Debug, Clone, Copy, PartialEq, Eq, Structural)]
pub enum ScanState {
    Idle,
    Scanning,
    Complete,
}

/// The status shown on the dashboard for a scan state.
pub fn status_label(state: ScanState) -> (s: &'static str)
    ensures
        s@ == match state {
            ScanState::Idle => "System_Ready"@,
            ScanState::Scanning => "Scan_Active"@,
            ScanState::Complete => "Scan_Complete"@,
        },
{
    match state {
        ScanState::Idle => "System_Ready",
        ScanState::Scanning => "Scan_Active",
        ScanState::Complete => "Scan_Complete",
    }
}

/// The label of the dashboard's main button for a scan state.
pub fn center_button_label(state: ScanState) -> (s: &'static str)
    ensures
        s@ == match state {
            ScanState::Idle => "Initiate Scan"@,
            ScanState::Scanning => "Scanning"@,
            ScanState::Complete => "Results"@,
        },
{
    match state {
        ScanState::Idle => "Initiate Scan",
        ScanState::Scanning => "Scanning",
        ScanState::Complete => "Results",
    }
}

/// The dashboard's main button is enabled unless a scan is running.
pub fn scan_button_enabled(state: ScanState) -> (b: bool)
    ensures
        b == (state != ScanState::Scanning),
{
    !matches!(state, ScanState::Scanning)
}

/// Whole percent of the found items that are selected (0 when none was
/// found), rounded down.
pub fn selection_percent(selected_count: usize, item_count: usize) -> (p: usize)
    requires
        item_count > 0 ==> selected_count * 100 <= usize::MAX,
    ensures
        item_count == 0 ==> p == 0,
        item_count > 0 ==> p == (selected_count * 100) / (item_count as int),
{
    if item_count == 0 {
        0
    } else {
        (selected_count * 100) / item_count
    }
}

/// Segments lit in the seven-segment selection meter: none when nothing was
/// found, else one per started fifteen percent (at least one, at most seven).
pub open spec fn selection_segments(selection_pct: int, item_count: int) -> int {
    if item_count == 0 {
        0
    } else {
        let p = if selection_pct < 1 { 1 } else { selection_pct };
        let c = (p + 14) / 15;
        if c < 1 { 1 } else if c > 7 { 7 } else { c }
    }
}

/// Segments lit in the selection meter for a selection percentage.
pub fn selected_segments(selection_pct: usize, item_count: usize) -> (n: usize)
    ensures
        n == selection_segments(selection_pct as int, item_count as int),
        item_count > 0 ==> 1 <= n <= 7,
{
    if item_count == 0 {
        return 0;
    }
    let p: usize = if selection_pct < 1 { 1 } else { selection_pct };
    let c: usize = p / 15 + if p % 15 == 0 { 0 } else { 1 };
    assert(c == (p + 14) / 15) by (nonlinear_arith)
        requires
            c == p / 15 + if p % 15 == 0 { 0int } else { 1int },
            p >= 1,
    ;
    if c < 1 {
        1
    } else if c > 7 {
        7
    } else {
        c
    }
}

/// The scan state as the results sidebar names it.
pub fn results_state_text(state: ScanState) -> (s: &'static str)
    ensures
        s@ == match state {
            ScanState::Idle => "Idle"@,
            ScanState::Scanning => "Scanning"@,
            ScanState::Complete => "Ready"@,
        },
{
    match state {
        ScanState::Idle => "Idle",
        ScanState::Scanning => "Scanning",
        ScanState::Complete => "Ready",
    }
}

/// The delete and clear-selection buttons are enabled when something is
/// selected and no deletion is running.
pub fn purge_enabled(selected_size: u64, is_deleting: bool) -> (b: bool)
    ensures
        b == (selected_size > 0 && !is_deleting),
{
    selected_size > 0 && !is_deleting
}

/// The label of the delete button.
pub fn purge_action_label(mode: DeleteMode, is_deleting: bool) -> (s: &'static str)
    ensures
        s@ == if is_deleting {
            "Deleting..."@
        } else {
            match mode {
                DeleteMode::Trash => "Move To Trash"@,
                DeleteMode::Permanent => "Delete Permanently"@,
            }
        },
{
    if is_deleting {
        "Deleting..."
    } else {
        match mode {
            DeleteMode::Trash => "Move To Trash",
            DeleteMode::Permanent => "Delete Permanently",
        }
    }
}

/// What the sidebar says will happen to the selected artifacts.
pub fn safety_notice(mode: DeleteMode) -> (s: &'static str)
    ensures
        s@ == match mode {
            DeleteMode::Trash => "Selected artifacts will be moved to Trash so you can recover them later if needed."@,
            DeleteMode::Permanent => "Selected artifacts will be removed from disk immediately. This action cannot be undone."@,
        },
{
    match mode {
        DeleteMode::Trash => "Selected artifacts will be moved to Trash so you can recover them later if needed.",
        DeleteMode::Permanent => "Selected artifacts will be removed from disk immediately. This action cannot be undone.",
    }
}

/// Whether a cleanup has been recorded in this session, as the sidebar says it.
pub fn last_cleanup_text(deleted_count: usize) -> (s: &'static str)
    ensures
        s@ == if deleted_count == 0 { "None yet"@ } else { "Recorded"@ },
{
    if deleted_count == 0 {
        "None yet"
    } else {
        "Recorded"
    }
}

} // verus!
