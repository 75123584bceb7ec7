//! Which rules a scan enables, as persisted in the configuration by language
//! label, and how toggling a language changes the enabled set.

use vstd::prelude::*;
use crate::rules::{ArtifactRule, all_rules, rules_spec};
use crate::text::{str_eq, chars_of, string_of};

verus! {

/// The names held by `v`, as a set.
pub open spec fn name_set(v: Seq<String>) -> Set<Seq<char>> {
    Set::new(|x: Seq<char>| exists|k: int| 0 <= k < v.len() && v[k]@ == x)
}

/// Names of the built-in rules whose language is one of `langs`.
pub open spec fn config_names(langs: Set<Seq<char>>) -> Set<Seq<char>> {
    Set::new(|x: Seq<char>| exists|i: int| 0 <= i < rules_spec().len()
        && rules_spec()[i].name@ == x && langs.contains(rules_spec()[i].language@))
}

/// Names of all built-in rules.
pub open spec fn table_names() -> Set<Seq<char>> {
    Set::new(|x: Seq<char>| exists|i: int| 0 <= i < rules_spec().len() && rules_spec()[i].name@ == x)
}

/// Languages of the built-in rules whose name is in `enabled`.
pub open spec fn labels_set(enabled: Set<Seq<char>>) -> Set<Seq<char>> {
    Set::new(|l: Seq<char>| exists|i: int| 0 <= i < rules_spec().len()
        && rules_spec()[i].language@ == l && enabled.contains(rules_spec()[i].name@))
}

/// Every language is either wholly enabled or wholly disabled in `enabled`.
pub open spec fn language_closed(enabled: Set<Seq<char>>) -> bool {
    forall|i: int, j: int| 0 <= i < rules_spec().len() && 0 <= j < rules_spec().len()
        && #[trigger] rules_spec()[i].language@ == #[trigger] rules_spec()[j].language@
        ==> (enabled.contains(rules_spec()[i].name@) <==> enabled.contains(rules_spec()[j].name@))
}

/// Persisting the enabled rules as language labels and reading them back
/// gives the same enabled rules, when every language is wholly on or off.
pub proof fn lemma_labels_round_trip(enabled: Set<Seq<char>>)
    requires
        language_closed(enabled),
    ensures
        config_names(labels_set(enabled)) == enabled.intersect(table_names()),
{
    assert forall|x: Seq<char>| config_names(labels_set(enabled)).contains(x)
        implies enabled.intersect(table_names()).contains(x) by {
        let i = choose|i: int| 0 <= i < rules_spec().len()
            && rules_spec()[i].name@ == x && labels_set(enabled).contains(rules_spec()[i].language@);
        let j = choose|j: int| 0 <= j < rules_spec().len()
            && rules_spec()[j].language@ == rules_spec()[i].language@ && enabled.contains(rules_spec()[j].name@);
        assert(rules_spec()[i].language@ == rules_spec()[j].language@);
        assert(table_names().contains(x));
    }
    assert forall|x: Seq<char>| enabled.intersect(table_names()).contains(x)
        implies config_names(labels_set(enabled)).contains(x) by {
        let i = choose|i: int| 0 <= i < rules_spec().len() && rules_spec()[i].name@ == x;
        assert(labels_set(enabled).contains(rules_spec()[i].language@));
    }
    assert(config_names(labels_set(enabled)) =~= enabled.intersect(table_names()));
}

/// Whether the configured language list selects rule `i`.
pub open spec fn lang_selected(enabled_languages: Option<Vec<String>>, i: int) -> bool {
    match enabled_languages {
        None => true,
        Some(l) => name_set(l@).contains(rules_spec()[i].language@),
    }
}

fn list_contains(v: &Vec<String>, x: &str) -> (r: bool)
    ensures
        r == exists|k: int| 0 <= k < v@.len() && v@[k]@ == x@,
{
    let mut k: usize = 0;
    while k < v.len()
        invariant
            k <= v@.len(),
            forall|j: int| 0 <= j < k ==> v@[j]@ != x@,
        decreases v@.len() - k,
    {
        if str_eq(v[k].as_str(), x) {
            return true;
        }
        k = k + 1;
    }
    false
}

/// Names of the rules a scan enables from the configured language list:
/// every rule when no list is configured, else the rules whose language is
/// listed, in table order.
pub fn enabled_rules_from_config(enabled_languages: &Option<Vec<String>>) -> (names: Vec<String>)
    ensures
        names@.len() <= rules_spec().len(),
        enabled_languages is None ==> name_set(names@) == table_names(),
        enabled_languages matches Some(l) ==> name_set(names@) == config_names(name_set(l@)),
        forall|a: int, b: int| 0 <= a < b < names@.len() ==> #[trigger] names@[a]@ != #[trigger] names@[b]@,
{
    let rules = all_rules();
    proof { crate::rules::lemma_rule_names_unique(); }
    let mut names: Vec<String> = Vec::new();
    let ghost mut idx: Seq<int> = Seq::empty();
    let mut i: usize = 0;
    while i < rules.len()
        invariant
            rules@ == rules_spec(),
            i <= rules@.len(),
            idx.len() == names@.len(),
            names@.len() <= i,
            forall|k: int| 0 <= k < idx.len() ==> 0 <= #[trigger] idx[k] < i,
            forall|a: int, b: int| 0 <= a < b < idx.len() ==> #[trigger] idx[a] < #[trigger] idx[b],
            forall|k: int| 0 <= k < idx.len() ==> #[trigger] names@[k]@ == rules_spec()[idx[k]].name@,
            forall|k: int| 0 <= k < idx.len() ==> lang_selected(*enabled_languages, #[trigger] idx[k]),
            forall|j: int| 0 <= j < i && #[trigger] lang_selected(*enabled_languages, j)
                ==> exists|k: int| 0 <= k < idx.len() && idx[k] == j,
            forall|i1: int, i2: int| 0 <= i1 < rules_spec().len() && 0 <= i2 < rules_spec().len() && i1 != i2
                ==> #[trigger] rules_spec()[i1].name@ != #[trigger] rules_spec()[i2].name@,
        decreases rules@.len() - i,
    {
        let rule = rules[i];
        let keep = match enabled_languages {
            None => true,
            Some(l) => list_contains(l, rule.language),
        };
        let ghost old_idx = idx;
        if keep {
            names.push(string_of(&chars_of(rule.name)));
            proof { idx = idx.push(i as int); }
        }
        assert(keep == lang_selected(*enabled_languages, i as int));
        assert forall|j: int| 0 <= j < i + 1 && #[trigger] lang_selected(*enabled_languages, j)
            implies exists|k: int| 0 <= k < idx.len() && idx[k] == j by {
            if j < i {
                let k = choose|k: int| 0 <= k < old_idx.len() && old_idx[k] == j;
                assert(idx[k] == j);
            } else {
                assert(idx[idx.len() - 1] == j);
            }
        }
        i = i + 1;
    }
    proof {
        assert forall|a: int, b: int| 0 <= a < b < names@.len() implies #[trigger] names@[a]@ != #[trigger] names@[b]@ by {
            assert(idx[a] < idx[b]);
        }
        match enabled_languages {
            None => {
                assert forall|x: Seq<char>| name_set(names@).contains(x) <==> table_names().contains(x) by {
                    if table_names().contains(x) {
                        let j = choose|j: int| 0 <= j < rules_spec().len() && rules_spec()[j].name@ == x;
                        assert(lang_selected(*enabled_languages, j));
                        let k = choose|k: int| 0 <= k < idx.len() && idx[k] == j;
                        assert(names@[k]@ == x);
                    }
                    if name_set(names@).contains(x) {
                        let k = choose|k: int| 0 <= k < names@.len() && names@[k]@ == x;
                        assert(rules_spec()[idx[k]].name@ == x);
                    }
                }
                assert(name_set(names@) =~= table_names());
            },
            Some(l) => {
                assert forall|x: Seq<char>| name_set(names@).contains(x) <==> config_names(name_set(l@)).contains(x) by {
                    if config_names(name_set(l@)).contains(x) {
                        let j = choose|j: int| 0 <= j < rules_spec().len() && rules_spec()[j].name@ == x
                            && name_set(l@).contains(rules_spec()[j].language@);
                        assert(lang_selected(*enabled_languages, j));
                        let k = choose|k: int| 0 <= k < idx.len() && idx[k] == j;
                        assert(names@[k]@ == x);
                    }
                    if name_set(names@).contains(x) {
                        let k = choose|k: int| 0 <= k < names@.len() && names@[k]@ == x;
                        assert(rules_spec()[idx[k]].name@ == x);
                        assert(lang_selected(*enabled_languages, idx[k]));
                        assert(name_set(l@).contains(rules_spec()[idx[k]].language@));
                    }
                }
                assert(name_set(names@) =~= config_names(name_set(l@)));
            },
        }
    }
    names
}

/// Languages of the enabled rules, in table order of their first enabled
/// rule, each once: the labels after looking at the first `k` rules.
pub open spec fn labels_upto(enabled: Set<Seq<char>>, k: nat) -> Seq<Seq<char>>
    decreases k,
{
    if k == 0 {
        Seq::empty()
    } else {
        let prev = labels_upto(enabled, (k - 1) as nat);
        let r = rules_spec()[k - 1];
        if enabled.contains(r.name@) && !prev.contains(r.language@) {
            prev.push(r.language@)
        } else {
            prev
        }
    }
}

/// The labels hold each language once, and exactly the languages of the
/// enabled rules.
pub proof fn lemma_labels_upto(enabled: Set<Seq<char>>, k: nat)
    requires
        k <= rules_spec().len(),
    ensures
        labels_upto(enabled, k).no_duplicates(),
        forall|l: Seq<char>| #[trigger] labels_upto(enabled, k).contains(l) <==> exists|i: int| 0 <= i < k
            && rules_spec()[i].language@ == l && enabled.contains(rules_spec()[i].name@),
    decreases k,
{
    if k > 0 {
        lemma_labels_upto(enabled, (k - 1) as nat);
        let prev = labels_upto(enabled, (k - 1) as nat);
        let r = rules_spec()[k - 1];
        let c = labels_upto(enabled, k);
        let cond = enabled.contains(r.name@) && !prev.contains(r.language@);
        if cond {
            assert(c == prev.push(r.language@));
        } else {
            assert(c == prev);
        }
        assert forall|l: Seq<char>| #[trigger] c.contains(l) implies exists|i: int| 0 <= i < k
            && rules_spec()[i].language@ == l && enabled.contains(rules_spec()[i].name@) by {
            let m = choose|m: int| 0 <= m < c.len() && c[m] == l;
            if m < prev.len() {
                assert(prev[m] == l);
                assert(prev.contains(l));
            } else {
                assert(cond && l == r.language@);
            }
        }
        assert forall|l: Seq<char>| (exists|i: int| 0 <= i < k
            && rules_spec()[i].language@ == l && enabled.contains(rules_spec()[i].name@)) implies #[trigger] c.contains(l) by {
            let i = choose|i: int| 0 <= i < k && rules_spec()[i].language@ == l && enabled.contains(rules_spec()[i].name@);
            if prev.contains(l) {
                let m = choose|m: int| 0 <= m < prev.len() && prev[m] == l;
                assert(c[m] == l);
            } else {
                assert(i == k - 1);
                assert(c[prev.len() as int] == l);
            }
        }
    }
}

/// Language labels to persist for the enabled rules: the languages of the
/// rules whose names are enabled, each once, in table order.
pub fn enabled_language_labels(enabled: &Vec<String>) -> (labels: Vec<String>)
    ensures
        labels@.map_values(|s: String| s@) == labels_upto(name_set(enabled@), rules_spec().len()),
{
    let rules = all_rules();
    let ghost en = name_set(enabled@);
    let mut labels: Vec<String> = Vec::new();
    let mut i: usize = 0;
    while i < rules.len()
        invariant
            rules@ == rules_spec(),
            i <= rules@.len(),
            en == name_set(enabled@),
            labels@.map_values(|s: String| s@) == labels_upto(en, i as nat),
        decreases rules@.len() - i,
    {
        let rule = rules[i];
        let on = list_contains(enabled, rule.name);
        assert(on == en.contains(rule.name@));
        let seen = list_contains(&labels, rule.language);
        assert(seen == labels_upto(en, i as nat).contains(rule.language@)) by {
            let lv = labels@.map_values(|s: String| s@);
            if seen {
                let k = choose|k: int| 0 <= k < labels@.len() && labels@[k]@ == rule.language@;
                assert(lv[k] == rule.language@);
            }
            if lv.contains(rule.language@) {
                let k = choose|k: int| 0 <= k < lv.len() && lv[k] == rule.language@;
                assert(labels@[k]@ == rule.language@);
            }
        }
        if on && !seen {
            labels.push(string_of(&chars_of(rule.language)));
        }
        assert(labels@.map_values(|s: String| s@) =~= labels_upto(en, (i + 1) as nat));
        i = i + 1;
    }
    labels
}

/// Names of the built-in rules of `language`.
pub open spec fn language_names(language: Seq<char>) -> Set<Seq<char>> {
    Set::new(|x: Seq<char>| exists|i: int| 0 <= i < rules_spec().len()
        && rules_spec()[i].name@ == x && rules_spec()[i].language@ == language)
}

/// No name occurs twice.
pub open spec fn distinct_names(v: Seq<String>) -> bool {
    forall|a: int, b: int| 0 <= a < b < v.len() ==> #[trigger] v[a]@ != #[trigger] v[b]@
}

/// Names of the first `i` built-in rules that belong to `language`.
pub open spec fn language_names_upto(language: Seq<char>, i: int) -> Set<Seq<char>> {
    Set::new(|x: Seq<char>| exists|j: int| 0 <= j < i
        && rules_spec()[j].name@ == x && rules_spec()[j].language@ == language)
}

/// Add `name` unless it is already there.
fn insert_name(v: &mut Vec<String>, name: &str)
    requires
        distinct_names(old(v)@),
    ensures
        distinct_names(final(v)@),
        name_set(final(v)@) == name_set(old(v)@).insert(name@),
{
    let ghost before = v@;
    if !list_contains(v, name) {
        v.push(string_of(&chars_of(name)));
        assert(v@[before.len() as int]@ == name@);
    }
    assert forall|x: Seq<char>| name_set(v@).contains(x) <==> name_set(before).insert(name@).contains(x) by {
        if name_set(v@).contains(x) {
            let k = choose|k: int| 0 <= k < v@.len() && v@[k]@ == x;
            if k < before.len() {
                assert(before[k] == v@[k]);
            }
        }
        if name_set(before).contains(x) {
            let k = choose|k: int| 0 <= k < before.len() && before[k]@ == x;
            assert(v@[k] == before[k]);
        }
    }
    assert(name_set(v@) =~= name_set(before).insert(name@));
}

/// Whether `name` is the name of a built-in rule of `language`.
fn is_language_name(name: &str, language: &str) -> (r: bool)
    ensures
        r == language_names(language@).contains(name@),
{
    let rules = all_rules();
    let mut i: usize = 0;
    while i < rules.len()
        invariant
            rules@ == rules_spec(),
            i <= rules@.len(),
            forall|j: int| 0 <= j < i ==> !(rules_spec()[j].name@ == name@ && rules_spec()[j].language@ == language@),
        decreases rules@.len() - i,
    {
        if str_eq(rules[i].name, name) && str_eq(rules[i].language, language) {
            assert(rules_spec()[i as int].name@ == name@ && rules_spec()[i as int].language@ == language@);
            return true;
        }
        i = i + 1;
    }
    false
}

/// Drop every name that belongs to `language`.
fn remove_language(v: &Vec<String>, language: &str) -> (kept: Vec<String>)
    requires
        distinct_names(v@),
    ensures
        distinct_names(kept@),
        name_set(kept@) == name_set(v@).difference(language_names(language@)),
{
    broadcast use vstd::seq_lib::group_filter_ensures;
    let ghost pred = |s: String| !language_names(language@).contains(s@);
    let mut kept: Vec<String> = Vec::new();
    let mut k: usize = 0;
    assert(v@.take(0) =~= Seq::<String>::empty());
    while k < v.len()
        invariant
            k <= v@.len(),
            pred == (|s: String| !language_names(language@).contains(s@)),
            kept@ == v@.take(k as int).filter(pred),
        decreases v@.len() - k,
    {
        let ghost t = v@.take(k as int);
        assert(v@.take(k + 1) =~= t.push(v@[k as int]));
        proof { t.lemma_filter_push(v@[k as int], pred); }
        if !is_language_name(v[k].as_str(), language) {
            kept.push(v[k].clone());
        }
        k = k + 1;
    }
    assert(v@.take(v@.len() as int) =~= v@);
    proof {
        assert forall|a: int, b: int| 0 <= a < b < kept@.len() implies #[trigger] kept@[a]@ != #[trigger] kept@[b]@ by {
            lemma_filter_subseq_distinct(v@, pred, a, b);
        }
        assert forall|x: Seq<char>| name_set(kept@).contains(x) <==>
            name_set(v@).difference(language_names(language@)).contains(x) by {
            if name_set(kept@).contains(x) {
                let a = choose|a: int| 0 <= a < kept@.len() && kept@[a]@ == x;
                assert(v@.filter(pred).contains(kept@[a]));
                v@.lemma_filter_contains_rev(pred, kept@[a]);
                assert(v@.contains(kept@[a]));
                assert(pred(kept@[a]));
            }
            if name_set(v@).difference(language_names(language@)).contains(x) {
                let b = choose|b: int| 0 <= b < v@.len() && v@[b]@ == x;
                assert(pred(v@[b]));
                assert(kept@.contains(v@[b]));
            }
        }
        assert(name_set(kept@) =~= name_set(v@).difference(language_names(language@)));
    }
    kept
}

proof fn lemma_filter_subseq_distinct(v: Seq<String>, pred: spec_fn(String) -> bool, a: int, b: int)
    requires
        distinct_names(v),
        0 <= a < b < v.filter(pred).len(),
    ensures
        v.filter(pred)[a]@ != v.filter(pred)[b]@,
    decreases v.len(),
{
    broadcast use vstd::seq_lib::group_filter_ensures;
    let f = v.filter(pred);
    let p = v.drop_last();
    assert(p.push(v.last()) =~= v);
    p.lemma_filter_push(v.last(), pred);
    assert(distinct_names(p));
    if pred(v.last()) && b == f.len() - 1 {
        assert(f[b] == v.last());
        assert(f[a] == p.filter(pred)[a]);
        assert(p.filter(pred).contains(f[a]));
        p.lemma_filter_contains_rev(pred, f[a]);
        assert(p.contains(f[a]));
        let i = choose|i: int| 0 <= i < p.len() && p[i] == f[a];
        assert(v[i] == p[i]);
        assert(v[v.len() - 1] == v.last());
    } else {
        if pred(v.last()) {
            assert(f[a] == p.filter(pred)[a] && f[b] == p.filter(pred)[b]);
        }
        lemma_filter_subseq_distinct(p, pred, a, b);
    }
}

/// Enable or disable every rule of `language`.
pub fn set_language_enabled(enabled: &mut Vec<String>, language: &str, on: bool)
    requires
        distinct_names(old(enabled)@),
    ensures
        distinct_names(final(enabled)@),
        on ==> name_set(final(enabled)@) == name_set(old(enabled)@).union(language_names(language@)),
        !on ==> name_set(final(enabled)@) == name_set(old(enabled)@).difference(language_names(language@)),
{
    let ghost start = name_set(enabled@);
    if on {
        let rules = all_rules();
        let mut i: usize = 0;
        assert(language_names_upto(language@, 0) =~= Set::<Seq<char>>::empty());
        assert(start =~= start.union(language_names_upto(language@, 0)));
        while i < rules.len()
            invariant
                rules@ == rules_spec(),
                i <= rules@.len(),
                distinct_names(enabled@),
                name_set(enabled@) == start.union(language_names_upto(language@, i as int)),
            decreases rules@.len() - i,
        {
            let rule = rules[i];
            if str_eq(rule.language, language) {
                insert_name(enabled, rule.name);
            }
            assert(name_set(enabled@) =~= start.union(language_names_upto(language@, i + 1)));
            i = i + 1;
        }
        assert(language_names_upto(language@, rules_spec().len() as int) =~= language_names(language@));
    } else {
        let kept = remove_language(enabled, language);
        *enabled = kept;
    }
}

/// Turning a whole language on or off keeps every language wholly on or off.
pub proof fn lemma_language_toggle_keeps_closed(enabled: Set<Seq<char>>, language: Seq<char>)
    requires
        language_closed(enabled),
    ensures
        language_closed(enabled.union(language_names(language))),
        language_closed(enabled.difference(language_names(language))),
{
    assert forall|i: int, j: int| 0 <= i < rules_spec().len() && 0 <= j < rules_spec().len()
        && #[trigger] rules_spec()[i].language@ == #[trigger] rules_spec()[j].language@ implies
        (enabled.union(language_names(language)).contains(rules_spec()[i].name@)
            <==> enabled.union(language_names(language)).contains(rules_spec()[j].name@))
        && (enabled.difference(language_names(language)).contains(rules_spec()[i].name@)
            <==> enabled.difference(language_names(language)).contains(rules_spec()[j].name@)) by {
        crate::rules::lemma_rule_names_unique();
        if language_names(language).contains(rules_spec()[i].name@) {
            let m = choose|m: int| 0 <= m < rules_spec().len()
                && rules_spec()[m].name@ == rules_spec()[i].name@ && rules_spec()[m].language@ == language;
            if m != i {
                assert(rules_spec()[m].name@ != rules_spec()[i].name@);
            }
            assert(language_names(language).contains(rules_spec()[j].name@));
        }
        if language_names(language).contains(rules_spec()[j].name@) {
            let m = choose|m: int| 0 <= m < rules_spec().len()
                && rules_spec()[m].name@ == rules_spec()[j].name@ && rules_spec()[m].language@ == language;
            if m != j {
                assert(rules_spec()[m].name@ != rules_spec()[j].name@);
            }
            assert(language_names(language).contains(rules_spec()[i].name@));
        }
    }
}

} // verus!
