//! Scan decisions driven by the rule registry: which directory entries to
//! descend into, which ones match a rule (and whether as orphans), how many
//! candidates to collect, and how the sized results are ranked.
//!
//! The filesystem walk itself is performed by the caller, which hands each
//! directory's entries and the marker-file answers to these functions.

use vstd::prelude::*;
use crate::rules::{ArtifactRule, all_rules, rules_spec};
use crate::directory_item::DirectoryItem;
use crate::text::{str_eq, chars_of};
use crate::rules::{find, is_first_named, lemma_rules_well_formed};
use crate::error::{ArtifactError, join2, join4};

verus! {

/// Multiplier applied to `max_results` to bound candidate collection before
/// sizing, so the largest-first top-N stays accurate when a few large
/// artifacts are discovered late.
pub const COLLECTION_SLACK: usize = 16;

/// A filesystem scanner configuration: a root, the enabled rules (in table
/// order) and an optional cap on returned matches.
pub struct Scanner {
    root: String,
    enabled_rules: Vec<ArtifactRule>,
    max_results: Option<usize>,
}

impl Scanner {
    /// The scan root.
    pub closed spec fn root_view(&self) -> Seq<char> {
        self.root@
    }

    /// The enabled rules, in table order.
    pub closed spec fn enabled_view(&self) -> Seq<ArtifactRule> {
        self.enabled_rules@
    }

    /// The cap on returned matches.
    pub closed spec fn max_results_view(&self) -> Option<usize> {
        self.max_results
    }

    /// A scanner rooted at `root` with all built-in rules enabled.
    pub fn new(root: String) -> (s: Self)
        ensures
            s.root_view() == root@,
            s.enabled_view() == rules_spec(),
            s.max_results_view() is None,
    {
        Scanner { root, enabled_rules: all_rules(), max_results: None }
    }

    /// Cap the number of matches returned.
    pub fn with_max_results(self, limit: usize) -> (s: Self)
        ensures
            s.root_view() == self.root_view(),
            s.enabled_view() == self.enabled_view(),
            s.max_results_view() == Some(limit),
    {
        Scanner { root: self.root, enabled_rules: self.enabled_rules, max_results: Some(limit) }
    }

    /// A scanner restricted to the rules whose names are listed. Unknown
    /// names are skipped.
    pub fn with_enabled(root: String, names: &[&str]) -> (s: Self)
        ensures
            s.root_view() == root@,
            s.enabled_view() == rules_spec().filter(|r: ArtifactRule| names_contain(names@, r.name@)),
            s.max_results_view() is None,
    {
        broadcast use vstd::seq_lib::group_filter_ensures;
        let rules = all_rules();
        let ghost pred = |r: ArtifactRule| names_contain(names@, r.name@);
        let mut enabled: Vec<ArtifactRule> = Vec::new();
        let mut i: usize = 0;
        assert(rules@.take(0) =~= Seq::<ArtifactRule>::empty());
        while i < rules.len()
            invariant
                rules@ == rules_spec(),
                i <= rules@.len(),
                pred == (|r: ArtifactRule| names_contain(names@, r.name@)),
                enabled@ == rules@.take(i as int).filter(pred),
            decreases rules@.len() - i,
        {
            let rule = rules[i];
            let ghost t = rules@.take(i as int);
            assert(rules@.take(i + 1) =~= t.push(rule));
            proof { t.lemma_filter_push(rule, pred); }
            if list_contains(names, rule.name) {
                enabled.push(rule);
            }
            i = i + 1;
        }
        assert(rules@.take(rules@.len() as int) =~= rules@);
        Scanner { root, enabled_rules: enabled, max_results: None }
    }

    /// The scan root.
    pub fn root(&self) -> (r: &String)
        ensures
            r@ == self.root_view(),
    {
        &self.root
    }

    /// The enabled rules, in table order.
    pub fn enabled_rules(&self) -> (r: &Vec<ArtifactRule>)
        ensures
            r@ == self.enabled_view(),
    {
        &self.enabled_rules
    }

    /// The cap on returned matches.
    pub fn max_results(&self) -> (r: Option<usize>)
        ensures
            r == self.max_results_view(),
    {
        self.max_results
    }
}

/// Whether one of `names` is `name`.
pub open spec fn names_contain(names: Seq<&str>, name: Seq<char>) -> bool {
    exists|k: int| 0 <= k < names.len() && names[k]@ == name
}

fn list_contains(names: &[&str], name: &str) -> (r: bool)
    ensures
        r == names_contain(names@, name@),
{
    let mut k: usize = 0;
    while k < names.len()
        invariant
            k <= names@.len(),
            forall|j: int| 0 <= j < k ==> names@[j]@ != name@,
        decreases names@.len() - k,
    {
        if str_eq(names[k], name) {
            return true;
        }
        k = k + 1;
    }
    false
}

/// The operating system whose system directories the walk must avoid.
#[derive(Debug, Clone, Copy, PartialEq, Eq, Structural)]
pub enum Platform {
    MacOs,
    Windows,
    Linux,
    Other,
}

/// Whether `name` is a platform system location the scanner never enters.
pub open spec fn excluded_on(platform: Platform, name: Seq<char>) -> bool {
    match platform {
        Platform::MacOs => name == "Library"@ || name == "Applications"@ || name == "System"@,
        Platform::Windows => name == "Windows"@ || name == "Program Files"@ || name == "Program Files (x86)"@
            || name == "$Recycle.Bin"@,
        Platform::Linux => name == "proc"@ || name == "sys"@ || name == "dev"@,
        Platform::Other => false,
    }
}

/// Whether a (non-hidden) directory basename names a platform system
/// location the scanner must never descend into.
pub fn is_excluded_dir(name: &str, platform: Platform) -> (r: bool)
    ensures
        r == excluded_on(platform, name@),
        platform == Platform::Linux ==> (r <==> (name@ == "proc"@ || name@ == "sys"@ || name@ == "dev"@)),
        platform == Platform::MacOs ==> (r <==> (name@ == "Library"@ || name@ == "Applications"@
            || name@ == "System"@)),
        platform == Platform::Windows ==> (r <==> (name@ == "Windows"@ || name@ == "Program Files"@
            || name@ == "Program Files (x86)"@ || name@ == "$Recycle.Bin"@)),
        platform == Platform::Other ==> !r,
{
    match platform {
        Platform::MacOs => str_eq(name, "Library") || str_eq(name, "Applications") || str_eq(name, "System"),
        Platform::Windows => str_eq(name, "Windows") || str_eq(name, "Program Files")
            || str_eq(name, "Program Files (x86)") || str_eq(name, "$Recycle.Bin"),
        Platform::Linux => str_eq(name, "proc") || str_eq(name, "sys") || str_eq(name, "dev"),
        Platform::Other => false,
    }
}

/// Whether some enabled rule matches directories named `name`.
pub open spec fn some_rule_named_dir(enabled: Seq<ArtifactRule>, name: Seq<char>) -> bool {
    exists|k: int| 0 <= k < enabled.len() && enabled[k].dir_name@ == name
}

/// Whether the walk keeps an entry named `name`: a hidden entry only when it
/// is itself the directory name of an enabled rule (`.next`, `.venv`, ...),
/// any other entry unless it is a platform system location.
pub open spec fn keeps_entry(enabled: Seq<ArtifactRule>, platform: Platform, name: Seq<char>) -> bool {
    if name.len() > 0 && name[0] == '.' {
        some_rule_named_dir(enabled, name)
    } else {
        !excluded_on(platform, name)
    }
}

/// The walk never enters a platform's system locations and enters every
/// other plain (not hidden) directory: on Linux `proc`, `sys` and `dev`; on
/// macOS `Library`, `Applications` and `System`; on Windows `Windows`,
/// `Program Files`, `Program Files (x86)` and `$Recycle.Bin`; elsewhere none.
pub proof fn lemma_system_locations_skipped(enabled: Seq<ArtifactRule>, name: Seq<char>)
    requires
        !(name.len() > 0 && name[0] == '.'),
    ensures
        keeps_entry(enabled, Platform::Linux, name)
            <==> !(name == "proc"@ || name == "sys"@ || name == "dev"@),
        keeps_entry(enabled, Platform::MacOs, name)
            <==> !(name == "Library"@ || name == "Applications"@ || name == "System"@),
        keeps_entry(enabled, Platform::Windows, name)
            <==> !(name == "Windows"@ || name == "Program Files"@ || name == "Program Files (x86)"@
                || name == "$Recycle.Bin"@),
        keeps_entry(enabled, Platform::Other, name),
{
}

/// A hidden entry (name starting with `.`) is entered exactly when some
/// enabled rule detects directories of that very name (`.venv`, `.next`,
/// ...), on every platform; no other hidden entry is.
pub proof fn lemma_hidden_entries(enabled: Seq<ArtifactRule>, platform: Platform, name: Seq<char>)
    requires
        name.len() > 0 && name[0] == '.',
    ensures
        keeps_entry(enabled, platform, name)
            <==> exists|k: int| 0 <= k < enabled.len() && #[trigger] enabled[k].dir_name@ == name,
{
}

/// The Linux pseudo filesystems are never entered, whatever rules are on.
pub proof fn lemma_linux_pseudo_filesystems_skipped(enabled: Seq<ArtifactRule>)
    ensures
        !keeps_entry(enabled, Platform::Linux, "proc"@),
        !keeps_entry(enabled, Platform::Linux, "sys"@),
        !keeps_entry(enabled, Platform::Linux, "dev"@),
{
    reveal_strlit("proc");
    reveal_strlit("sys");
    reveal_strlit("dev");
    lemma_system_locations_skipped(enabled, "proc"@);
    lemma_system_locations_skipped(enabled, "sys"@);
    lemma_system_locations_skipped(enabled, "dev"@);
}

/// Whether the walk keeps (and may descend into) the entry named `name`.
pub fn is_scannable(name: &str, enabled: &Vec<ArtifactRule>, platform: Platform) -> (r: bool)
    ensures
        r == keeps_entry(enabled@, platform, name@),
{
    let cs = chars_of(name);
    if cs.len() > 0 && cs[0] == '.' {
        let mut k: usize = 0;
        while k < enabled.len()
            invariant
                k <= enabled@.len(),
                name@.len() > 0 && name@[0] == '.',
                forall|j: int| 0 <= j < k ==> enabled@[j].dir_name@ != name@,
            decreases enabled@.len() - k,
        {
            if str_eq(enabled[k].dir_name, name) {
                assert(enabled@[k as int].dir_name@ == name@);
                assert(some_rule_named_dir(enabled@, name@));
                return true;
            }
            k = k + 1;
        }
        false
    } else {
        !is_excluded_dir(name, platform)
    }
}

/// The enabled rules (in order) that match directories named `name`; the
/// caller checks their markers.
pub fn candidate_rules(name: &str, enabled: &Vec<ArtifactRule>) -> (c: Vec<ArtifactRule>)
    ensures
        c@ == enabled@.filter(|r: ArtifactRule| r.dir_name@ == name@),
{
    broadcast use vstd::seq_lib::group_filter_ensures;
    let ghost pred = |r: ArtifactRule| r.dir_name@ == name@;
    let mut c: Vec<ArtifactRule> = Vec::new();
    let mut i: usize = 0;
    assert(enabled@.take(0) =~= Seq::<ArtifactRule>::empty());
    while i < enabled.len()
        invariant
            i <= enabled@.len(),
            pred == (|r: ArtifactRule| r.dir_name@ == name@),
            c@ == enabled@.take(i as int).filter(pred),
        decreases enabled@.len() - i,
    {
        let rule = enabled[i];
        let ghost t = enabled@.take(i as int);
        assert(enabled@.take(i + 1) =~= t.push(rule));
        proof { t.lemma_filter_push(rule, pred); }
        if str_eq(rule.dir_name, name) {
            c.push(rule);
        }
        i = i + 1;
    }
    assert(enabled@.take(enabled@.len() as int) =~= enabled@);
    c
}

/// A rule hit: the rule, and whether it matched without any marker present.
#[derive(Debug, Clone, Copy)]
pub struct RuleMatch {
    pub rule: ArtifactRule,
    pub is_orphaned: bool,
}

/// Whether any of the answers is `true`.
pub open spec fn any_true(answers: Seq<bool>) -> bool {
    exists|k: int| 0 <= k < answers.len() && answers[k]
}

/// How a directory named like `rule` matches it, given whether any of the
/// rule's markers is present beside it: unconditionally when the rule has no
/// markers, normally when a marker is present, as an orphan when no marker is
/// present but the rule allows it, and not at all otherwise.
pub open spec fn rule_match_spec(rule: ArtifactRule, any_marker: bool) -> Option<(ArtifactRule, bool)> {
    if rule.markers@.len() == 0 {
        Some((rule, false))
    } else if any_marker {
        Some((rule, false))
    } else if rule.allow_orphan_without_marker {
        Some((rule, true))
    } else {
        None
    }
}

/// A directory named like a rule matches it, not orphaned, as soon as any of
/// the rule's markers is present beside it, whatever the marker is (a file
/// name or a file extension) and whether or not the rule allows orphans; a
/// rule without markers matches unconditionally; with markers but none
/// present it matches, orphaned, exactly when it allows that.
pub proof fn lemma_present_marker_matches(rule: ArtifactRule, any_marker: bool)
    ensures
        rule.markers@.len() > 0 ==> rule_match_spec(rule, true) == Some((rule, false)),
        rule.markers@.len() == 0 ==> rule_match_spec(rule, any_marker) == Some((rule, false)),
        rule.markers@.len() > 0 && rule.allow_orphan_without_marker ==>
            rule_match_spec(rule, false) == Some((rule, true)),
        rule.markers@.len() > 0 && !rule.allow_orphan_without_marker ==>
            rule_match_spec(rule, false) is None,
        rule_match_spec(rule, any_marker) matches Some((r, _)) ==> r == rule,
{
}

/// The matching of every built-in rule follows its markers alone: each rule
/// of the registry with markers (the .NET and Terraform ones, whose markers
/// are file extensions, included) matches as soon as one is present.
pub proof fn lemma_registry_rules_match_on_marker()
    ensures
        forall|i: int| 0 <= i < rules_spec().len() ==>
            #[trigger] rule_match_spec(rules_spec()[i], true) == Some((rules_spec()[i], false)),
{
    assert forall|i: int| 0 <= i < rules_spec().len() implies
        #[trigger] rule_match_spec(rules_spec()[i], true) == Some((rules_spec()[i], false)) by {
        lemma_present_marker_matches(rules_spec()[i], true);
    }
}

/// Only a rule that opts in matches as orphaned, and only when none of its
/// markers is present.
pub proof fn lemma_orphans_opt_in(rule: ArtifactRule, any_marker: bool)
    ensures
        rule_match_spec(rule, any_marker) matches Some((_, true)) ==> {
            &&& rule.allow_orphan_without_marker
            &&& rule.markers@.len() > 0
            &&& !any_marker
        },
{
}

/// The generic directory names (`target`, `bin`, `obj`, `venv`) never match
/// without a project marker beside them.
pub proof fn lemma_generic_names_need_markers()
    ensures
        forall|i: int| #![trigger rules_spec()[i]] 0 <= i < rules_spec().len() && {
            let d = rules_spec()[i].dir_name@;
            d == "target"@ || d == "bin"@ || d == "obj"@ || d == "venv"@
        } ==> rule_match_spec(rules_spec()[i], false) is None,
{
    lemma_rules_well_formed();
    reveal_strlit("target");
    reveal_strlit("bin");
    reveal_strlit("obj");
    reveal_strlit("venv");
    reveal_strlit("node_modules");
    reveal_strlit(".venv");
    reveal_strlit("__pycache__");
    reveal_strlit(".next");
    reveal_strlit(".nuxt");
    reveal_strlit(".parcel-cache");
    reveal_strlit(".gradle");
    reveal_strlit("_build");
    reveal_strlit("deps");
    reveal_strlit("vendor");
    reveal_strlit("DerivedData");
    reveal_strlit(".terraform");
    assert forall|i: int| #![trigger rules_spec()[i]] 0 <= i < rules_spec().len() && {
        let d = rules_spec()[i].dir_name@;
        d == "target"@ || d == "bin"@ || d == "obj"@ || d == "venv"@
    } implies rule_match_spec(rules_spec()[i], false) is None by {
        let d = rules_spec()[i].dir_name@;
        if i == 1 || i == 3 || i == 9 || i == 10 {
            assert(rules_spec()[i].markers@.len() == 1 || rules_spec()[i].markers@.len() == 3);
        } else {
            assert(d.len() != 6 || d[0] != 't');
            assert(d.len() != 3);
            assert(d.len() != 4 || d[0] != 'v');
            assert("target"@.len() == 6 && "target"@[0] == 't');
            assert("venv"@.len() == 4 && "venv"@[0] == 'v');
            assert("bin"@.len() == 3 && "obj"@.len() == 3);
        }
    }
}

/// The abstract value of an optional rule match.
pub open spec fn match_view(m: Option<RuleMatch>) -> Option<(ArtifactRule, bool)> {
    match m {
        Some(x) => Some((x.rule, x.is_orphaned)),
        None => None,
    }
}

/// Decide how a directory matches `rule`, given for each of the rule's
/// markers whether it is present in the parent directory.
pub fn match_rule(rule: ArtifactRule, marker_present: &Vec<bool>) -> (m: Option<RuleMatch>)
    requires
        marker_present@.len() == rule.markers@.len(),
    ensures
        match_view(m) == rule_match_spec(rule, any_true(marker_present@)),
        rule.markers@.len() == 0 || any_true(marker_present@) ==>
            (m matches Some(x) && x.rule == rule && !x.is_orphaned),
        rule.markers@.len() > 0 && !any_true(marker_present@) ==> {
            &&& (m is Some <==> rule.allow_orphan_without_marker)
            &&& (m matches Some(x) ==> x.rule == rule && x.is_orphaned)
        },
{
    if rule.markers.len() == 0 {
        return Some(RuleMatch { rule, is_orphaned: false });
    }
    let mut k: usize = 0;
    while k < marker_present.len()
        invariant
            k <= marker_present@.len(),
            forall|j: int| 0 <= j < k ==> !marker_present@[j],
        decreases marker_present@.len() - k,
    {
        if marker_present[k] {
            return Some(RuleMatch { rule, is_orphaned: false });
        }
        k = k + 1;
    }
    if rule.allow_orphan_without_marker {
        Some(RuleMatch { rule, is_orphaned: true })
    } else {
        None
    }
}

/// The first candidate that matches, given the marker answers of each.
pub open spec fn first_match_spec(cands: Seq<ArtifactRule>, answers: Seq<Seq<bool>>) -> Option<(ArtifactRule, bool)>
    decreases cands.len(),
{
    if cands.len() == 0 || answers.len() == 0 {
        None
    } else if rule_match_spec(cands[0], any_true(answers[0])) is Some {
        rule_match_spec(cands[0], any_true(answers[0]))
    } else {
        first_match_spec(cands.drop_first(), answers.drop_first())
    }
}

/// The match of a directory is its first candidate rule that matches given
/// that candidate's marker answers: earlier candidates do not match, and
/// when none matches there is no match.
pub proof fn lemma_first_match_is_first(cands: Seq<ArtifactRule>, answers: Seq<Seq<bool>>)
    requires
        answers.len() == cands.len(),
    ensures
        first_match_spec(cands, answers) matches Some((r, o)) ==> exists|i: int| {
            &&& 0 <= i < cands.len()
            &&& r == cands[i]
            &&& #[trigger] rule_match_spec(cands[i], any_true(answers[i])) == Some((r, o))
            &&& forall|j: int| 0 <= j < i ==> rule_match_spec(cands[j], any_true(answers[j])) is None
        },
        first_match_spec(cands, answers) is None ==>
            forall|j: int| 0 <= j < cands.len() ==> #[trigger] rule_match_spec(cands[j], any_true(answers[j])) is None,
    decreases cands.len(),
{
    if cands.len() > 0 {
        lemma_present_marker_matches(cands[0], any_true(answers[0]));
        if rule_match_spec(cands[0], any_true(answers[0])) is None {
            let (c1, a1) = (cands.drop_first(), answers.drop_first());
            lemma_first_match_is_first(c1, a1);
            match first_match_spec(cands, answers) {
                Some((r, o)) => {
                    let i = choose|i: int| {
                        &&& 0 <= i < c1.len()
                        &&& r == c1[i]
                        &&& #[trigger] rule_match_spec(c1[i], any_true(a1[i])) == Some((r, o))
                        &&& forall|j: int| 0 <= j < i ==> rule_match_spec(c1[j], any_true(a1[j])) is None
                    };
                    assert(cands[i + 1] == c1[i] && answers[i + 1] == a1[i]);
                    assert forall|j: int| 0 <= j < i + 1 implies rule_match_spec(cands[j], any_true(answers[j])) is None by {
                        if j > 0 {
                            assert(cands[j] == c1[j - 1] && answers[j] == a1[j - 1]);
                        }
                    }
                    assert(rule_match_spec(cands[i + 1], any_true(answers[i + 1])) == Some((r, o)));
                },
                None => {
                    assert forall|j: int| 0 <= j < cands.len() implies #[trigger] rule_match_spec(cands[j], any_true(answers[j])) is None by {
                        if j > 0 {
                            assert(cands[j] == c1[j - 1] && answers[j] == a1[j - 1]);
                            assert(rule_match_spec(c1[j - 1], any_true(a1[j - 1])) is None);
                        }
                    }
                },
            }
        } else {
            assert(rule_match_spec(cands[0], any_true(answers[0])) == first_match_spec(cands, answers));
        }
    }
}

/// Match a directory against its candidate rules (see [`candidate_rules`]):
/// the first candidate that matches, given for each candidate whether each of
/// its markers is present.
pub fn first_match(cands: &Vec<ArtifactRule>, answers: &Vec<Vec<bool>>) -> (m: Option<RuleMatch>)
    requires
        answers@.len() == cands@.len(),
        forall|k: int| 0 <= k < cands@.len() ==> #[trigger] answers@[k]@.len() == cands@[k].markers@.len(),
    ensures
        match_view(m) == first_match_spec(cands@, answers@.map_values(|a: Vec<bool>| a@)),
{
    let ghost av = answers@.map_values(|a: Vec<bool>| a@);
    let mut i: usize = 0;
    assert(cands@.skip(0) =~= cands@);
    assert(av.skip(0) =~= av);
    while i < cands.len()
        invariant
            i <= cands@.len(),
            answers@.len() == cands@.len(),
            av == answers@.map_values(|a: Vec<bool>| a@),
            forall|k: int| 0 <= k < cands@.len() ==> #[trigger] answers@[k]@.len() == cands@[k].markers@.len(),
            first_match_spec(cands@, av) == first_match_spec(cands@.skip(i as int), av.skip(i as int)),
        decreases cands@.len() - i,
    {
        let ghost cs = cands@.skip(i as int);
        let ghost as_ = av.skip(i as int);
        assert(cs[0] == cands@[i as int]);
        assert(as_[0] == answers@[i as int]@);
        let m = match_rule(cands[i], &answers[i]);
        if m.is_some() {
            return m;
        }
        assert(cs.drop_first() =~= cands@.skip(i + 1));
        assert(as_.drop_first() =~= av.skip(i + 1));
        i = i + 1;
    }
    None
}

/// Whether a marker names a file extension (`.csproj`, `.tf`): it starts
/// with `.` and holds no `/` after it.
pub open spec fn is_extension_marker_spec(marker: Seq<char>) -> bool {
    marker.len() > 0 && marker[0] == '.' && !marker.drop_first().contains('/')
}

/// Whether a marker names a file extension rather than a file name.
pub fn is_extension_marker(marker: &str) -> (r: bool)
    ensures
        r == is_extension_marker_spec(marker@),
{
    let cs = chars_of(marker);
    if cs.len() == 0 || cs[0] != '.' {
        return false;
    }
    let mut k: usize = 1;
    while k < cs.len()
        invariant
            1 <= k <= cs@.len(),
            cs@ == marker@,
            cs@.len() > 0 && cs@[0] == '.',
            forall|j: int| 1 <= j < k ==> cs@[j] != '/',
        decreases cs@.len() - k,
    {
        if cs[k] == '/' {
            assert(cs@.drop_first()[k - 1] == '/');
            assert(cs@.drop_first().contains('/'));
            return false;
        }
        k = k + 1;
    }
    assert forall|j: int| 0 <= j < cs@.drop_first().len() implies cs@.drop_first()[j] != '/' by {
        assert(cs@.drop_first()[j] == cs@[j + 1]);
    }
    true
}

/// Whether some sibling name ends with the extension marker `suffix`.
pub fn any_name_ends_with(names: &Vec<String>, suffix: &str) -> (r: bool)
    ensures
        r == exists|k: int| 0 <= k < names@.len() && suffix@.is_suffix_of(#[trigger] names@[k]@),
{
    let suf = chars_of(suffix);
    let mut k: usize = 0;
    while k < names.len()
        invariant
            k <= names@.len(),
            suf@ == suffix@,
            forall|j: int| 0 <= j < k ==> !suffix@.is_suffix_of(#[trigger] names@[j]@),
        decreases names@.len() - k,
    {
        let cs = chars_of(names[k].as_str());
        if ends_with(&cs, &suf) {
            return true;
        }
        k = k + 1;
    }
    false
}

fn ends_with(cs: &Vec<char>, p: &Vec<char>) -> (r: bool)
    ensures
        r == p@.is_suffix_of(cs@),
{
    if p.len() > cs.len() {
        return false;
    }
    let off = cs.len() - p.len();
    let mut i: usize = 0;
    while i < p.len()
        invariant
            p@.len() <= cs@.len(),
            off == cs@.len() - p@.len(),
            off + p@.len() <= usize::MAX,
            i <= p@.len(),
            forall|j: int| 0 <= j < i ==> p@[j] == cs@[off + j],
        decreases p@.len() - i,
    {
        let k: usize = off + i;
        if p[i] != cs[k] {
            return false;
        }
        i = i + 1;
    }
    assert(p@ =~= cs@.subrange(off as int, cs@.len() as int));
    true
}

/// Bound on collected candidates for a result cap: `max(1, 16 * cap)`
/// (saturating), or no bound without a cap.
pub fn collection_cap(max_results: Option<usize>) -> (c: Option<usize>)
    ensures
        match max_results {
            None => c is None,
            Some(n) => c == Some(if n * COLLECTION_SLACK > usize::MAX { usize::MAX }
                else if n == 0 { 1usize } else { (n * COLLECTION_SLACK) as usize }),
        },
{
    match max_results {
        None => None,
        Some(n) => {
            let m = match n.checked_mul(COLLECTION_SLACK) {
                Some(m) => m,
                None => usize::MAX,
            };
            Some(if m < 1 { 1 } else { m })
        },
    }
}

/// Soft cap on the number of remembered marker answers.
pub const MARKER_CACHE_CAP: usize = 100_000;

/// Whether a new marker answer may be remembered when `len` are already
/// held; past the cap, lookups still use what is there.
pub fn marker_cache_accepts(len: usize) -> (r: bool)
    ensures
        r == (len < MARKER_CACHE_CAP),
{
    len < MARKER_CACHE_CAP
}

/// Whether another candidate may be recorded when `len` are already held.
pub fn accepts_candidate(len: usize, cap: Option<usize>) -> (r: bool)
    ensures
        r == match cap { None => true, Some(c) => len < c },
{
    match cap {
        None => true,
        Some(c) => len < c,
    }
}

/// `perm` lists input positions in ranked order: a permutation of the
/// positions of `items`, largest size first, equal sizes in input order.
pub open spec fn ranks_as(items: Seq<DirectoryItem>, perm: Seq<int>) -> bool {
    &&& perm.len() == items.len()
    &&& perm.no_duplicates()
    &&& forall|k: int| 0 <= k < perm.len() ==> 0 <= #[trigger] perm[k] < items.len()
    &&& forall|a: int, b: int| 0 <= a < b < perm.len() ==> {
        let x = items[#[trigger] perm[a]].size_bytes;
        let y = items[#[trigger] perm[b]].size_bytes;
        x > y || (x == y && perm[a] < perm[b])
    }
}

/// Number of results kept for a cap.
pub open spec fn kept_count(n: int, max_results: Option<usize>) -> int {
    match max_results {
        Some(limit) => if limit < n { limit as int } else { n },
        None => n,
    }
}

/// Order sized matches largest first (equal sizes keep their discovery
/// order) and keep at most `max_results` of them.
pub fn rank_results(items: Vec<DirectoryItem>, max_results: Option<usize>) -> (out: Vec<DirectoryItem>)
    ensures
        exists|perm: Seq<int>| {
            &&& ranks_as(items@, perm)
            &&& out@.len() == kept_count(items@.len() as int, max_results)
            &&& forall|k: int| 0 <= k < out@.len() ==> #[trigger] out@[k] == items@[perm[k]]
        },
{
    let mut out: Vec<DirectoryItem> = Vec::new();
    let ghost mut perm: Seq<int> = Seq::empty();
    let mut i: usize = 0;
    while i < items.len()
        invariant
            i <= items@.len(),
            out@.len() == i,
            perm.len() == i,
            perm.no_duplicates(),
            forall|k: int| 0 <= k < perm.len() ==> 0 <= #[trigger] perm[k] < i,
            forall|k: int| 0 <= k < out@.len() ==> #[trigger] out@[k] == items@[perm[k]],
            forall|a: int, b: int| 0 <= a < b < perm.len() ==> {
                let x = items@[#[trigger] perm[a]].size_bytes;
                let y = items@[#[trigger] perm[b]].size_bytes;
                x > y || (x == y && perm[a] < perm[b])
            },
        decreases items@.len() - i,
    {
        let x = items[i].duplicate();
        let size = x.size_bytes;
        let mut p: usize = 0;
        while p < out.len() && out[p].size_bytes >= size
            invariant
                p <= out@.len(),
                forall|q: int| 0 <= q < p ==> (#[trigger] out@[q]).size_bytes >= size,
            decreases out@.len() - p,
        {
            p = p + 1;
        }
        let ghost old_out = out@;
        let ghost old_perm = perm;
        proof {
            if p < old_out.len() {
                assert forall|q: int| p <= q < old_out.len() implies (#[trigger] old_out[q]).size_bytes < size by {
                    if q > p {
                        assert(old_out[p as int] == items@[old_perm[p as int]]);
                        assert(old_out[q] == items@[old_perm[q]]);
                    }
                }
            }
        }
        out.insert(p, x);
        proof {
            perm = old_perm.insert(p as int, i as int);
            assert forall|k: int| 0 <= k < out@.len() implies #[trigger] out@[k] == items@[perm[k]] by {
                if k < p {
                    assert(out@[k] == old_out[k]);
                } else if k > p {
                    assert(out@[k] == old_out[k - 1]);
                }
            }
            assert forall|a: int, b: int| 0 <= a < b < perm.len() implies {
                let x = items@[#[trigger] perm[a]].size_bytes;
                let y = items@[#[trigger] perm[b]].size_bytes;
                x > y || (x == y && perm[a] < perm[b])
            } by {
                if b < p {
                } else if a < p && b == p {
                    assert(out@[a] == old_out[a]);
                    assert(old_out[a] == items@[old_perm[a]]);
                } else if a < p && b > p {
                    assert(perm[b] == old_perm[b - 1]);
                } else if a == p {
                    assert(perm[b] == old_perm[b - 1]);
                    assert(old_out[b - 1] == items@[old_perm[b - 1]]);
                } else {
                    assert(perm[a] == old_perm[a - 1] && perm[b] == old_perm[b - 1]);
                }
            }
            assert forall|a: int, b: int| 0 <= a < b < perm.len() implies perm[a] != perm[b] by {
                if a < p && b < p {
                    assert(perm[a] == old_perm[a] && perm[b] == old_perm[b]);
                } else if a < p && b == p {
                    assert(perm[a] == old_perm[a]);
                } else if a < p && b > p {
                    assert(perm[a] == old_perm[a] && perm[b] == old_perm[b - 1]);
                } else if a == p {
                    assert(perm[b] == old_perm[b - 1]);
                } else {
                    assert(perm[a] == old_perm[a - 1] && perm[b] == old_perm[b - 1]);
                }
            }
            assert forall|k: int| 0 <= k < perm.len() implies 0 <= #[trigger] perm[k] < i + 1 by {
                if k < p {
                    assert(perm[k] == old_perm[k]);
                } else if k > p {
                    assert(perm[k] == old_perm[k - 1]);
                }
            }
        }
        i = i + 1;
    }
    let ghost full = out@;
    assert(ranks_as(items@, perm));
    match max_results {
        Some(limit) => out.truncate(limit),
        None => {},
    }
    assert forall|k: int| 0 <= k < out@.len() implies #[trigger] out@[k] == items@[perm[k]] by {
        assert(out@[k] == full[k]);
    }
    out
}

/// What the filesystem reports about a path just before it is deleted.
#[derive(Debug, Clone, Copy)]
pub struct PathFacts {
    /// The path resolves to something (following symlinks).
    pub exists: bool,
    /// The path itself is a symbolic link.
    pub is_symlink: bool,
    /// The path itself is a directory.
    pub is_dir: bool,
}

/// Why a path fails the first stage of re-validation, if it does: the
/// message kind (`true` for a scan error, `false` for a path error) and text.
pub open spec fn path_check_failure(
    facts: PathFacts,
    display: Seq<char>,
    file_name: Option<Seq<char>>,
    has_parent: bool,
    expected: Seq<char>,
) -> Option<(bool, Seq<char>)> {
    if !facts.exists {
        Some((true, "Path no longer exists: "@ + display))
    } else if facts.is_symlink {
        Some((true, "Refusing symlink path: "@ + display))
    } else if !facts.is_dir {
        Some((true, "Path is no longer a directory: "@ + display))
    } else if file_name is None {
        Some((false, "Path has no directory name: "@ + display))
    } else if !has_parent {
        Some((false, "Path has no parent: "@ + display))
    } else if forall|i: int| 0 <= i < rules_spec().len() ==> rules_spec()[i].name@ != expected {
        Some((true, "Unknown artifact rule: "@ + expected))
    } else {
        None
    }
}

/// The view of an error as (is a scan error, message), for the two kinds
/// that re-validation produces.
pub open spec fn error_view(e: ArtifactError) -> Option<(bool, Seq<char>)> {
    match e {
        ArtifactError::Scan(m) => Some((true, m@)),
        ArtifactError::Path(m) => Some((false, m@)),
        _ => None,
    }
}

/// First stage of re-validating an artifact before deletion: from the
/// filesystem facts about the path, its display text, its final component
/// (when valid UTF-8), whether it has a parent, and the rule it was found
/// under, either the rule whose markers must be re-checked or the refusal.
pub fn check_artifact_path(
    facts: PathFacts,
    display: &str,
    file_name: Option<&str>,
    has_parent: bool,
    expected_rule_name: &str,
) -> (r: Result<ArtifactRule, ArtifactError>)
    ensures
        match r {
            Ok(rule) => {
                &&& path_check_failure(facts, display@, match file_name { Some(n) => Some(n@), None => None }, has_parent, expected_rule_name@) is None
                &&& exists|i: int| is_first_named(expected_rule_name@, i) && rule == rules_spec()[i]
                &&& facts.exists && !facts.is_symlink && facts.is_dir && has_parent
                &&& file_name is Some && rule.dir_name@ == file_name.unwrap()@
            },
            Err(e) => {
                let f = path_check_failure(facts, display@, match file_name { Some(n) => Some(n@), None => None }, has_parent, expected_rule_name@);
                ||| (f is Some && error_view(e) == f)
                ||| (f is None && exists|i: int| is_first_named(expected_rule_name@, i)
                        && file_name is Some && rules_spec()[i].dir_name@ != file_name.unwrap()@
                        && error_view(e) == Some((true, "Directory name no longer matches rule "@ + expected_rule_name@ + ": "@ + display@)))
            },
        },
{
    if !facts.exists {
        return Err(ArtifactError::Scan(join2("Path no longer exists: ", display)));
    }
    if facts.is_symlink {
        return Err(ArtifactError::Scan(join2("Refusing symlink path: ", display)));
    }
    if !facts.is_dir {
        return Err(ArtifactError::Scan(join2("Path is no longer a directory: ", display)));
    }
    let name = match file_name {
        Some(n) => n,
        None => return Err(ArtifactError::Path(join2("Path has no directory name: ", display))),
    };
    if !has_parent {
        return Err(ArtifactError::Path(join2("Path has no parent: ", display)));
    }
    let rule = match find(expected_rule_name) {
        Some(rule) => rule,
        None => return Err(ArtifactError::Scan(join2("Unknown artifact rule: ", expected_rule_name))),
    };
    if !str_eq(rule.dir_name, name) {
        return Err(ArtifactError::Scan(join4("Directory name no longer matches rule ", expected_rule_name, ": ", display)));
    }
    Ok(rule)
}

/// Second stage of re-validation: the rule must still match given the
/// current marker answers, with the orphan status seen at scan time.
pub fn check_artifact_match(
    rule: ArtifactRule,
    marker_present: &Vec<bool>,
    expected_orphaned: bool,
    expected_rule_name: &str,
    display: &str,
) -> (r: Result<(), ArtifactError>)
    requires
        marker_present@.len() == rule.markers@.len(),
    ensures
        match rule_match_spec(rule, any_true(marker_present@)) {
            None => r is Err && error_view(r->Err_0)
                == Some((true, "Path no longer satisfies rule "@ + expected_rule_name@ + ": "@ + display@)),
            Some((_, orphaned)) => if orphaned == expected_orphaned {
                r is Ok
            } else {
                r is Err && error_view(r->Err_0) == Some((true, "Path orphan status changed before delete: "@ + display@))
            },
        },
        rule.markers@.len() == 0 || any_true(marker_present@) ==> (r is Ok <==> !expected_orphaned),
        rule.markers@.len() > 0 && !any_true(marker_present@) ==>
            (r is Ok <==> (rule.allow_orphan_without_marker && expected_orphaned)),
{
    match match_rule(rule, marker_present) {
        None => Err(ArtifactError::Scan(join4("Path no longer satisfies rule ", expected_rule_name, ": ", display))),
        Some(m) => {
            if m.is_orphaned != expected_orphaned {
                Err(ArtifactError::Scan(join2("Path orphan status changed before delete: ", display)))
            } else {
                Ok(())
            }
        },
    }
}

} // verus!
