//! Directory item types representing detected build artifacts.

use vstd::prelude::*;
use vstd::std_specs::cmp::PartialEqSpecImpl;
use crate::rules::{ArtifactRule, find, rules_spec, is_first_named, lemma_rule_names_unique};
use crate::text::{str_eq, chars_of, string_of};

verus! {

/// The detected kind of a build artifact directory: the rule that matched.
#[derive(Debug, Clone, Copy)]
pub struct DirectoryType {
    pub rule: ArtifactRule,
}

impl DirectoryType {
    pub fn new(rule: ArtifactRule) -> (t: Self)
        ensures
            t.rule == rule,
    {
        DirectoryType { rule }
    }

    /// Resolve a stable rule name (as stored in the database) back into a kind.
    /// `None` if no built-in rule has that name.
    pub fn from_name(name: &str) -> (t: Option<Self>)
        ensures
            match t {
                Some(t) => exists|i: int| is_first_named(name@, i) && t.rule == rules_spec()[i],
                None => forall|i: int| 0 <= i < rules_spec().len() ==> rules_spec()[i].name@ != name@,
            },
    {
        match find(name) {
            Some(rule) => Some(DirectoryType::new(rule)),
            None => None,
        }
    }

    /// Stable identifier, used as the database key for this kind.
    pub fn name(&self) -> (n: &'static str)
        ensures
            n == self.rule.name,
    {
        self.rule.name
    }

    /// The text shown for this kind: the rule's directory name.
    pub fn display_text(&self) -> (s: String)
        ensures
            s@ == self.rule.dir_name@,
    {
        string_of(&chars_of(self.rule.dir_name))
    }
}

impl PartialEq for DirectoryType {
    fn eq(&self, other: &Self) -> (r: bool) {
        str_eq(self.rule.name, other.rule.name)
    }
}

impl PartialEqSpecImpl for DirectoryType {
    open spec fn obeys_eq_spec() -> bool {
        true
    }

    open spec fn eq_spec(&self, other: &Self) -> bool {
        self.rule.name@ == other.rule.name@
    }
}

/// Resolving the name of a built-in kind gives that kind back: for every rule
/// of the table, the first rule carrying its name is itself.
pub proof fn lemma_from_name_of_name(i: int)
    requires
        0 <= i < rules_spec().len(),
    ensures
        is_first_named(rules_spec()[i].name@, i),
{
    lemma_rule_names_unique();
    assert forall|j: int| 0 <= j < i implies rules_spec()[j].name@ != rules_spec()[i].name@ by {
        assert(rules_spec()[j].name@ != rules_spec()[i].name@);
    }
}

/// Nanoseconds in one day.
pub const NANOS_PER_DAY: i128 = 86_400_000_000_000;

/// Whole days from `modified` to `now` (both in nanoseconds relative to the
/// UNIX epoch): `0` when `modified` lies in the future, saturating at
/// `i64::MAX`.
pub open spec fn days_elapsed(now: int, modified: int) -> int {
    if now < modified {
        0
    } else if (now - modified) / (NANOS_PER_DAY as int) > i64::MAX {
        i64::MAX as int
    } else {
        (now - modified) / (NANOS_PER_DAY as int)
    }
}

/// Whole days between `modified` and `now`, clamped to `0` for a future
/// `modified` and saturating at `i64::MAX`.
pub fn days_between(now: i128, modified: i128) -> (d: i64)
    ensures
        d == days_elapsed(now as int, modified as int),
{
    if now < modified {
        return 0;
    }
    match now.checked_sub(modified) {
        Some(elapsed) => {
            let days = elapsed / NANOS_PER_DAY;
            if days > i64::MAX as i128 {
                i64::MAX
            } else {
                days as i64
            }
        },
        None => {
            assert((now - modified) / (NANOS_PER_DAY as int) > i64::MAX) by (nonlinear_arith)
                requires
                    now - modified > i128::MAX,
                    NANOS_PER_DAY == 86_400_000_000_000i128,
            ;
            i64::MAX
        },
    }
}

/// The current time in nanoseconds relative to the UNIX epoch (saturating at
/// the bounds of `i128`).
pub fn now_nanos() -> (t: i128)
    ensures
        exists|reading: Result<u128, u128>| t == crate::clock::nanos_of_reading(reading),
{
    let reading = crate::clock::clock_since_epoch();
    crate::clock::nanos_from_reading(reading)
}

/// A detected artifact directory.
#[derive(Debug)]
pub struct DirectoryItem {
    pub path: String,
    pub dir_type: DirectoryType,
    pub size_bytes: u64,
    /// Last modification time, in nanoseconds relative to the UNIX epoch.
    pub last_modified: Option<i128>,
    pub project_root: Option<String>,
    pub project_name: Option<String>,
    pub is_orphaned: bool,
    pub selected: bool,
}

impl DirectoryItem {
    /// A new, unselected item.
    pub fn new(
        path: String,
        dir_type: DirectoryType,
        size_bytes: u64,
        last_modified: Option<i128>,
        project_root: Option<String>,
        project_name: Option<String>,
        is_orphaned: bool,
    ) -> (item: Self)
        ensures
            item.path == path,
            item.dir_type == dir_type,
            item.size_bytes == size_bytes,
            item.last_modified == last_modified,
            item.project_root == project_root,
            item.project_name == project_name,
            item.is_orphaned == is_orphaned,
            !item.selected,
    {
        DirectoryItem {
            path,
            dir_type,
            size_bytes,
            last_modified,
            project_root,
            project_name,
            is_orphaned,
            selected: false,
        }
    }

    /// A copy of this item.
    pub fn duplicate(&self) -> (r: Self)
        ensures
            r == *self,
    {
        DirectoryItem {
            path: self.path.clone(),
            dir_type: self.dir_type,
            size_bytes: self.size_bytes,
            last_modified: self.last_modified,
            project_root: match &self.project_root { Some(p) => Some(p.clone()), None => None },
            project_name: match &self.project_name { Some(p) => Some(p.clone()), None => None },
            is_orphaned: self.is_orphaned,
            selected: self.selected,
        }
    }

    /// Whole days between `last_modified` and now: `None` when the
    /// modification time is unknown; `0` for a modification time in the
    /// future; saturating at `i64::MAX`.
    pub fn days_since_modified(&self) -> (d: Option<i64>)
        ensures
            d is None <==> self.last_modified is None,
            d matches Some(days) ==> 0 <= days,
            d matches Some(days) ==> exists|now: i128|
                days == days_elapsed(now as int, self.last_modified.unwrap() as int),
    {
        match self.last_modified {
            None => None,
            Some(m) => {
                let now = now_nanos();
                Some(days_between(now, m))
            },
        }
    }
}

} // verus!
