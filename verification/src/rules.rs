//! Static registry of build-artifact detection rules.
//!
//! Each rule says "if you see a directory named `dir_name` whose parent holds
//! at least one of `markers`, treat it as a build artifact of `language`".

use vstd::prelude::*;
use crate::text::str_eq;

verus! {

/// Suggested badge color in the UI.
#[derive(Debug, Clone, Copy, PartialEq, Eq, Structural)]
pub enum ColorHint {
    Green,
    Orange,
    Blue,
    Yellow,
    Purple,
    Red,
}

/// Confidence that a matched directory is disposable generated output.
#[derive(Debug, Clone, Copy, PartialEq, Eq, Structural)]
pub enum RuleConfidence {
    High,
    Medium,
    Low,
}

/// One detection rule.
#[derive(Debug, Clone, Copy)]
pub struct ArtifactRule {
    /// Stable identifier, also the database key for this kind.
    pub name: &'static str,
    /// Human-readable label shown in the UI ("Node", "Rust", ...).
    pub language: &'static str,
    /// Directory basename to match (exact, case-sensitive).
    pub dir_name: &'static str,
    /// At least one of these must exist in the parent directory; empty means
    /// unconditional. A marker starting with `.` is a file extension.
    pub markers: &'static [&'static str],
    /// Suggested badge color in the UI.
    pub color_hint: ColorHint,
    /// Confidence that a matched directory is disposable generated output.
    pub confidence: RuleConfidence,
    /// Whether a marker-requiring rule may still match, as orphaned, when no
    /// marker is present.
    pub allow_orphan_without_marker: bool,
}

/// The built-in rules, in UI display order.
pub open spec fn rules_spec() -> Seq<ArtifactRule> {
    seq![
        ArtifactRule {
            name: "node_modules",
            language: "Node",
            dir_name: "node_modules",
            markers: &["package.json"],
            color_hint: ColorHint::Green,
            confidence: RuleConfidence::High,
            allow_orphan_without_marker: true,
        },
        ArtifactRule {
            name: "rust_target",
            language: "Rust",
            dir_name: "target",
            markers: &["Cargo.toml"],
            color_hint: ColorHint::Orange,
            confidence: RuleConfidence::High,
            allow_orphan_without_marker: false,
        },
        ArtifactRule {
            name: "python_venv",
            language: "Python",
            dir_name: ".venv",
            markers: &["pyproject.toml", "requirements.txt", "setup.py"],
            color_hint: ColorHint::Blue,
            confidence: RuleConfidence::Medium,
            allow_orphan_without_marker: false,
        },
        ArtifactRule {
            name: "python_venv_alt",
            language: "Python",
            dir_name: "venv",
            markers: &["pyproject.toml", "requirements.txt", "setup.py"],
            color_hint: ColorHint::Blue,
            confidence: RuleConfidence::Medium,
            allow_orphan_without_marker: false,
        },
        ArtifactRule {
            name: "pycache",
            language: "Python",
            dir_name: "__pycache__",
            markers: &[],
            color_hint: ColorHint::Blue,
            confidence: RuleConfidence::Medium,
            allow_orphan_without_marker: false,
        },
        ArtifactRule {
            name: "next_cache",
            language: "Next.js",
            dir_name: ".next",
            markers: &["package.json"],
            color_hint: ColorHint::Purple,
            confidence: RuleConfidence::High,
            allow_orphan_without_marker: false,
        },
        ArtifactRule {
            name: "nuxt_cache",
            language: "Nuxt",
            dir_name: ".nuxt",
            markers: &["package.json"],
            color_hint: ColorHint::Purple,
            confidence: RuleConfidence::High,
            allow_orphan_without_marker: false,
        },
        ArtifactRule {
            name: "parcel_cache",
            language: "Parcel",
            dir_name: ".parcel-cache",
            markers: &["package.json"],
            color_hint: ColorHint::Purple,
            confidence: RuleConfidence::High,
            allow_orphan_without_marker: false,
        },
        ArtifactRule {
            name: "gradle_cache",
            language: "Gradle",
            dir_name: ".gradle",
            markers: &["build.gradle", "build.gradle.kts", "settings.gradle"],
            color_hint: ColorHint::Yellow,
            confidence: RuleConfidence::High,
            allow_orphan_without_marker: false,
        },
        ArtifactRule {
            name: "dotnet_bin",
            language: ".NET",
            dir_name: "bin",
            markers: &[".csproj", ".sln", ".fsproj"],
            color_hint: ColorHint::Purple,
            confidence: RuleConfidence::Medium,
            allow_orphan_without_marker: false,
        },
        ArtifactRule {
            name: "dotnet_obj",
            language: ".NET",
            dir_name: "obj",
            markers: &[".csproj", ".sln", ".fsproj"],
            color_hint: ColorHint::Purple,
            confidence: RuleConfidence::Medium,
            allow_orphan_without_marker: false,
        },
        ArtifactRule {
            name: "elixir_build",
            language: "Elixir",
            dir_name: "_build",
            markers: &["mix.exs"],
            color_hint: ColorHint::Purple,
            confidence: RuleConfidence::High,
            allow_orphan_without_marker: false,
        },
        ArtifactRule {
            name: "elixir_deps",
            language: "Elixir",
            dir_name: "deps",
            markers: &["mix.exs"],
            color_hint: ColorHint::Purple,
            confidence: RuleConfidence::High,
            allow_orphan_without_marker: false,
        },
        ArtifactRule {
            name: "composer_vendor",
            language: "PHP",
            dir_name: "vendor",
            markers: &["composer.json"],
            color_hint: ColorHint::Yellow,
            confidence: RuleConfidence::High,
            allow_orphan_without_marker: false,
        },
        ArtifactRule {
            name: "xcode_derived",
            language: "Xcode",
            dir_name: "DerivedData",
            markers: &[],
            color_hint: ColorHint::Red,
            confidence: RuleConfidence::Low,
            allow_orphan_without_marker: false,
        },
        ArtifactRule {
            name: "terraform_cache",
            language: "Terraform",
            dir_name: ".terraform",
            markers: &[".tf"],
            color_hint: ColorHint::Yellow,
            confidence: RuleConfidence::High,
            allow_orphan_without_marker: false,
        },
    ]
}

/// Number of built-in rules.
pub const RULE_COUNT: usize = 16;

/// All built-in detection rules. Order is the UI display order.
pub fn all_rules() -> (v: Vec<ArtifactRule>)
    ensures
        v@ == rules_spec(),
{
    let v = vec![
        ArtifactRule {
            name: "node_modules",
            language: "Node",
            dir_name: "node_modules",
            markers: &["package.json"],
            color_hint: ColorHint::Green,
            confidence: RuleConfidence::High,
            allow_orphan_without_marker: true,
        },
        ArtifactRule {
            name: "rust_target",
            language: "Rust",
            dir_name: "target",
            markers: &["Cargo.toml"],
            color_hint: ColorHint::Orange,
            confidence: RuleConfidence::High,
            allow_orphan_without_marker: false,
        },
        ArtifactRule {
            name: "python_venv",
            language: "Python",
            dir_name: ".venv",
            markers: &["pyproject.toml", "requirements.txt", "setup.py"],
            color_hint: ColorHint::Blue,
            confidence: RuleConfidence::Medium,
            allow_orphan_without_marker: false,
        },
        ArtifactRule {
            name: "python_venv_alt",
            language: "Python",
            dir_name: "venv",
            markers: &["pyproject.toml", "requirements.txt", "setup.py"],
            color_hint: ColorHint::Blue,
            confidence: RuleConfidence::Medium,
            allow_orphan_without_marker: false,
        },
        ArtifactRule {
            name: "pycache",
            language: "Python",
            dir_name: "__pycache__",
            markers: &[],
            color_hint: ColorHint::Blue,
            confidence: RuleConfidence::Medium,
            allow_orphan_without_marker: false,
        },
        ArtifactRule {
            name: "next_cache",
            language: "Next.js",
            dir_name: ".next",
            markers: &["package.json"],
            color_hint: ColorHint::Purple,
            confidence: RuleConfidence::High,
            allow_orphan_without_marker: false,
        },
        ArtifactRule {
            name: "nuxt_cache",
            language: "Nuxt",
            dir_name: ".nuxt",
            markers: &["package.json"],
            color_hint: ColorHint::Purple,
            confidence: RuleConfidence::High,
            allow_orphan_without_marker: false,
        },
        ArtifactRule {
            name: "parcel_cache",
            language: "Parcel",
            dir_name: ".parcel-cache",
            markers: &["package.json"],
            color_hint: ColorHint::Purple,
            confidence: RuleConfidence::High,
            allow_orphan_without_marker: false,
        },
        ArtifactRule {
            name: "gradle_cache",
            language: "Gradle",
            dir_name: ".gradle",
            markers: &["build.gradle", "build.gradle.kts", "settings.gradle"],
            color_hint: ColorHint::Yellow,
            confidence: RuleConfidence::High,
            allow_orphan_without_marker: false,
        },
        ArtifactRule {
            name: "dotnet_bin",
            language: ".NET",
            dir_name: "bin",
            markers: &[".csproj", ".sln", ".fsproj"],
            color_hint: ColorHint::Purple,
            confidence: RuleConfidence::Medium,
            allow_orphan_without_marker: false,
        },
        ArtifactRule {
            name: "dotnet_obj",
            language: ".NET",
            dir_name: "obj",
            markers: &[".csproj", ".sln", ".fsproj"],
            color_hint: ColorHint::Purple,
            confidence: RuleConfidence::Medium,
            allow_orphan_without_marker: false,
        },
        ArtifactRule {
            name: "elixir_build",
            language: "Elixir",
            dir_name: "_build",
            markers: &["mix.exs"],
            color_hint: ColorHint::Purple,
            confidence: RuleConfidence::High,
            allow_orphan_without_marker: false,
        },
        ArtifactRule {
            name: "elixir_deps",
            language: "Elixir",
            dir_name: "deps",
            markers: &["mix.exs"],
            color_hint: ColorHint::Purple,
            confidence: RuleConfidence::High,
            allow_orphan_without_marker: false,
        },
        ArtifactRule {
            name: "composer_vendor",
            language: "PHP",
            dir_name: "vendor",
            markers: &["composer.json"],
            color_hint: ColorHint::Yellow,
            confidence: RuleConfidence::High,
            allow_orphan_without_marker: false,
        },
        ArtifactRule {
            name: "xcode_derived",
            language: "Xcode",
            dir_name: "DerivedData",
            markers: &[],
            color_hint: ColorHint::Red,
            confidence: RuleConfidence::Low,
            allow_orphan_without_marker: false,
        },
        ArtifactRule {
            name: "terraform_cache",
            language: "Terraform",
            dir_name: ".terraform",
            markers: &[".tf"],
            color_hint: ColorHint::Yellow,
            confidence: RuleConfidence::High,
            allow_orphan_without_marker: false,
        },
    ];
    assert(v@ =~= rules_spec());
    v
}

/// Index of the first rule whose name is `name`.
pub open spec fn is_first_named(name: Seq<char>, i: int) -> bool {
    &&& 0 <= i < rules_spec().len()
    &&& rules_spec()[i].name@ == name
    &&& forall|j: int| 0 <= j < i ==> rules_spec()[j].name@ != name
}

/// No two built-in rules share a name.
pub proof fn lemma_rule_names_unique()
    ensures
        forall|i: int, j: int| 0 <= i < rules_spec().len() && 0 <= j < rules_spec().len() && i != j
            ==> #[trigger] rules_spec()[i].name@ != #[trigger] rules_spec()[j].name@,
{
    reveal_strlit("node_modules");
    reveal_strlit("rust_target");
    reveal_strlit("python_venv");
    reveal_strlit("python_venv_alt");
    reveal_strlit("pycache");
    reveal_strlit("next_cache");
    reveal_strlit("nuxt_cache");
    reveal_strlit("parcel_cache");
    reveal_strlit("gradle_cache");
    reveal_strlit("dotnet_bin");
    reveal_strlit("dotnet_obj");
    reveal_strlit("elixir_build");
    reveal_strlit("elixir_deps");
    reveal_strlit("composer_vendor");
    reveal_strlit("xcode_derived");
    reveal_strlit("terraform_cache");
    assert forall|i: int, j: int| 0 <= i < rules_spec().len() && 0 <= j < rules_spec().len() && i != j
        implies #[trigger] rules_spec()[i].name@ != #[trigger] rules_spec()[j].name@ by {
        let a = rules_spec()[i].name@;
        let b = rules_spec()[j].name@;
        if a == b {
            assert(a.len() == b.len());
            assert(a[0] == b[0]);
            assert(a[1] == b[1]);
            assert(a[2] == b[2]);
            assert(a[a.len() - 2] == b[b.len() - 2]);
            assert(a[a.len() - 3] == b[b.len() - 3]);
        }
    }
}

/// Every built-in rule has a non-empty name, language and directory name,
/// and only a rule with markers may match as orphaned (an orphan is an
/// artifact whose markers are missing).
pub proof fn lemma_rules_well_formed()
    ensures
        forall|i: int| #![trigger rules_spec()[i]] 0 <= i < rules_spec().len() ==> {
            &&& rules_spec()[i].name@.len() > 0
            &&& rules_spec()[i].language@.len() > 0
            &&& rules_spec()[i].dir_name@.len() > 0
            &&& (rules_spec()[i].allow_orphan_without_marker ==> rules_spec()[i].markers@.len() > 0)
        },
{
    reveal_strlit("node_modules");
    reveal_strlit("rust_target");
    reveal_strlit("target");
    reveal_strlit("python_venv");
    reveal_strlit(".venv");
    reveal_strlit("python_venv_alt");
    reveal_strlit("venv");
    reveal_strlit("pycache");
    reveal_strlit("__pycache__");
    reveal_strlit("next_cache");
    reveal_strlit(".next");
    reveal_strlit("nuxt_cache");
    reveal_strlit(".nuxt");
    reveal_strlit("parcel_cache");
    reveal_strlit(".parcel-cache");
    reveal_strlit("gradle_cache");
    reveal_strlit(".gradle");
    reveal_strlit("dotnet_bin");
    reveal_strlit("bin");
    reveal_strlit("dotnet_obj");
    reveal_strlit("obj");
    reveal_strlit("elixir_build");
    reveal_strlit("_build");
    reveal_strlit("elixir_deps");
    reveal_strlit("deps");
    reveal_strlit("composer_vendor");
    reveal_strlit("vendor");
    reveal_strlit("xcode_derived");
    reveal_strlit("DerivedData");
    reveal_strlit("terraform_cache");
    reveal_strlit(".terraform");
    reveal_strlit("Node");
    reveal_strlit("Rust");
    reveal_strlit("Python");
    reveal_strlit("Next.js");
    reveal_strlit("Nuxt");
    reveal_strlit("Parcel");
    reveal_strlit("Gradle");
    reveal_strlit(".NET");
    reveal_strlit("Elixir");
    reveal_strlit("PHP");
    reveal_strlit("Xcode");
    reveal_strlit("Terraform");
    assert forall|i: int| #![trigger rules_spec()[i]] 0 <= i < rules_spec().len() implies {
        &&& rules_spec()[i].name@.len() > 0
        &&& rules_spec()[i].language@.len() > 0
        &&& rules_spec()[i].dir_name@.len() > 0
        &&& (rules_spec()[i].allow_orphan_without_marker ==> rules_spec()[i].markers@.len() > 0)
    } by {
        if i == 0 {
            assert(rules_spec()[0].markers@.len() == 1);
        }
    }
}

/// The built-in rules, field by field, in display order: what each
/// detects (directory name), where (markers beside it; one starting with `.`
/// is a file extension), how it is labelled and shown, and whether it may
/// match as an orphan.
pub proof fn lemma_rule_table()
    ensures
        rules_spec().len() == 16,
        rules_spec()[0].name@ == "node_modules"@,
        rules_spec()[0].language@ == "Node"@,
        rules_spec()[0].dir_name@ == "node_modules"@,
        rules_spec()[0].markers@.len() == 1,
        rules_spec()[0].markers@[0]@ == "package.json"@,
        rules_spec()[0].color_hint == ColorHint::Green,
        rules_spec()[0].confidence == RuleConfidence::High,
        rules_spec()[0].allow_orphan_without_marker == true,
        rules_spec()[1].name@ == "rust_target"@,
        rules_spec()[1].language@ == "Rust"@,
        rules_spec()[1].dir_name@ == "target"@,
        rules_spec()[1].markers@.len() == 1,
        rules_spec()[1].markers@[0]@ == "Cargo.toml"@,
        rules_spec()[1].color_hint == ColorHint::Orange,
        rules_spec()[1].confidence == RuleConfidence::High,
        rules_spec()[1].allow_orphan_without_marker == false,
        rules_spec()[2].name@ == "python_venv"@,
        rules_spec()[2].language@ == "Python"@,
        rules_spec()[2].dir_name@ == ".venv"@,
        rules_spec()[2].markers@.len() == 3,
        rules_spec()[2].markers@[0]@ == "pyproject.toml"@,
        rules_spec()[2].markers@[1]@ == "requirements.txt"@,
        rules_spec()[2].markers@[2]@ == "setup.py"@,
        rules_spec()[2].color_hint == ColorHint::Blue,
        rules_spec()[2].confidence == RuleConfidence::Medium,
        rules_spec()[2].allow_orphan_without_marker == false,
        rules_spec()[3].name@ == "python_venv_alt"@,
        rules_spec()[3].language@ == "Python"@,
        rules_spec()[3].dir_name@ == "venv"@,
        rules_spec()[3].markers@.len() == 3,
        rules_spec()[3].markers@[0]@ == "pyproject.toml"@,
        rules_spec()[3].markers@[1]@ == "requirements.txt"@,
        rules_spec()[3].markers@[2]@ == "setup.py"@,
        rules_spec()[3].color_hint == ColorHint::Blue,
        rules_spec()[3].confidence == RuleConfidence::Medium,
        rules_spec()[3].allow_orphan_without_marker == false,
        rules_spec()[4].name@ == "pycache"@,
        rules_spec()[4].language@ == "Python"@,
        rules_spec()[4].dir_name@ == "__pycache__"@,
        rules_spec()[4].markers@.len() == 0,
        rules_spec()[4].color_hint == ColorHint::Blue,
        rules_spec()[4].confidence == RuleConfidence::Medium,
        rules_spec()[4].allow_orphan_without_marker == false,
        rules_spec()[5].name@ == "next_cache"@,
        rules_spec()[5].language@ == "Next.js"@,
        rules_spec()[5].dir_name@ == ".next"@,
        rules_spec()[5].markers@.len() == 1,
        rules_spec()[5].markers@[0]@ == "package.json"@,
        rules_spec()[5].color_hint == ColorHint::Purple,
        rules_spec()[5].confidence == RuleConfidence::High,
        rules_spec()[5].allow_orphan_without_marker == false,
        rules_spec()[6].name@ == "nuxt_cache"@,
        rules_spec()[6].language@ == "Nuxt"@,
        rules_spec()[6].dir_name@ == ".nuxt"@,
        rules_spec()[6].markers@.len() == 1,
        rules_spec()[6].markers@[0]@ == "package.json"@,
        rules_spec()[6].color_hint == ColorHint::Purple,
        rules_spec()[6].confidence == RuleConfidence::High,
        rules_spec()[6].allow_orphan_without_marker == false,
        rules_spec()[7].name@ == "parcel_cache"@,
        rules_spec()[7].language@ == "Parcel"@,
        rules_spec()[7].dir_name@ == ".parcel-cache"@,
        rules_spec()[7].markers@.len() == 1,
        rules_spec()[7].markers@[0]@ == "package.json"@,
        rules_spec()[7].color_hint == ColorHint::Purple,
        rules_spec()[7].confidence == RuleConfidence::High,
        rules_spec()[7].allow_orphan_without_marker == false,
        rules_spec()[8].name@ == "gradle_cache"@,
        rules_spec()[8].language@ == "Gradle"@,
        rules_spec()[8].dir_name@ == ".gradle"@,
        rules_spec()[8].markers@.len() == 3,
        rules_spec()[8].markers@[0]@ == "build.gradle"@,
        rules_spec()[8].markers@[1]@ == "build.gradle.kts"@,
        rules_spec()[8].markers@[2]@ == "settings.gradle"@,
        rules_spec()[8].color_hint == ColorHint::Yellow,
        rules_spec()[8].confidence == RuleConfidence::High,
        rules_spec()[8].allow_orphan_without_marker == false,
        rules_spec()[9].name@ == "dotnet_bin"@,
        rules_spec()[9].language@ == ".NET"@,
        rules_spec()[9].dir_name@ == "bin"@,
        rules_spec()[9].markers@.len() == 3,
        rules_spec()[9].markers@[0]@ == ".csproj"@,
        rules_spec()[9].markers@[1]@ == ".sln"@,
        rules_spec()[9].markers@[2]@ == ".fsproj"@,
        rules_spec()[9].color_hint == ColorHint::Purple,
        rules_spec()[9].confidence == RuleConfidence::Medium,
        rules_spec()[9].allow_orphan_without_marker == false,
        rules_spec()[10].name@ == "dotnet_obj"@,
        rules_spec()[10].language@ == ".NET"@,
        rules_spec()[10].dir_name@ == "obj"@,
        rules_spec()[10].markers@.len() == 3,
        rules_spec()[10].markers@[0]@ == ".csproj"@,
        rules_spec()[10].markers@[1]@ == ".sln"@,
        rules_spec()[10].markers@[2]@ == ".fsproj"@,
        rules_spec()[10].color_hint == ColorHint::Purple,
        rules_spec()[10].confidence == RuleConfidence::Medium,
        rules_spec()[10].allow_orphan_without_marker == false,
        rules_spec()[11].name@ == "elixir_build"@,
        rules_spec()[11].language@ == "Elixir"@,
        rules_spec()[11].dir_name@ == "_build"@,
        rules_spec()[11].markers@.len() == 1,
        rules_spec()[11].markers@[0]@ == "mix.exs"@,
        rules_spec()[11].color_hint == ColorHint::Purple,
        rules_spec()[11].confidence == RuleConfidence::High,
        rules_spec()[11].allow_orphan_without_marker == false,
        rules_spec()[12].name@ == "elixir_deps"@,
        rules_spec()[12].language@ == "Elixir"@,
        rules_spec()[12].dir_name@ == "deps"@,
        rules_spec()[12].markers@.len() == 1,
        rules_spec()[12].markers@[0]@ == "mix.exs"@,
        rules_spec()[12].color_hint == ColorHint::Purple,
        rules_spec()[12].confidence == RuleConfidence::High,
        rules_spec()[12].allow_orphan_without_marker == false,
        rules_spec()[13].name@ == "composer_vendor"@,
        rules_spec()[13].language@ == "PHP"@,
        rules_spec()[13].dir_name@ == "vendor"@,
        rules_spec()[13].markers@.len() == 1,
        rules_spec()[13].markers@[0]@ == "composer.json"@,
        rules_spec()[13].color_hint == ColorHint::Yellow,
        rules_spec()[13].confidence == RuleConfidence::High,
        rules_spec()[13].allow_orphan_without_marker == false,
        rules_spec()[14].name@ == "xcode_derived"@,
        rules_spec()[14].language@ == "Xcode"@,
        rules_spec()[14].dir_name@ == "DerivedData"@,
        rules_spec()[14].markers@.len() == 0,
        rules_spec()[14].color_hint == ColorHint::Red,
        rules_spec()[14].confidence == RuleConfidence::Low,
        rules_spec()[14].allow_orphan_without_marker == false,
        rules_spec()[15].name@ == "terraform_cache"@,
        rules_spec()[15].language@ == "Terraform"@,
        rules_spec()[15].dir_name@ == ".terraform"@,
        rules_spec()[15].markers@.len() == 1,
        rules_spec()[15].markers@[0]@ == ".tf"@,
        rules_spec()[15].color_hint == ColorHint::Yellow,
        rules_spec()[15].confidence == RuleConfidence::High,
        rules_spec()[15].allow_orphan_without_marker == false,
{
}

/// Look up a rule by its stable name.
pub fn find(name: &str) -> (r: Option<ArtifactRule>)
    ensures
        match r {
            Some(rule) => exists|i: int| is_first_named(name@, i) && rule == rules_spec()[i],
            None => forall|i: int| 0 <= i < rules_spec().len() ==> rules_spec()[i].name@ != name@,
        },
{
    let rules = all_rules();
    let mut i: usize = 0;
    while i < rules.len()
        invariant
            rules@ == rules_spec(),
            i <= rules@.len(),
            forall|j: int| 0 <= j < i ==> rules_spec()[j].name@ != name@,
        decreases rules@.len() - i,
    {
        if str_eq(rules[i].name, name) {
            assert(is_first_named(name@, i as int));
            return Some(rules[i]);
        }
        i = i + 1;
    }
    None
}

/// Rule `i` names the directory `dir_name`, and whether it matched was
/// decided as `matched` (always a match when it has no markers, else what the
/// marker check answered).
pub open spec fn marker_answer<F: Fn(&'static [&'static str]) -> bool>(check: F, i: int, matched: bool) -> bool {
    if rules_spec()[i].markers@.len() == 0 {
        matched
    } else {
        call_ensures(check, (rules_spec()[i].markers,), matched)
    }
}

/// Match a directory basename against the rules. Returns the first rule with
/// that directory name whose markers are empty or for which `marker_check`
/// (given the rule's markers) answers `true`.
pub fn match_dir<F>(dir_name: &str, marker_check: F) -> (r: Option<ArtifactRule>)
    where
        F: Fn(&'static [&'static str]) -> bool,
    requires
        forall|m: &'static [&'static str]| call_requires(marker_check, (m,)),
    ensures
        match r {
            Some(rule) => exists|i: int| {
                &&& 0 <= i < rules_spec().len()
                &&& rule == rules_spec()[i]
                &&& rules_spec()[i].dir_name@ == dir_name@
                &&& marker_answer(marker_check, i, true)
                &&& forall|j: int| 0 <= j < i && rules_spec()[j].dir_name@ == dir_name@
                        ==> marker_answer(marker_check, j, false)
            },
            None => forall|j: int| 0 <= j < rules_spec().len() && rules_spec()[j].dir_name@ == dir_name@
                        ==> marker_answer(marker_check, j, false),
        },
{
    let rules = all_rules();
    let mut i: usize = 0;
    while i < rules.len()
        invariant
            rules@ == rules_spec(),
            i <= rules@.len(),
            forall|m: &'static [&'static str]| call_requires(marker_check, (m,)),
            forall|j: int| 0 <= j < i && rules_spec()[j].dir_name@ == dir_name@
                ==> marker_answer(marker_check, j, false),
        decreases rules@.len() - i,
    {
        let rule = rules[i];
        if str_eq(rule.dir_name, dir_name) {
            if rule.markers.len() == 0 {
                return Some(rule);
            }
            if marker_check(rule.markers) {
                return Some(rule);
            }
        }
        i = i + 1;
    }
    None
}

} // verus!
