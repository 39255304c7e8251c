//! The rules of a directory scan: which files each language reads, which
//! directories are skipped, how a Python package and the Rust crates of a
//! workspace are named by their manifests, and how many entities an
//! analysis accepts.
use vstd::prelude::*;

use crate::text::{
    chars_of, contains, contains_char, eq, lines, lines_exec, replace, replace_exec, split, split_exec,
    starts_with, starts_with_exec, string_of, trim, trim_exec, trim_matches_char, trim_matches_char_exec,
};

verus! {

broadcast use vstd::string::group_string_axioms;

/// The entity limit of the community edition.
pub const COMMUNITY_ENTITY_LIMIT: usize = 500;

/// The entity limit in research mode.
pub const RESEARCH_ENTITY_LIMIT: usize = 50_000;

/// A one-character pattern.
fn single(c: char) -> (r: Vec<char>)
    ensures
        r@ == seq![c],
{
    let mut v: Vec<char> = Vec::new();
    v.push(c);
    assert(v@ =~= seq![c]);
    v
}

/// Whether a string is one of two names.
fn is_either(s: &str, a: &str, b: &str) -> (r: bool)
    ensures
        r == (s@ == a@ || s@ == b@),
{
    let x = chars_of(s);
    eq(&x, &chars_of(a)) || eq(&x, &chars_of(b))
}

/// The file extensions read for a language.
pub open spec fn extensions_of(language: Seq<char>) -> Seq<Seq<char>> {
    if language == "typescript"@ || language == "ts"@ {
        seq!["ts"@, "tsx"@]
    } else if language == "javascript"@ || language == "js"@ {
        seq!["js"@, "jsx"@]
    } else if language == "rust"@ || language == "rs"@ {
        seq!["rs"@]
    } else if language == "python"@ || language == "py"@ {
        seq!["py"@]
    } else {
        seq!["ts"@, "js"@, "rs"@, "py"@]
    }
}

/// The file extensions read for a language: TypeScript, JavaScript, Rust or
/// Python by name or short name, and all four otherwise.
pub fn source_extensions(language: &str) -> (r: Vec<&'static str>)
    ensures
        r@.map_values(|s: &'static str| s@) == extensions_of(language@),
{
    let mut out: Vec<&'static str> = Vec::new();
    if is_either(language, "typescript", "ts") {
        out.push("ts");
        out.push("tsx");
    } else if is_either(language, "javascript", "js") {
        out.push("js");
        out.push("jsx");
    } else if is_either(language, "rust", "rs") {
        out.push("rs");
    } else if is_either(language, "python", "py") {
        out.push("py");
    } else {
        out.push("ts");
        out.push("js");
        out.push("rs");
        out.push("py");
    }
    assert(out@.map_values(|s: &'static str| s@) =~= extensions_of(language@));
    out
}

/// Whether the language is Rust (by name or short name).
pub fn is_rust_language(language: &str) -> (r: bool)
    ensures
        r == (language@ == "rust"@ || language@ == "rs"@),
{
    is_either(language, "rust", "rs")
}

/// Whether the language is Python (by name or short name).
pub fn is_python_language(language: &str) -> (r: bool)
    ensures
        r == (language@ == "python"@ || language@ == "py"@),
{
    is_either(language, "python", "py")
}

/// A directory the source walk skips: hidden, or one of the usual
/// dependency and build directories.
pub open spec fn walk_skips(name: Seq<char>) -> bool {
    ||| starts_with(name, "."@)
    ||| name == "node_modules"@
    ||| name == "target"@
    ||| name == "dist"@
    ||| name == "build"@
    ||| name == "__pycache__"@
}

/// Whether the source walk skips a directory.
pub fn skips_in_walk(name: &str) -> (r: bool)
    ensures
        r == walk_skips(name@),
{
    let n = chars_of(name);
    starts_with_exec(&n, &chars_of(".")) || is_either(name, "node_modules", "target") || is_either(
        name,
        "dist",
        "build",
    ) || eq(&n, &chars_of("__pycache__"))
}

/// A directory the search for crate manifests skips.
pub open spec fn crate_scan_skips(name: Seq<char>) -> bool {
    starts_with(name, "."@) || name == "target"@ || name == "node_modules"@
}

/// Whether the search for crate manifests skips a directory.
pub fn skips_in_crate_scan(name: &str) -> (r: bool)
    ensures
        r == crate_scan_skips(name@),
{
    starts_with_exec(&chars_of(name), &chars_of(".")) || is_either(name, "target", "node_modules")
}

/// A top-level directory that may be a Python package: neither hidden,
/// private nor a test directory.
pub open spec fn package_dir_candidate(name: Seq<char>) -> bool {
    !starts_with(name, "."@) && !starts_with(name, "_"@) && name != "tests"@ && name != "test"@
}

/// Whether a top-level directory may be a Python package.
pub fn is_package_dir_candidate(name: &str) -> (r: bool)
    ensures
        r == package_dir_candidate(name@),
{
    let n = chars_of(name);
    !starts_with_exec(&n, &chars_of(".")) && !starts_with_exec(&n, &chars_of("_")) && !is_either(
        name,
        "tests",
        "test",
    )
}

/// The value after the first `=` of a line: the second piece of the line
/// split at `=`, trimmed.
pub open spec fn value_after_eq(line: Seq<char>) -> Option<Seq<char>> {
    let parts = split(line, seq!['=']);
    if parts.len() >= 2 {
        Some(trim(parts[1]))
    } else {
        None
    }
}

/// The package name a `pyproject.toml` line declares: a trimmed line that
/// starts with `name` and holds `=`, its value without surrounding double
/// and then single quotes, if that is not empty.
pub open spec fn pyproject_name(line: Seq<char>) -> Option<Seq<char>> {
    let t = trim(line);
    if starts_with(t, "name"@) && contains(t, seq!['=']) {
        match value_after_eq(t) {
            Some(v) => {
                let n = trim_matches_char(trim_matches_char(v, '"'), '\'');
                if n.len() > 0 {
                    Some(n)
                } else {
                    None
                }
            },
            None => None,
        }
    } else {
        None
    }
}

/// The value after the first `=` of a line.
fn value_after_eq_exec(line: &Vec<char>) -> (r: Option<Vec<char>>)
    ensures
        match r {
            Some(v) => value_after_eq(line@) == Some(v@),
            None => value_after_eq(line@) is None,
        },
{
    let parts = split_exec(line, &single('='));
    if parts.len() >= 2 {
        assert(crate::text::vviews(parts@)[1] == parts@[1]@);
        Some(trim_exec(&parts[1]))
    } else {
        None
    }
}

/// The package name a `pyproject.toml` line declares, if it declares one.
pub fn pyproject_name_of_line(line: &str) -> (r: Option<String>)
    ensures
        match r {
            Some(n) => pyproject_name(line@) == Some(n@),
            None => pyproject_name(line@) is None,
        },
{
    let t = trim_exec(&chars_of(line));
    if starts_with_exec(&t, &chars_of("name")) && contains_char(&t, '=') {
        match value_after_eq_exec(&t) {
            Some(v) => {
                let n = trim_matches_char_exec(&trim_matches_char_exec(&v, '"'), '\'');
                if n.len() > 0 {
                    Some(string_of(&n))
                } else {
                    None
                }
            },
            None => None,
        }
    } else {
        None
    }
}

/// A name with `-` turned into `_`, as Python packages and Rust crates are
/// imported.
pub open spec fn underscored(name: Seq<char>) -> Seq<char> {
    replace(name, seq!['-'], seq!['_'])
}

/// A name with `-` turned into `_`.
pub fn underscored_name(name: &str) -> (r: String)
    ensures
        r@ == underscored(name@),
{
    string_of(&replace_exec(&chars_of(name), &single('-'), &single('_')))
}

/// The first of the lines from `k` on that starts with `p`.
pub open spec fn first_starting_with(ls: Seq<Seq<char>>, p: Seq<char>, k: int) -> Option<Seq<char>>
    decreases ls.len() - k,
{
    if k < 0 || k >= ls.len() {
        None
    } else if starts_with(ls[k], p) {
        Some(ls[k])
    } else {
        first_starting_with(ls, p, k + 1)
    }
}

/// The crate name a `Cargo.toml` declares: on its first line that starts
/// with `name`, the value after `=`, trimmed and without surrounding double
/// quotes, if that is not empty.
pub open spec fn manifest_crate_name(content: Seq<char>) -> Option<Seq<char>> {
    match first_starting_with(lines(content), "name"@, 0) {
        None => None,
        Some(l) => match value_after_eq(l) {
            Some(v) => {
                let n = trim_matches_char(v, '"');
                if n.len() > 0 {
                    Some(n)
                } else {
                    None
                }
            },
            None => None,
        },
    }
}

/// The crate name a `Cargo.toml` declares, if it declares one.
pub fn crate_name_of_manifest(content: &str) -> (r: Option<String>)
    ensures
        match r {
            Some(n) => manifest_crate_name(content@) == Some(n@),
            None => manifest_crate_name(content@) is None,
        },
{
    let ls = lines_exec(&chars_of(content));
    let ghost lv = crate::text::vviews(ls@);
    let name = chars_of("name");
    let mut k: usize = 0;
    while k < ls.len()
        invariant
            k <= ls.len(),
            lv == crate::text::vviews(ls@),
            lv == lines(content@),
            name@ == "name"@,
            first_starting_with(lv, "name"@, 0) == first_starting_with(lv, "name"@, k as int),
        decreases ls.len() - k,
    {
        assert(lv[k as int] == ls@[k as int]@);
        if starts_with_exec(&ls[k], &name) {
            return match value_after_eq_exec(&ls[k]) {
                Some(v) => {
                    let n = trim_matches_char_exec(&v, '"');
                    if n.len() > 0 {
                        Some(string_of(&n))
                    } else {
                        None
                    }
                },
                None => None,
            };
        }
        k += 1;
    }
    None
}

/// Whether a graph of `entity_count` entities is within the limit: that of
/// the community edition, or that of research mode.
pub fn within_entity_limit(entity_count: usize, no_limit: bool) -> (r: bool)
    ensures
        r == (entity_count <= if no_limit {
            RESEARCH_ENTITY_LIMIT
        } else {
            COMMUNITY_ENTITY_LIMIT
        }),
{
    let limit = if no_limit {
        RESEARCH_ENTITY_LIMIT
    } else {
        COMMUNITY_ENTITY_LIMIT
    };
    entity_count <= limit
}

} // verus!
