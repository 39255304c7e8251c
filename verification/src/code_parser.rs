//! Code parser — extracts entities and relationships from source code.
//!
//! Extracts functions, classes, structs, routes and import relationships with
//! line-oriented pattern matching, for TypeScript, JavaScript, Rust and Python.
//! Each file gets a `Module` entity; functions, structs and routes depend on
//! their module; imports link the importing module to the imported symbol.
use vstd::prelude::*;
use std::collections::HashMap;

use crate::text::{
    find_from, ident_run_from, is_ident_char, is_ws, lemma_find_char_at, lemma_find_from_bounds, lemma_find_from_some,
    matches_at, ws_back_from, ws_run_from,
    after_last_char, after_last_char_exec, before_first, before_first_exec, chars_of,
    chars_of_string, concat, contains, contains_char, contains_exec, copy, ends_with, eq,
    extend, find, find_char, find_exec, ident_prefix, ident_prefix_exec, is_whitespace,
    join, join_exec, lemma_lines_len, lines, lines_exec, push_str, replace, replace_exec,
    rfind, rfind_exec, split, indent_bytes, indent_bytes_exec, lemma_lines_elem_len, split_exec, starts_with, starts_with_exec, string_of,
    strip_prefix, strip_prefix_exec, subvec, text_fits, trim, trim_end_matches,
    trim_end_matches_exec, trim_exec, trim_start, trim_start_exec, trim_start_matches,
    trim_start_matches_exec, views, vviews,
};

verus! {

broadcast use vstd::string::group_string_axioms;

// ─── Shared helpers ────────────────────────────────────────────────

/// The `k`-th piece of `s` split at `p` (`s.split(p).nth(k)`).
pub open spec fn nth_piece(s: Seq<char>, p: Seq<char>, k: int) -> Option<Seq<char>> {
    let parts = split(s, p);
    if 0 <= k < parts.len() {
        Some(parts[k])
    } else {
        None
    }
}

/// `s.split(p).nth(k)` in executable form.
fn nth_piece_exec(s: &Vec<char>, p: &Vec<char>, k: usize) -> (r: Option<Vec<char>>)
    requires
        p.len() > 0,
    ensures
        r matches Some(x) ==> nth_piece(s@, p@, k as int) == Some(x@),
        r is None ==> nth_piece(s@, p@, k as int) is None,
{
    let parts = split_exec(s, p);
    if k < parts.len() {
        Some(copy(&parts[k]))
    } else {
        None
    }
}

/// One entry of an import list: `"A as B"` gives `A`, trimmed.
pub open spec fn import_item(s: Seq<char>) -> Seq<char> {
    trim(before_first(trim(s), " as "@))
}

/// Whether an import-list entry is kept: not empty, and not `*` where stars are skipped.
pub open spec fn keep_item(item: Seq<char>, skip_star: bool) -> bool {
    item.len() > 0 && !(skip_star && item == "*"@)
}

/// The kept entries of the first `n` pieces of an import list.
pub open spec fn import_items(parts: Seq<Seq<char>>, n: int, skip_star: bool) -> Seq<Seq<char>>
    decreases n,
{
    if n <= 0 || n > parts.len() {
        seq![]
    } else {
        let item = import_item(parts[n - 1]);
        import_items(parts, n - 1, skip_star) + if keep_item(item, skip_star) {
            seq![item]
        } else {
            seq![]
        }
    }
}

/// `list.split(',').map(|s| s.trim().split(" as ").next().trim()).filter(keep)`.
pub open spec fn import_list(list: Seq<char>, skip_star: bool) -> Seq<Seq<char>> {
    let parts = split(list, ","@);
    import_items(parts, parts.len() as int, skip_star)
}

/// Computes `import_list`.
fn import_list_exec(list: &Vec<char>, skip_star: bool) -> (r: Vec<String>)
    ensures
        views(r@) == import_list(list@, skip_star),
{
    let comma = chars_of(",");
    let as_kw = chars_of(" as ");
    let star = chars_of("*");
    proof {
        reveal_strlit(",");
    }
    let parts = split_exec(list, &comma);
    let mut out: Vec<String> = Vec::new();
    let mut i: usize = 0;
    while i < parts.len()
        invariant
            i <= parts.len(),
            comma@ == ","@,
            as_kw@ == " as "@,
            star@ == "*"@,
            vviews(parts@) == split(list@, ","@),
            views(out@) == import_items(vviews(parts@), i as int, skip_star),
        decreases parts.len() - i,
    {
        let t = trim_exec(&parts[i]);
        let b = before_first_exec(&t, &as_kw);
        let item = trim_exec(&b);
        assert(item@ == import_item(vviews(parts@)[i as int]));
        let keep = item.len() > 0 && !(skip_star && eq(&item, &star));
        let ghost before = views(out@);
        if keep {
            out.push(string_of(&item));
            assert(views(out@) =~= before.push(item@));
        }
        assert(views(out@) =~= import_items(vviews(parts@), i + 1, skip_star));
        i += 1;
    }
    out
}

/// The text after the opening quote of a quoted argument: `'` if there is one, else `"`.
pub open spec fn quoted_second(after: Seq<char>) -> Option<Seq<char>> {
    let q = if contains(after, "'"@) { "'"@ } else { "\""@ };
    let parts = split(after, q);
    if parts.len() >= 2 {
        Some(parts[1])
    } else {
        None
    }
}

/// Computes `quoted_second`.
fn quoted_second_exec(after: &Vec<char>) -> (r: Option<Vec<char>>)
    ensures
        r matches Some(x) ==> quoted_second(after@) == Some(x@),
        r is None ==> quoted_second(after@) is None,
{
    let single = chars_of("'");
    let double = chars_of("\"");
    proof {
        reveal_strlit("'");
        reveal_strlit("\"");
    }
    let q = if contains_exec(after, &single) {
        single
    } else {
        double
    };
    let parts = split_exec(after, &q);
    if parts.len() >= 2 {
        Some(copy(&parts[1]))
    } else {
        None
    }
}

// ─── TypeScript / JavaScript ───────────────────────────────────────

/// The name after a `function ` (or `async function `) keyword, if one follows.
pub open spec fn ts_keyword_name(line: Seq<char>, pat: Seq<char>) -> Option<Seq<char>> {
    match find(line, pat) {
        Some(pos) => {
            let name = ident_prefix(line.subrange(pos + pat.len(), line.len() as int));
            if name.len() > 0 {
                Some(name)
            } else {
                None
            }
        },
        None => None,
    }
}

/// The name bound by `const name = (...` or `const name = ... =>`.
pub open spec fn ts_const_name(line: Seq<char>) -> Option<Seq<char>> {
    if starts_with(line, "const "@) || starts_with(line, "export const "@) {
        let rest = match strip_prefix(line, "export const "@) {
            Some(r) => r,
            None => match strip_prefix(line, "const "@) {
                Some(r) => r,
                None => line,
            },
        };
        match find(rest, "="@) {
            Some(eq) => {
                let name = ident_prefix(trim(rest.subrange(0, eq)));
                let after_eq = rest.subrange(eq, rest.len() as int);
                if name.len() > 0 && (contains(after_eq, "("@) || contains(after_eq, "=>"@)) {
                    Some(name)
                } else {
                    None
                }
            },
            None => None,
        }
    } else {
        None
    }
}

/// An identifier as a binding names it: a non-empty run of identifier
/// characters, none of them whitespace or `=`.
pub open spec fn ts_identifier(name: Seq<char>) -> bool {
    &&& name.len() > 0
    &&& forall|i: int| 0 <= i < name.len() ==> is_ident_char(#[trigger] name[i]) && !is_ws(name[i]) && name[i] != '='
}

/// An identifier is its own identifier prefix.
proof fn lemma_ident_run(name: Seq<char>, i: int)
    requires
        0 <= i <= name.len(),
        forall|k: int| 0 <= k < name.len() ==> is_ident_char(#[trigger] name[k]),
    ensures
        ident_run_from(name, i) == name.len(),
    decreases name.len() - i,
{
    if i < name.len() {
        lemma_ident_run(name, i + 1);
    }
}

/// Where the pattern occurs in `t`, it occurs in `h + t`, so a search finds it.
proof fn lemma_contains_after(h: Seq<char>, t: Seq<char>, p: Seq<char>)
    requires
        contains(t, p),
    ensures
        contains(h + t, p),
{
    let j = find(t, p).unwrap();
    lemma_find_from_bounds(t, p, 0);
    assert((h + t).subrange(j + h.len(), j + h.len() + p.len()) =~= t.subrange(j, j + p.len()));
    lemma_find_from_some(h + t, p, 0, j + h.len());
}

/// A TypeScript line `const <name> = <tail>` (or `export const ...`), where
/// the value is a call or an arrow function (the tail holds `(` or `=>`),
/// declares a function named `<name>`: the function extractor reports it.
/// (A line holding `function ` declares by that keyword instead.)
pub proof fn const_binding_declares_a_function(exported: bool, name: Seq<char>, tail: Seq<char>)
    requires
        ts_identifier(name),
        contains(tail, "("@) || contains(tail, "=>"@),
        !contains(
            (if exported {
                "export const "@
            } else {
                "const "@
            }) + name + " = "@ + tail,
            "function "@,
        ),
    ensures
        ts_function_name_spec(
            (if exported {
                "export const "@
            } else {
                "const "@
            }) + name + " = "@ + tail,
        ) == Some(name),
{
    reveal_strlit("export const ");
    reveal_strlit("const ");
    reveal_strlit(" = ");
    reveal_strlit("=");
    reveal_strlit("function ");
    reveal_strlit("async function ");
    let pre = if exported {
        "export const "@
    } else {
        "const "@
    };
    let line = pre + name + " = "@ + tail;
    let rest = name + " = "@ + tail;
    assert(line =~= pre + rest);
    // No `async function ` either, as it would hold `function `.
    if let Some(pos) = find(line, "async function "@) {
        lemma_find_from_bounds(line, "async function "@, 0);
        assert(line.subrange(pos + 6, pos + 15) =~= "function "@) by {
            assert forall|k: int| 0 <= k < 9 implies line.subrange(pos + 6, pos + 15)[k] == "function "@[k] by {
                assert(line.subrange(pos, pos + 15)[k + 6] == "async function "@[k + 6]);
            }
        }
        lemma_find_from_some(line, "function "@, 0, pos + 6);
    }
    assert(ts_keyword_name(line, "function "@) is None);
    assert(ts_keyword_name(line, "async function "@) is None);
    // The binding's prefix is stripped.
    if exported {
        assert(line.subrange(0, 13) =~= "export const "@);
        assert(strip_prefix(line, "export const "@) == Some(rest)) by {
            assert(line.subrange(13, line.len() as int) =~= rest);
        }
    } else {
        assert(line.subrange(0, 6) =~= "const "@);
        assert(!starts_with(line, "export const "@)) by {
            if starts_with(line, "export const "@) {
                assert(line.subrange(0, 13)[0] == 'e');
            }
        }
        assert(strip_prefix(line, "const "@) == Some(rest)) by {
            assert(line.subrange(6, line.len() as int) =~= rest);
        }
    }
    // The first `=` follows the name and a space.
    let eq: int = name.len() as int + 1;
    assert(rest[name.len() as int] == ' ');
    assert(rest[eq] == '=');
    assert forall|k: int| 0 <= k < eq implies rest[k] != '=' by {
        if k < name.len() {
            assert(rest[k] == name[k]);
        }
    }
    assert("="@ =~= seq!['=']);
    lemma_find_char_at(rest, '=', 0, eq);
    assert(find(rest, "="@) == Some(eq));
    // Trimmed, the text before it is the name.
    let before = rest.subrange(0, eq);
    assert(before =~= name.push(' '));
    assert(ws_run_from(before, 0) == 0);
    assert(trim_start(before) =~= before);
    assert(ws_back_from(before, name.len() as int) == name.len());
    assert(ws_back_from(before, before.len() as int) == name.len());
    assert(trim(before) =~= name);
    lemma_ident_run(name, 0);
    assert(ident_prefix(name) =~= name);
    // After it comes a call or an arrow.
    let after_eq = rest.subrange(eq, rest.len() as int);
    assert(after_eq =~= seq!['=', ' '] + tail);
    if contains(tail, "("@) {
        lemma_contains_after(seq!['=', ' '], tail, "("@);
    } else {
        lemma_contains_after(seq!['=', ' '], tail, "=>"@);
    }
}

/// The function a TypeScript line declares, if any.
pub open spec fn ts_function_name_spec(line: Seq<char>) -> Option<Seq<char>> {
    match ts_keyword_name(line, "function "@) {
        Some(n) => Some(n),
        None => match ts_keyword_name(line, "async function "@) {
            Some(n) => Some(n),
            None => ts_const_name(line),
        },
    }
}

/// Computes `ts_keyword_name`.
fn ts_keyword_name_exec(line: &Vec<char>, pat: &Vec<char>) -> (r: Option<Vec<char>>)
    ensures
        r matches Some(x) ==> ts_keyword_name(line@, pat@) == Some(x@),
        r is None ==> ts_keyword_name(line@, pat@) is None,
{
    match find_exec(line, pat) {
        Some(pos) => {
            let after = subvec(line, pos + pat.len(), line.len());
            let name = ident_prefix_exec(&after);
            if name.len() > 0 {
                Some(name)
            } else {
                None
            }
        },
        None => None,
    }
}

/// Computes `ts_const_name`.
fn ts_const_name_exec(line: &Vec<char>) -> (r: Option<Vec<char>>)
    ensures
        r matches Some(x) ==> ts_const_name(line@) == Some(x@),
        r is None ==> ts_const_name(line@) is None,
{
    let k_const = chars_of("const ");
    let k_export = chars_of("export const ");
    if !(starts_with_exec(line, &k_const) || starts_with_exec(line, &k_export)) {
        return None;
    }
    let rest = match strip_prefix_exec(line, &k_export) {
        Some(r) => r,
        None => match strip_prefix_exec(line, &k_const) {
            Some(r) => r,
            None => copy(line),
        },
    };
    let eq_sign = chars_of("=");
    match find_exec(&rest, &eq_sign) {
        Some(eq) => {
            let head = subvec(&rest, 0, eq);
            let head_t = trim_exec(&head);
            let name = ident_prefix_exec(&head_t);
            let after_eq = subvec(&rest, eq, rest.len());
            let paren = chars_of("(");
            let arrow = chars_of("=>");
            if name.len() > 0 && (contains_exec(&after_eq, &paren) || contains_exec(
                &after_eq,
                &arrow,
            )) {
                Some(name)
            } else {
                None
            }
        },
        None => None,
    }
}

/// The name of the function a TypeScript line declares: after `function ` or
/// `async function `, or bound by `const`/`export const` to an arrow or call.
pub fn ts_function_name(line: &str) -> (r: Option<String>)
    ensures
        r matches Some(n) ==> ts_function_name_spec(line@) == Some(n@),
        r is None ==> ts_function_name_spec(line@) is None,
{
    let l = chars_of(line);
    match ts_function_name_chars(&l) {
        Some(n) => Some(string_of(&n)),
        None => None,
    }
}

/// `ts_function_name` on characters.
fn ts_function_name_chars(line: &Vec<char>) -> (r: Option<Vec<char>>)
    ensures
        r matches Some(n) ==> ts_function_name_spec(line@) == Some(n@),
        r is None ==> ts_function_name_spec(line@) is None,
{
    let k_fn = chars_of("function ");
    let k_async = chars_of("async function ");
    match ts_keyword_name_exec(line, &k_fn) {
        Some(n) => Some(n),
        None => match ts_keyword_name_exec(line, &k_async) {
            Some(n) => Some(n),
            None => ts_const_name_exec(line),
        },
    }
}

/// A function found in source: name, async, first line, assumed last line.
pub open spec fn fn_entry_views(v: Seq<(String, bool, usize, usize)>) -> Seq<
    (Seq<char>, bool, usize, usize),
> {
    v.map_values(|t: (String, bool, usize, usize)| (t.0@, t.1, t.2, t.3))
}

/// The functions declared in the first `n` lines of TypeScript source.
pub open spec fn ts_functions(ls: Seq<Seq<char>>, n: int) -> Seq<(Seq<char>, bool, usize, usize)>
    decreases n,
{
    if n <= 0 || n > ls.len() {
        seq![]
    } else {
        let t = trim(ls[n - 1]);
        ts_functions(ls, n - 1) + match ts_function_name_spec(t) {
            Some(name) => seq![(name, contains(t, "async"@), n as usize, (n + 19) as usize)],
            None => seq![],
        }
    }
}

/// Functions declared in TypeScript source: `(name, is_async, line, line + 19)`
/// for each line (numbered from 1) whose trimmed text declares one; a line is
/// async when it contains `async`.
pub fn extract_functions_ts(source: &str) -> (r: Vec<(String, bool, usize, usize)>)
    requires
        text_fits(source@),
    ensures
        fn_entry_views(r@) == ts_functions(lines(source@), lines(source@).len() as int),
{
    let src = chars_of(source);
    let ls = lines_exec(&src);
    proof {
        lemma_lines_len(src@);
    }
    let k_async = chars_of("async");
    let mut out: Vec<(String, bool, usize, usize)> = Vec::new();
    let mut i: usize = 0;
    while i < ls.len()
        invariant
            i <= ls.len(),
            ls.len() <= source@.len(),
            text_fits(source@),
            k_async@ == "async"@,
            vviews(ls@) == lines(source@),
            fn_entry_views(out@) == ts_functions(vviews(ls@), i as int),
        decreases ls.len() - i,
    {
        let t = trim_exec(&ls[i]);
        let is_async = contains_exec(&t, &k_async);
        let ghost before = fn_entry_views(out@);
        match ts_function_name_chars(&t) {
            Some(name) => {
                out.push((string_of(&name), is_async, i + 1, i + 20));
                assert(fn_entry_views(out@) =~= before.push(
                    (name@, is_async, (i + 1) as usize, (i + 20) as usize),
                ));
            },
            None => {},
        }
        assert(fn_entry_views(out@) =~= ts_functions(vviews(ls@), i + 1));
        i += 1;
    }
    out
}

/// The class a TypeScript line declares, if any.
pub open spec fn ts_class_name(t: Seq<char>) -> Option<Seq<char>> {
    if contains(t, "class "@) && contains(t, "{"@) {
        match nth_piece(t, "class "@, 1) {
            Some(after) => {
                let name = ident_prefix(after);
                if name.len() > 0 {
                    Some(name)
                } else {
                    None
                }
            },
            None => None,
        }
    } else {
        None
    }
}

/// A named item found at a line: name and line number.
pub open spec fn named_line_views(v: Seq<(String, usize)>) -> Seq<(Seq<char>, usize)> {
    v.map_values(|t: (String, usize)| (t.0@, t.1))
}

/// The classes declared in the first `n` lines of TypeScript source.
pub open spec fn ts_classes(ls: Seq<Seq<char>>, n: int) -> Seq<(Seq<char>, usize)>
    decreases n,
{
    if n <= 0 || n > ls.len() {
        seq![]
    } else {
        ts_classes(ls, n - 1) + match ts_class_name(trim(ls[n - 1])) {
            Some(name) => seq![(name, n as usize)],
            None => seq![],
        }
    }
}

/// Classes declared in TypeScript source: for each line whose trimmed text
/// contains `class ` and `{`, the identifier after the first `class `.
pub fn extract_classes_ts(source: &str) -> (r: Vec<(String, usize)>)
    requires
        text_fits(source@),
    ensures
        named_line_views(r@) == ts_classes(lines(source@), lines(source@).len() as int),
{
    let src = chars_of(source);
    let ls = lines_exec(&src);
    proof {
        lemma_lines_len(src@);
        reveal_strlit("class ");
    }
    let k_class = chars_of("class ");
    let brace = chars_of("{");
    let mut out: Vec<(String, usize)> = Vec::new();
    let mut i: usize = 0;
    while i < ls.len()
        invariant
            i <= ls.len(),
            ls.len() <= source@.len(),
            text_fits(source@),
            k_class@ == "class "@,
            k_class@.len() > 0,
            brace@ == "{"@,
            vviews(ls@) == lines(source@),
            named_line_views(out@) == ts_classes(vviews(ls@), i as int),
        decreases ls.len() - i,
    {
        let t = trim_exec(&ls[i]);
        let ghost before = named_line_views(out@);
        if contains_exec(&t, &k_class) && contains_exec(&t, &brace) {
            match nth_piece_exec(&t, &k_class, 1) {
                Some(after) => {
                    let name = ident_prefix_exec(&after);
                    if name.len() > 0 {
                        out.push((string_of(&name), i + 1));
                        assert(named_line_views(out@) =~= before.push((name@, (i + 1) as usize)));
                    }
                },
                None => {},
            }
        }
        assert(named_line_views(out@) =~= ts_classes(vviews(ls@), i + 1));
        i += 1;
    }
    out
}

/// The quoted route of a route registration line: the second quote-delimited
/// piece of the text after the first `(`.
pub open spec fn ts_route_path_spec(line: Seq<char>) -> Option<Seq<char>> {
    match nth_piece(line, "("@, 1) {
        Some(after) => quoted_second(after),
        None => None,
    }
}

/// The quoted route of a route registration line such as `app.get('/users', h)`.
pub fn ts_route_path(line: &str) -> (r: Option<String>)
    ensures
        r matches Some(p) ==> ts_route_path_spec(line@) == Some(p@),
        r is None ==> ts_route_path_spec(line@) is None,
{
    let l = chars_of(line);
    match ts_route_path_chars(&l) {
        Some(p) => Some(string_of(&p)),
        None => None,
    }
}

/// `ts_route_path` on characters.
fn ts_route_path_chars(line: &Vec<char>) -> (r: Option<Vec<char>>)
    ensures
        r matches Some(p) ==> ts_route_path_spec(line@) == Some(p@),
        r is None ==> ts_route_path_spec(line@) is None,
{
    let paren = chars_of("(");
    proof {
        reveal_strlit("(");
    }
    match nth_piece_exec(line, &paren, 1) {
        Some(after) => quoted_second_exec(&after),
        None => None,
    }
}

/// The HTTP methods recognised in route registrations, lower case.
pub open spec fn route_method(k: int) -> Seq<char> {
    if k == 0 { "get"@ }
    else if k == 1 { "post"@ }
    else if k == 2 { "put"@ }
    else if k == 3 { "delete"@ }
    else { "patch"@ }
}

/// The same methods, upper case.
pub open spec fn route_method_upper(k: int) -> Seq<char> {
    if k == 0 { "GET"@ }
    else if k == 1 { "POST"@ }
    else if k == 2 { "PUT"@ }
    else if k == 3 { "DELETE"@ }
    else { "PATCH"@ }
}

/// The registration prefixes for a method: `app.<m>(` and `router.<m>(`.
pub open spec fn route_prefix(k: int, router: bool) -> Seq<char> {
    (if router { "router."@ } else { "app."@ }) + route_method(k) + "("@
}

/// A route found in source: method, path, handler, line.
pub open spec fn route_views(v: Seq<(String, String, String, usize)>) -> Seq<
    (Seq<char>, Seq<char>, Seq<char>, usize),
> {
    v.map_values(|t: (String, String, String, usize)| (t.0@, t.1@, t.2@, t.3))
}

/// The routes one prefix of one method contributes for a trimmed line.
pub open spec fn route_hit(t: Seq<char>, k: int, router: bool, line_no: usize) -> Seq<
    (Seq<char>, Seq<char>, Seq<char>, usize),
> {
    if contains(t, route_prefix(k, router)) {
        match ts_route_path_spec(t) {
            Some(route) => seq![(route_method_upper(k), route, seq![], line_no)],
            None => seq![],
        }
    } else {
        seq![]
    }
}

/// The routes the first `m` methods contribute for a trimmed line.
pub open spec fn route_hits(t: Seq<char>, m: int, line_no: usize) -> Seq<
    (Seq<char>, Seq<char>, Seq<char>, usize),
>
    decreases m,
{
    if m <= 0 {
        seq![]
    } else {
        route_hits(t, m - 1, line_no) + route_hit(t, m - 1, false, line_no) + route_hit(
            t,
            m - 1,
            true,
            line_no,
        )
    }
}

/// The routes registered in the first `n` lines of TypeScript source.
pub open spec fn ts_routes(ls: Seq<Seq<char>>, n: int) -> Seq<
    (Seq<char>, Seq<char>, Seq<char>, usize),
>
    decreases n,
{
    if n <= 0 || n > ls.len() {
        seq![]
    } else {
        ts_routes(ls, n - 1) + route_hits(trim(ls[n - 1]), 5, n as usize)
    }
}

/// The lower- and upper-case names of method `k`.
fn route_method_exec(k: usize) -> (r: (&'static str, &'static str))
    requires
        k < 5,
    ensures
        r.0@ == route_method(k as int),
        r.1@ == route_method_upper(k as int),
{
    if k == 0 {
        ("get", "GET")
    } else if k == 1 {
        ("post", "POST")
    } else if k == 2 {
        ("put", "PUT")
    } else if k == 3 {
        ("delete", "DELETE")
    } else {
        ("patch", "PATCH")
    }
}

/// Routes registered in TypeScript source: for each line, method (get, post,
/// put, delete, patch) and prefix (`app.<m>(`, `router.<m>(`) it contains, the
/// upper-case method, the quoted route, an empty handler, and the line number.
pub fn extract_routes_ts(source: &str) -> (r: Vec<(String, String, String, usize)>)
    requires
        text_fits(source@),
    ensures
        route_views(r@) == ts_routes(lines(source@), lines(source@).len() as int),
{
    let src = chars_of(source);
    let ls = lines_exec(&src);
    proof {
        lemma_lines_len(src@);
    }
    let mut out: Vec<(String, String, String, usize)> = Vec::new();
    let mut i: usize = 0;
    while i < ls.len()
        invariant
            i <= ls.len(),
            ls.len() <= source@.len(),
            text_fits(source@),
            vviews(ls@) == lines(source@),
            route_views(out@) == ts_routes(vviews(ls@), i as int),
        decreases ls.len() - i,
    {
        let t = trim_exec(&ls[i]);
        let ghost at_line = route_views(out@);
        let mut k: usize = 0;
        while k < 5
            invariant
                k <= 5,
                i < ls.len(),
                ls.len() <= source@.len(),
                text_fits(source@),
                t@ == trim(vviews(ls@)[i as int]),
                route_views(out@) == at_line + route_hits(t@, k as int, (i + 1) as usize),
            decreases 5 - k,
        {
            let (m, mu) = route_method_exec(k);
            let mut r: usize = 0;
            while r < 2
                invariant
                    r <= 2,
                    k < 5,
                    i < ls.len(),
                    ls.len() <= source@.len(),
                    text_fits(source@),
                    m@ == route_method(k as int),
                    mu@ == route_method_upper(k as int),
                    t@ == trim(vviews(ls@)[i as int]),
                    route_views(out@) == at_line + route_hits(t@, k as int, (i + 1) as usize)
                        + if r >= 1 {
                        route_hit(t@, k as int, false, (i + 1) as usize)
                    } else {
                        seq![]
                    } + if r >= 2 {
                        route_hit(t@, k as int, true, (i + 1) as usize)
                    } else {
                        seq![]
                    },
                decreases 2 - r,
            {
                let mut prefix: Vec<char> = Vec::new();
                push_str(&mut prefix, if r == 1 { "router." } else { "app." });
                push_str(&mut prefix, m);
                push_str(&mut prefix, "(");
                assert(prefix@ =~= route_prefix(k as int, r == 1));
                let ghost before = route_views(out@);
                if contains_exec(&t, &prefix) {
                    match ts_route_path_chars(&t) {
                        Some(route) => {
                            out.push((mu.to_string(), string_of(&route), String::new(), i + 1));
                            assert(route_views(out@) =~= before.push(
                                (mu@, route@, seq![], (i + 1) as usize),
                            ));
                        },
                        None => {},
                    }
                }
                assert(route_views(out@) =~= before + route_hit(
                    t@,
                    k as int,
                    r == 1,
                    (i + 1) as usize,
                ));
                r += 1;
            }
            k += 1;
        }
        assert(route_views(out@) =~= ts_routes(vviews(ls@), i + 1));
        i += 1;
    }
    out
}

/// The symbols a TypeScript import line names: the entries between the first
/// `{` and the first `}`, or else the default import after `import ` (unless it
/// is `type`).
pub open spec fn ts_import_symbols_spec(line: Seq<char>) -> Seq<Seq<char>> {
    match (find(line, "{"@), find(line, "}"@)) {
        (Some(s), Some(e)) => import_list(line.subrange(s + 1, e), false),
        _ => {
            let after = match strip_prefix(line, "import "@) {
                Some(a) => a,
                None => seq![],
            };
            let name = ident_prefix(after);
            if name.len() > 0 && name != "type"@ {
                seq![name]
            } else {
                seq![]
            }
        },
    }
}

/// The braces of an import line can be sliced: a `}` does not come before the first `{`.
pub open spec fn ts_braces_ok(line: Seq<char>) -> bool {
    match (find(line, "{"@), find(line, "}"@)) {
        (Some(s), Some(e)) => s + 1 <= e,
        _ => true,
    }
}

/// The symbols a TypeScript import line names.
pub fn ts_import_symbols(line: &str) -> (r: Vec<String>)
    requires
        ts_braces_ok(line@),
    ensures
        views(r@) == ts_import_symbols_spec(line@),
{
    let l = chars_of(line);
    ts_import_symbols_chars(&l)
}

/// `ts_import_symbols` on characters.
fn ts_import_symbols_chars(line: &Vec<char>) -> (r: Vec<String>)
    requires
        ts_braces_ok(line@),
    ensures
        views(r@) == ts_import_symbols_spec(line@),
{
    let open_b = chars_of("{");
    let close_b = chars_of("}");
    match (find_exec(line, &open_b), find_exec(line, &close_b)) {
        (Some(s), Some(e)) => {
            let inner = subvec(line, s + 1, e);
            import_list_exec(&inner, false)
        },
        _ => {
            let k_import = chars_of("import ");
            let after = match strip_prefix_exec(line, &k_import) {
                Some(a) => a,
                None => Vec::new(),
            };
            let name = ident_prefix_exec(&after);
            let k_type = chars_of("type");
            let mut out: Vec<String> = Vec::new();
            if name.len() > 0 && !eq(&name, &k_type) {
                out.push(string_of(&name));
                assert(views(out@) =~= seq![name@]);
            } else {
                assert(views(out@) =~= seq![]);
            }
            out
        },
    }
}

/// The module a TypeScript import line names: the quoted text after `from `.
pub open spec fn ts_import_path_spec(line: Seq<char>) -> Option<Seq<char>> {
    match nth_piece(line, "from "@, 1) {
        Some(after) => quoted_second(after),
        None => None,
    }
}

/// The module a TypeScript import line names.
pub fn ts_import_path(line: &str) -> (r: Option<String>)
    ensures
        r matches Some(p) ==> ts_import_path_spec(line@) == Some(p@),
        r is None ==> ts_import_path_spec(line@) is None,
{
    let l = chars_of(line);
    match ts_import_path_chars(&l) {
        Some(p) => Some(string_of(&p)),
        None => None,
    }
}

/// `ts_import_path` on characters.
fn ts_import_path_chars(line: &Vec<char>) -> (r: Option<Vec<char>>)
    ensures
        r matches Some(p) ==> ts_import_path_spec(line@) == Some(p@),
        r is None ==> ts_import_path_spec(line@) is None,
{
    let k_from = chars_of("from ");
    proof {
        reveal_strlit("from ");
    }
    match nth_piece_exec(line, &k_from, 1) {
        Some(after) => quoted_second_exec(&after),
        None => None,
    }
}

// ─── Paths ─────────────────────────────────────────────────────────

/// What `std::path::Path::parent` returns for a path, as text.
pub uninterp spec fn path_parent(p: Seq<char>) -> Option<Seq<char>>;

/// What `std::path::Path::file_name` returns for a path, as text.
pub uninterp spec fn path_file_name(p: Seq<char>) -> Option<Seq<char>>;

/// The view of an optional string.
pub open spec fn opt_text(o: Option<String>) -> Option<Seq<char>> {
    match o {
        Some(s) => Some(s@),
        None => None,
    }
}

/// `Path::new(p).parent()`, converted to an owned string.
#[verifier::external_body]
fn std_path_parent(p: &str) -> (r: Option<String>)
    ensures
        opt_text(r) == path_parent(p@),
{
    std::path::Path::new(p).parent().map(|x| x.to_string_lossy().to_string())
}

/// `Path::new(p).file_name()`, converted to an owned string.
#[verifier::external_body]
fn std_path_file_name(p: &str) -> (r: Option<String>)
    ensures
        opt_text(r) == path_file_name(p@),
{
    std::path::Path::new(p).file_name().map(|x| x.to_string_lossy().to_string())
}

/// The directory of a path: its parent, or empty where it has none.
pub open spec fn parent_dir_spec(p: Seq<char>) -> Seq<char> {
    match path_parent(p) {
        Some(d) => d,
        None => seq![],
    }
}

/// The final component of a path, or the path itself where it has none.
pub open spec fn file_name_of_spec(p: Seq<char>) -> Seq<char> {
    match path_file_name(p) {
        Some(n) => n,
        None => p,
    }
}

/// The directory of a path: its parent, or empty where it has none.
pub fn parent_dir(file_path: &str) -> (r: String)
    ensures
        r@ == parent_dir_spec(file_path@),
{
    match std_path_parent(file_path) {
        Some(d) => d,
        None => String::new(),
    }
}

/// `parent_dir` on characters.
fn parent_dir_chars(p: &Vec<char>) -> (r: Vec<char>)
    ensures
        r@ == parent_dir_spec(p@),
{
    let s = string_of(p);
    let d = parent_dir(s.as_str());
    chars_of_string(&d)
}

/// The final component of a path, or the path itself where it has none.
pub fn file_name_of(file_path: &str) -> (r: String)
    ensures
        r@ == file_name_of_spec(file_path@),
{
    match std_path_file_name(file_path) {
        Some(n) => n,
        None => file_path.to_string(),
    }
}

/// One step of path normalisation: empty and `.` components vanish, `..` drops
/// the last kept component, any other component is kept.
pub open spec fn norm_step(acc: Seq<Seq<char>>, comp: Seq<char>) -> Seq<Seq<char>> {
    if comp.len() == 0 || comp == "."@ {
        acc
    } else if comp == ".."@ {
        if acc.len() > 0 {
            acc.drop_last()
        } else {
            acc
        }
    } else {
        acc.push(comp)
    }
}

/// The kept components after the first `n` of `comps`.
pub open spec fn norm_components(comps: Seq<Seq<char>>, n: int) -> Seq<Seq<char>>
    decreases n,
{
    if n <= 0 || n > comps.len() {
        seq![]
    } else {
        norm_step(norm_components(comps, n - 1), comps[n - 1])
    }
}

/// `dir` joined with `raw` as `PathBuf::join` does (an empty `dir` counts as `.`).
pub open spec fn joined_path(dir: Seq<char>, raw: Seq<char>) -> Seq<char> {
    let base = if dir.len() == 0 { "."@ } else { dir };
    if starts_with(raw, "/"@) {
        raw
    } else if ends_with(base, "/"@) {
        base + raw
    } else {
        base + "/"@ + raw
    }
}

/// The normalised components of `dir` joined with `raw`.
pub open spec fn resolved_components(dir: Seq<char>, raw: Seq<char>) -> Seq<Seq<char>> {
    let comps = split(joined_path(dir, raw), "/"@);
    norm_components(comps, comps.len() as int)
}

/// Whether a normalised path has an extension (`Path::extension` is `Some`):
/// its last component has a `.` after its first character.
pub open spec fn has_extension(parts: Seq<Seq<char>>) -> bool {
    parts.len() > 0 && match rfind(parts.last(), "."@) {
        Some(i) => i > 0,
        None => false,
    }
}

/// A relative import path resolved against the importing file's directory:
/// joined, normalised (`.` dropped, `..` climbing), and given `.ts` when it has
/// no extension.
pub open spec fn resolve_path_spec(dir: Seq<char>, raw: Seq<char>) -> Seq<char> {
    let parts = resolved_components(dir, raw);
    let s = join(parts, "/"@);
    if has_extension(parts) {
        s
    } else {
        s + ".ts"@
    }
}

/// Resolve a relative import path (e.g. `"./auth/service"`) against the
/// directory of the importing file, appending `.ts` if it has no extension.
/// The extension list is not consulted.
pub fn resolve_path(dir: &str, raw: &str, _extensions: &[&str]) -> (r: String)
    ensures
        r@ == resolve_path_spec(dir@, raw@),
{
    let d = chars_of(dir);
    let w = chars_of(raw);
    let out = resolve_path_chars(&d, &w);
    string_of(&out)
}

/// `resolve_path` on characters.
fn resolve_path_chars(dir: &Vec<char>, raw: &Vec<char>) -> (r: Vec<char>)
    ensures
        r@ == resolve_path_spec(dir@, raw@),
{
    let slash = chars_of("/");
    let dot = chars_of(".");
    let dotdot = chars_of("..");
    proof {
        reveal_strlit("/");
    }
    let base = if dir.len() == 0 {
        chars_of(".")
    } else {
        copy(dir)
    };
    let joined = if starts_with_exec(raw, &slash) {
        copy(raw)
    } else if crate::text::ends_with_exec(&base, &slash) {
        concat(&base, raw)
    } else {
        let mut j = concat(&base, &slash);
        extend(&mut j, raw);
        j
    };
    assert(joined@ == joined_path(dir@, raw@));
    let comps = split_exec(&joined, &slash);
    let mut parts: Vec<Vec<char>> = Vec::new();
    let mut i: usize = 0;
    while i < comps.len()
        invariant
            i <= comps.len(),
            dot@ == "."@,
            dotdot@ == ".."@,
            vviews(comps@) == split(joined@, "/"@),
            vviews(parts@) == norm_components(vviews(comps@), i as int),
        decreases comps.len() - i,
    {
        let c = &comps[i];
        let ghost before = vviews(parts@);
        if c.len() == 0 || eq(c, &dot) {
        } else if eq(c, &dotdot) {
            if parts.len() > 0 {
                parts.pop();
                assert(vviews(parts@) =~= before.drop_last());
            }
        } else {
            parts.push(copy(c));
            assert(vviews(parts@) =~= before.push(c@));
        }
        assert(vviews(parts@) =~= norm_components(vviews(comps@), i + 1));
        i += 1;
    }
    let s = join_exec(&parts, &slash);
    let has_ext = if parts.len() > 0 {
        match rfind_exec(&parts[parts.len() - 1], &dot) {
            Some(k) => k > 0,
            None => false,
        }
    } else {
        false
    };
    assert(has_ext == has_extension(vviews(parts@)));
    if has_ext {
        s
    } else {
        let mut t = s;
        push_str(&mut t, ".ts");
        t
    }
}

/// An import found in source: symbols, resolved file, line.
pub open spec fn import_views(v: Seq<(Vec<String>, String, usize)>) -> Seq<
    (Seq<Seq<char>>, Seq<char>, usize),
> {
    v.map_values(|t: (Vec<String>, String, usize)| (views(t.0@), t.1@, t.2))
}

/// A trimmed TypeScript line is an import with a source module.
pub open spec fn ts_import_line(t: Seq<char>) -> bool {
    starts_with(t, "import "@) && contains(t, "from "@)
}

/// The relative import a trimmed TypeScript line makes, if any.
pub open spec fn ts_import_entry(t: Seq<char>, dir: Seq<char>, line_no: usize) -> Seq<
    (Seq<Seq<char>>, Seq<char>, usize),
> {
    if ts_import_line(t) {
        let symbols = ts_import_symbols_spec(t);
        match ts_import_path_spec(t) {
            Some(raw) => if (starts_with(raw, "./"@) || starts_with(raw, "../"@))
                && symbols.len() > 0 {
                seq![(symbols, resolve_path_spec(dir, raw), line_no)]
            } else {
                seq![]
            },
            None => seq![],
        }
    } else {
        seq![]
    }
}

/// The relative imports of the first `n` lines of TypeScript source.
pub open spec fn ts_imports(ls: Seq<Seq<char>>, n: int, dir: Seq<char>) -> Seq<
    (Seq<Seq<char>>, Seq<char>, usize),
>
    decreases n,
{
    if n <= 0 || n > ls.len() {
        seq![]
    } else {
        ts_imports(ls, n - 1, dir) + ts_import_entry(trim(ls[n - 1]), dir, n as usize)
    }
}

/// Every import line of the source has its braces in slicing order.
pub open spec fn ts_source_ok(source: Seq<char>) -> bool {
    forall|i: int|
        0 <= i < lines(source).len() ==> #[trigger] ts_import_line(trim(lines(source)[i]))
            ==> ts_braces_ok(trim(lines(source)[i]))
}

/// Relative TypeScript imports: for each line (trimmed) that starts with
/// `import ` and has `from `, whose module starts with `./` or `../` and which
/// names at least one symbol, the symbols, the module resolved against the
/// directory of `current_file`, and the line number.
pub fn extract_imports_ts(source: &str, current_file: &str) -> (r: Vec<(Vec<String>, String, usize)>)
    requires
        text_fits(source@),
        ts_source_ok(source@),
    ensures
        import_views(r@) == ts_imports(
            lines(source@),
            lines(source@).len() as int,
            parent_dir_spec(current_file@),
        ),
{
    let dir = parent_dir(current_file);
    let dir_c = chars_of_string(&dir);
    let src = chars_of(source);
    let ls = lines_exec(&src);
    proof {
        lemma_lines_len(src@);
    }
    let k_import = chars_of("import ");
    let k_from = chars_of("from ");
    let k_dot = chars_of("./");
    let k_dotdot = chars_of("../");
    let mut out: Vec<(Vec<String>, String, usize)> = Vec::new();
    let mut i: usize = 0;
    while i < ls.len()
        invariant
            i <= ls.len(),
            ls.len() <= source@.len(),
            text_fits(source@),
            ts_source_ok(source@),
            k_import@ == "import "@,
            k_from@ == "from "@,
            k_dot@ == "./"@,
            k_dotdot@ == "../"@,
            dir_c@ == parent_dir_spec(current_file@),
            vviews(ls@) == lines(source@),
            import_views(out@) == ts_imports(vviews(ls@), i as int, dir_c@),
        decreases ls.len() - i,
    {
        let t = trim_exec(&ls[i]);
        let ghost before = import_views(out@);
        if starts_with_exec(&t, &k_import) && contains_exec(&t, &k_from) {
            assert(ts_import_line(trim(lines(source@)[i as int])));
            let symbols = ts_import_symbols_chars(&t);
            match ts_import_path_chars(&t) {
                Some(raw) => {
                    if (starts_with_exec(&raw, &k_dot) || starts_with_exec(&raw, &k_dotdot))
                        && symbols.len() > 0 {
                        let resolved = resolve_path_chars(&dir_c, &raw);
                        let ghost sv = views(symbols@);
                        out.push((symbols, string_of(&resolved), i + 1));
                        assert(import_views(out@) =~= before.push(
                            (sv, resolved@, (i + 1) as usize),
                        ));
                    }
                },
                None => {},
            }
        }
        assert(import_views(out@) =~= ts_imports(vviews(ls@), i + 1, dir_c@));
        i += 1;
    }
    out
}

// ─── Rust ──────────────────────────────────────────────────────────

/// The function a Rust line declares, after visibility and qualifiers.
pub open spec fn rust_fn_name_spec(line: Seq<char>) -> Option<Seq<char>> {
    let stripped = trim_start_matches(
        trim_start_matches(
            trim_start_matches(
                trim_start_matches(
                    trim_start_matches(
                        trim_start_matches(line, "pub(crate) "@),
                        "pub(super) "@,
                    ),
                    "pub "@,
                ),
                "async "@,
            ),
            "unsafe "@,
        ),
        "extern \"C\" "@,
    );
    match strip_prefix(stripped, "fn "@) {
        Some(rest) => {
            let name = ident_prefix(rest);
            if name.len() > 0 {
                Some(name)
            } else {
                None
            }
        },
        None => None,
    }
}

/// `trim_start_matches` with a literal pattern.
fn tsm_lit(s: &Vec<char>, lit: &str) -> (r: Vec<char>)
    requires
        lit@.len() > 0,
    ensures
        r@ == trim_start_matches(s@, lit@),
{
    let p = chars_of(lit);
    trim_start_matches_exec(s, &p)
}

/// The name of the function a Rust line declares (after `pub(crate) `,
/// `pub(super) `, `pub `, `async `, `unsafe `, `extern "C" ` prefixes, in that order).
pub fn rust_fn_name(line: &str) -> (r: Option<String>)
    ensures
        r matches Some(n) ==> rust_fn_name_spec(line@) == Some(n@),
        r is None ==> rust_fn_name_spec(line@) is None,
{
    let l = chars_of(line);
    match rust_fn_name_chars(&l) {
        Some(n) => Some(string_of(&n)),
        None => None,
    }
}

/// `rust_fn_name` on characters.
fn rust_fn_name_chars(line: &Vec<char>) -> (r: Option<Vec<char>>)
    ensures
        r matches Some(n) ==> rust_fn_name_spec(line@) == Some(n@),
        r is None ==> rust_fn_name_spec(line@) is None,
{
    proof {
        reveal_strlit("pub(crate) ");
        reveal_strlit("pub(super) ");
        reveal_strlit("pub ");
        reveal_strlit("async ");
        reveal_strlit("unsafe ");
        reveal_strlit("extern \"C\" ");
    }
    let s1 = tsm_lit(line, "pub(crate) ");
    let s2 = tsm_lit(&s1, "pub(super) ");
    let s3 = tsm_lit(&s2, "pub ");
    let s4 = tsm_lit(&s3, "async ");
    let s5 = tsm_lit(&s4, "unsafe ");
    let s6 = tsm_lit(&s5, "extern \"C\" ");
    let k_fn = chars_of("fn ");
    match strip_prefix_exec(&s6, &k_fn) {
        Some(rest) => {
            let name = ident_prefix_exec(&rest);
            if name.len() > 0 {
                Some(name)
            } else {
                None
            }
        },
        None => None,
    }
}

/// The functions declared in the first `n` lines of Rust source.
pub open spec fn rust_functions(ls: Seq<Seq<char>>, n: int) -> Seq<
    (Seq<char>, bool, usize, usize),
>
    decreases n,
{
    if n <= 0 || n > ls.len() {
        seq![]
    } else {
        let t = trim(ls[n - 1]);
        rust_functions(ls, n - 1) + if starts_with(t, "//"@) || starts_with(t, "#[test"@) {
            seq![]
        } else {
            match rust_fn_name_spec(t) {
                Some(name) => seq![
                    (name, contains(t, "async "@), n as usize, (n + 29) as usize),
                ],
                None => seq![],
            }
        }
    }
}

/// Functions declared in Rust source: `(name, is_async, line, line + 29)` for
/// each trimmed line that is not a comment or `#[test` and declares a function;
/// async when the line contains `async `.
pub fn extract_functions_rust(source: &str) -> (r: Vec<(String, bool, usize, usize)>)
    requires
        text_fits(source@),
    ensures
        fn_entry_views(r@) == rust_functions(lines(source@), lines(source@).len() as int),
{
    let src = chars_of(source);
    let ls = lines_exec(&src);
    proof {
        lemma_lines_len(src@);
    }
    let k_comment = chars_of("//");
    let k_test = chars_of("#[test");
    let k_async = chars_of("async ");
    let mut out: Vec<(String, bool, usize, usize)> = Vec::new();
    let mut i: usize = 0;
    while i < ls.len()
        invariant
            i <= ls.len(),
            ls.len() <= source@.len(),
            text_fits(source@),
            k_comment@ == "//"@,
            k_test@ == "#[test"@,
            k_async@ == "async "@,
            vviews(ls@) == lines(source@),
            fn_entry_views(out@) == rust_functions(vviews(ls@), i as int),
        decreases ls.len() - i,
    {
        let t = trim_exec(&ls[i]);
        let ghost before = fn_entry_views(out@);
        if !(starts_with_exec(&t, &k_comment) || starts_with_exec(&t, &k_test)) {
            match rust_fn_name_chars(&t) {
                Some(name) => {
                    let is_async = contains_exec(&t, &k_async);
                    out.push((string_of(&name), is_async, i + 1, i + 30));
                    assert(fn_entry_views(out@) =~= before.push(
                        (name@, is_async, (i + 1) as usize, (i + 30) as usize),
                    ));
                },
                None => {},
            }
        }
        assert(fn_entry_views(out@) =~= rust_functions(vviews(ls@), i + 1));
        i += 1;
    }
    out
}

/// The name after a keyword, if the line starts with the keyword and a name follows.
pub open spec fn keyword_item(stripped: Seq<char>, kw: Seq<char>) -> Option<Seq<char>> {
    match strip_prefix(stripped, kw) {
        Some(rest) => {
            let name = ident_prefix(rest);
            if name.len() > 0 {
                Some(name)
            } else {
                None
            }
        },
        None => None,
    }
}

/// The struct, enum or trait a trimmed Rust line declares, if any.
pub open spec fn rust_struct_name(t: Seq<char>) -> Option<Seq<char>> {
    let stripped = trim_start_matches(trim_start_matches(t, "pub(crate) "@), "pub "@);
    if starts_with(stripped, "struct "@) {
        keyword_item(stripped, "struct "@)
    } else if starts_with(stripped, "enum "@) {
        keyword_item(stripped, "enum "@)
    } else if starts_with(stripped, "trait "@) {
        keyword_item(stripped, "trait "@)
    } else {
        None
    }
}

/// The structs, enums and traits declared in the first `n` lines of Rust source.
pub open spec fn rust_structs(ls: Seq<Seq<char>>, n: int) -> Seq<(Seq<char>, usize)>
    decreases n,
{
    if n <= 0 || n > ls.len() {
        seq![]
    } else {
        rust_structs(ls, n - 1) + match rust_struct_name(trim(ls[n - 1])) {
            Some(name) => seq![(name, n as usize)],
            None => seq![],
        }
    }
}

/// Computes `keyword_item`.
fn keyword_item_exec(stripped: &Vec<char>, kw: &Vec<char>) -> (r: Option<Vec<char>>)
    ensures
        r matches Some(n) ==> keyword_item(stripped@, kw@) == Some(n@),
        r is None ==> keyword_item(stripped@, kw@) is None,
{
    match strip_prefix_exec(stripped, kw) {
        Some(rest) => {
            let name = ident_prefix_exec(&rest);
            if name.len() > 0 {
                Some(name)
            } else {
                None
            }
        },
        None => None,
    }
}

/// Structs, enums and traits declared in Rust source, with their line numbers.
pub fn extract_structs_rust(source: &str) -> (r: Vec<(String, usize)>)
    requires
        text_fits(source@),
    ensures
        named_line_views(r@) == rust_structs(lines(source@), lines(source@).len() as int),
{
    let src = chars_of(source);
    let ls = lines_exec(&src);
    proof {
        lemma_lines_len(src@);
        reveal_strlit("pub(crate) ");
        reveal_strlit("pub ");
    }
    let k_struct = chars_of("struct ");
    let k_enum = chars_of("enum ");
    let k_trait = chars_of("trait ");
    let mut out: Vec<(String, usize)> = Vec::new();
    let mut i: usize = 0;
    while i < ls.len()
        invariant
            i <= ls.len(),
            ls.len() <= source@.len(),
            text_fits(source@),
            k_struct@ == "struct "@,
            k_enum@ == "enum "@,
            k_trait@ == "trait "@,
            "pub(crate) "@.len() > 0,
            "pub "@.len() > 0,
            vviews(ls@) == lines(source@),
            named_line_views(out@) == rust_structs(vviews(ls@), i as int),
        decreases ls.len() - i,
    {
        let t = trim_exec(&ls[i]);
        let s1 = tsm_lit(&t, "pub(crate) ");
        let stripped = tsm_lit(&s1, "pub ");
        let found = if starts_with_exec(&stripped, &k_struct) {
            keyword_item_exec(&stripped, &k_struct)
        } else if starts_with_exec(&stripped, &k_enum) {
            keyword_item_exec(&stripped, &k_enum)
        } else if starts_with_exec(&stripped, &k_trait) {
            keyword_item_exec(&stripped, &k_trait)
        } else {
            None
        };
        let ghost before = named_line_views(out@);
        match found {
            Some(name) => {
                out.push((string_of(&name), i + 1));
                assert(named_line_views(out@) =~= before.push((name@, (i + 1) as usize)));
            },
            None => {},
        }
        assert(named_line_views(out@) =~= rust_structs(vviews(ls@), i + 1));
        i += 1;
    }
    out
}

/// The `src` root of the crate a file belongs to: up to the last `/src/`, or
/// `src` for a path starting `src/`, or else the file's directory.
pub open spec fn crate_src_root_spec(file_path: Seq<char>) -> Seq<char> {
    match rfind(file_path, "/src/"@) {
        Some(pos) => file_path.subrange(0, pos + 4),
        None => if starts_with(file_path, "src/"@) {
            "src"@
        } else {
            parent_dir_spec(file_path)
        },
    }
}

/// Infer the crate `src` root from a file path:
/// `"crates/ucm-core/src/entity.rs"` gives `"crates/ucm-core/src"`.
pub fn infer_crate_src_root(file_path: &str) -> (r: String)
    ensures
        r@ == crate_src_root_spec(file_path@),
{
    let f = chars_of(file_path);
    let k_src = chars_of("/src/");
    proof {
        reveal_strlit("/src/");
    }
    match rfind_exec(&f, &k_src) {
        Some(pos) => {
            let r = subvec(&f, 0, pos + 4);
            string_of(&r)
        },
        None => {
            let k_start = chars_of("src/");
            if starts_with_exec(&f, &k_start) {
                "src".to_string()
            } else {
                parent_dir(file_path)
            }
        },
    }
}

/// The module directory `super::` refers to: the grandparent directory of the
/// file within the crate, under the crate root.
pub open spec fn parent_module_dir_spec(root: Seq<char>, file_in_crate: Seq<char>) -> Seq<char> {
    let dir = parent_dir_spec(file_in_crate);
    if dir.len() == 0 {
        root
    } else {
        let parent = parent_dir_spec(dir);
        if parent.len() == 0 {
            root
        } else {
            root + "/"@ + parent
        }
    }
}

/// The module directory `self::` refers to: the file's directory under the crate root.
pub open spec fn current_module_dir_spec(root: Seq<char>, file_in_crate: Seq<char>) -> Seq<char> {
    let dir = parent_dir_spec(file_in_crate);
    if dir.len() == 0 {
        root
    } else {
        root + "/"@ + dir
    }
}

/// The parent module directory, for `super::` resolution.
pub fn rust_parent_module_dir(crate_src_root: &str, file_in_crate: &str) -> (r: String)
    ensures
        r@ == parent_module_dir_spec(crate_src_root@, file_in_crate@),
{
    let dir = parent_dir(file_in_crate);
    if dir.as_str().is_empty() {
        crate_src_root.to_string()
    } else {
        let parent = parent_dir(dir.as_str());
        if parent.as_str().is_empty() {
            crate_src_root.to_string()
        } else {
            let mut out: Vec<char> = Vec::new();
            push_str(&mut out, crate_src_root);
            push_str(&mut out, "/");
            push_str(&mut out, parent.as_str());
            string_of(&out)
        }
    }
}

/// The current module directory, for `self::` resolution.
pub fn rust_current_module_dir(crate_src_root: &str, file_in_crate: &str) -> (r: String)
    ensures
        r@ == current_module_dir_spec(crate_src_root@, file_in_crate@),
{
    let dir = parent_dir(file_in_crate);
    if dir.as_str().is_empty() {
        crate_src_root.to_string()
    } else {
        let mut out: Vec<char> = Vec::new();
        push_str(&mut out, crate_src_root);
        push_str(&mut out, "/");
        push_str(&mut out, dir.as_str());
        string_of(&out)
    }
}

/// Maps Rust crate names (underscored, e.g. `ucm_graph_core`) to their `src/`
/// directory paths relative to the scan root (e.g. `ucm-core/src`).
pub type RustCrateMap = HashMap<String, String>;

/// The entry of a crate map for a crate name (`HashMap::get`, cloned).
/// Keys are compared by their text, so the entry is the deep view's.
#[verifier::external_body]
fn crate_map_get(m: &RustCrateMap, k: &str) -> (r: Option<String>)
    ensures
        r matches Some(v) ==> m.deep_view().contains_key(k@) && m.deep_view()[k@] == v@,
        r is None ==> !m.deep_view().contains_key(k@),
{
    m.get(k).cloned()
}

/// The module directory and remaining path of a `use` line (text after `use `),
/// or `None` for a crate outside the map.
pub open spec fn rust_use_target(
    rest: Seq<char>,
    root: Seq<char>,
    file_in_crate: Seq<char>,
    table: Map<Seq<char>, Seq<char>>,
) -> Option<(Seq<char>, Seq<char>)> {
    match strip_prefix(rest, "crate::"@) {
        Some(r) => Some((root, r)),
        None => match strip_prefix(rest, "super::"@) {
            Some(r) => Some((parent_module_dir_spec(root, file_in_crate), r)),
            None => match strip_prefix(rest, "self::"@) {
                Some(r) => Some((current_module_dir_spec(root, file_in_crate), r)),
                None => {
                    let first = before_first(rest, "::"@);
                    if table.contains_key(first) {
                        let after = match strip_prefix(rest, first) {
                            Some(x) => match strip_prefix(x, "::"@) {
                                Some(y) => y,
                                None => seq![],
                            },
                            None => seq![],
                        };
                        Some((table[first], after))
                    } else {
                        None
                    }
                },
            },
        },
    }
}

/// The import a module path and symbol list make, with the module's file.
pub open spec fn rust_import_finish(
    target_root: Seq<char>,
    segments: Seq<char>,
    symbols: Seq<Seq<char>>,
    line_no: usize,
) -> Seq<(Seq<Seq<char>>, Seq<char>, usize)> {
    if symbols.len() == 0 {
        seq![]
    } else {
        let file = if segments.len() == 0 {
            target_root + "/lib.rs"@
        } else {
            target_root + "/"@ + replace(segments, "::"@, "/"@) + ".rs"@
        };
        seq![(symbols, file, line_no)]
    }
}

/// The import a Rust `use` path (after its crate/super/self prefix) makes.
pub open spec fn rust_use_path_import(target_root: Seq<char>, after: Seq<char>, line_no: usize) -> Seq<
    (Seq<Seq<char>>, Seq<char>, usize),
> {
    let cleaned = trim_end_matches(after, ";"@);
    match find(cleaned, "{"@) {
        Some(bs) => {
            let prefix = trim_end_matches(cleaned.subrange(0, bs), "::"@);
            let inner = before_first(cleaned.subrange(bs + 1, cleaned.len() as int), "}"@);
            rust_import_finish(target_root, prefix, import_list(inner, true), line_no)
        },
        None => {
            let parts = split(cleaned, "::"@);
            if parts.len() < 2 {
                if parts.len() == 1 && parts[0].len() > 0 && parts[0] != "*"@ {
                    seq![(seq!["module"@], target_root + "/"@ + parts[0] + ".rs"@, line_no)]
                } else {
                    seq![]
                }
            } else if parts.last() == "*"@ {
                seq![]
            } else {
                rust_import_finish(
                    target_root,
                    join(parts.drop_last(), "::"@),
                    seq![parts.last()],
                    line_no,
                )
            }
        },
    }
}

/// The import a trimmed Rust line makes, if any.
pub open spec fn rust_import_entry(
    t: Seq<char>,
    root: Seq<char>,
    file_in_crate: Seq<char>,
    table: Map<Seq<char>, Seq<char>>,
    line_no: usize,
) -> Seq<(Seq<Seq<char>>, Seq<char>, usize)> {
    if starts_with(t, "use "@) {
        match rust_use_target(t.subrange(4, t.len() as int), root, file_in_crate, table) {
            Some((target_root, after)) => rust_use_path_import(target_root, after, line_no),
            None => seq![],
        }
    } else {
        seq![]
    }
}

/// The imports of the first `n` lines of Rust source.
pub open spec fn rust_imports(
    ls: Seq<Seq<char>>,
    n: int,
    root: Seq<char>,
    file_in_crate: Seq<char>,
    table: Map<Seq<char>, Seq<char>>,
) -> Seq<(Seq<Seq<char>>, Seq<char>, usize)>
    decreases n,
{
    if n <= 0 || n > ls.len() {
        seq![]
    } else {
        rust_imports(ls, n - 1, root, file_in_crate, table) + rust_import_entry(
            trim(ls[n - 1]),
            root,
            file_in_crate,
            table,
            n as usize,
        )
    }
}

/// The path of a file within its crate: with the crate root and `/` stripped.
pub open spec fn file_in_crate_spec(file: Seq<char>) -> Seq<char> {
    match strip_prefix(file, crate_src_root_spec(file) + "/"@) {
        Some(f) => f,
        None => file,
    }
}

/// The Rust imports of a file's source, resolved to file paths.
pub open spec fn rust_imports_of(
    source: Seq<char>,
    current_file: Seq<char>,
    table: Map<Seq<char>, Seq<char>>,
) -> Seq<(Seq<Seq<char>>, Seq<char>, usize)> {
    rust_imports(
        lines(source),
        lines(source).len() as int,
        crate_src_root_spec(current_file),
        file_in_crate_spec(current_file),
        table,
    )
}

/// Computes `rust_use_target`.
fn rust_use_target_exec(
    rest: &Vec<char>,
    root: &Vec<char>,
    file_in_crate: &Vec<char>,
    crate_map: &RustCrateMap,
) -> (r: Option<(Vec<char>, Vec<char>)>)
    ensures
        r matches Some(p) ==> rust_use_target(rest@, root@, file_in_crate@, crate_map.deep_view())
            == Some((p.0@, p.1@)),
        r is None ==> rust_use_target(rest@, root@, file_in_crate@, crate_map.deep_view()) is None,
{
    let k_crate = chars_of("crate::");
    let k_super = chars_of("super::");
    let k_self = chars_of("self::");
    if let Some(r) = strip_prefix_exec(rest, &k_crate) {
        return Some((copy(root), r));
    }
    if let Some(r) = strip_prefix_exec(rest, &k_super) {
        let rs = string_of(root);
        let fs = string_of(file_in_crate);
        let d = rust_parent_module_dir(rs.as_str(), fs.as_str());
        return Some((chars_of_string(&d), r));
    }
    if let Some(r) = strip_prefix_exec(rest, &k_self) {
        let rs = string_of(root);
        let fs = string_of(file_in_crate);
        let d = rust_current_module_dir(rs.as_str(), fs.as_str());
        return Some((chars_of_string(&d), r));
    }
    let sep = chars_of("::");
    let first = before_first_exec(rest, &sep);
    let first_s = string_of(&first);
    match crate_map_get(crate_map, first_s.as_str()) {
        Some(sibling) => {
            let after = match strip_prefix_exec(rest, &first) {
                Some(x) => match strip_prefix_exec(&x, &sep) {
                    Some(y) => y,
                    None => Vec::new(),
                },
                None => Vec::new(),
            };
            Some((chars_of_string(&sibling), after))
        },
        None => None,
    }
}

/// Computes `rust_import_finish`.
fn rust_import_finish_exec(
    target_root: &Vec<char>,
    segments: &Vec<char>,
    symbols: Vec<String>,
    line_no: usize,
) -> (r: Option<(Vec<String>, String, usize)>)
    ensures
        r matches Some(e) ==> rust_import_finish(target_root@, segments@, views(symbols@), line_no)
            == seq![(views(e.0@), e.1@, e.2)],
        r is None ==> rust_import_finish(target_root@, segments@, views(symbols@), line_no)
            == Seq::<(Seq<Seq<char>>, Seq<char>, usize)>::empty(),
{
    if symbols.len() == 0 {
        return None;
    }
    let mut file = copy(target_root);
    if segments.len() == 0 {
        push_str(&mut file, "/lib.rs");
    } else {
        push_str(&mut file, "/");
        let sep = chars_of("::");
        let slash = chars_of("/");
        proof {
            reveal_strlit("::");
        }
        let replaced = replace_exec(segments, &sep, &slash);
        extend(&mut file, &replaced);
        push_str(&mut file, ".rs");
    }
    Some((symbols, string_of(&file), line_no))
}

/// Computes `rust_use_path_import`.
fn rust_use_path_import_exec(target_root: &Vec<char>, after: &Vec<char>, line_no: usize) -> (r: Option<
    (Vec<String>, String, usize),
>)
    ensures
        r matches Some(e) ==> rust_use_path_import(target_root@, after@, line_no) == seq![
            (views(e.0@), e.1@, e.2),
        ],
        r is None ==> rust_use_path_import(target_root@, after@, line_no) == Seq::<
            (Seq<Seq<char>>, Seq<char>, usize),
        >::empty(),
{
    proof {
        reveal_strlit(";");
        reveal_strlit("::");
        reveal_strlit("{");
    }
    let semi = chars_of(";");
    let sep = chars_of("::");
    let cleaned = trim_end_matches_exec(after, &semi);
    let open_b = chars_of("{");
    match find_exec(&cleaned, &open_b) {
        Some(bs) => {
            let head = subvec(&cleaned, 0, bs);
            let prefix = trim_end_matches_exec(&head, &sep);
            let tail = subvec(&cleaned, bs + 1, cleaned.len());
            let close_b = chars_of("}");
            let inner = before_first_exec(&tail, &close_b);
            let syms = import_list_exec(&inner, true);
            rust_import_finish_exec(target_root, &prefix, syms, line_no)
        },
        None => {
            let parts = split_exec(&cleaned, &sep);
            let star = chars_of("*");
            if parts.len() < 2 {
                if parts.len() == 1 && parts[0].len() > 0 && !eq(&parts[0], &star) {
                    let mut file = copy(target_root);
                    push_str(&mut file, "/");
                    extend(&mut file, &parts[0]);
                    push_str(&mut file, ".rs");
                    let mut syms: Vec<String> = Vec::new();
                    syms.push("module".to_string());
                    assert(views(syms@) =~= seq!["module"@]);
                    Some((syms, string_of(&file), line_no))
                } else {
                    None
                }
            } else if eq(&parts[parts.len() - 1], &star) {
                None
            } else {
                let mut mods: Vec<Vec<char>> = Vec::new();
                let mut k: usize = 0;
                while k + 1 < parts.len()
                    invariant
                        k + 1 <= parts.len(),
                        vviews(mods@) == vviews(parts@).take(k as int),
                    decreases parts.len() - k,
                {
                    let ghost before = vviews(mods@);
                    mods.push(copy(&parts[k]));
                    assert(vviews(mods@) =~= before.push(vviews(parts@)[k as int]));
                    assert(vviews(mods@) =~= vviews(parts@).take(k + 1));
                    k += 1;
                }
                assert(vviews(mods@) =~= vviews(parts@).drop_last());
                let segments = join_exec(&mods, &sep);
                let mut syms: Vec<String> = Vec::new();
                syms.push(string_of(&parts[parts.len() - 1]));
                assert(views(syms@) =~= seq![vviews(parts@).last()]);
                rust_import_finish_exec(target_root, &segments, syms, line_no)
            }
        },
    }
}

/// Extract Rust `use` imports and resolve them to the file paths of the
/// importing crate (`crate::`), the parent module (`super::`), the current
/// module (`self::`) or a sibling crate named in `crate_map`. Imports of other
/// crates are skipped, as are glob imports.
pub fn extract_imports_rust(source: &str, current_file: &str, crate_map: &RustCrateMap) -> (r: Vec<
    (Vec<String>, String, usize),
>)
    requires
        text_fits(source@),
    ensures
        import_views(r@) == rust_imports_of(source@, current_file@, crate_map.deep_view()),
{
    let root_s = infer_crate_src_root(current_file);
    let root = chars_of_string(&root_s);
    let cur = chars_of(current_file);
    let mut root_slash = copy(&root);
    push_str(&mut root_slash, "/");
    let file_in_crate = match strip_prefix_exec(&cur, &root_slash) {
        Some(f) => f,
        None => copy(&cur),
    };
    assert(file_in_crate@ == file_in_crate_spec(current_file@));
    let src = chars_of(source);
    let ls = lines_exec(&src);
    proof {
        lemma_lines_len(src@);
    }
    let k_use = chars_of("use ");
    proof {
        reveal_strlit("use ");
    }
    let mut out: Vec<(Vec<String>, String, usize)> = Vec::new();
    let mut i: usize = 0;
    while i < ls.len()
        invariant
            i <= ls.len(),
            ls.len() <= source@.len(),
            text_fits(source@),
            k_use@ == "use "@,
            k_use@.len() == 4,
            root@ == crate_src_root_spec(current_file@),
            file_in_crate@ == file_in_crate_spec(current_file@),
            vviews(ls@) == lines(source@),
            import_views(out@) == rust_imports(
                vviews(ls@),
                i as int,
                root@,
                file_in_crate@,
                crate_map.deep_view(),
            ),
        decreases ls.len() - i,
    {
        let t = trim_exec(&ls[i]);
        let ghost before = import_views(out@);
        if starts_with_exec(&t, &k_use) {
            let rest = subvec(&t, 4, t.len());
            match rust_use_target_exec(&rest, &root, &file_in_crate, crate_map) {
                Some((target_root, after)) => {
                    match rust_use_path_import_exec(&target_root, &after, i + 1) {
                        Some(e) => {
                            let ghost ev = (views(e.0@), e.1@, e.2);
                            out.push(e);
                            assert(import_views(out@) =~= before.push(ev));
                        },
                        None => {},
                    }
                },
                None => {},
            }
        }
        assert(import_views(out@) =~= rust_imports(
            vviews(ls@),
            i + 1,
            root@,
            file_in_crate@,
            crate_map.deep_view(),
        ));
        i += 1;
    }
    out
}

// ─── Python ────────────────────────────────────────────────────────

/// A Python entity extracted with indentation awareness.
#[derive(Debug)]
pub enum PythonEntity {
    Function {
        name: String,
        is_async: bool,
        line_start: usize,
        line_end: usize,
        /// If this function is a method, the enclosing class name.
        class_name: Option<String>,
    },
    Class {
        name: String,
        line_num: usize,
        /// Base class names from `class Foo(Bar, Baz):`.
        bases: Vec<String>,
    },
}

/// The view of a Python entity.
pub enum PyView {
    Function {
        name: Seq<char>,
        is_async: bool,
        line_start: usize,
        line_end: usize,
        class_name: Option<Seq<char>>,
    },
    Class { name: Seq<char>, line_num: usize, bases: Seq<Seq<char>> },
}

impl View for PythonEntity {
    type V = PyView;

    open spec fn view(&self) -> PyView {
        match self {
            PythonEntity::Function { name, is_async, line_start, line_end, class_name } =>
            PyView::Function {
                name: name@,
                is_async: *is_async,
                line_start: *line_start,
                line_end: *line_end,
                class_name: opt_text(*class_name),
            },
            PythonEntity::Class { name, line_num, bases } => PyView::Class {
                name: name@,
                line_num: *line_num,
                bases: views(bases@),
            },
        }
    }
}

/// The views of a list of Python entities.
pub open spec fn py_views(v: Seq<PythonEntity>) -> Seq<PyView> {
    v.map_values(|e: PythonEntity| e@)
}

/// One base of a class: keyword arguments give nothing, dotted names their last part.
pub open spec fn py_base(piece: Seq<char>) -> Seq<char> {
    let s = trim(piece);
    if contains(s, "="@) {
        seq![]
    } else {
        trim(after_last_char(s, '.'))
    }
}

/// The non-empty bases among the first `n` pieces.
pub open spec fn py_bases(parts: Seq<Seq<char>>, n: int) -> Seq<Seq<char>>
    decreases n,
{
    if n <= 0 || n > parts.len() {
        seq![]
    } else {
        let b = py_base(parts[n - 1]);
        py_bases(parts, n - 1) + if b.len() > 0 {
            seq![b]
        } else {
            seq![]
        }
    }
}

/// The base classes in `Foo(Bar, Baz):` (the text after `class `).
pub open spec fn parse_python_bases_spec(after: Seq<char>) -> Seq<Seq<char>> {
    match (find(after, "("@), find(after, ")"@)) {
        (Some(ps), Some(pe)) => {
            let parts = split(after.subrange(ps + 1, pe), ","@);
            py_bases(parts, parts.len() as int)
        },
        _ => seq![],
    }
}

/// The parentheses of a class line can be sliced: `)` does not come before the first `(`.
pub open spec fn py_parens_ok(after: Seq<char>) -> bool {
    match (find(after, "("@), find(after, ")"@)) {
        (Some(ps), Some(pe)) => ps + 1 <= pe,
        _ => true,
    }
}

/// Parse base classes from a class definition line: `"Foo(Bar, Baz):"` gives
/// `["Bar", "Baz"]`; keyword arguments such as `metaclass=M` are skipped and
/// dotted names give their last component.
pub fn parse_python_bases(after_class_name: &str) -> (r: Vec<String>)
    requires
        py_parens_ok(after_class_name@),
    ensures
        views(r@) == parse_python_bases_spec(after_class_name@),
{
    let a = chars_of(after_class_name);
    parse_python_bases_chars(&a)
}

/// `parse_python_bases` on characters.
fn parse_python_bases_chars(after: &Vec<char>) -> (r: Vec<String>)
    requires
        py_parens_ok(after@),
    ensures
        views(r@) == parse_python_bases_spec(after@),
{
    let open_p = chars_of("(");
    let close_p = chars_of(")");
    match (find_exec(after, &open_p), find_exec(after, &close_p)) {
        (Some(ps), Some(pe)) => {
            let inner = subvec(after, ps + 1, pe);
            let comma = chars_of(",");
            let eq_sign = chars_of("=");
            proof {
                reveal_strlit(",");
            }
            let parts = split_exec(&inner, &comma);
            let mut out: Vec<String> = Vec::new();
            let mut i: usize = 0;
            while i < parts.len()
                invariant
                    i <= parts.len(),
                    eq_sign@ == "="@,
                    views(out@) == py_bases(vviews(parts@), i as int),
                decreases parts.len() - i,
            {
                let s = trim_exec(&parts[i]);
                let b = if contains_exec(&s, &eq_sign) {
                    Vec::new()
                } else {
                    let last = after_last_char_exec(&s, '.');
                    trim_exec(&last)
                };
                assert(b@ == py_base(vviews(parts@)[i as int]));
                let ghost before = views(out@);
                if b.len() > 0 {
                    out.push(string_of(&b));
                    assert(views(out@) =~= before.push(b@));
                }
                assert(views(out@) =~= py_bases(vviews(parts@), i + 1));
                i += 1;
            }
            out
        },
        _ => {
            let out: Vec<String> = Vec::new();
            assert(views(out@) =~= seq![]);
            out
        },
    }
}

/// The class a trimmed line declares, with the text after `class `.
pub open spec fn py_class_def(t: Seq<char>) -> Option<(Seq<char>, Seq<char>)> {
    match strip_prefix(t, "class "@) {
        Some(rest) => {
            let name = ident_prefix(rest);
            if name.len() > 0 {
                Some((name, rest))
            } else {
                None
            }
        },
        None => None,
    }
}

/// The function a trimmed line defines, with whether it is async.
pub open spec fn py_def(t: Seq<char>) -> Option<(Seq<char>, bool)> {
    let rest = match strip_prefix(t, "async def "@) {
        Some(r) => Some(r),
        None => strip_prefix(t, "def "@),
    };
    match rest {
        Some(r) => {
            let name = ident_prefix(r);
            if name.len() > 0 {
                Some((name, starts_with(t, "async "@)))
            } else {
                None
            }
        },
        None => None,
    }
}

/// The enclosing class after a line at `indent`: kept only while indented deeper.
pub open spec fn py_scope_after(cur: Option<(Seq<char>, nat)>, indent: nat) -> Option<
    (Seq<char>, nat),
> {
    match cur {
        Some((n, ci)) => if indent <= ci {
            None
        } else {
            Some((n, ci))
        },
        None => None,
    }
}

/// One line of the Python scan: the new enclosing class and the entities found.
pub open spec fn py_step(cur: Option<(Seq<char>, nat)>, line: Seq<char>, i: int) -> (
    Option<(Seq<char>, nat)>,
    Seq<PyView>,
) {
    let t = trim(line);
    if t.len() == 0 || starts_with(t, "#"@) {
        (cur, seq![])
    } else {
        let indent = indent_bytes(line);
        let scope = py_scope_after(cur, indent);
        match py_class_def(t) {
            Some((name, rest)) => (
                Some((name, indent)),
                seq![
                    PyView::Class {
                        name,
                        line_num: (i + 1) as usize,
                        bases: parse_python_bases_spec(rest),
                    },
                ],
            ),
            None => match py_def(t) {
                Some((name, is_async)) => (
                    scope,
                    seq![
                        PyView::Function {
                            name,
                            is_async,
                            line_start: (i + 1) as usize,
                            line_end: (i + 20) as usize,
                            class_name: match scope {
                                Some((cn, ci)) => if indent > ci {
                                    Some(cn)
                                } else {
                                    None
                                },
                                None => None,
                            },
                        },
                    ],
                ),
                None => (scope, seq![]),
            },
        }
    }
}

/// The Python scan over the first `n` lines: enclosing class and entities.
pub open spec fn py_scan(ls: Seq<Seq<char>>, n: int) -> (Option<(Seq<char>, nat)>, Seq<PyView>)
    decreases n,
{
    if n <= 0 || n > ls.len() {
        (None, seq![])
    } else {
        let prev = py_scan(ls, n - 1);
        let step = py_step(prev.0, ls[n - 1], n - 1);
        (step.0, prev.1 + step.1)
    }
}

/// Every class line of the source has its parentheses in slicing order.
pub open spec fn py_source_ok(source: Seq<char>) -> bool {
    forall|i: int|
        0 <= i < lines(source).len() ==> match #[trigger] py_class_def(trim(lines(source)[i])) {
            Some((name, rest)) => py_parens_ok(rest),
            None => true,
        }
}

/// Extract Python functions and classes: a class stays the enclosing class of
/// the lines indented deeper than it; functions defined there are its methods.
/// Blank lines and `#` comments are skipped.
pub fn extract_python_entities(source: &str) -> (r: Vec<PythonEntity>)
    requires
        text_fits(source@),
        py_source_ok(source@),
    ensures
        py_views(r@) == py_scan(lines(source@), lines(source@).len() as int).1,
{
    let src = chars_of(source);
    let ls = lines_exec(&src);
    proof {
        lemma_lines_len(src@);
        lemma_lines_elem_len(src@);
    }
    let k_hash = chars_of("#");
    let k_class = chars_of("class ");
    let k_async_def = chars_of("async def ");
    let k_def = chars_of("def ");
    let k_async = chars_of("async ");
    let mut out: Vec<PythonEntity> = Vec::new();
    let mut cur: Option<(Vec<char>, usize)> = None;
    let mut i: usize = 0;
    while i < ls.len()
        invariant
            i <= ls.len(),
            ls.len() <= source@.len(),
            text_fits(source@),
            py_source_ok(source@),
            k_hash@ == "#"@,
            k_class@ == "class "@,
            k_async_def@ == "async def "@,
            k_def@ == "def "@,
            k_async@ == "async "@,
            vviews(ls@) == lines(source@),
            forall|j: int| 0 <= j < ls@.len() ==> #[trigger] vviews(ls@)[j].len() <= source@.len(),
            py_views(out@) == py_scan(vviews(ls@), i as int).1,
            (match cur {
                Some((n, ci)) => Some((n@, ci as nat)),
                None => None,
            }) == py_scan(vviews(ls@), i as int).0,
        decreases ls.len() - i,
    {
        let line = &ls[i];
        assert(line@ == vviews(ls@)[i as int]);
        let t = trim_exec(line);
        let ghost before = py_views(out@);
        let ghost prev = py_scan(vviews(ls@), i as int);
        if t.len() == 0 || starts_with_exec(&t, &k_hash) {
            assert(py_views(out@) =~= before + seq![]);
        } else {
            let indent = indent_bytes_exec(line);
            let leave = match &cur {
                Some((_, ci)) => indent <= *ci,
                None => false,
            };
            if leave {
                cur = None;
            }
            let class_hit = match strip_prefix_exec(&t, &k_class) {
                Some(rest) => {
                    let name = ident_prefix_exec(&rest);
                    if name.len() > 0 {
                        Some((name, rest))
                    } else {
                        None
                    }
                },
                None => None,
            };
            match class_hit {
                Some((name, rest)) => {
                    assert(py_class_def(trim(lines(source@)[i as int])) == Some((name@, rest@)));
                    let bases = parse_python_bases_chars(&rest);
                    let ghost bv = views(bases@);
                    cur = Some((copy(&name), indent));
                    out.push(PythonEntity::Class { name: string_of(&name), line_num: i + 1, bases });
                    assert(py_views(out@) =~= before + seq![
                        PyView::Class { name: name@, line_num: (i + 1) as usize, bases: bv },
                    ]);
                },
                None => {
                    let rest = match strip_prefix_exec(&t, &k_async_def) {
                        Some(r) => Some(r),
                        None => strip_prefix_exec(&t, &k_def),
                    };
                    match rest {
                        Some(r) => {
                            let name = ident_prefix_exec(&r);
                            if name.len() > 0 {
                                let is_async = starts_with_exec(&t, &k_async);
                                let class_name = match &cur {
                                    Some((cn, ci)) => if indent > *ci {
                                        Some(string_of(cn))
                                    } else {
                                        None
                                    },
                                    None => None,
                                };
                                let ghost cv = opt_text(class_name);
                                out.push(
                                    PythonEntity::Function {
                                        name: string_of(&name),
                                        is_async,
                                        line_start: i + 1,
                                        line_end: i + 20,
                                        class_name,
                                    },
                                );
                                assert(py_views(out@) =~= before + seq![
                                    PyView::Function {
                                        name: name@,
                                        is_async,
                                        line_start: (i + 1) as usize,
                                        line_end: (i + 20) as usize,
                                        class_name: cv,
                                    },
                                ]);
                            } else {
                                assert(py_views(out@) =~= before + seq![]);
                            }
                        },
                        None => {
                            assert(py_views(out@) =~= before + seq![]);
                        },
                    }
                },
            }
        }
        assert(py_views(out@) =~= py_scan(vviews(ls@), i + 1).1);
        i += 1;
    }
    out
}

/// `imp.trim_start_matches('(').trim_end_matches(')')`, then the import list
/// without empty entries and `*`.
pub open spec fn py_import_symbols_spec(imp: Seq<char>) -> Seq<Seq<char>> {
    import_list(trim_end_matches(trim_start_matches(imp, "("@), ")"@), true)
}

/// Parse the symbols of the `import X, Y as Z, W` part of a Python import.
pub fn parse_python_import_symbols(imp_part: &str) -> (r: Vec<String>)
    ensures
        views(r@) == py_import_symbols_spec(imp_part@),
{
    let imp = chars_of(imp_part);
    parse_python_import_symbols_chars(&imp)
}

/// `parse_python_import_symbols` on characters.
fn parse_python_import_symbols_chars(imp: &Vec<char>) -> (r: Vec<String>)
    ensures
        views(r@) == py_import_symbols_spec(imp@),
{
    proof {
        reveal_strlit("(");
        reveal_strlit(")");
    }
    let open_p = chars_of("(");
    let close_p = chars_of(")");
    let a = trim_start_matches_exec(imp, &open_p);
    let b = trim_end_matches_exec(&a, &close_p);
    import_list_exec(&b, true)
}

/// The view of optional characters.
pub open spec fn opt_chars(o: Option<Vec<char>>) -> Option<Seq<char>> {
    match o {
        Some(v) => Some(v@),
        None => None,
    }
}

/// The Python package root name for absolute import resolution.
pub type PythonPackageRoot = Option<String>;

/// `parent_dir` applied `k` times.
pub open spec fn parent_dir_n(base: Seq<char>, k: nat) -> Seq<char>
    decreases k,
{
    if k == 0 {
        base
    } else {
        parent_dir_spec(parent_dir_n(base, (k - 1) as nat))
    }
}

/// Length of the run of `.` at the start of a text.
pub open spec fn leading_dots(s: Seq<char>, i: int) -> int
    decreases s.len() - i,
{
    if 0 <= i < s.len() && s[i] == '.' {
        leading_dots(s, i + 1)
    } else {
        i
    }
}

/// The file of a module path below the package root: `a.b` gives `a/b.py`.
pub open spec fn py_module_file(after_pkg: Seq<char>) -> Seq<char> {
    if after_pkg.len() == 0 {
        "__init__.py"@
    } else {
        replace(after_pkg, "."@, "/"@) + ".py"@
    }
}

/// A module path names the package root or one of its modules: it is the
/// root itself or starts with the root and a dot (`marimoext` is not in
/// `marimo`).
pub open spec fn in_python_package(mod_path: Seq<char>, pkg: Seq<char>) -> bool {
    mod_path == pkg || starts_with(mod_path, pkg + "."@)
}

/// Whether a module path is the package root or one of its modules.
pub fn in_python_package_exec(mod_path: &Vec<char>, pkg: &Vec<char>) -> (r: bool)
    ensures
        r == in_python_package(mod_path@, pkg@),
{
    let mut prefix = copy(pkg);
    prefix.push('.');
    proof {
        reveal_strlit(".");
        assert(prefix@ =~= pkg@ + "."@);
    }
    let same = mod_path.len() == pkg.len() && starts_with_exec(mod_path, pkg);
    proof {
        if mod_path@.len() == pkg@.len() {
            assert(starts_with(mod_path@, pkg@) ==> mod_path@ =~= pkg@);
            assert(mod_path@ == pkg@ ==> mod_path@.subrange(0, pkg@.len() as int) =~= pkg@);
        }
    }
    same || starts_with_exec(mod_path, &prefix)
}

/// A module path with the package root and the dots after it removed.
pub open spec fn py_after_pkg(mod_path: Seq<char>, pkg: Seq<char>) -> Seq<char> {
    trim_start_matches(
        match strip_prefix(mod_path, pkg) {
            Some(x) => x,
            None => mod_path,
        },
        "."@,
    )
}

/// The imports the first `n` pieces of a bare `import a.b, c` make.
pub open spec fn py_bare_imports(parts: Seq<Seq<char>>, n: int, pkg: Seq<char>, line_no: usize) -> Seq<
    (Seq<Seq<char>>, Seq<char>, usize),
>
    decreases n,
{
    if n <= 0 || n > parts.len() {
        seq![]
    } else {
        let mp = import_item(parts[n - 1]);
        py_bare_imports(parts, n - 1, pkg, line_no) + if in_python_package(mp, pkg) {
            seq![(seq!["module"@], py_module_file(py_after_pkg(mp, pkg)), line_no)]
        } else {
            seq![]
        }
    }
}

/// The imports a trimmed Python line makes.
pub open spec fn py_import_entry(t: Seq<char>, dir: Seq<char>, pkg: Option<Seq<char>>, line_no: usize) -> Seq<
    (Seq<Seq<char>>, Seq<char>, usize),
> {
    match strip_prefix(t, "from ."@) {
        Some(rest) => match find(rest, " import "@) {
            Some(ip) => {
                let mod_part = rest.subrange(0, ip);
                let symbols = py_import_symbols_spec(rest.subrange(ip + 8, rest.len() as int));
                let dots = leading_dots(mod_part, 0);
                let module_name = trim_start_matches(mod_part, "."@);
                let base = parent_dir_n(dir, dots as nat);
                let path = if module_name.len() == 0 {
                    base + "/__init__.py"@
                } else {
                    base + "/"@ + replace(module_name, "."@, "/"@) + ".py"@
                };
                if symbols.len() > 0 {
                    seq![(symbols, path, line_no)]
                } else {
                    seq![]
                }
            },
            None => seq![],
        },
        None => match strip_prefix(t, "from "@) {
            Some(rest) => match find(rest, " import "@) {
                Some(ip) => {
                    let mod_part = rest.subrange(0, ip);
                    match pkg {
                        Some(p) => if in_python_package(mod_part, p) {
                            let symbols = py_import_symbols_spec(
                                rest.subrange(ip + 8, rest.len() as int),
                            );
                            if symbols.len() > 0 {
                                seq![(symbols, py_module_file(py_after_pkg(mod_part, p)), line_no)]
                            } else {
                                seq![]
                            }
                        } else {
                            seq![]
                        },
                        None => seq![],
                    }
                },
                None => seq![],
            },
            None => match strip_prefix(t, "import "@) {
                Some(rest) => match pkg {
                    Some(p) => {
                        let parts = split(rest, ","@);
                        py_bare_imports(parts, parts.len() as int, p, line_no)
                    },
                    None => seq![],
                },
                None => seq![],
            },
        },
    }
}

/// The imports of the first `n` lines of Python source.
pub open spec fn py_imports(ls: Seq<Seq<char>>, n: int, dir: Seq<char>, pkg: Option<Seq<char>>) -> Seq<
    (Seq<Seq<char>>, Seq<char>, usize),
>
    decreases n,
{
    if n <= 0 || n > ls.len() {
        seq![]
    } else {
        py_imports(ls, n - 1, dir, pkg) + py_import_entry(trim(ls[n - 1]), dir, pkg, n as usize)
    }
}

/// Computes `py_module_file(py_after_pkg(mod_path, pkg))`.
fn py_pkg_file_exec(mod_path: &Vec<char>, pkg: &Vec<char>) -> (r: Vec<char>)
    ensures
        r@ == py_module_file(py_after_pkg(mod_path@, pkg@)),
{
    proof {
        reveal_strlit(".");
    }
    let dot = chars_of(".");
    let slash = chars_of("/");
    let stripped = match strip_prefix_exec(mod_path, pkg) {
        Some(x) => x,
        None => copy(mod_path),
    };
    let after = trim_start_matches_exec(&stripped, &dot);
    if after.len() == 0 {
        chars_of("__init__.py")
    } else {
        let mut out = replace_exec(&after, &dot, &slash);
        push_str(&mut out, ".py");
        out
    }
}

/// Computes `py_import_entry`.
fn py_import_entry_exec(t: &Vec<char>, dir: &Vec<char>, pkg: &Option<Vec<char>>, line_no: usize) -> (r: Vec<
    (Vec<String>, String, usize),
>)
    ensures
        import_views(r@) == py_import_entry(
            t@,
            dir@,
            opt_chars(*pkg),
            line_no,
        ),
{
    proof {
        reveal_strlit(" import ");
        reveal_strlit(".");
        reveal_strlit(",");
    }
    let ghost pv = opt_chars(*pkg);
    let k_from_dot = chars_of("from .");
    let k_from = chars_of("from ");
    let k_import_kw = chars_of(" import ");
    let k_import = chars_of("import ");
    let dot = chars_of(".");
    let slash = chars_of("/");
    let mut out: Vec<(Vec<String>, String, usize)> = Vec::new();
    if let Some(rest) = strip_prefix_exec(t, &k_from_dot) {
        if let Some(ip) = find_exec(&rest, &k_import_kw) {
            let mod_part = subvec(&rest, 0, ip);
            let imp = subvec(&rest, ip + 8, rest.len());
            let symbols = parse_python_import_symbols_chars(&imp);
            let mut dots: usize = 0;
            while dots < mod_part.len() && mod_part[dots] == '.'
                invariant
                    dots <= mod_part.len(),
                    leading_dots(mod_part@, 0) == leading_dots(mod_part@, dots as int),
                decreases mod_part.len() - dots,
            {
                dots += 1;
            }
            let module_name = trim_start_matches_exec(&mod_part, &dot);
            let mut base = copy(dir);
            let mut k: usize = 0;
            while k < dots
                invariant
                    k <= dots,
                    base@ == parent_dir_n(dir@, k as nat),
                decreases dots - k,
            {
                base = parent_dir_chars(&base);
                k += 1;
            }
            let mut path = copy(&base);
            if module_name.len() == 0 {
                push_str(&mut path, "/__init__.py");
            } else {
                push_str(&mut path, "/");
                let replaced = replace_exec(&module_name, &dot, &slash);
                extend(&mut path, &replaced);
                push_str(&mut path, ".py");
            }
            if symbols.len() > 0 {
                let ghost sv = views(symbols@);
                out.push((symbols, string_of(&path), line_no));
                assert(import_views(out@) =~= seq![(sv, path@, line_no)]);
            } else {
                assert(import_views(out@) =~= seq![]);
            }
        } else {
            assert(import_views(out@) =~= seq![]);
        }
        return out;
    }
    if let Some(rest) = strip_prefix_exec(t, &k_from) {
        if let Some(ip) = find_exec(&rest, &k_import_kw) {
            let mod_part = subvec(&rest, 0, ip);
            match pkg {
                Some(p) => {
                    if in_python_package_exec(&mod_part, p) {
                        let imp = subvec(&rest, ip + 8, rest.len());
                        let symbols = parse_python_import_symbols_chars(&imp);
                        if symbols.len() > 0 {
                            let file = py_pkg_file_exec(&mod_part, p);
                            let ghost sv = views(symbols@);
                            out.push((symbols, string_of(&file), line_no));
                            assert(import_views(out@) =~= seq![(sv, file@, line_no)]);
                        } else {
                            assert(import_views(out@) =~= seq![]);
                        }
                    } else {
                        assert(import_views(out@) =~= seq![]);
                    }
                },
                None => {
                    assert(import_views(out@) =~= seq![]);
                },
            }
        } else {
            assert(import_views(out@) =~= seq![]);
        }
        return out;
    }
    if let Some(rest) = strip_prefix_exec(t, &k_import) {
        match pkg {
            Some(p) => {
                let comma = chars_of(",");
                let as_kw = chars_of(" as ");
                let parts = split_exec(&rest, &comma);
                let mut i: usize = 0;
                while i < parts.len()
                    invariant
                        i <= parts.len(),
                        as_kw@ == " as "@,
                        vviews(parts@) == split(rest@, ","@),
                        import_views(out@) == py_bare_imports(vviews(parts@), i as int, p@, line_no),
                    decreases parts.len() - i,
                {
                    let tp = trim_exec(&parts[i]);
                    let b = before_first_exec(&tp, &as_kw);
                    let mp = trim_exec(&b);
                    assert(mp@ == import_item(vviews(parts@)[i as int]));
                    let ghost before = import_views(out@);
                    if in_python_package_exec(&mp, p) {
                        let file = py_pkg_file_exec(&mp, p);
                        let mut syms: Vec<String> = Vec::new();
                        syms.push("module".to_string());
                        assert(views(syms@) =~= seq!["module"@]);
                        out.push((syms, string_of(&file), line_no));
                        assert(import_views(out@) =~= before.push((seq!["module"@], file@, line_no)));
                    }
                    assert(import_views(out@) =~= py_bare_imports(vviews(parts@), i + 1, p@, line_no));
                    i += 1;
                }
            },
            None => {
                assert(import_views(out@) =~= seq![]);
            },
        }
        return out;
    }
    assert(import_views(out@) =~= seq![]);
    out
}

/// Extract Python imports: relative (`from .mod import X`, resolved against the
/// file's directory, one level up per extra dot) and absolute ones under the
/// package root (`from pkg.mod import X`, `import pkg.mod`), resolved below it.
pub fn extract_imports_python(
    source: &str,
    current_file: &str,
    package_root: &PythonPackageRoot,
) -> (r: Vec<(Vec<String>, String, usize)>)
    requires
        text_fits(source@),
    ensures
        import_views(r@) == py_imports(
            lines(source@),
            lines(source@).len() as int,
            parent_dir_spec(current_file@),
            opt_text(*package_root),
        ),
{
    let dir_s = parent_dir(current_file);
    let dir = chars_of_string(&dir_s);
    let pkg: Option<Vec<char>> = match package_root {
        Some(p) => Some(chars_of_string(p)),
        None => None,
    };
    let ghost pv = opt_chars(pkg);
    assert(pv == opt_text(*package_root));
    let src = chars_of(source);
    let ls = lines_exec(&src);
    proof {
        lemma_lines_len(src@);
    }
    let mut out: Vec<(Vec<String>, String, usize)> = Vec::new();
    let mut i: usize = 0;
    while i < ls.len()
        invariant
            i <= ls.len(),
            ls.len() <= source@.len(),
            text_fits(source@),
            dir@ == parent_dir_spec(current_file@),
            pv == opt_chars(pkg),
            vviews(ls@) == lines(source@),
            import_views(out@) == py_imports(vviews(ls@), i as int, dir@, pv),
        decreases ls.len() - i,
    {
        let t = trim_exec(&ls[i]);
        let found = py_import_entry_exec(&t, &dir, &pkg, i + 1);
        let ghost before = import_views(out@);
        let ghost added = import_views(found@);
        let mut k: usize = 0;
        while k < found.len()
            invariant
                k <= found.len(),
                added == import_views(found@),
                import_views(out@) == before + added.take(k as int),
            decreases found.len() - k,
        {
            let ghost prev = out@;
            let e = (crate::entity::copy_strings(&found[k].0), found[k].1.clone(), found[k].2);
            out.push(e);
            assert(out@ =~= prev.push(e));
            assert(import_views(out@) =~= import_views(prev).push(added[k as int]));
            assert(added.take(k + 1) =~= added.take(k as int).push(added[k as int]));
            assert(import_views(out@) =~= before + added.take(k + 1));
            k += 1;
        }
        assert(added.take(found.len() as int) =~= added);
        assert(import_views(out@) =~= py_imports(vviews(ls@), i + 1, dir@, pv));
        i += 1;
    }
    out
}

} // verus!
