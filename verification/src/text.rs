//! Character-level text primitives over `Seq<char>`: the building blocks of the parsers.
//!
//! Each spec function states what the corresponding `str` operation of the
//! standard library yields, read at the level of characters; each exec function
//! computes it on a `Vec<char>` and is proved against it.
use vstd::prelude::*;

verus! {

broadcast use vstd::string::group_string_axioms;

// ─── Specifications ────────────────────────────────────────────────

/// Unicode `White_Space`, the set `char::is_whitespace` tests.
pub open spec fn is_ws(c: char) -> bool {
    let u = c as u32;
    ||| u == 0x20
    ||| 0x09 <= u <= 0x0d
    ||| u == 0x85
    ||| u == 0xa0
    ||| u == 0x1680
    ||| 0x2000 <= u <= 0x200a
    ||| u == 0x2028
    ||| u == 0x2029
    ||| u == 0x202f
    ||| u == 0x205f
    ||| u == 0x3000
}

/// Whether `char::is_alphanumeric` holds of a character (Unicode `Alphabetic` or `Numeric`).
pub uninterp spec fn char_alnum(c: char) -> bool;

/// The characters that continue an identifier in the scanners: alphanumeric or `_`.
pub open spec fn is_ident_char(c: char) -> bool {
    char_alnum(c) || c == '_'
}

/// Index of the first position at or after `i` that is not whitespace.
pub open spec fn ws_run_from(s: Seq<char>, i: int) -> int
    decreases s.len() - i,
{
    if 0 <= i < s.len() && is_ws(s[i]) {
        ws_run_from(s, i + 1)
    } else {
        i
    }
}

/// Index just past the last non-whitespace character at or before `j`.
pub open spec fn ws_back_from(s: Seq<char>, j: int) -> int
    decreases j,
{
    if 0 < j <= s.len() && is_ws(s[j - 1]) {
        ws_back_from(s, j - 1)
    } else {
        j
    }
}

/// `str::trim_start`.
pub open spec fn trim_start(s: Seq<char>) -> Seq<char> {
    s.subrange(ws_run_from(s, 0), s.len() as int)
}

/// `str::trim_end`.
pub open spec fn trim_end(s: Seq<char>) -> Seq<char> {
    s.subrange(0, ws_back_from(s, s.len() as int))
}

/// `str::trim`.
pub open spec fn trim(s: Seq<char>) -> Seq<char> {
    trim_end(trim_start(s))
}

/// Length of the run of identifier characters starting at `i`, as an end index.
pub open spec fn ident_run_from(s: Seq<char>, i: int) -> int
    decreases s.len() - i,
{
    if 0 <= i < s.len() && is_ident_char(s[i]) {
        ident_run_from(s, i + 1)
    } else {
        i
    }
}

/// `s.chars().take_while(|c| c.is_alphanumeric() || *c == '_')`.
pub open spec fn ident_prefix(s: Seq<char>) -> Seq<char> {
    s.subrange(0, ident_run_from(s, 0))
}

/// `p` occurs in `s` at position `i`.
pub open spec fn matches_at(s: Seq<char>, p: Seq<char>, i: int) -> bool {
    0 <= i && i + p.len() <= s.len() && s.subrange(i, i + p.len()) == p
}

/// Leftmost occurrence of `p` in `s` at or after `i`.
pub open spec fn find_from(s: Seq<char>, p: Seq<char>, i: int) -> Option<int>
    decreases s.len() - i,
{
    if i < 0 || i + p.len() > s.len() {
        None
    } else if p.len() == 0 || matches_at(s, p, i) {
        Some(i)
    } else {
        find_from(s, p, i + 1)
    }
}

/// Where `find_from` lands: at or after the start, with room for the pattern.
pub proof fn lemma_find_from_bounds(s: Seq<char>, p: Seq<char>, i: int)
    ensures
        find_from(s, p, i) matches Some(j) ==> i <= j && j + p.len() <= s.len() && matches_at(s, p, j),
    decreases s.len() - i,
{
    if i < 0 || i + p.len() > s.len() {
    } else if p.len() == 0 || matches_at(s, p, i) {
        assert(s.subrange(i, i + p.len()) =~= p);
    } else {
        lemma_find_from_bounds(s, p, i + 1);
    }
}

/// Searching for a character from `k` finds it at `j` when it occurs there and
/// nowhere between `k` and `j`.
pub proof fn lemma_find_char_at(s: Seq<char>, c: char, k: int, j: int)
    requires
        0 <= k <= j < s.len(),
        s[j] == c,
        forall|i: int| k <= i < j ==> s[i] != c,
    ensures
        find_from(s, seq![c], k) == Some(j),
    decreases j - k,
{
    if k == j {
        assert(s.subrange(j, j + 1) =~= seq![c]);
    } else {
        assert(s.subrange(k, k + 1)[0] == s[k]);
        assert(!matches_at(s, seq![c], k));
        lemma_find_char_at(s, c, k + 1, j);
    }
}

/// Searching for a character from `k` finds nothing when it does not occur
/// from `k` on.
pub proof fn lemma_find_char_none(s: Seq<char>, c: char, k: int)
    requires
        0 <= k <= s.len(),
        forall|i: int| k <= i < s.len() ==> s[i] != c,
    ensures
        find_from(s, seq![c], k) is None,
    decreases s.len() - k,
{
    if k < s.len() {
        assert(s.subrange(k, k + 1)[0] == s[k]);
        assert(!matches_at(s, seq![c], k));
        lemma_find_char_none(s, c, k + 1);
    }
}

/// A search from `i` finds something where the pattern occurs at or after `i`.
pub proof fn lemma_find_from_some(s: Seq<char>, p: Seq<char>, i: int, j: int)
    requires
        0 <= i <= j,
        matches_at(s, p, j),
    ensures
        find_from(s, p, i) is Some,
    decreases j - i,
{
    if i < j && !(p.len() == 0 || matches_at(s, p, i)) {
        lemma_find_from_some(s, p, i + 1, j);
    }
}

/// Where `rfind_before` lands.
pub proof fn lemma_rfind_before_bounds(s: Seq<char>, p: Seq<char>, j: int)
    ensures
        rfind_before(s, p, j) matches Some(i) ==> 0 <= i < j && i + p.len() <= s.len() && matches_at(s, p, i),
    decreases j,
{
    if j <= 0 {
    } else if matches_at(s, p, j - 1) {
    } else {
        lemma_rfind_before_bounds(s, p, j - 1);
    }
}

/// `str::find`, counted in characters.
pub open spec fn find(s: Seq<char>, p: Seq<char>) -> Option<int> {
    find_from(s, p, 0)
}

/// `str::contains`.
pub open spec fn contains(s: Seq<char>, p: Seq<char>) -> bool {
    find(s, p) is Some
}

/// Rightmost occurrence of `p` in `s` that starts before `j`.
pub open spec fn rfind_before(s: Seq<char>, p: Seq<char>, j: int) -> Option<int>
    decreases j,
{
    if j <= 0 {
        None
    } else if matches_at(s, p, j - 1) {
        Some(j - 1)
    } else {
        rfind_before(s, p, j - 1)
    }
}

/// `str::rfind`, counted in characters.
pub open spec fn rfind(s: Seq<char>, p: Seq<char>) -> Option<int> {
    rfind_before(s, p, s.len() + 1int)
}

/// `str::starts_with`.
pub open spec fn starts_with(s: Seq<char>, p: Seq<char>) -> bool {
    p.len() <= s.len() && s.subrange(0, p.len() as int) == p
}

/// `str::ends_with`.
pub open spec fn ends_with(s: Seq<char>, p: Seq<char>) -> bool {
    p.len() <= s.len() && s.subrange(s.len() - p.len(), s.len() as int) == p
}

/// `str::strip_prefix`.
pub open spec fn strip_prefix(s: Seq<char>, p: Seq<char>) -> Option<Seq<char>> {
    if starts_with(s, p) {
        Some(s.subrange(p.len() as int, s.len() as int))
    } else {
        None
    }
}

/// `str::strip_suffix`.
pub open spec fn strip_suffix(s: Seq<char>, p: Seq<char>) -> Option<Seq<char>> {
    if ends_with(s, p) {
        Some(s.subrange(0, s.len() - p.len()))
    } else {
        None
    }
}

/// `str::trim_start_matches` with a non-empty string pattern.
pub open spec fn trim_start_matches(s: Seq<char>, p: Seq<char>) -> Seq<char>
    decreases s.len(),
{
    if p.len() > 0 && starts_with(s, p) {
        trim_start_matches(s.subrange(p.len() as int, s.len() as int), p)
    } else {
        s
    }
}

/// `str::trim_end_matches` with a non-empty string pattern.
pub open spec fn trim_end_matches(s: Seq<char>, p: Seq<char>) -> Seq<char>
    decreases s.len(),
{
    if p.len() > 0 && ends_with(s, p) {
        trim_end_matches(s.subrange(0, s.len() - p.len()), p)
    } else {
        s
    }
}

/// `str::trim_matches` with a single character.
pub open spec fn trim_matches_char(s: Seq<char>, c: char) -> Seq<char> {
    trim_end_matches(trim_start_matches(s, seq![c]), seq![c])
}

/// The pieces of `s` between the successive occurrences of `p` found from `k` on.
pub open spec fn split_from(s: Seq<char>, p: Seq<char>, k: int) -> Seq<Seq<char>>
    decreases s.len() - k,
{
    if p.len() == 0 || k < 0 || k > s.len() {
        seq![]
    } else {
        match find_from(s, p, k) {
            None => seq![s.subrange(k, s.len() as int)],
            Some(i) => {
                proof {
                    lemma_find_from_bounds(s, p, k);
                }
                seq![s.subrange(k, i)] + split_from(s, p, i + p.len())
            },
        }
    }
}

/// `str::split` with a non-empty pattern, collected.
pub open spec fn split(s: Seq<char>, p: Seq<char>) -> Seq<Seq<char>> {
    split_from(s, p, 0)
}

/// `s.split(p).next().unwrap()`: the text before the first occurrence of `p`.
pub open spec fn before_first(s: Seq<char>, p: Seq<char>) -> Seq<char> {
    match find(s, p) {
        None => s,
        Some(i) => s.subrange(0, i),
    }
}

/// `s.rsplit(c).next().unwrap()` for a single character: the text after the last `c`.
pub open spec fn after_last_char(s: Seq<char>, c: char) -> Seq<char> {
    match rfind(s, seq![c]) {
        None => s,
        Some(i) => s.subrange(i + 1, s.len() as int),
    }
}

/// `str::replace` with a non-empty pattern.
pub open spec fn replace_from(s: Seq<char>, p: Seq<char>, t: Seq<char>, k: int) -> Seq<char>
    decreases s.len() - k,
{
    if p.len() == 0 || k < 0 || k > s.len() {
        seq![]
    } else {
        match find_from(s, p, k) {
            None => s.subrange(k, s.len() as int),
            Some(i) => {
                proof {
                    lemma_find_from_bounds(s, p, k);
                }
                s.subrange(k, i) + t + replace_from(s, p, t, i + p.len())
            },
        }
    }
}

/// `str::replace` with a non-empty pattern.
pub open spec fn replace(s: Seq<char>, p: Seq<char>, t: Seq<char>) -> Seq<char> {
    replace_from(s, p, t, 0)
}

/// The pieces joined with `sep` between them (`[&str]::join`).
pub open spec fn join(parts: Seq<Seq<char>>, sep: Seq<char>) -> Seq<char>
    decreases parts.len(),
{
    if parts.len() == 0 {
        seq![]
    } else if parts.len() == 1 {
        parts[0]
    } else {
        join(parts.drop_last(), sep) + sep + parts.last()
    }
}

/// A line as `str::lines` yields it: a `\r` before the `\n` is dropped.
pub open spec fn strip_cr(x: Seq<char>) -> Seq<char> {
    if x.len() > 0 && x.last() == '\r' {
        x.drop_last()
    } else {
        x
    }
}

/// The lines of `s` from position `k` on, as `str::lines` yields them.
pub open spec fn lines_from(s: Seq<char>, k: int) -> Seq<Seq<char>>
    decreases s.len() - k,
{
    if k < 0 || k >= s.len() {
        seq![]
    } else {
        match find_from(s, seq!['\n'], k) {
            None => seq![s.subrange(k, s.len() as int)],
            Some(i) => {
                proof {
                    lemma_find_from_bounds(s, seq!['\n'], k);
                }
                seq![strip_cr(s.subrange(k, i))] + lines_from(s, i + 1)
            },
        }
    }
}

/// `str::lines`, collected.
pub open spec fn lines(s: Seq<char>) -> Seq<Seq<char>> {
    lines_from(s, 0)
}

/// The decimal digit for `d < 10`.
pub open spec fn digit(d: nat) -> char {
    if d == 0 { '0' }
    else if d == 1 { '1' }
    else if d == 2 { '2' }
    else if d == 3 { '3' }
    else if d == 4 { '4' }
    else if d == 5 { '5' }
    else if d == 6 { '6' }
    else if d == 7 { '7' }
    else if d == 8 { '8' }
    else { '9' }
}

/// The decimal rendering of a natural number, as `{}` formats an unsigned integer.
pub open spec fn decimal(n: nat) -> Seq<char>
    decreases n,
{
    if n < 10 {
        seq![digit(n)]
    } else {
        decimal(n / 10).push(digit(n % 10))
    }
}

/// The views of a sequence of character vectors.
pub open spec fn vviews(v: Seq<Vec<char>>) -> Seq<Seq<char>> {
    v.map_values(|x: Vec<char>| x@)
}

/// The views of a sequence of strings.
pub open spec fn views(v: Seq<String>) -> Seq<Seq<char>> {
    v.map_values(|s: String| s@)
}

// ─── Conversions ───────────────────────────────────────────────────

/// The characters of a string slice, in order.
pub fn chars_of(s: &str) -> (r: Vec<char>)
    ensures
        r@ == s@,
{
    let mut out: Vec<char> = Vec::new();
    for c in it: s.chars()
        invariant
            out@ == it.seq().take(it.index() as int),
            it.seq() == s@,
    {
        out.push(c);
    }
    out
}

/// Appends a character to a `String` (`String::push`).
#[verifier::external_body]
fn push_char(s: &mut String, c: char)
    ensures
        final(s)@ == old(s)@.push(c),
{
    s.push(c);
}

/// The `String` made of the given characters.
pub fn string_of(v: &Vec<char>) -> (r: String)
    ensures
        r@ == v@,
{
    let mut out = String::new();
    let mut i: usize = 0;
    while i < v.len()
        invariant
            i <= v.len(),
            out@ == v@.take(i as int),
        decreases v.len() - i,
    {
        push_char(&mut out, v[i]);
        assert(v@.take(i as int).push(v@[i as int]) =~= v@.take(i + 1));
        i += 1;
    }
    assert(v@.take(v.len() as int) =~= v@);
    out
}

/// Whether `char::is_alphanumeric` holds.
#[verifier::external_body]
pub(crate) fn is_alphanumeric(c: char) -> (r: bool)
    ensures
        r == char_alnum(c),
{
    c.is_alphanumeric()
}

/// `char::is_whitespace`.
pub fn is_whitespace(c: char) -> (r: bool)
    ensures
        r == is_ws(c),
{
    let u = c as u32;
    u == 0x20 || (0x09 <= u && u <= 0x0d) || u == 0x85 || u == 0xa0 || u == 0x1680 || (0x2000
        <= u && u <= 0x200a) || u == 0x2028 || u == 0x2029 || u == 0x202f || u == 0x205f || u
        == 0x3000
}

// ─── Building blocks ───────────────────────────────────────────────

/// The characters of `v` from `i` up to `j`.
pub fn subvec(v: &Vec<char>, i: usize, j: usize) -> (r: Vec<char>)
    requires
        i <= j <= v.len(),
    ensures
        r@ == v@.subrange(i as int, j as int),
{
    let mut out: Vec<char> = Vec::new();
    let mut k = i;
    while k < j
        invariant
            i <= k <= j <= v.len(),
            out@ == v@.subrange(i as int, k as int),
        decreases j - k,
    {
        out.push(v[k]);
        assert(v@.subrange(i as int, k as int).push(v@[k as int]) =~= v@.subrange(
            i as int,
            k + 1,
        ));
        k += 1;
    }
    out
}

/// Appends the characters of `w` to `v`.
pub fn extend(v: &mut Vec<char>, w: &Vec<char>)
    ensures
        final(v)@ == old(v)@ + w@,
{
    let mut k: usize = 0;
    while k < w.len()
        invariant
            k <= w.len(),
            v@ == old(v)@ + w@.take(k as int),
        decreases w.len() - k,
    {
        v.push(w[k]);
        assert(old(v)@ + w@.take(k as int).push(w@[k as int]) =~= old(v)@ + w@.take(k + 1));
        k += 1;
    }
    assert(w@.take(w.len() as int) =~= w@);
}

/// The concatenation of two character vectors.
pub fn concat(a: &Vec<char>, b: &Vec<char>) -> (r: Vec<char>)
    ensures
        r@ == a@ + b@,
{
    let mut out = subvec(a, 0, a.len());
    assert(a@.subrange(0, a.len() as int) =~= a@);
    extend(&mut out, b);
    out
}

/// A copy of a character vector.
pub fn copy(a: &Vec<char>) -> (r: Vec<char>)
    ensures
        r@ == a@,
{
    let out = subvec(a, 0, a.len());
    assert(a@.subrange(0, a.len() as int) =~= a@);
    out
}

/// Whether two character vectors hold the same text.
pub fn eq(a: &Vec<char>, b: &Vec<char>) -> (r: bool)
    ensures
        r == (a@ == b@),
{
    if a.len() != b.len() {
        return false;
    }
    let mut k: usize = 0;
    while k < a.len()
        invariant
            k <= a.len() == b.len(),
            a@.take(k as int) == b@.take(k as int),
        decreases a.len() - k,
    {
        if a[k] != b[k] {
            assert(a@[k as int] != b@[k as int]);
            return false;
        }
        assert(a@.take(k + 1) =~= a@.take(k as int).push(a@[k as int]));
        assert(b@.take(k + 1) =~= b@.take(k as int).push(b@[k as int]));
        k += 1;
    }
    assert(a@ =~= a@.take(a.len() as int));
    assert(b@ =~= b@.take(b.len() as int));
    true
}

/// Whether `p` occurs in `s` at position `i`.
pub fn matches_at_exec(s: &Vec<char>, p: &Vec<char>, i: usize) -> (r: bool)
    ensures
        r == matches_at(s@, p@, i as int),
{
    if i > s.len() || p.len() > s.len() - i {
        return false;
    }
    let mut k: usize = 0;
    while k < p.len()
        invariant
            i + p.len() <= s.len(),
            k <= p.len(),
            s@.subrange(i as int, i + k) == p@.take(k as int),
        decreases p.len() - k,
    {
        if s[i + k] != p[k] {
            assert(s@.subrange(i as int, i + p.len())[k as int] != p@[k as int]);
            return false;
        }
        assert(s@.subrange(i as int, i + k + 1) =~= s@.subrange(i as int, i + k).push(
            s@[i + k],
        ));
        assert(p@.take(k + 1) =~= p@.take(k as int).push(p@[k as int]));
        k += 1;
    }
    assert(p@.take(p.len() as int) =~= p@);
    true
}

/// Whether two strings are equal.
pub fn same_text(a: &String, b: &String) -> (r: bool)
    ensures
        r == (a@ == b@),
{
    let x = chars_of(a.as_str());
    let y = chars_of(b.as_str());
    eq(&x, &y)
}

/// Leftmost occurrence of `p` in `s` at or after `from`.
pub fn find_from_exec(s: &Vec<char>, p: &Vec<char>, from: usize) -> (r: Option<usize>)
    ensures
        r matches Some(i) ==> find_from(s@, p@, from as int) == Some(i as int) && from <= i && i
            + p.len() <= s.len(),
        r is None ==> find_from(s@, p@, from as int) is None,
{
    proof {
        lemma_find_from_bounds(s@, p@, from as int);
    }
    if from > s.len() || p.len() > s.len() - from {
        return None;
    }
    let last = s.len() - p.len();
    let mut i = from;
    while i <= last
        invariant
            from <= i <= last + 1,
            last == s.len() - p.len(),
            find_from(s@, p@, from as int) == find_from(s@, p@, i as int),
        decreases last + 1 - i,
    {
        if p.len() == 0 || matches_at_exec(s, p, i) {
            return Some(i);
        }
        i += 1;
    }
    None
}

/// `str::find`.
pub fn find_exec(s: &Vec<char>, p: &Vec<char>) -> (r: Option<usize>)
    ensures
        r matches Some(i) ==> find(s@, p@) == Some(i as int) && i + p.len() <= s.len(),
        r is None ==> find(s@, p@) is None,
{
    find_from_exec(s, p, 0)
}

/// `str::find` with a single character.
pub fn find_char(s: &Vec<char>, c: char) -> (r: Option<usize>)
    ensures
        r matches Some(i) ==> find(s@, seq![c]) == Some(i as int) && i < s.len(),
        r is None ==> find(s@, seq![c]) is None,
{
    let mut p: Vec<char> = Vec::new();
    p.push(c);
    assert(p@ =~= seq![c]);
    find_exec(s, &p)
}

/// `str::contains`.
pub fn contains_exec(s: &Vec<char>, p: &Vec<char>) -> (r: bool)
    ensures
        r == contains(s@, p@),
{
    find_exec(s, p).is_some()
}

/// `str::contains` with a single character.
pub fn contains_char(s: &Vec<char>, c: char) -> (r: bool)
    ensures
        r == contains(s@, seq![c]),
{
    find_char(s, c).is_some()
}

/// `str::rfind`.
pub fn rfind_exec(s: &Vec<char>, p: &Vec<char>) -> (r: Option<usize>)
    ensures
        r matches Some(i) ==> rfind(s@, p@) == Some(i as int) && i + p.len() <= s.len(),
        r is None ==> rfind(s@, p@) is None,
{
    proof {
        lemma_rfind_before_bounds(s@, p@, s.len() + 1int);
    }
    if matches_at_exec(s, p, s.len()) {
        return Some(s.len());
    }
    let mut j: usize = s.len();
    while j > 0
        invariant
            j <= s.len() + 1,
            rfind(s@, p@) == rfind_before(s@, p@, j as int),
        decreases j,
    {
        proof {
            lemma_rfind_before_bounds(s@, p@, j as int);
        }
        if matches_at_exec(s, p, j - 1) {
            return Some(j - 1);
        }
        j -= 1;
    }
    None
}

/// `str::starts_with`.
pub fn starts_with_exec(s: &Vec<char>, p: &Vec<char>) -> (r: bool)
    ensures
        r == starts_with(s@, p@),
{
    matches_at_exec(s, p, 0)
}

/// `str::ends_with`.
pub fn ends_with_exec(s: &Vec<char>, p: &Vec<char>) -> (r: bool)
    ensures
        r == ends_with(s@, p@),
{
    if p.len() > s.len() {
        false
    } else {
        matches_at_exec(s, p, s.len() - p.len())
    }
}

/// `str::strip_prefix`.
pub fn strip_prefix_exec(s: &Vec<char>, p: &Vec<char>) -> (r: Option<Vec<char>>)
    ensures
        r matches Some(t) ==> strip_prefix(s@, p@) == Some(t@),
        r is None ==> strip_prefix(s@, p@) is None,
{
    if starts_with_exec(s, p) {
        Some(subvec(s, p.len(), s.len()))
    } else {
        None
    }
}

/// `str::trim_start`.
pub fn trim_start_exec(s: &Vec<char>) -> (r: Vec<char>)
    ensures
        r@ == trim_start(s@),
{
    let mut i: usize = 0;
    while i < s.len() && is_whitespace(s[i])
        invariant
            i <= s.len(),
            ws_run_from(s@, 0) == ws_run_from(s@, i as int),
        decreases s.len() - i,
    {
        i += 1;
    }
    subvec(s, i, s.len())
}

/// `str::trim_end`.
pub fn trim_end_exec(s: &Vec<char>) -> (r: Vec<char>)
    ensures
        r@ == trim_end(s@),
{
    let mut j: usize = s.len();
    while j > 0 && is_whitespace(s[j - 1])
        invariant
            j <= s.len(),
            ws_back_from(s@, s.len() as int) == ws_back_from(s@, j as int),
        decreases j,
    {
        j -= 1;
    }
    subvec(s, 0, j)
}

/// `str::trim`.
pub fn trim_exec(s: &Vec<char>) -> (r: Vec<char>)
    ensures
        r@ == trim(s@),
{
    let t = trim_start_exec(s);
    trim_end_exec(&t)
}

/// `s.chars().take_while(|c| c.is_alphanumeric() || *c == '_').collect()`.
pub fn ident_prefix_exec(s: &Vec<char>) -> (r: Vec<char>)
    ensures
        r@ == ident_prefix(s@),
{
    let mut i: usize = 0;
    while i < s.len() && (is_alphanumeric(s[i]) || s[i] == '_')
        invariant
            i <= s.len(),
            ident_run_from(s@, 0) == ident_run_from(s@, i as int),
        decreases s.len() - i,
    {
        i += 1;
    }
    subvec(s, 0, i)
}

/// `str::trim_start_matches` with a non-empty pattern.
pub fn trim_start_matches_exec(s: &Vec<char>, p: &Vec<char>) -> (r: Vec<char>)
    requires
        p.len() > 0,
    ensures
        r@ == trim_start_matches(s@, p@),
{
    let mut cur = copy(s);
    while starts_with_exec(&cur, p)
        invariant
            p.len() > 0,
            trim_start_matches(s@, p@) == trim_start_matches(cur@, p@),
        decreases cur.len(),
    {
        cur = subvec(&cur, p.len(), cur.len());
    }
    cur
}

/// `str::trim_end_matches` with a non-empty pattern.
pub fn trim_end_matches_exec(s: &Vec<char>, p: &Vec<char>) -> (r: Vec<char>)
    requires
        p.len() > 0,
    ensures
        r@ == trim_end_matches(s@, p@),
{
    let mut cur = copy(s);
    while ends_with_exec(&cur, p)
        invariant
            p.len() > 0,
            trim_end_matches(s@, p@) == trim_end_matches(cur@, p@),
        decreases cur.len(),
    {
        cur = subvec(&cur, 0, cur.len() - p.len());
    }
    cur
}

/// `str::trim_matches` with a single character.
pub fn trim_matches_char_exec(s: &Vec<char>, c: char) -> (r: Vec<char>)
    ensures
        r@ == trim_matches_char(s@, c),
{
    let mut p: Vec<char> = Vec::new();
    p.push(c);
    assert(p@ =~= seq![c]);
    let t = trim_start_matches_exec(s, &p);
    trim_end_matches_exec(&t, &p)
}

/// `str::split` with a non-empty pattern, collected.
pub fn split_exec(s: &Vec<char>, p: &Vec<char>) -> (r: Vec<Vec<char>>)
    requires
        p.len() > 0,
    ensures
        vviews(r@) == split(s@, p@),
{
    let mut out: Vec<Vec<char>> = Vec::new();
    let mut k: usize = 0;
    loop
        invariant
            p.len() > 0,
            k <= s.len(),
            split(s@, p@) == vviews(out@) + split_from(s@, p@, k as int),
        decreases s.len() - k,
    {
        match find_from_exec(s, p, k) {
            None => {
                let piece = subvec(s, k, s.len());
                let ghost old_out = vviews(out@);
                out.push(piece);
                assert(vviews(out@) =~= old_out.push(piece@));
                assert(split(s@, p@) =~= vviews(out@));
                return out;
            },
            Some(i) => {
                let piece = subvec(s, k, i);
                let ghost old_out = vviews(out@);
                out.push(piece);
                assert(vviews(out@) =~= old_out.push(piece@));
                assert(old_out + split_from(s@, p@, k as int) =~= vviews(out@) + split_from(
                    s@,
                    p@,
                    (i + p.len()) as int,
                ));
                k = i + p.len();
            },
        }
    }
}

/// `s.split(p).next().unwrap()`.
pub fn before_first_exec(s: &Vec<char>, p: &Vec<char>) -> (r: Vec<char>)
    ensures
        r@ == before_first(s@, p@),
{
    match find_exec(s, p) {
        None => copy(s),
        Some(i) => subvec(s, 0, i),
    }
}

/// `s.rsplit(c).next().unwrap()` for a single character.
pub fn after_last_char_exec(s: &Vec<char>, c: char) -> (r: Vec<char>)
    ensures
        r@ == after_last_char(s@, c),
{
    let mut p: Vec<char> = Vec::new();
    p.push(c);
    assert(p@ =~= seq![c]);
    match rfind_exec(s, &p) {
        None => copy(s),
        Some(i) => subvec(s, i + 1, s.len()),
    }
}

/// `str::replace` with a non-empty pattern.
pub fn replace_exec(s: &Vec<char>, p: &Vec<char>, t: &Vec<char>) -> (r: Vec<char>)
    requires
        p.len() > 0,
    ensures
        r@ == replace(s@, p@, t@),
{
    let mut out: Vec<char> = Vec::new();
    let mut k: usize = 0;
    loop
        invariant
            p.len() > 0,
            k <= s.len(),
            replace(s@, p@, t@) == out@ + replace_from(s@, p@, t@, k as int),
        decreases s.len() - k,
    {
        match find_from_exec(s, p, k) {
            None => {
                let piece = subvec(s, k, s.len());
                extend(&mut out, &piece);
                return out;
            },
            Some(i) => {
                let piece = subvec(s, k, i);
                let ghost before = out@;
                extend(&mut out, &piece);
                extend(&mut out, t);
                assert(before + replace_from(s@, p@, t@, k as int) =~= out@ + replace_from(
                    s@,
                    p@,
                    t@,
                    (i + p.len()) as int,
                ));
                k = i + p.len();
            },
        }
    }
}

/// Joins pieces with a separator.
pub fn join_exec(parts: &Vec<Vec<char>>, sep: &Vec<char>) -> (r: Vec<char>)
    ensures
        r@ == join(vviews(parts@), sep@),
{
    let mut out: Vec<char> = Vec::new();
    let mut k: usize = 0;
    while k < parts.len()
        invariant
            k <= parts.len(),
            out@ == join(vviews(parts@).take(k as int), sep@),
        decreases parts.len() - k,
    {
        let ghost pre = vviews(parts@).take(k as int);
        let ghost post = vviews(parts@).take(k + 1);
        assert(post.drop_last() =~= pre);
        if k > 0 {
            extend(&mut out, sep);
        } else {
            assert(out@ =~= seq![]);
        }
        extend(&mut out, &parts[k]);
        k += 1;
    }
    assert(vviews(parts@).take(parts.len() as int) =~= vviews(parts@));
    out
}

/// `str::lines`, collected.
pub fn lines_exec(s: &Vec<char>) -> (r: Vec<Vec<char>>)
    ensures
        vviews(r@) == lines(s@),
{
    let mut out: Vec<Vec<char>> = Vec::new();
    let mut nl: Vec<char> = Vec::new();
    nl.push('\n');
    assert(nl@ =~= seq!['\n']);
    let mut k: usize = 0;
    while k < s.len()
        invariant
            nl@ == seq!['\n'],
            k <= s.len(),
            lines(s@) == vviews(out@) + lines_from(s@, k as int),
        decreases s.len() - k,
    {
        let ghost old_out = vviews(out@);
        match find_from_exec(s, &nl, k) {
            None => {
                let piece = subvec(s, k, s.len());
                out.push(piece);
                assert(vviews(out@) =~= old_out.push(piece@));
                assert(lines_from(s@, s.len() as int) =~= seq![]);
                assert(lines(s@) =~= vviews(out@) + lines_from(s@, s.len() as int));
                k = s.len();
            },
            Some(i) => {
                let mut piece = subvec(s, k, i);
                if piece.len() > 0 && piece[piece.len() - 1] == '\r' {
                    piece = subvec(&piece, 0, piece.len() - 1);
                    assert(piece@ =~= strip_cr(s@.subrange(k as int, i as int)));
                }
                out.push(piece);
                assert(vviews(out@) =~= old_out.push(piece@));
                assert(lines(s@) =~= vviews(out@) + lines_from(s@, i + 1));
                k = i + 1;
            },
        }
    }
    assert(lines_from(s@, k as int) =~= seq![]);
    assert(lines(s@) =~= vviews(out@));
    out
}

/// The decimal rendering of an unsigned integer (`format!("{}", n)`).
pub fn decimal_exec(n: u64) -> (r: Vec<char>)
    ensures
        r@ == decimal(n as nat),
    decreases n,
{
    let d = n % 10;
    let c = if d == 0 {
        '0'
    } else if d == 1 {
        '1'
    } else if d == 2 {
        '2'
    } else if d == 3 {
        '3'
    } else if d == 4 {
        '4'
    } else if d == 5 {
        '5'
    } else if d == 6 {
        '6'
    } else if d == 7 {
        '7'
    } else if d == 8 {
        '8'
    } else {
        '9'
    };
    assert(c == digit((n % 10) as nat));
    if n < 10 {
        let mut out: Vec<char> = Vec::new();
        out.push(c);
        assert(out@ =~= seq![c]);
        out
    } else {
        let mut out = decimal_exec(n / 10);
        out.push(c);
        out
    }
}

/// A signed integer as `{}` formats it.
pub open spec fn signed_decimal(n: int) -> Seq<char> {
    if n < 0 {
        "-"@ + decimal((-n) as nat)
    } else {
        decimal(n as nat)
    }
}

/// The six decimal digits of `f < 10⁶`, zero-padded.
pub open spec fn six_digits(f: nat) -> Seq<char> {
    seq![
        digit((f / 100_000) % 10),
        digit((f / 10_000) % 10),
        digit((f / 1_000) % 10),
        digit((f / 100) % 10),
        digit((f / 10) % 10),
        digit(f % 10),
    ]
}

/// `k` millionths as the shortest decimal that `{}` prints for the number
/// `k / 10⁶`: the integer part, then, unless it is whole, a point and the
/// fractional digits without trailing zeros.
pub open spec fn millionths_text(k: nat) -> Seq<char> {
    if k % 1_000_000 == 0 {
        decimal(k / 1_000_000)
    } else {
        decimal(k / 1_000_000) + "."@ + trim_end_matches(six_digits(k % 1_000_000), "0"@)
    }
}

/// A signed integer in decimal.
pub fn signed_decimal_exec(n: i64) -> (r: Vec<char>)
    ensures
        r@ == signed_decimal(n as int),
{
    if n < 0 {
        let m: u64 = (-(n as i128)) as u64;
        let mut out = chars_of("-");
        extend(&mut out, &decimal_exec(m));
        out
    } else {
        decimal_exec(n as u64)
    }
}

/// `k` millionths as the shortest decimal for `k / 10⁶`.
pub fn millionths_text_exec(k: u32) -> (r: Vec<char>)
    ensures
        r@ == millionths_text(k as nat),
{
    let whole = decimal_exec((k / 1_000_000) as u64);
    if k % 1_000_000 == 0 {
        whole
    } else {
        let f = k % 1_000_000;
        let mut digits: Vec<char> = Vec::new();
        extend(&mut digits, &decimal_exec(((f / 100_000) % 10) as u64));
        extend(&mut digits, &decimal_exec(((f / 10_000) % 10) as u64));
        extend(&mut digits, &decimal_exec(((f / 1_000) % 10) as u64));
        extend(&mut digits, &decimal_exec(((f / 100) % 10) as u64));
        extend(&mut digits, &decimal_exec(((f / 10) % 10) as u64));
        extend(&mut digits, &decimal_exec((f % 10) as u64));
        assert(digits@ =~= six_digits(f as nat));
        let zero = chars_of("0");
        proof {
            reveal_strlit("0");
        }
        let trimmed = trim_end_matches_exec(&digits, &zero);
        let mut out = whole;
        push_str(&mut out, ".");
        extend(&mut out, &trimmed);
        out
    }
}

/// What `{:?}` prints for a string: the string in double quotes, with
/// quotes, backslashes and control characters escaped.
pub uninterp spec fn str_debug(s: Seq<char>) -> Seq<char>;

/// `<str as Debug>::fmt`, through `format!("{:?}", s)`. The escaping rules
/// are only named.
#[verifier::external_body]
pub(crate) fn str_debug_text(s: &str) -> (r: String)
    ensures
        r@ == str_debug(s@),
{
    format!("{:?}", s)
}

/// Appends the characters of a string slice.
pub fn push_str(out: &mut Vec<char>, s: &str)
    ensures
        final(out)@ == old(out)@ + s@,
{
    let v = chars_of(s);
    extend(out, &v);
}

/// `a + b` as one string.
pub fn cat2(a: &str, b: &str) -> (r: String)
    ensures
        r@ == a@ + b@,
{
    let mut out: Vec<char> = Vec::new();
    push_str(&mut out, a);
    push_str(&mut out, b);
    assert(out@ =~= a@ + b@);
    string_of(&out)
}

/// `a + b + c` as one string.
pub fn cat3(a: &str, b: &str, c: &str) -> (r: String)
    ensures
        r@ == a@ + b@ + c@,
{
    let mut out: Vec<char> = Vec::new();
    push_str(&mut out, a);
    push_str(&mut out, b);
    push_str(&mut out, c);
    assert(out@ =~= a@ + b@ + c@);
    string_of(&out)
}

/// `a + b + c + d` as one string.
pub fn cat4(a: &str, b: &str, c: &str, d: &str) -> (r: String)
    ensures
        r@ == a@ + b@ + c@ + d@,
{
    let mut out: Vec<char> = Vec::new();
    push_str(&mut out, a);
    push_str(&mut out, b);
    push_str(&mut out, c);
    push_str(&mut out, d);
    assert(out@ =~= a@ + b@ + c@ + d@);
    string_of(&out)
}

/// The strings joined with `sep` between them.
pub fn join_strings(parts: &[String], sep: &str) -> (r: Vec<char>)
    ensures
        r@ == join(views(parts@), sep@),
{
    let mut pieces: Vec<Vec<char>> = Vec::new();
    let mut i: usize = 0;
    while i < parts.len()
        invariant
            i <= parts.len(),
            vviews(pieces@) == views(parts@).take(i as int),
        decreases parts.len() - i,
    {
        let c = chars_of(parts[i].as_str());
        let ghost prev = vviews(pieces@);
        pieces.push(c);
        assert(vviews(pieces@) =~= prev.push(c@));
        assert(views(parts@).take(i + 1) =~= views(parts@).take(i as int).push(parts@[i as int]@));
        i += 1;
    }
    assert(views(parts@).take(parts.len() as int) =~= views(parts@));
    let s = chars_of(sep);
    join_exec(&pieces, &s)
}

/// The characters of a `String`.
pub fn chars_of_string(s: &String) -> (r: Vec<char>)
    ensures
        r@ == s@,
{
    chars_of(s.as_str())
}

/// Each line of `lines_from(s, k)` takes at least one character of `s` from `k` on.
pub proof fn lemma_lines_from_len(s: Seq<char>, k: int)
    ensures
        0 <= k <= s.len() ==> lines_from(s, k).len() <= s.len() - k,
        k > s.len() ==> lines_from(s, k).len() == 0,
    decreases s.len() - k,
{
    if k < 0 || k >= s.len() {
    } else {
        lemma_find_from_bounds(s, seq!['\n'], k);
        match find_from(s, seq!['\n'], k) {
            None => {},
            Some(i) => {
                lemma_lines_from_len(s, i + 1);
            },
        }
    }
}

/// A text has no more lines than characters.
pub proof fn lemma_lines_len(s: Seq<char>)
    ensures
        lines(s).len() <= s.len(),
{
    lemma_lines_from_len(s, 0);
}

/// The text is short enough that line numbers and offsets computed from it fit a `usize`.
pub open spec fn text_fits(s: Seq<char>) -> bool {
    4 * s.len() + 64 < usize::MAX
}

/// Every line of `lines_from(s, k)` is no longer than `s`.
pub proof fn lemma_lines_from_elem_len(s: Seq<char>, k: int)
    ensures
        forall|j: int| 0 <= j < lines_from(s, k).len() ==> #[trigger] lines_from(s, k)[j].len() <= s.len(),
    decreases s.len() - k,
{
    if k < 0 || k >= s.len() {
    } else {
        lemma_find_from_bounds(s, seq!['\n'], k);
        match find_from(s, seq!['\n'], k) {
            None => {},
            Some(i) => {
                lemma_lines_from_elem_len(s, i + 1);
                let rest = lines_from(s, i + 1);
                let head = strip_cr(s.subrange(k, i));
                assert(lines_from(s, k) == seq![head] + rest);
                assert forall|j: int| 0 <= j < lines_from(s, k).len() implies #[trigger] lines_from(s, k)[j].len() <= s.len() by {
                    if j > 0 {
                        assert(lines_from(s, k)[j] == rest[j - 1]);
                    }
                }
            },
        }
    }
}

/// Every line of a text is no longer than the text.
pub proof fn lemma_lines_elem_len(s: Seq<char>)
    ensures
        forall|j: int| 0 <= j < lines(s).len() ==> #[trigger] lines(s)[j].len() <= s.len(),
{
    lemma_lines_from_elem_len(s, 0);
}

/// The number of bytes a character takes in UTF-8 (`char::len_utf8`).
pub open spec fn utf8_len(c: char) -> nat {
    let u = c as u32;
    if u < 0x80 {
        1
    } else if u < 0x800 {
        2
    } else if u < 0x10000 {
        3
    } else {
        4
    }
}

/// The number of bytes a text takes in UTF-8.
pub open spec fn utf8_bytes(s: Seq<char>) -> nat
    decreases s.len(),
{
    if s.len() == 0 {
        0
    } else {
        utf8_bytes(s.drop_last()) + utf8_len(s.last())
    }
}

/// The indentation of a line in bytes: `line.len() - line.trim_start().len()`.
pub open spec fn indent_bytes(line: Seq<char>) -> nat {
    utf8_bytes(line.subrange(0, ws_run_from(line, 0)))
}

/// A text takes at most four bytes per character.
pub proof fn lemma_utf8_bytes_bound(s: Seq<char>)
    ensures
        utf8_bytes(s) <= 4 * s.len(),
    decreases s.len(),
{
    if s.len() > 0 {
        lemma_utf8_bytes_bound(s.drop_last());
    }
}

/// The indentation of a line in bytes.
pub fn indent_bytes_exec(line: &Vec<char>) -> (r: usize)
    requires
        4 * line.len() < usize::MAX,
    ensures
        r == indent_bytes(line@),
{
    let mut i: usize = 0;
    let mut bytes: usize = 0;
    while i < line.len() && is_whitespace(line[i])
        invariant
            i <= line.len(),
            4 * line.len() < usize::MAX,
            ws_run_from(line@, 0) == ws_run_from(line@, i as int),
            bytes == utf8_bytes(line@.subrange(0, i as int)),
        decreases line.len() - i,
    {
        proof {
            lemma_utf8_bytes_bound(line@.subrange(0, i as int));
            assert(line@.subrange(0, i + 1).drop_last() =~= line@.subrange(0, i as int));
        }
        let u = line[i] as u32;
        let w: usize = if u < 0x80 {
            1
        } else if u < 0x800 {
            2
        } else if u < 0x10000 {
            3
        } else {
            4
        };
        bytes = bytes + w;
        i += 1;
    }
    bytes
}

} // verus!
