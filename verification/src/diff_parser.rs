//! Diff parser: compares the source of a file before and after a change and
//! classifies the change: signature changes, added and removed functions,
//! import changes, and otherwise a body change.
use vstd::prelude::*;

use crate::entity::{id_views, local_id, opt_view, EntityId};
use crate::event::{fresh_events, ChangeType, ChangeTypeView, payloads, push_event, EventPayload, PayloadView, UcmEvent};
use crate::source_events::{concat_all, concat_map};
use crate::text::{
    chars_of, chars_of_string, contains, contains_exec, eq, find, find_char, ident_prefix,
    ident_prefix_exec, join, join_exec, lines, lines_exec, split, split_exec, starts_with,
    starts_with_exec, string_of, subvec, trim, trim_exec, views, vviews,
};

verus! {

broadcast use vstd::string::group_string_axioms;

/// The function a trimmed line declares, if it contains `function ` and `(`:
/// the identifier after the last `function `.
pub open spec fn sig_name(t: Seq<char>) -> Option<Seq<char>> {
    if contains(t, "function "@) && contains(t, "("@) {
        let parts = split(t, "function "@);
        let name = ident_prefix(parts.last());
        if parts.len() >= 2 && name.len() > 0 {
            Some(name)
        } else {
            None
        }
    } else {
        None
    }
}

/// The signature of a trimmed declaring line: the text before the first `{`,
/// trimmed, or the whole line.
pub open spec fn sig_text(t: Seq<char>) -> Seq<char> {
    match find(t, "{"@) {
        Some(e) => trim(t.subrange(0, e)),
        None => t,
    }
}

/// The position of key `k` in an association list.
pub open spec fn key_index(m: Seq<(Seq<char>, Seq<char>)>, k: Seq<char>) -> Option<int>
    decreases m.len(),
{
    if m.len() == 0 {
        None
    } else {
        match key_index(m.drop_last(), k) {
            Some(i) => Some(i),
            None => if m.last().0 == k {
                Some(m.len() - 1)
            } else {
                None
            },
        }
    }
}

/// The association list with `k` bound to `v`: in place where `k` is present,
/// at the end where it is not.
pub open spec fn assoc_put(m: Seq<(Seq<char>, Seq<char>)>, k: Seq<char>, v: Seq<char>) -> Seq<
    (Seq<char>, Seq<char>),
> {
    match key_index(m, k) {
        Some(i) => m.update(i, (k, v)),
        None => m.push((k, v)),
    }
}

/// No key occurs twice.
pub open spec fn distinct_keys(m: Seq<(Seq<char>, Seq<char>)>) -> bool {
    forall|i: int, j: int| 0 <= i < j < m.len() ==> #[trigger] m[i].0 != #[trigger] m[j].0
}

/// The function signatures of the first `n` lines, by name, in the order the
/// names first appear; a later declaration of a name replaces its signature.
pub open spec fn signatures(ls: Seq<Seq<char>>, n: int) -> Seq<(Seq<char>, Seq<char>)>
    decreases n,
{
    if n <= 0 || n > ls.len() {
        seq![]
    } else {
        let t = trim(ls[n - 1]);
        let prev = signatures(ls, n - 1);
        match sig_name(t) {
            Some(name) => assoc_put(prev, name, sig_text(t)),
            None => prev,
        }
    }
}

/// The trimmed lines among the first `n` that start with `import `.
pub open spec fn import_lines(ls: Seq<Seq<char>>, n: int) -> Seq<Seq<char>>
    decreases n,
{
    if n <= 0 || n > ls.len() {
        seq![]
    } else {
        let t = trim(ls[n - 1]);
        import_lines(ls, n - 1) + if starts_with(t, "import "@) {
            seq![t]
        } else {
            seq![]
        }
    }
}

/// The signatures of a whole source.
pub open spec fn source_signatures(source: Seq<char>) -> Seq<(Seq<char>, Seq<char>)> {
    signatures(lines(source), lines(source).len() as int)
}

/// The import lines of a whole source.
pub open spec fn source_import_lines(source: Seq<char>) -> Seq<Seq<char>> {
    import_lines(lines(source), lines(source).len() as int)
}

/// A detected change of a file.
pub open spec fn change(
    fp: Seq<char>,
    ct: ChangeTypeView,
    affected: Seq<Seq<char>>,
    before: Option<Seq<char>>,
    after: Option<Seq<char>>,
) -> PayloadView {
    PayloadView::ChangeDetected {
        file_path: fp,
        change_type: ct,
        affected_entities: affected,
        before_snapshot: before,
        after_snapshot: after,
    }
}

/// What a function of the new source shows: a changed signature, or a new function.
pub open spec fn after_change(
    fp: Seq<char>,
    before_sigs: Seq<(Seq<char>, Seq<char>)>,
    entry: (Seq<char>, Seq<char>),
) -> Seq<PayloadView> {
    match key_index(before_sigs, entry.0) {
        Some(i) => if before_sigs[i].1 != entry.1 {
            seq![
                change(
                    fp,
                    ChangeTypeView::SignatureChange,
                    seq![local_id(fp, entry.0)],
                    Some(before_sigs[i].1),
                    Some(entry.1),
                ),
            ]
        } else {
            seq![]
        },
        None => seq![
            change(
                fp,
                ChangeTypeView::EntityAdded,
                seq![local_id(fp, entry.0)],
                None,
                Some(entry.1),
            ),
        ],
    }
}

/// `after_change` against a list of old signatures.
pub open spec fn after_change_fn(fp: Seq<char>, before_sigs: Seq<(Seq<char>, Seq<char>)>) -> spec_fn(
    (Seq<char>, Seq<char>),
) -> Seq<PayloadView> {
    |e: (Seq<char>, Seq<char>)| after_change(fp, before_sigs, e)
}

/// What a function of the old source shows: it was removed, if the new source lacks it.
pub open spec fn removal(
    fp: Seq<char>,
    after_sigs: Seq<(Seq<char>, Seq<char>)>,
    entry: (Seq<char>, Seq<char>),
) -> Seq<PayloadView> {
    if key_index(after_sigs, entry.0) is None {
        seq![
            change(
                fp,
                ChangeTypeView::EntityDeleted,
                seq![local_id(fp, entry.0)],
                Some(entry.1),
                None,
            ),
        ]
    } else {
        seq![]
    }
}

/// `removal` against a list of new signatures.
pub open spec fn removal_fn(fp: Seq<char>, after_sigs: Seq<(Seq<char>, Seq<char>)>) -> spec_fn(
    (Seq<char>, Seq<char>),
) -> Seq<PayloadView> {
    |e: (Seq<char>, Seq<char>)| removal(fp, after_sigs, e)
}

/// The import change, if the import lines differ: both lists joined by newlines.
pub open spec fn import_change(fp: Seq<char>, bi: Seq<Seq<char>>, ai: Seq<Seq<char>>) -> Seq<
    PayloadView,
> {
    if bi != ai {
        seq![
            change(
                fp,
                ChangeTypeView::ImportChange,
                seq![],
                Some(join(bi, "\n"@)),
                Some(join(ai, "\n"@)),
            ),
        ]
    } else {
        seq![]
    }
}

/// The changes a diff shows, in order: signature changes and added functions
/// (in the order of the new source), removed functions (in the order of the old
/// source), the import change; and where none of these, but the texts differ,
/// one body change.
pub open spec fn diff_payloads(fp: Seq<char>, before: Seq<char>, after: Seq<char>) -> Seq<PayloadView> {
    let bs = source_signatures(before);
    let as_ = source_signatures(after);
    let found = concat_all(as_, after_change_fn(fp, bs)) + concat_all(bs, removal_fn(fp, as_))
        + import_change(fp, source_import_lines(before), source_import_lines(after));
    if found.len() == 0 && before != after {
        seq![change(fp, ChangeTypeView::BodyChange, seq![], None, None)]
    } else {
        found
    }
}

/// The views of an association list of strings.
pub open spec fn pair_views(v: Seq<(String, String)>) -> Seq<(Seq<char>, Seq<char>)> {
    v.map_values(|p: (String, String)| (p.0@, p.1@))
}

// ─── Association lists ─────────────────────────────────────────────

/// Where `key_index` finds a key, the key is there, and it is nowhere before.
proof fn lemma_key_index(m: Seq<(Seq<char>, Seq<char>)>, k: Seq<char>)
    ensures
        key_index(m, k) matches Some(i) ==> 0 <= i < m.len() && m[i].0 == k && forall|j: int|
            0 <= j < i ==> #[trigger] m[j].0 != k,
        key_index(m, k) is None ==> forall|j: int| 0 <= j < m.len() ==> #[trigger] m[j].0 != k,
    decreases m.len(),
{
    if m.len() > 0 {
        lemma_key_index(m.drop_last(), k);
        assert forall|j: int| 0 <= j < m.len() - 1 implies #[trigger] m[j] == m.drop_last()[j] by {}
    }
}

/// A key found in a prefix is found at the same place in the whole list.
proof fn lemma_key_index_prefix(m: Seq<(Seq<char>, Seq<char>)>, k: Seq<char>, j: int)
    requires
        0 <= j <= m.len(),
        key_index(m.take(j), k) is Some,
    ensures
        key_index(m, k) == key_index(m.take(j), k),
    decreases m.len(),
{
    if j == m.len() {
        assert(m.take(j) =~= m);
    } else {
        assert(m.drop_last().take(j) =~= m.take(j));
        lemma_key_index_prefix(m.drop_last(), k, j);
    }
}

/// Binding a key keeps the keys distinct.
proof fn lemma_assoc_put_distinct(m: Seq<(Seq<char>, Seq<char>)>, k: Seq<char>, v: Seq<char>)
    requires
        distinct_keys(m),
    ensures
        distinct_keys(assoc_put(m, k, v)),
{
    lemma_key_index(m, k);
    let r = assoc_put(m, k, v);
    assert forall|i: int, j: int| 0 <= i < j < r.len() implies #[trigger] r[i].0 != #[trigger] r[j].0 by {
        match key_index(m, k) {
            Some(p) => {
                assert(r[i].0 == m[i].0);
                assert(r[j].0 == m[j].0);
            },
            None => {
                if j < m.len() {
                    assert(r[i] == m[i]);
                    assert(r[j] == m[j]);
                }
            },
        }
    }
}

/// The signatures of any prefix have distinct names.
proof fn lemma_signatures_distinct(ls: Seq<Seq<char>>, n: int)
    ensures
        distinct_keys(signatures(ls, n)),
    decreases n,
{
    if n > 0 && n <= ls.len() {
        lemma_signatures_distinct(ls, n - 1);
        let t = trim(ls[n - 1]);
        match sig_name(t) {
            Some(name) => lemma_assoc_put_distinct(signatures(ls, n - 1), name, sig_text(t)),
            None => {},
        }
    }
}

/// The position of a name in an association list.
fn find_key(m: &Vec<(String, String)>, k: &Vec<char>) -> (r: Option<usize>)
    ensures
        r matches Some(i) ==> key_index(pair_views(m@), k@) == Some(i as int) && i < m.len(),
        r is None ==> key_index(pair_views(m@), k@) is None,
{
    let ghost mv = pair_views(m@);
    let mut i: usize = 0;
    while i < m.len()
        invariant
            i <= m.len(),
            mv == pair_views(m@),
            key_index(mv.take(i as int), k@) is None,
        decreases m.len() - i,
    {
        let name = chars_of_string(&m[i].0);
        assert(mv.take(i + 1).drop_last() =~= mv.take(i as int));
        if eq(&name, k) {
            assert(key_index(mv.take(i + 1), k@) == Some(i as int));
            proof {
                lemma_key_index_prefix(mv, k@, i + 1);
            }
            return Some(i);
        }
        i += 1;
    }
    assert(mv.take(m.len() as int) =~= mv);
    None
}

/// Extract function signatures: for each trimmed line that contains `function `
/// and `(`, the identifier after the last `function ` is bound to the text
/// before the first `{` (trimmed), or to the whole line. Names are distinct, in
/// the order they first appear; a later declaration replaces the signature.
pub fn extract_function_signatures(source: &str) -> (r: Vec<(String, String)>)
    ensures
        pair_views(r@) == source_signatures(source@),
        distinct_keys(pair_views(r@)),
{
    let src = chars_of(source);
    let ls = lines_exec(&src);
    let k_function = chars_of("function ");
    let k_paren = chars_of("(");
    proof {
        reveal_strlit("function ");
    }
    let mut sigs: Vec<(String, String)> = Vec::new();
    let mut i: usize = 0;
    while i < ls.len()
        invariant
            i <= ls.len(),
            vviews(ls@) == lines(source@),
            k_function@ == "function "@,
            k_function@.len() == 9,
            k_paren@ == "("@,
            pair_views(sigs@) == signatures(vviews(ls@), i as int),
        decreases ls.len() - i,
    {
        let t = trim_exec(&ls[i]);
        let ghost prev = pair_views(sigs@);
        if contains_exec(&t, &k_function) && contains_exec(&t, &k_paren) {
            let parts = split_exec(&t, &k_function);
            if parts.len() >= 2 {
                let name = ident_prefix_exec(&parts[parts.len() - 1]);
                if name.len() > 0 {
                    let sig = match find_char(&t, '{') {
                        Some(end) => {
                            let head = subvec(&t, 0, end);
                            trim_exec(&head)
                        },
                        None => t,
                    };
                    proof {
                        assert(seq!['{'] =~= "{"@) by {
                            reveal_strlit("{");
                        }
                    }
                    assert(sig@ == sig_text(t@));
                    let entry = (string_of(&name), string_of(&sig));
                    match find_key(&sigs, &name) {
                        Some(p) => {
                            sigs.set(p, entry);
                            assert(pair_views(sigs@) =~= prev.update(p as int, (name@, sig@)));
                        },
                        None => {
                            sigs.push(entry);
                            assert(pair_views(sigs@) =~= prev.push((name@, sig@)));
                        },
                    }
                }
            }
        }
        i += 1;
    }
    proof {
        lemma_signatures_distinct(lines(source@), lines(source@).len() as int);
    }
    sigs
}

/// Extract the import lines for comparison: each trimmed line that starts with
/// `import `, in order.
pub fn extract_import_lines(source: &str) -> (r: Vec<String>)
    ensures
        views(r@) == source_import_lines(source@),
{
    let src = chars_of(source);
    let ls = lines_exec(&src);
    let k_import = chars_of("import ");
    let mut out: Vec<String> = Vec::new();
    let mut i: usize = 0;
    while i < ls.len()
        invariant
            i <= ls.len(),
            vviews(ls@) == lines(source@),
            k_import@ == "import "@,
            views(out@) == import_lines(vviews(ls@), i as int),
        decreases ls.len() - i,
    {
        let t = trim_exec(&ls[i]);
        let ghost prev = views(out@);
        if starts_with_exec(&t, &k_import) {
            out.push(string_of(&t));
            assert(views(out@) =~= prev + seq![t@]);
        } else {
            assert(views(out@) =~= prev + seq![]);
        }
        i += 1;
    }
    out
}

/// Whether two lists of strings hold the same texts.
fn same_texts(a: &Vec<String>, b: &Vec<String>) -> (r: bool)
    ensures
        r == (views(a@) == views(b@)),
{
    if a.len() != b.len() {
        assert(views(a@).len() != views(b@).len());
        return false;
    }
    let mut i: usize = 0;
    while i < a.len()
        invariant
            i <= a.len(),
            a.len() == b.len(),
            forall|j: int| 0 <= j < i ==> #[trigger] views(a@)[j] == views(b@)[j],
        decreases a.len() - i,
    {
        let x = chars_of_string(&a[i]);
        let y = chars_of_string(&b[i]);
        if !eq(&x, &y) {
            assert(views(a@)[i as int] != views(b@)[i as int]);
            return false;
        }
        i += 1;
    }
    assert(views(a@) =~= views(b@));
    true
}

/// The texts joined by newlines.
fn join_lines(v: &Vec<String>) -> (r: String)
    ensures
        r@ == join(views(v@), "\n"@),
{
    let mut parts: Vec<Vec<char>> = Vec::new();
    let mut i: usize = 0;
    while i < v.len()
        invariant
            i <= v.len(),
            vviews(parts@) == views(v@).take(i as int),
        decreases v.len() - i,
    {
        let c = chars_of_string(&v[i]);
        let ghost prev = vviews(parts@);
        parts.push(c);
        assert(vviews(parts@) =~= prev.push(c@));
        assert(views(v@).take(i + 1) =~= views(v@).take(i as int).push(v@[i as int]@));
        i += 1;
    }
    assert(views(v@).take(v.len() as int) =~= views(v@));
    let nl = chars_of("\n");
    string_of(&join_exec(&parts, &nl))
}

/// A detected change of a file.
fn change_exec(
    fp: &str,
    ct: ChangeType,
    affected: Vec<EntityId>,
    before: Option<String>,
    after: Option<String>,
) -> (r: EventPayload)
    ensures
        r@ == change(fp@, ct@, id_views(affected@), opt_view(before), opt_view(after)),
{
    EventPayload::ChangeDetected {
        file_path: fp.to_string(),
        change_type: ct,
        affected_entities: affected,
        before_snapshot: before,
        after_snapshot: after,
    }
}

/// The one identifier `local_id(fp, name)`, as a list.
fn one_id(fp: &str, name: &str) -> (r: Vec<EntityId>)
    ensures
        id_views(r@) == seq![local_id(fp@, name@)],
{
    let mut v: Vec<EntityId> = Vec::new();
    v.push(EntityId::local(fp, name));
    assert(id_views(v@) =~= seq![local_id(fp@, name@)]);
    v
}

/// Compare the source of a file before and after a change and emit the
/// detected changes, in order:
/// - for each function of the new source: a signature change where its old
///   signature differs, or an added entity where the old source lacks it;
/// - for each function of the old source that the new one lacks: a deleted entity;
/// - an import change where the import lines differ (both joined by newlines);
/// - where none of these was found but the texts differ: a body change.
pub fn parse_diff(file_path: &str, before: &str, after: &str) -> (r: Vec<UcmEvent>)
    ensures
        fresh_events(r@),
        payloads(r@) == diff_payloads(file_path@, before@, after@),
{
    let ghost fp = file_path@;
    let bs = extract_function_signatures(before);
    let as_ = extract_function_signatures(after);
    let ghost bv = pair_views(bs@);
    let ghost av = pair_views(as_@);
    let ghost f = after_change_fn(fp, bv);
    let ghost g = removal_fn(fp, av);
    let mut events: Vec<UcmEvent> = Vec::new();

    // Signature changes and new functions.
    let mut i: usize = 0;
    while i < as_.len()
        invariant
            i <= as_.len(),
            bv == pair_views(bs@),
            av == pair_views(as_@),
            f == after_change_fn(fp, bv),
            fp == file_path@,
            fresh_events(events@),
            payloads(events@) == concat_map(av, f, i as int),
        decreases as_.len() - i,
    {
        let name = &as_[i].0;
        let sig = &as_[i].1;
        assert(av[i as int] == (name@, sig@));
        let ghost prev = payloads(events@);
        let name_v = chars_of_string(name);
        match find_key(&bs, &name_v) {
            Some(p) => {
                let old_v = chars_of_string(&bs[p].1);
                let new_v = chars_of_string(sig);
                if !eq(&old_v, &new_v) {
                    let pl = change_exec(
                        file_path,
                        ChangeType::SignatureChange,
                        one_id(file_path, name.as_str()),
                        Some(bs[p].1.clone()),
                        Some(sig.clone()),
                    );
                    push_event(&mut events, pl);
                    assert(payloads(events@) =~= prev + f(av[i as int]));
                } else {
                    assert(payloads(events@) =~= prev + f(av[i as int]));
                }
            },
            None => {
                let pl = change_exec(
                    file_path,
                    ChangeType::EntityAdded,
                    one_id(file_path, name.as_str()),
                    None,
                    Some(sig.clone()),
                );
                push_event(&mut events, pl);
                assert(payloads(events@) =~= prev + f(av[i as int]));
            },
        }
        assert(concat_map(av, f, i + 1) == concat_map(av, f, i as int) + f(av[i as int]));
        i += 1;
    }
    let ghost part1 = payloads(events@);

    // Removed functions.
    let mut j: usize = 0;
    while j < bs.len()
        invariant
            j <= bs.len(),
            bv == pair_views(bs@),
            av == pair_views(as_@),
            g == removal_fn(fp, av),
            fp == file_path@,
            fresh_events(events@),
            payloads(events@) == part1 + concat_map(bv, g, j as int),
        decreases bs.len() - j,
    {
        let name = &bs[j].0;
        let sig = &bs[j].1;
        assert(bv[j as int] == (name@, sig@));
        let ghost prev = payloads(events@);
        let name_v = chars_of_string(name);
        if find_key(&as_, &name_v).is_none() {
            let pl = change_exec(
                file_path,
                ChangeType::EntityDeleted,
                one_id(file_path, name.as_str()),
                Some(sig.clone()),
                None,
            );
            push_event(&mut events, pl);
        }
        assert(payloads(events@) =~= prev + g(bv[j as int]));
        assert(concat_map(bv, g, j + 1) == concat_map(bv, g, j as int) + g(bv[j as int]));
        j += 1;
    }
    let ghost part2 = payloads(events@);

    // Import changes.
    let bi = extract_import_lines(before);
    let ai = extract_import_lines(after);
    if !same_texts(&bi, &ai) {
        let no_ids: Vec<EntityId> = Vec::new();
        assert(id_views(no_ids@) =~= seq![]);
        let pl = change_exec(
            file_path,
            ChangeType::ImportChange,
            no_ids,
            Some(join_lines(&bi)),
            Some(join_lines(&ai)),
        );
        push_event(&mut events, pl);
    }
    assert(payloads(events@) =~= part2 + import_change(fp, views(bi@), views(ai@)));

    // Otherwise, a body change where the texts differ.
    let same = eq(&chars_of(before), &chars_of(after));
    if events.len() == 0 && !same {
        let no_ids: Vec<EntityId> = Vec::new();
        assert(id_views(no_ids@) =~= seq![]);
        let pl = change_exec(file_path, ChangeType::BodyChange, no_ids, None, None);
        push_event(&mut events, pl);
        assert(payloads(events@) =~= seq![change(fp, ChangeTypeView::BodyChange, seq![], None, None)]);
    }
    events
}

/// With distinct keys, each key is found where it stands.
proof fn lemma_key_index_distinct(m: Seq<(Seq<char>, Seq<char>)>, j: int)
    requires
        distinct_keys(m),
        0 <= j < m.len(),
    ensures
        key_index(m, m[j].0) == Some(j),
{
    lemma_key_index(m, m[j].0);
    match key_index(m, m[j].0) {
        Some(i) => {
            if i < j {
                assert(m[i].0 != m[j].0);
            } else if i > j {
            }
        },
        None => {},
    }
}

/// Comparing signatures with themselves shows no change in the first `n`.
proof fn lemma_no_change_against_itself(fp: Seq<char>, sigs: Seq<(Seq<char>, Seq<char>)>, n: int)
    requires
        distinct_keys(sigs),
        0 <= n <= sigs.len(),
    ensures
        concat_map(sigs, after_change_fn(fp, sigs), n) == Seq::<PayloadView>::empty(),
        concat_map(sigs, removal_fn(fp, sigs), n) == Seq::<PayloadView>::empty(),
    decreases n,
{
    if n > 0 {
        lemma_no_change_against_itself(fp, sigs, n - 1);
        lemma_key_index_distinct(sigs, n - 1);
        assert(after_change_fn(fp, sigs)(sigs[n - 1]) =~= Seq::<PayloadView>::empty());
        assert(removal_fn(fp, sigs)(sigs[n - 1]) =~= Seq::<PayloadView>::empty());
        assert(concat_map(sigs, after_change_fn(fp, sigs), n) =~= Seq::<PayloadView>::empty());
        assert(concat_map(sigs, removal_fn(fp, sigs), n) =~= Seq::<PayloadView>::empty());
    }
}

/// A payload that is not a body change.
spec fn not_body(x: PayloadView) -> bool {
    !(x matches PayloadView::ChangeDetected { change_type: ChangeTypeView::BodyChange, .. })
}

/// Concatenating lists without body changes gives none.
proof fn lemma_concat_map_not_body<A>(s: Seq<A>, f: spec_fn(A) -> Seq<PayloadView>, n: int)
    requires
        forall|a: A, j: int| 0 <= j < f(a).len() ==> not_body(#[trigger] f(a)[j]),
    ensures
        forall|j: int| 0 <= j < concat_map(s, f, n).len() ==> not_body(#[trigger] concat_map(s, f, n)[j]),
    decreases n,
{
    if 0 < n <= s.len() {
        lemma_concat_map_not_body(s, f, n - 1);
        let prev = concat_map(s, f, n - 1);
        let last = f(s[n - 1]);
        assert forall|j: int| 0 <= j < concat_map(s, f, n).len() implies not_body(#[trigger] concat_map(s, f, n)[j]) by {
            if j < prev.len() {
                assert(concat_map(s, f, n)[j] == prev[j]);
            } else {
                assert(concat_map(s, f, n)[j] == last[j - prev.len()]);
            }
        }
    }
}

/// Signature, added, removed and import changes are never body changes.
proof fn lemma_no_body_change_found(fp: Seq<char>, before: Seq<char>, after: Seq<char>)
    ensures
        ({
            let bs = source_signatures(before);
            let as_ = source_signatures(after);
            let found = concat_all(as_, after_change_fn(fp, bs)) + concat_all(bs, removal_fn(fp, as_))
                + import_change(fp, source_import_lines(before), source_import_lines(after));
            forall|j: int| 0 <= j < found.len() ==> not_body(#[trigger] found[j])
        }),
{
    let bs = source_signatures(before);
    let as_ = source_signatures(after);
    let f1 = after_change_fn(fp, bs);
    let f2 = removal_fn(fp, as_);
    let a = concat_all(as_, f1);
    let b = concat_all(bs, f2);
    let c = import_change(fp, source_import_lines(before), source_import_lines(after));
    assert forall|e: (Seq<char>, Seq<char>), j: int| 0 <= j < f1(e).len() implies not_body(#[trigger] f1(e)[j]) by {}
    assert forall|e: (Seq<char>, Seq<char>), j: int| 0 <= j < f2(e).len() implies not_body(#[trigger] f2(e)[j]) by {}
    lemma_concat_map_not_body(as_, f1, as_.len() as int);
    lemma_concat_map_not_body(bs, f2, bs.len() as int);
    let found = a + b + c;
    assert forall|j: int| 0 <= j < found.len() implies not_body(#[trigger] found[j]) by {
        if j < a.len() {
            assert(found[j] == a[j]);
        } else if j < a.len() + b.len() {
            assert(found[j] == b[j - a.len()]);
        } else {
            assert(found[j] == c[j - a.len() - b.len()]);
        }
    }
}

/// A changed source is never reported as unchanged: where the two texts
/// differ, the diff shows at least one change, each of it to the file; and
/// where it shows nothing but body changes, it is exactly one body change
/// with no entities and no snapshots.
pub proof fn changed_source_has_a_diff(fp: Seq<char>, before: Seq<char>, after: Seq<char>)
    requires
        before != after,
    ensures
        diff_payloads(fp, before, after).len() >= 1,
        (forall|i: int|
            0 <= i < diff_payloads(fp, before, after).len() ==> #[trigger] diff_payloads(fp, before, after)[i]
                == change(fp, ChangeTypeView::BodyChange, seq![], None, None)) ==> diff_payloads(fp, before, after)
            == seq![change(fp, ChangeTypeView::BodyChange, seq![], None, None)],
{
    let bs = source_signatures(before);
    let as_ = source_signatures(after);
    let found = concat_all(as_, after_change_fn(fp, bs)) + concat_all(bs, removal_fn(fp, as_))
        + import_change(fp, source_import_lines(before), source_import_lines(after));
    if found.len() != 0 {
        lemma_no_body_change_found(fp, before, after);
        assert(diff_payloads(fp, before, after) == found);
        assert(found[0] != change(fp, ChangeTypeView::BodyChange, seq![], None, None));
    }
}

/// A source diffed against itself shows no change.
pub proof fn unchanged_source_has_no_diff(fp: Seq<char>, source: Seq<char>)
    ensures
        diff_payloads(fp, source, source) == Seq::<PayloadView>::empty(),
{
    let sigs = source_signatures(source);
    lemma_signatures_distinct(lines(source), lines(source).len() as int);
    lemma_no_change_against_itself(fp, sigs, sigs.len() as int);
    assert(diff_payloads(fp, source, source) =~= Seq::<PayloadView>::empty());
}

} // verus!
