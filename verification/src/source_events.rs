//! Turns what the code parser extracts from one source file into the event
//! stream that builds the dependency graph.
//!
//! Each file gets a `Module` entity. Functions, classes and routes emit
//! `DependsOn` edges to their module; imports emit `Imports` edges from the
//! importing module to the imported symbol, so that impact traversal finds the
//! path `caller → caller's module → imported symbol`.
use vstd::prelude::*;

use crate::code_parser::{
    extract_classes_ts, extract_functions_rust, extract_functions_ts, extract_imports_python,
    extract_imports_rust, extract_imports_ts, extract_python_entities, extract_routes_ts,
    extract_structs_rust, file_name_of, file_name_of_spec, fn_entry_views, import_views,
    named_line_views, opt_text, parent_dir_spec, py_imports, py_scan, py_source_ok, py_views,
    route_hit, route_hits, route_views, rust_functions, rust_imports_of, rust_structs, ts_classes, ts_functions,
    ts_imports, ts_routes, ts_source_ok, PyView, PythonEntity, PythonPackageRoot, RustCrateMap,
};
use crate::edge::RelationType;
use crate::entity::{local_id, DiscoverySource, EntityId, EntityKind, KindView};
use crate::event::{fresh_events, payloads, push_event, EventPayload, PayloadView, UcmEvent};
use crate::text::{
    cat3, chars_of, decimal, decimal_exec, eq, extend, lines, push_str, string_of, text_fits, trim, views,
};

verus! {

broadcast use vstd::string::group_string_axioms;

/// Confidence of a structural edge found by static analysis (0.99).
pub const STRUCTURAL_CONFIDENCE: u32 = 990_000;

/// Confidence of an inheritance edge (0.90).
pub const EXTENDS_CONFIDENCE: u32 = 900_000;

/// Confidence of an import edge (0.95).
pub const IMPORT_CONFIDENCE: u32 = 950_000;

/// The language names parsed as Python.
pub open spec fn is_python(lang: Seq<char>) -> bool {
    lang == "python"@ || lang == "py"@
}

/// The language names parsed as Rust.
pub open spec fn is_rust(lang: Seq<char>) -> bool {
    lang == "rust"@ || lang == "rs"@
}

/// The language names whose routes are extracted.
pub open spec fn is_web(lang: Seq<char>) -> bool {
    lang == "typescript"@ || lang == "javascript"@ || lang == "ts"@ || lang == "js"@
}

/// `f` applied to the first `n` items of `s`, the results concatenated.
pub open spec fn concat_map<A, B>(s: Seq<A>, f: spec_fn(A) -> Seq<B>, n: int) -> Seq<B>
    decreases n,
{
    if n <= 0 || n > s.len() {
        seq![]
    } else {
        concat_map(s, f, n - 1) + f(s[n - 1])
    }
}

/// `f` applied to every item of `s`, the results concatenated.
pub open spec fn concat_all<A, B>(s: Seq<A>, f: spec_fn(A) -> Seq<B>) -> Seq<B> {
    concat_map(s, f, s.len() as int)
}

/// The identifier of a file's module entity.
pub open spec fn module_id_of(fp: Seq<char>) -> Seq<char> {
    local_id(fp, "module"@)
}

/// An entity found by static analysis.
pub open spec fn discovered(
    id: Seq<char>,
    kind: KindView,
    name: Seq<char>,
    fp: Seq<char>,
    lang: Seq<char>,
    range: Option<(usize, usize)>,
) -> PayloadView {
    PayloadView::EntityDiscovered {
        entity_id: id,
        kind,
        name,
        file_path: fp,
        language: lang,
        source: DiscoverySource::StaticAnalysis,
        line_range: range,
    }
}

/// A relationship found by static analysis.
pub open spec fn linked(
    src: Seq<char>,
    dst: Seq<char>,
    rel: RelationType,
    confidence: u32,
    description: Seq<char>,
) -> PayloadView {
    PayloadView::DependencyLinked {
        source_entity: src,
        target_entity: dst,
        relation_type: rel,
        confidence,
        source: DiscoverySource::StaticAnalysis,
        description,
    }
}

/// "`name` is defined in `fp`": the edge from an entity to its module.
pub open spec fn defined_in(id: Seq<char>, name: Seq<char>, fp: Seq<char>) -> PayloadView {
    linked(
        id,
        module_id_of(fp),
        RelationType::DependsOn,
        STRUCTURAL_CONFIDENCE,
        name + " is defined in "@ + fp,
    )
}

/// The module entity of a file.
pub open spec fn module_payload(fp: Seq<char>, lang: Seq<char>) -> PayloadView {
    discovered(
        module_id_of(fp),
        KindView::Module { language: lang, exports: seq![] },
        file_name_of_spec(fp),
        fp,
        lang,
        None,
    )
}

/// The events of one function `(name, is_async, first line, last line)`.
pub open spec fn function_payloads(
    fp: Seq<char>,
    lang: Seq<char>,
    f: (Seq<char>, bool, usize, usize),
) -> Seq<PayloadView> {
    let id = local_id(fp, f.0);
    seq![
        discovered(
            id,
            KindView::Function { is_async: f.1, parameter_count: 0, return_type: None },
            f.0,
            fp,
            lang,
            Some((f.2, f.3)),
        ),
        defined_in(id, f.0, fp),
    ]
}

/// The events of one class or struct `(name, line)`: assumed five lines long.
pub open spec fn model_payloads(fp: Seq<char>, lang: Seq<char>, s: (Seq<char>, usize)) -> Seq<
    PayloadView,
> {
    let id = local_id(fp, s.0);
    seq![
        discovered(
            id,
            KindView::DataModel { fields: seq![] },
            s.0,
            fp,
            lang,
            Some((s.1, (s.1 + 5) as usize)),
        ),
        defined_in(id, s.0, fp),
    ]
}

/// The events of one route `(method, path, handler, line)`.
pub open spec fn route_payloads(
    fp: Seq<char>,
    lang: Seq<char>,
    r: (Seq<char>, Seq<char>, Seq<char>, usize),
) -> Seq<PayloadView> {
    let id = local_id(fp, r.0 + ":"@ + r.1);
    let name = r.0 + " "@ + r.1;
    seq![
        discovered(
            id,
            KindView::ApiEndpoint { method: r.0, route: r.1, handler: seq![] },
            name,
            fp,
            lang,
            Some((r.3, r.3)),
        ),
        linked(
            id,
            module_id_of(fp),
            RelationType::DependsOn,
            STRUCTURAL_CONFIDENCE,
            name + " is defined in "@ + fp,
        ),
    ]
}

/// The name a Python function is known by: `Class.method` for a method.
pub open spec fn py_display_name(name: Seq<char>, class_name: Option<Seq<char>>) -> Seq<char> {
    match class_name {
        Some(c) => c + "."@ + name,
        None => name,
    }
}

/// The `Extends` edge from a class to one of its bases.
pub open spec fn extends_payload(fp: Seq<char>, name: Seq<char>, base: Seq<char>) -> PayloadView {
    linked(
        local_id(fp, name),
        local_id(fp, base),
        RelationType::Extends,
        EXTENDS_CONFIDENCE,
        name + " extends "@ + base,
    )
}

/// `extends_payload` for a class of a file.
pub open spec fn extends_fn(fp: Seq<char>, name: Seq<char>) -> spec_fn(Seq<char>) -> PayloadView {
    |b: Seq<char>| extends_payload(fp, name, b)
}

/// The events of one Python entity: a function (with a `Contains` edge from its
/// class, for a method) or a class (with an `Extends` edge per base).
pub open spec fn python_payloads(fp: Seq<char>, lang: Seq<char>, e: PyView) -> Seq<PayloadView> {
    match e {
        PyView::Function { name, is_async, line_start, line_end, class_name } => {
            let display = py_display_name(name, class_name);
            let id = local_id(fp, display);
            function_payloads(fp, lang, (display, is_async, line_start, line_end)) + match class_name {
                Some(c) => seq![
                    linked(
                        local_id(fp, c),
                        id,
                        RelationType::Contains,
                        STRUCTURAL_CONFIDENCE,
                        c + " contains method "@ + name,
                    ),
                ],
                None => seq![],
            }
        },
        PyView::Class { name, line_num, bases } => model_payloads(fp, lang, (name, line_num))
            + bases.map_values(extends_fn(fp, name)),
    }
}

/// The `Imports` edge from a module to one imported symbol.
pub open spec fn import_payload(fp: Seq<char>, from: Seq<char>, line: usize, symbol: Seq<char>) -> PayloadView {
    linked(
        module_id_of(fp),
        local_id(from, symbol),
        RelationType::Imports,
        IMPORT_CONFIDENCE,
        "import "@ + symbol + " from '"@ + from + "' at line "@ + decimal(line as nat),
    )
}

/// `import_payload` for one import line of a file.
pub open spec fn import_symbol_fn(fp: Seq<char>, from: Seq<char>, line: usize) -> spec_fn(
    Seq<char>,
) -> PayloadView {
    |s: Seq<char>| import_payload(fp, from, line, s)
}

/// The events of one import `(symbols, resolved file, line)`: one per symbol.
pub open spec fn import_payloads(fp: Seq<char>, i: (Seq<Seq<char>>, Seq<char>, usize)) -> Seq<
    PayloadView,
> {
    i.0.map_values(import_symbol_fn(fp, i.1, i.2))
}

/// `function_payloads` for a file.
pub open spec fn function_fn(fp: Seq<char>, lang: Seq<char>) -> spec_fn(
    (Seq<char>, bool, usize, usize),
) -> Seq<PayloadView> {
    |f: (Seq<char>, bool, usize, usize)| function_payloads(fp, lang, f)
}

/// `model_payloads` for a file.
pub open spec fn model_fn(fp: Seq<char>, lang: Seq<char>) -> spec_fn((Seq<char>, usize)) -> Seq<
    PayloadView,
> {
    |s: (Seq<char>, usize)| model_payloads(fp, lang, s)
}

/// `route_payloads` for a file.
pub open spec fn route_fn(fp: Seq<char>, lang: Seq<char>) -> spec_fn(
    (Seq<char>, Seq<char>, Seq<char>, usize),
) -> Seq<PayloadView> {
    |r: (Seq<char>, Seq<char>, Seq<char>, usize)| route_payloads(fp, lang, r)
}

/// `python_payloads` for a file.
pub open spec fn python_fn(fp: Seq<char>, lang: Seq<char>) -> spec_fn(PyView) -> Seq<PayloadView> {
    |e: PyView| python_payloads(fp, lang, e)
}

/// `import_payloads` for a file.
pub open spec fn import_fn(fp: Seq<char>) -> spec_fn((Seq<Seq<char>>, Seq<char>, usize)) -> Seq<
    PayloadView,
> {
    |i: (Seq<Seq<char>>, Seq<char>, usize)| import_payloads(fp, i)
}

/// The functions, classes and structs of a non-Python source, by language.
pub open spec fn declared_payloads(fp: Seq<char>, source: Seq<char>, lang: Seq<char>) -> Seq<
    PayloadView,
> {
    let ls = lines(source);
    let n = ls.len() as int;
    let fns = if is_rust(lang) {
        rust_functions(ls, n)
    } else {
        ts_functions(ls, n)
    };
    let models = if is_rust(lang) {
        rust_structs(ls, n)
    } else {
        ts_classes(ls, n)
    };
    concat_all(fns, function_fn(fp, lang)) + concat_all(models, model_fn(fp, lang))
}

/// The imports of a source, by language, resolved to files.
pub open spec fn source_imports(
    fp: Seq<char>,
    source: Seq<char>,
    lang: Seq<char>,
    table: Map<Seq<char>, Seq<char>>,
    pkg: Option<Seq<char>>,
) -> Seq<(Seq<Seq<char>>, Seq<char>, usize)> {
    let ls = lines(source);
    let n = ls.len() as int;
    if is_rust(lang) {
        rust_imports_of(source, fp, table)
    } else if is_python(lang) {
        py_imports(ls, n, parent_dir_spec(fp), pkg)
    } else {
        ts_imports(ls, n, parent_dir_spec(fp))
    }
}

/// The event payloads that parsing one source file emits, in order: the
/// module, its functions and classes (or Python entities), its routes (for
/// TypeScript and JavaScript), and one `Imports` edge per imported symbol.
pub open spec fn source_payloads(
    fp: Seq<char>,
    source: Seq<char>,
    lang: Seq<char>,
    table: Map<Seq<char>, Seq<char>>,
    pkg: Option<Seq<char>>,
) -> Seq<PayloadView> {
    let ls = lines(source);
    let n = ls.len() as int;
    let entities = if is_python(lang) {
        concat_all(py_scan(ls, n).1, python_fn(fp, lang))
    } else {
        declared_payloads(fp, source, lang)
    };
    let routes = if is_web(lang) {
        concat_all(ts_routes(ls, n), route_fn(fp, lang))
    } else {
        seq![]
    };
    seq![module_payload(fp, lang)] + entities + routes + concat_all(
        source_imports(fp, source, lang, table, pkg),
        import_fn(fp),
    )
}

/// Every parse begins by discovering the file's module entity, so that the
/// edges from the module found later have a source in the graph.
pub proof fn module_comes_first(
    fp: Seq<char>,
    source: Seq<char>,
    lang: Seq<char>,
    table: Map<Seq<char>, Seq<char>>,
    pkg: Option<Seq<char>>,
)
    ensures
        source_payloads(fp, source, lang, table, pkg).len() >= 1,
        source_payloads(fp, source, lang, table, pkg)[0] == module_payload(fp, lang),
        module_payload(fp, lang) matches PayloadView::EntityDiscovered { entity_id, .. } && entity_id
            == module_id_of(fp),
{
}

/// What a source must satisfy for its language's extractors: it fits the
/// machine's sizes, and its import or class lines slice in order.
pub open spec fn source_ok(source: Seq<char>, lang: Seq<char>) -> bool {
    &&& text_fits(source)
    &&& is_python(lang) ==> py_source_ok(source)
    &&& !is_python(lang) && !is_rust(lang) ==> ts_source_ok(source)
}

/// Whether the parentheses of a class line can be sliced.
fn py_parens_ok_exec(after: &Vec<char>) -> (r: bool)
    ensures
        r == crate::code_parser::py_parens_ok(after@),
{
    match (crate::text::find_exec(after, &crate::text::chars_of("(")), crate::text::find_exec(after, &crate::text::chars_of(")"))) {
        (Some(ps), Some(pe)) => ps < pe,
        _ => true,
    }
}

/// Whether the braces of an import line can be sliced.
fn ts_braces_ok_exec(line: &Vec<char>) -> (r: bool)
    ensures
        r == crate::code_parser::ts_braces_ok(line@),
{
    match (crate::text::find_exec(line, &crate::text::chars_of("{")), crate::text::find_exec(line, &crate::text::chars_of("}"))) {
        (Some(s), Some(e)) => s < e,
        _ => true,
    }
}

/// Whether a source text can be parsed in a language: it is short enough
/// for its positions to fit a `usize`, and no line that the parser slices
/// has its closing bracket before its opening one (where the slice would
/// panic): a Python class line's parentheses, or a TypeScript import line's
/// braces.
pub fn source_parseable(source: &str, language: &str) -> (r: bool)
    ensures
        r == source_ok(source@, language@),
{
    let s = crate::text::chars_of(source);
    if 4 * (s.len() as u128) + 64 >= usize::MAX as u128 {
        return false;
    }
    let python = crate::scan::is_python_language(language);
    let rust = crate::scan::is_rust_language(language);
    if rust && !python {
        return true;
    }
    let ls = crate::text::lines_exec(&s);
    let ghost lv = crate::text::vviews(ls@);
    assert(lv == lines(source@));
    let mut k: usize = 0;
    while k < ls.len()
        invariant
            k <= ls.len(),
            lv == crate::text::vviews(ls@),
            lv == lines(source@),
            python == is_python(language@),
            !python ==> !is_rust(language@),
            text_fits(source@),
            python ==> forall|i: int| 0 <= i < k ==> match #[trigger] crate::code_parser::py_class_def(
                trim(lv[i]),
            ) {
                Some((name, rest)) => crate::code_parser::py_parens_ok(rest),
                None => true,
            },
            !python ==> forall|i: int|
                0 <= i < k ==> #[trigger] crate::code_parser::ts_import_line(trim(lv[i]))
                    ==> crate::code_parser::ts_braces_ok(trim(lv[i])),
        decreases ls.len() - k,
    {
        assert(lv[k as int] == ls@[k as int]@);
        let t = crate::text::trim_exec(&ls[k]);
        if python {
            match crate::text::strip_prefix_exec(&t, &crate::text::chars_of("class ")) {
                Some(rest) => {
                    let name = crate::text::ident_prefix_exec(&rest);
                    if name.len() > 0 && !py_parens_ok_exec(&rest) {
                        assert(crate::code_parser::py_class_def(trim(lv[k as int])) == Some((name@, rest@)));
                        assert(!py_source_ok(source@));
                        return false;
                    }
                },
                None => {},
            }
        } else {
            if crate::text::starts_with_exec(&t, &crate::text::chars_of("import "))
                && crate::text::contains_exec(&t, &crate::text::chars_of("from ")) && !ts_braces_ok_exec(&t) {
                assert(crate::code_parser::ts_import_line(trim(lv[k as int])));
                assert(!ts_source_ok(source@));
                return false;
            }
        }
        k += 1;
    }
    true
}

// ─── Line-number bounds ────────────────────────────────────────────

/// The classes of TypeScript source sit on lines `1..=n`.
proof fn lemma_ts_class_lines(ls: Seq<Seq<char>>, n: int)
    requires
        0 <= n <= ls.len(),
        ls.len() < usize::MAX,
    ensures
        forall|j: int| 0 <= j < ts_classes(ls, n).len() ==> #[trigger] ts_classes(ls, n)[j].1 <= n,
    decreases n,
{
    if n > 0 {
        lemma_ts_class_lines(ls, n - 1);
        let prev = ts_classes(ls, n - 1);
        assert forall|j: int| 0 <= j < ts_classes(ls, n).len() implies #[trigger] ts_classes(ls, n)[j].1 <= n by {
            if j < prev.len() {
                assert(ts_classes(ls, n)[j] == prev[j]);
            }
        }
    }
}

/// The structs of Rust source sit on lines `1..=n`.
proof fn lemma_rust_struct_lines(ls: Seq<Seq<char>>, n: int)
    requires
        0 <= n <= ls.len(),
        ls.len() < usize::MAX,
    ensures
        forall|j: int| 0 <= j < rust_structs(ls, n).len() ==> #[trigger] rust_structs(ls, n)[j].1 <= n,
    decreases n,
{
    if n > 0 {
        lemma_rust_struct_lines(ls, n - 1);
        let prev = rust_structs(ls, n - 1);
        assert forall|j: int| 0 <= j < rust_structs(ls, n).len() implies #[trigger] rust_structs(ls, n)[j].1 <= n by {
            if j < prev.len() {
                assert(rust_structs(ls, n)[j] == prev[j]);
            }
        }
    }
}

/// The classes of the Python scan sit on lines `1..=n`.
proof fn lemma_py_class_lines(ls: Seq<Seq<char>>, n: int)
    requires
        0 <= n <= ls.len(),
        ls.len() < usize::MAX,
    ensures
        forall|j: int|
            0 <= j < py_scan(ls, n).1.len() ==> match #[trigger] py_scan(ls, n).1[j] {
                PyView::Class { line_num, .. } => line_num <= n,
                _ => true,
            },
    decreases n,
{
    if n > 0 {
        lemma_py_class_lines(ls, n - 1);
        let prev = py_scan(ls, n - 1);
        assert forall|j: int| 0 <= j < py_scan(ls, n).1.len() implies match #[trigger] py_scan(ls, n).1[j] {
            PyView::Class { line_num, .. } => line_num <= n,
            _ => true,
        } by {
            if j < prev.1.len() {
                assert(py_scan(ls, n).1[j] == prev.1[j]);
            }
        }
    }
}

// ─── Building events ───────────────────────────────────────────────

/// An entity found by static analysis.
fn discovered_exec(
    id: EntityId,
    kind: EntityKind,
    name: String,
    fp: &str,
    lang: &str,
    range: Option<(usize, usize)>,
) -> (r: EventPayload)
    ensures
        r@ == discovered(id@, kind@, name@, fp@, lang@, range),
{
    EventPayload::EntityDiscovered {
        entity_id: id,
        kind,
        name,
        file_path: fp.to_string(),
        language: lang.to_string(),
        source: DiscoverySource::StaticAnalysis,
        line_range: range,
    }
}

/// A relationship found by static analysis.
fn linked_exec(
    src: EntityId,
    dst: EntityId,
    rel: RelationType,
    confidence: u32,
    description: String,
) -> (r: EventPayload)
    ensures
        r@ == linked(src@, dst@, rel, confidence, description@),
{
    EventPayload::DependencyLinked {
        source_entity: src,
        target_entity: dst,
        relation_type: rel,
        confidence,
        source: DiscoverySource::StaticAnalysis,
        description,
    }
}

/// Appends the events of one function.
fn push_function(
    events: &mut Vec<UcmEvent>,
    fp: &str,
    lang: &str,
    name: &str,
    is_async: bool,
    first: usize,
    last: usize,
)
    ensures
        fresh_events(old(events)@) ==> fresh_events(final(events)@),
        payloads(final(events)@) == payloads(old(events)@) + function_payloads(
            fp@,
            lang@,
            (name@, is_async, first, last),
        ),
{
    let ghost before = payloads(events@);
    let id = EntityId::local(fp, name);
    let kind = EntityKind::Function { is_async, parameter_count: 0, return_type: None };
    let p1 = discovered_exec(id.duplicate(), kind, name.to_string(), fp, lang, Some((first, last)));
    push_event(events, p1);
    let p2 = linked_exec(
        id,
        EntityId::local(fp, "module"),
        RelationType::DependsOn,
        STRUCTURAL_CONFIDENCE,
        cat3(name, " is defined in ", fp),
    );
    push_event(events, p2);
    assert(payloads(events@) =~= before + function_payloads(fp@, lang@, (name@, is_async, first, last)));
}

/// Appends the events of one class or struct.
fn push_model(events: &mut Vec<UcmEvent>, fp: &str, lang: &str, name: &str, line: usize)
    requires
        line + 5 <= usize::MAX,
    ensures
        fresh_events(old(events)@) ==> fresh_events(final(events)@),
        payloads(final(events)@) == payloads(old(events)@) + model_payloads(fp@, lang@, (name@, line)),
{
    let ghost before = payloads(events@);
    let id = EntityId::local(fp, name);
    let fields: Vec<String> = Vec::new();
    assert(views(fields@) =~= seq![]);
    let kind = EntityKind::DataModel { fields };
    let p1 = discovered_exec(id.duplicate(), kind, name.to_string(), fp, lang, Some((line, line + 5)));
    push_event(events, p1);
    let p2 = linked_exec(
        id,
        EntityId::local(fp, "module"),
        RelationType::DependsOn,
        STRUCTURAL_CONFIDENCE,
        cat3(name, " is defined in ", fp),
    );
    push_event(events, p2);
    assert(payloads(events@) =~= before + model_payloads(fp@, lang@, (name@, line)));
}

/// Appends the events of a list of functions.
fn push_functions(
    events: &mut Vec<UcmEvent>,
    fp: &str,
    lang: &str,
    fns: &Vec<(String, bool, usize, usize)>,
)
    ensures
        fresh_events(old(events)@) ==> fresh_events(final(events)@),
        payloads(final(events)@) == payloads(old(events)@) + concat_all(
            fn_entry_views(fns@),
            function_fn(fp@, lang@),
        ),
{
    let ghost before = payloads(events@);
    let ghost fv = fn_entry_views(fns@);
    let ghost f = function_fn(fp@, lang@);
    let mut i: usize = 0;
    while i < fns.len()
        invariant
            i <= fns.len(),
            fv == fn_entry_views(fns@),
            f == function_fn(fp@, lang@),
            fresh_events(old(events)@) ==> fresh_events(events@),
            payloads(events@) == before + concat_map(fv, f, i as int),
        decreases fns.len() - i,
    {
        let e = &fns[i];
        assert(fv[i as int] == (e.0@, e.1, e.2, e.3));
        push_function(events, fp, lang, e.0.as_str(), e.1, e.2, e.3);
        assert(concat_map(fv, f, i + 1) == concat_map(fv, f, i as int) + f(fv[i as int]));
        assert(payloads(events@) =~= before + concat_map(fv, f, i + 1));
        i += 1;
    }
}

/// Appends the events of a list of classes or structs.
fn push_models(events: &mut Vec<UcmEvent>, fp: &str, lang: &str, models: &Vec<(String, usize)>)
    requires
        forall|j: int| 0 <= j < models@.len() ==> #[trigger] models@[j].1 + 5 <= usize::MAX,
    ensures
        fresh_events(old(events)@) ==> fresh_events(final(events)@),
        payloads(final(events)@) == payloads(old(events)@) + concat_all(
            named_line_views(models@),
            model_fn(fp@, lang@),
        ),
{
    let ghost before = payloads(events@);
    let ghost mv = named_line_views(models@);
    let ghost f = model_fn(fp@, lang@);
    let mut i: usize = 0;
    while i < models.len()
        invariant
            i <= models.len(),
            mv == named_line_views(models@),
            f == model_fn(fp@, lang@),
            forall|j: int| 0 <= j < models@.len() ==> #[trigger] models@[j].1 + 5 <= usize::MAX,
            fresh_events(old(events)@) ==> fresh_events(events@),
            payloads(events@) == before + concat_map(mv, f, i as int),
        decreases models.len() - i,
    {
        let e = &models[i];
        assert(mv[i as int] == (e.0@, e.1));
        push_model(events, fp, lang, e.0.as_str(), e.1);
        assert(concat_map(mv, f, i + 1) == concat_map(mv, f, i as int) + f(mv[i as int]));
        assert(payloads(events@) =~= before + concat_map(mv, f, i + 1));
        i += 1;
    }
}

/// Appends the events of one Python entity.
fn push_python_entity(events: &mut Vec<UcmEvent>, fp: &str, lang: &str, e: &PythonEntity)
    requires
        match e@ {
            PyView::Class { line_num, .. } => line_num + 5 <= usize::MAX,
            _ => true,
        },
    ensures
        fresh_events(old(events)@) ==> fresh_events(final(events)@),
        payloads(final(events)@) == payloads(old(events)@) + python_payloads(fp@, lang@, e@),
{
    let ghost before = payloads(events@);
    match e {
        PythonEntity::Function { name, is_async, line_start, line_end, class_name } => {
            let display: String = match class_name {
                Some(c) => cat3(c.as_str(), ".", name.as_str()),
                None => name.clone(),
            };
            assert(display@ == py_display_name(name@, opt_text(*class_name)));
            push_function(events, fp, lang, display.as_str(), *is_async, *line_start, *line_end);
            let ghost mid = payloads(events@);
            match class_name {
                Some(c) => {
                    let p = linked_exec(
                        EntityId::local(fp, c.as_str()),
                        EntityId::local(fp, display.as_str()),
                        RelationType::Contains,
                        STRUCTURAL_CONFIDENCE,
                        cat3(c.as_str(), " contains method ", name.as_str()),
                    );
                    push_event(events, p);
                    assert(payloads(events@) =~= mid + seq![p@]);
                },
                None => {
                    assert(payloads(events@) =~= mid + seq![]);
                },
            }
            assert(payloads(events@) =~= before + python_payloads(fp@, lang@, e@));
        },
        PythonEntity::Class { name, line_num, bases } => {
            push_model(events, fp, lang, name.as_str(), *line_num);
            let ghost mid = payloads(events@);
            let ghost bv = views(bases@);
            let ghost g = extends_fn(fp@, name@);
            let mut k: usize = 0;
            while k < bases.len()
                invariant
                    k <= bases.len(),
                    bv == views(bases@),
                    g == extends_fn(fp@, name@),
                    fresh_events(old(events)@) ==> fresh_events(events@),
                    payloads(events@) == mid + bv.take(k as int).map_values(g),
                decreases bases.len() - k,
            {
                let p = linked_exec(
                    EntityId::local(fp, name.as_str()),
                    EntityId::local(fp, bases[k].as_str()),
                    RelationType::Extends,
                    EXTENDS_CONFIDENCE,
                    cat3(name.as_str(), " extends ", bases[k].as_str()),
                );
                assert(p@ == g(bv[k as int]));
                let ghost prev = payloads(events@);
                push_event(events, p);
                assert(bv.take(k + 1).map_values(g) =~= bv.take(k as int).map_values(g).push(p@));
                assert(payloads(events@) =~= mid + bv.take(k + 1).map_values(g));
                k += 1;
            }
            assert(bv.take(bases.len() as int) =~= bv);
            assert(payloads(events@) =~= before + python_payloads(fp@, lang@, e@));
        },
    }
}

/// Appends the events of a list of Python entities.
fn push_python_entities(events: &mut Vec<UcmEvent>, fp: &str, lang: &str, ents: &Vec<PythonEntity>)
    requires
        forall|j: int|
            0 <= j < ents@.len() ==> match #[trigger] py_views(ents@)[j] {
                PyView::Class { line_num, .. } => line_num + 5 <= usize::MAX,
                _ => true,
            },
    ensures
        fresh_events(old(events)@) ==> fresh_events(final(events)@),
        payloads(final(events)@) == payloads(old(events)@) + concat_all(
            py_views(ents@),
            python_fn(fp@, lang@),
        ),
{
    let ghost before = payloads(events@);
    let ghost pv = py_views(ents@);
    let ghost f = python_fn(fp@, lang@);
    let mut i: usize = 0;
    while i < ents.len()
        invariant
            i <= ents.len(),
            pv == py_views(ents@),
            f == python_fn(fp@, lang@),
            forall|j: int|
                0 <= j < ents@.len() ==> match #[trigger] py_views(ents@)[j] {
                    PyView::Class { line_num, .. } => line_num + 5 <= usize::MAX,
                    _ => true,
                },
            fresh_events(old(events)@) ==> fresh_events(events@),
            payloads(events@) == before + concat_map(pv, f, i as int),
        decreases ents.len() - i,
    {
        assert(pv[i as int] == ents@[i as int]@);
        push_python_entity(events, fp, lang, &ents[i]);
        assert(concat_map(pv, f, i + 1) == concat_map(pv, f, i as int) + f(pv[i as int]));
        assert(payloads(events@) =~= before + concat_map(pv, f, i + 1));
        i += 1;
    }
}

/// Appends the events of one route.
fn push_route(events: &mut Vec<UcmEvent>, fp: &str, lang: &str, method: &str, route: &str, line: usize)
    ensures
        fresh_events(old(events)@) ==> fresh_events(final(events)@),
        payloads(final(events)@) == payloads(old(events)@) + route_payloads(
            fp@,
            lang@,
            (method@, route@, seq![], line),
        ),
{
    let ghost before = payloads(events@);
    let key = cat3(method, ":", route);
    let name = cat3(method, " ", route);
    let id = EntityId::local(fp, key.as_str());
    let kind = EntityKind::ApiEndpoint {
        method: method.to_string(),
        route: route.to_string(),
        handler: String::new(),
    };
    let p1 = discovered_exec(id.duplicate(), kind, name.clone(), fp, lang, Some((line, line)));
    push_event(events, p1);
    let p2 = linked_exec(
        id,
        EntityId::local(fp, "module"),
        RelationType::DependsOn,
        STRUCTURAL_CONFIDENCE,
        cat3(name.as_str(), " is defined in ", fp),
    );
    push_event(events, p2);
    assert(payloads(events@) =~= before + route_payloads(fp@, lang@, (method@, route@, seq![], line)));
}

/// Appends the events of a list of routes.
fn push_routes(
    events: &mut Vec<UcmEvent>,
    fp: &str,
    lang: &str,
    routes: &Vec<(String, String, String, usize)>,
)
    requires
        forall|j: int| 0 <= j < routes@.len() ==> (#[trigger] routes@[j]).2@ == Seq::<char>::empty(),
    ensures
        fresh_events(old(events)@) ==> fresh_events(final(events)@),
        payloads(final(events)@) == payloads(old(events)@) + concat_all(
            route_views(routes@),
            route_fn(fp@, lang@),
        ),
{
    let ghost before = payloads(events@);
    let ghost rv = route_views(routes@);
    let ghost f = route_fn(fp@, lang@);
    let mut i: usize = 0;
    while i < routes.len()
        invariant
            i <= routes.len(),
            rv == route_views(routes@),
            f == route_fn(fp@, lang@),
            forall|j: int| 0 <= j < routes@.len() ==> (#[trigger] routes@[j]).2@ == Seq::<char>::empty(),
            fresh_events(old(events)@) ==> fresh_events(events@),
            payloads(events@) == before + concat_map(rv, f, i as int),
        decreases routes.len() - i,
    {
        let e = &routes[i];
        assert(rv[i as int] == (e.0@, e.1@, e.2@, e.3));
        assert(e.2@ == Seq::<char>::empty());
        push_route(events, fp, lang, e.0.as_str(), e.1.as_str(), e.3);
        assert(concat_map(rv, f, i + 1) == concat_map(rv, f, i as int) + f(rv[i as int]));
        assert(payloads(events@) =~= before + concat_map(rv, f, i + 1));
        i += 1;
    }
}

/// Appends the `Imports` edges of one import line.
fn push_import(
    events: &mut Vec<UcmEvent>,
    fp: &str,
    module_id: &EntityId,
    symbols: &Vec<String>,
    from: &str,
    line: usize,
)
    requires
        module_id@ == module_id_of(fp@),
    ensures
        fresh_events(old(events)@) ==> fresh_events(final(events)@),
        payloads(final(events)@) == payloads(old(events)@) + import_payloads(
            fp@,
            (views(symbols@), from@, line),
        ),
{
    let ghost before = payloads(events@);
    let ghost sv = views(symbols@);
    let ghost g = import_symbol_fn(fp@, from@, line);
    let line_text = decimal_exec(line as u64);
    let mut k: usize = 0;
    while k < symbols.len()
        invariant
            k <= symbols.len(),
            sv == views(symbols@),
            g == import_symbol_fn(fp@, from@, line),
            module_id@ == module_id_of(fp@),
            line_text@ == decimal(line as nat),
            fresh_events(old(events)@) ==> fresh_events(events@),
            payloads(events@) == before + sv.take(k as int).map_values(g),
        decreases symbols.len() - k,
    {
        let sym = symbols[k].as_str();
        let mut d: Vec<char> = Vec::new();
        push_str(&mut d, "import ");
        push_str(&mut d, sym);
        push_str(&mut d, " from '");
        push_str(&mut d, from);
        push_str(&mut d, "' at line ");
        extend(&mut d, &line_text);
        assert(d@ =~= "import "@ + sym@ + " from '"@ + from@ + "' at line "@ + decimal(line as nat));
        let p = linked_exec(
            module_id.duplicate(),
            EntityId::local(from, sym),
            RelationType::Imports,
            IMPORT_CONFIDENCE,
            string_of(&d),
        );
        assert(p@ == g(sv[k as int]));
        push_event(events, p);
        assert(sv.take(k + 1).map_values(g) =~= sv.take(k as int).map_values(g).push(p@));
        assert(payloads(events@) =~= before + sv.take(k + 1).map_values(g));
        k += 1;
    }
    assert(sv.take(symbols.len() as int) =~= sv);
}

/// Appends the `Imports` edges of a list of import lines.
fn push_imports(
    events: &mut Vec<UcmEvent>,
    fp: &str,
    module_id: &EntityId,
    imports: &Vec<(Vec<String>, String, usize)>,
)
    requires
        module_id@ == module_id_of(fp@),
    ensures
        fresh_events(old(events)@) ==> fresh_events(final(events)@),
        payloads(final(events)@) == payloads(old(events)@) + concat_all(
            import_views(imports@),
            import_fn(fp@),
        ),
{
    let ghost before = payloads(events@);
    let ghost iv = import_views(imports@);
    let ghost f = import_fn(fp@);
    let mut i: usize = 0;
    while i < imports.len()
        invariant
            i <= imports.len(),
            iv == import_views(imports@),
            f == import_fn(fp@),
            module_id@ == module_id_of(fp@),
            fresh_events(old(events)@) ==> fresh_events(events@),
            payloads(events@) == before + concat_map(iv, f, i as int),
        decreases imports.len() - i,
    {
        let e = &imports[i];
        assert(iv[i as int] == (views(e.0@), e.1@, e.2));
        push_import(events, fp, module_id, &e.0, e.1.as_str(), e.2);
        assert(concat_map(iv, f, i + 1) == concat_map(iv, f, i as int) + f(iv[i as int]));
        assert(payloads(events@) =~= before + concat_map(iv, f, i + 1));
        i += 1;
    }
}

// ─── Parsing a source file ─────────────────────────────────────────

/// Parse source code and emit entity and dependency events, with no crate map
/// and no Python package root.
///
/// - `file_path`: path relative to the project root (part of each entity ID)
/// - `source`: the raw source text
/// - `language`: `typescript`, `javascript`, `rust` or `python` (or `ts`,
///   `js`, `rs`, `py`); any other name is read as TypeScript without routes
pub fn parse_source_code(file_path: &str, source: &str, language: &str) -> (r: Vec<UcmEvent>)
    requires
        source_ok(source@, language@),
    ensures
        fresh_events(r@),
        payloads(r@) == source_payloads(file_path@, source@, language@, Map::empty(), None),
{
    let table: RustCrateMap = RustCrateMap::new();
    proof {
        vstd::std_specs::hash::lemma_hashmap_deepview_dom(table);
        assert(table.deep_view() =~= Map::<Seq<char>, Seq<char>>::empty());
    }
    parse_source_code_with_context(file_path, source, language, &table)
}

/// Parse source code with a crate map for cross-crate Rust imports: it maps
/// crate names (underscored) to their `src/` directories relative to the scan
/// root. Other languages ignore it.
pub fn parse_source_code_with_context(
    file_path: &str,
    source: &str,
    language: &str,
    crate_map: &RustCrateMap,
) -> (r: Vec<UcmEvent>)
    requires
        source_ok(source@, language@),
    ensures
        fresh_events(r@),
        payloads(r@) == source_payloads(file_path@, source@, language@, crate_map.deep_view(), None),
{
    parse_source_code_full(file_path, source, language, crate_map, &None)
}

/// Whether the language name is one of two names.
fn lang_is(lang: &Vec<char>, a: &str, b: &str) -> (r: bool)
    ensures
        r == (lang@ == a@ || lang@ == b@),
{
    eq(lang, &chars_of(a)) || eq(lang, &chars_of(b))
}

/// Parse source code with the full context: the crate map for Rust and the
/// package root for absolute Python imports.
pub fn parse_source_code_full(
    file_path: &str,
    source: &str,
    language: &str,
    crate_map: &RustCrateMap,
    python_package_root: &PythonPackageRoot,
) -> (r: Vec<UcmEvent>)
    requires
        source_ok(source@, language@),
    ensures
        fresh_events(r@),
        payloads(r@) == source_payloads(
            file_path@,
            source@,
            language@,
            crate_map.deep_view(),
            opt_text(*python_package_root),
        ),
{
    let ghost fp = file_path@;
    let ghost lang = language@;
    let ghost ls = lines(source@);
    let ghost n = ls.len() as int;
    proof {
        crate::text::lemma_lines_len(source@);
    }
    let lang_v = chars_of(language);
    let python = lang_is(&lang_v, "python", "py");
    let rust = lang_is(&lang_v, "rust", "rs");
    let web = lang_is(&lang_v, "typescript", "javascript") || lang_is(&lang_v, "ts", "js");
    let mut events: Vec<UcmEvent> = Vec::new();

    // 1. The module entity of the file, the source of its import edges.
    let module_id = EntityId::local(file_path, "module");
    let exports: Vec<String> = Vec::new();
    assert(views(exports@) =~= seq![]);
    let kind = EntityKind::Module { language: language.to_string(), exports };
    let p = discovered_exec(
        module_id.duplicate(),
        kind,
        file_name_of(file_path),
        file_path,
        language,
        None,
    );
    push_event(&mut events, p);
    assert(payloads(events@) =~= seq![module_payload(fp, lang)]);

    // 2. Functions, classes and structs, each tied to the module.
    if python {
        let ents = extract_python_entities(source);
        proof {
            lemma_py_class_lines(ls, n);
        }
        push_python_entities(&mut events, file_path, language, &ents);
    } else {
        let fns = if rust {
            extract_functions_rust(source)
        } else {
            extract_functions_ts(source)
        };
        push_functions(&mut events, file_path, language, &fns);
        let models = if rust {
            extract_structs_rust(source)
        } else {
            extract_classes_ts(source)
        };
        proof {
            if rust {
                lemma_rust_struct_lines(ls, n);
            } else {
                lemma_ts_class_lines(ls, n);
            }
            assert forall|j: int| 0 <= j < models@.len() implies #[trigger] models@[j].1 + 5
                <= usize::MAX by {
                assert(named_line_views(models@)[j].1 == models@[j].1);
            }
        }
        push_models(&mut events, file_path, language, &models);
    }
    let ghost after_entities = payloads(events@);

    // 3. Routes, for TypeScript and JavaScript.
    if web {
        let routes = extract_routes_ts(source);
        proof {
            lemma_route_handlers(ls, n);
            assert forall|j: int| 0 <= j < routes@.len() implies (#[trigger] routes@[j]).2@
                == Seq::<char>::empty() by {
                assert(route_views(routes@)[j].2 == routes@[j].2@);
            }
        }
        push_routes(&mut events, file_path, language, &routes);
    } else {
        assert(payloads(events@) =~= after_entities + seq![]);
    }

    // 4. Imports: the module imports each symbol.
    let imports = if rust {
        extract_imports_rust(source, file_path, crate_map)
    } else if python {
        extract_imports_python(source, file_path, python_package_root)
    } else {
        extract_imports_ts(source, file_path)
    };
    assert(import_views(imports@) == source_imports(
        fp,
        source@,
        lang,
        crate_map.deep_view(),
        opt_text(*python_package_root),
    ));
    push_imports(&mut events, file_path, &module_id, &imports);
    events
}

/// The routes of TypeScript source have empty handlers.
proof fn lemma_route_handlers(ls: Seq<Seq<char>>, n: int)
    ensures
        forall|j: int| 0 <= j < ts_routes(ls, n).len() ==> (#[trigger] ts_routes(ls, n)[j]).2 == Seq::<char>::empty(),
    decreases n,
{
    if n > 0 && n <= ls.len() {
        lemma_route_handlers(ls, n - 1);
        let t = trim(ls[n - 1]);
        lemma_route_hits_handlers(t, 5, n as usize);
        let prev = ts_routes(ls, n - 1);
        let hits = route_hits(t, 5, n as usize);
        assert forall|j: int| 0 <= j < ts_routes(ls, n).len() implies (#[trigger] ts_routes(ls, n)[j]).2
            == Seq::<char>::empty() by {
            if j < prev.len() {
                assert(ts_routes(ls, n)[j] == prev[j]);
            } else {
                assert(ts_routes(ls, n)[j] == hits[j - prev.len()]);
            }
        }
    }
}

/// The routes a line contributes have empty handlers.
proof fn lemma_route_hits_handlers(t: Seq<char>, m: int, line_no: usize)
    ensures
        forall|j: int| 0 <= j < route_hits(t, m, line_no).len() ==> (#[trigger] route_hits(t, m, line_no)[j]).2 == Seq::<char>::empty(),
    decreases m,
{
    if m > 0 {
        lemma_route_hits_handlers(t, m - 1, line_no);
        let a = route_hits(t, m - 1, line_no);
        let b = route_hit(t, m - 1, false, line_no);
        let c = route_hit(t, m - 1, true, line_no);
        assert forall|j: int| 0 <= j < route_hits(t, m, line_no).len() implies (#[trigger] route_hits(t, m, line_no)[j]).2
            == Seq::<char>::empty() by {
            if j < a.len() {
                assert(route_hits(t, m, line_no)[j] == a[j]);
            } else if j < a.len() + b.len() {
                assert(route_hits(t, m, line_no)[j] == b[j - a.len()]);
            } else {
                assert(route_hits(t, m, line_no)[j] == c[j - a.len() - b.len()]);
            }
        }
    }
}

} // verus!
