//! Entity model with SCIP-style, human-readable, globally unique symbol strings.
//!
//! Identity format: `scip:<manager>/<package>/<version>/<path>#<symbol>`.
//! Because each identifier is self-contained, files can be re-indexed
//! independently without global coordination.
use vstd::prelude::*;

use crate::clock::now_millis;
use crate::text::{
    chars_of, copy, find, find_char, find_exec, find_from, find_from_exec, join, join_exec,
    lemma_find_char_at, lemma_find_char_none,
    push_str, split, split_exec, split_from, string_of, views, vviews, before_first_exec,
};

verus! {

broadcast use vstd::string::group_string_axioms;

/// SCIP-style globally unique identifier for a code entity.
#[derive(Debug, Clone, PartialEq, Eq, Hash)]
pub struct EntityId(pub String);

impl View for EntityId {
    type V = Seq<char>;

    open spec fn view(&self) -> Seq<char> {
        self.0@
    }
}

/// `scip:<manager>/<package>/<version>/<path>#<symbol>`.
pub open spec fn scip_id(
    manager: Seq<char>,
    package: Seq<char>,
    version: Seq<char>,
    path: Seq<char>,
    symbol: Seq<char>,
) -> Seq<char> {
    "scip:"@ + manager + "/"@ + package + "/"@ + version + "/"@ + path + "#"@ + symbol
}

/// The identifier of a symbol in the local, single-project namespace.
pub open spec fn local_id(path: Seq<char>, symbol: Seq<char>) -> Seq<char> {
    "scip:local/project/0.0.0/"@ + path + "#"@ + symbol
}

/// The position just after the `n`-th occurrence of `c` found from `k` on.
pub open spec fn after_nth_char(s: Seq<char>, c: char, k: int, n: nat) -> Option<int>
    decreases n,
{
    if n == 0 {
        Some(k)
    } else {
        match find_from(s, seq![c], k) {
            Some(i) => after_nth_char(s, c, i + 1, (n - 1) as nat),
            None => None,
        }
    }
}

/// What `EntityId::file_path` returns: the path component of the identifier,
/// the text after its third `/` up to the next `#` (or the end); `None` where
/// it has fewer than three `/`.
pub open spec fn id_file_path(id: Seq<char>) -> Option<Seq<char>> {
    match after_nth_char(id, '/', 0, 3) {
        Some(st) => Some(
            id.subrange(
                st,
                match find_from(id, seq!['#'], st) {
                    Some(e) => e,
                    None => id.len() as int,
                },
            ),
        ),
        None => None,
    }
}

/// A character occurs nowhere in a text.
pub open spec fn free_of(s: Seq<char>, c: char) -> bool {
    forall|i: int| 0 <= i < s.len() ==> s[i] != c
}

/// The file path given to `EntityId::new` is what `file_path` gives back,
/// whatever manager, package and version come before it (none holding a `/`
/// or a `#`), provided the path and the symbol hold no `#`.
pub proof fn file_path_of_new(
    manager: Seq<char>,
    package: Seq<char>,
    version: Seq<char>,
    path: Seq<char>,
    symbol: Seq<char>,
)
    requires
        free_of(manager, '/') && free_of(manager, '#'),
        free_of(package, '/') && free_of(package, '#'),
        free_of(version, '/') && free_of(version, '#'),
        free_of(path, '#'),
        free_of(symbol, '#'),
    ensures
        id_file_path(scip_id(manager, package, version, path, symbol)) == Some(path),
{
    reveal_strlit("scip:");
    reveal_strlit("/");
    reveal_strlit("#");
    let s = scip_id(manager, package, version, path, symbol);
    let a1: int = 5 + manager.len() as int;
    let a2: int = a1 + 1 + package.len();
    let a3: int = a2 + 1 + version.len();
    let h: int = a3 + 1 + path.len();
    assert(s =~= "scip:"@ + manager + "/"@ + package + "/"@ + version + "/"@ + path + "#"@ + symbol);
    assert(s.len() == h + 1 + symbol.len());
    assert forall|i: int| 0 <= i < a1 implies s[i] != '/' by {
        if i >= 5 {
            assert(s[i] == manager[i - 5]);
        }
    }
    assert(s[a1] == '/');
    lemma_find_char_at(s, '/', 0, a1);
    assert forall|i: int| a1 + 1 <= i < a2 implies s[i] != '/' by {
        assert(s[i] == package[i - a1 - 1]);
    }
    assert(s[a2] == '/');
    lemma_find_char_at(s, '/', a1 + 1, a2);
    assert forall|i: int| a2 + 1 <= i < a3 implies s[i] != '/' by {
        assert(s[i] == version[i - a2 - 1]);
    }
    assert(s[a3] == '/');
    lemma_find_char_at(s, '/', a2 + 1, a3);
    assert(after_nth_char(s, '/', a3 + 1, 0) == Some(a3 + 1));
    assert(after_nth_char(s, '/', a2 + 1, 1) == Some(a3 + 1));
    assert(after_nth_char(s, '/', a1 + 1, 2) == Some(a3 + 1));
    assert(after_nth_char(s, '/', 0, 3) == Some(a3 + 1));
    assert forall|i: int| a3 + 1 <= i < h implies s[i] != '#' by {
        assert(s[i] == path[i - a3 - 1]);
    }
    assert(s[h] == '#');
    lemma_find_char_at(s, '#', a3 + 1, h);
    assert(s.subrange(a3 + 1, h) =~= path);
}

/// The symbol given to `EntityId::new` is what `symbol_name` gives back,
/// provided no component holds a `#`.
pub proof fn symbol_name_of_new(
    manager: Seq<char>,
    package: Seq<char>,
    version: Seq<char>,
    path: Seq<char>,
    symbol: Seq<char>,
)
    requires
        free_of(manager, '#'),
        free_of(package, '#'),
        free_of(version, '#'),
        free_of(path, '#'),
        free_of(symbol, '#'),
    ensures
        id_symbol_name(scip_id(manager, package, version, path, symbol)) == Some(symbol),
{
    reveal_strlit("scip:");
    reveal_strlit("/");
    reveal_strlit("#");
    let s = scip_id(manager, package, version, path, symbol);
    let a1: int = 5 + manager.len() as int;
    let a2: int = a1 + 1 + package.len();
    let a3: int = a2 + 1 + version.len();
    let h: int = a3 + 1 + path.len();
    assert(s =~= "scip:"@ + manager + "/"@ + package + "/"@ + version + "/"@ + path + "#"@ + symbol);
    assert(s.len() == h + 1 + symbol.len());
    assert forall|i: int| 0 <= i < h implies s[i] != '#' by {
        if 5 <= i < a1 {
            assert(s[i] == manager[i - 5]);
        } else if a1 < i < a2 {
            assert(s[i] == package[i - a1 - 1]);
        } else if a2 < i < a3 {
            assert(s[i] == version[i - a2 - 1]);
        } else if a3 < i < h {
            assert(s[i] == path[i - a3 - 1]);
        }
    }
    assert(s[h] == '#');
    lemma_find_char_at(s, '#', 0, h);
    assert forall|i: int| h + 1 <= i < s.len() implies s[i] != '#' by {
        assert(s[i] == symbol[i - h - 1]);
    }
    lemma_find_char_none(s, '#', h + 1);
    assert("#"@ =~= seq!['#']);
    let parts = split(s, "#"@);
    assert(split_from(s, "#"@, h + 1) =~= seq![s.subrange(h + 1, s.len() as int)]);
    assert(parts =~= seq![s.subrange(0, h)] + split_from(s, "#"@, h + 1));
    assert(s.subrange(h + 1, s.len() as int) =~= symbol);
}

/// What `EntityId::symbol_name` returns: the second `#`-separated piece.
pub open spec fn id_symbol_name(id: Seq<char>) -> Option<Seq<char>> {
    let parts = split(id, "#"@);
    if parts.len() > 1 {
        Some(parts[1])
    } else {
        None
    }
}

/// Builds `prefix + a + sep + b` as characters.
fn build_id(prefix: &str, a: &str, sep: &str, b: &str) -> (r: String)
    ensures
        r@ == prefix@ + a@ + sep@ + b@,
{
    let mut out: Vec<char> = Vec::new();
    push_str(&mut out, prefix);
    push_str(&mut out, a);
    push_str(&mut out, sep);
    push_str(&mut out, b);
    assert(out@ =~= prefix@ + a@ + sep@ + b@);
    string_of(&out)
}

impl EntityId {
    /// Create a new SCIP-style entity ID from manager, package, version, path and symbol.
    pub fn new(manager: &str, package: &str, version: &str, path: &str, symbol: &str) -> (r: Self)
        ensures
            r@ == scip_id(manager@, package@, version@, path@, symbol@),
    {
        let mut out: Vec<char> = Vec::new();
        push_str(&mut out, "scip:");
        push_str(&mut out, manager);
        push_str(&mut out, "/");
        push_str(&mut out, package);
        push_str(&mut out, "/");
        push_str(&mut out, version);
        push_str(&mut out, "/");
        push_str(&mut out, path);
        push_str(&mut out, "#");
        push_str(&mut out, symbol);
        assert(out@ =~= scip_id(manager@, package@, version@, path@, symbol@));
        EntityId(string_of(&out))
    }

    /// Create a simple local entity ID (for single-project analysis).
    pub fn local(path: &str, symbol: &str) -> (r: Self)
        ensures
            r@ == local_id(path@, symbol@),
    {
        EntityId(build_id("scip:local/project/0.0.0/", path, "#", symbol))
    }

    /// Extract the file path component from the SCIP ID: the text after the
    /// third `/`, up to the next `#`.
    pub fn file_path(&self) -> (r: Option<&str>)
        ensures
            r matches Some(p) ==> id_file_path(self@) == Some(p@),
            r is None ==> id_file_path(self@) is None,
    {
        let id = chars_of(self.0.as_str());
        let mut slash: Vec<char> = Vec::new();
        slash.push('/');
        let mut hash: Vec<char> = Vec::new();
        hash.push('#');
        let mut start: usize = 0;
        let mut n: usize = 0;
        while n < 3
            invariant
                n <= 3,
                start <= id.len(),
                id@ == self@,
                slash@ == seq!['/'],
                after_nth_char(id@, '/', 0, 3) == after_nth_char(id@, '/', start as int, (3 - n) as nat),
            decreases 3 - n,
        {
            match find_from_exec(&id, &slash, start) {
                Some(i) => {
                    start = i + 1;
                    n += 1;
                },
                None => {
                    return None;
                },
            }
        }
        let end = match find_from_exec(&id, &hash, start) {
            Some(e) => e,
            None => id.len(),
        };
        Some(self.0.as_str().substring_char(start, end))
    }

    /// Extract the symbol name from the SCIP ID (the text after the first `#`, up to the next).
    pub fn symbol_name(&self) -> (r: Option<&str>)
        ensures
            r matches Some(s) ==> id_symbol_name(self@) == Some(s@),
            r is None ==> id_symbol_name(self@) is None,
    {
        let id = chars_of(self.0.as_str());
        let mut hash: Vec<char> = Vec::new();
        hash.push('#');
        proof {
            assert(hash@ =~= "#"@) by {
                reveal_strlit("#");
            }
        }
        match find_exec(&id, &hash) {
            None => {
                assert(id@.subrange(0, id@.len() as int) =~= id@);
                assert(split(id@, hash@) =~= seq![id@]);
                None
            },
            Some(i) => {
                let j = match find_from_exec(&id, &hash, i + 1) {
                    Some(j) => j,
                    None => id.len(),
                };
                proof {
                    let rest = split_from(id@, hash@, i + 1);
                    assert(rest.len() >= 1);
                    assert(rest[0] == id@.subrange(i + 1, j as int));
                    assert(split(id@, hash@) == seq![id@.subrange(0, i as int)] + rest);
                }
                Some(self.0.as_str().substring_char(i + 1, j))
            },
        }
    }

    /// The identifier text.
    pub fn as_str(&self) -> (r: &str)
        ensures
            r@ == self@,
    {
        self.0.as_str()
    }

    /// A copy of this identifier.
    pub fn duplicate(&self) -> (r: EntityId)
        ensures
            r@ == self@,
    {
        EntityId(self.0.clone())
    }

    /// The identifier text as an owned `String` (what `Display` prints).
    pub fn to_text(&self) -> (r: String)
        ensures
            r@ == self@,
    {
        self.0.clone()
    }
}


/// The kind of code entity in the context graph.
#[derive(Debug, Clone, PartialEq)]
pub enum EntityKind {
    /// A function or method definition
    Function { is_async: bool, parameter_count: usize, return_type: Option<String> },
    /// An API endpoint (REST, GraphQL, gRPC)
    ApiEndpoint { method: String, route: String, handler: String },
    /// A data model / struct / class / table
    DataModel { fields: Vec<String> },
    /// A feature or capability (extracted from tickets/docs)
    Feature { description: String, source: String },
    /// A test case
    TestCase { test_type: TestType, targets: Vec<EntityId> },
    /// A requirement (from Jira, docs, specs)
    Requirement { ticket_id: Option<String>, acceptance_criteria: Vec<String> },
    /// A module or file-level entity
    Module { language: String, exports: Vec<String> },
}

/// The kind of a test case.
#[derive(Debug, Clone, Copy, PartialEq, Eq, Structural)]
pub enum TestType {
    Unit,
    Integration,
    E2E,
    Property,
}

/// The view of an `EntityKind`: its text fields as characters.
pub enum KindView {
    Function { is_async: bool, parameter_count: usize, return_type: Option<Seq<char>> },
    ApiEndpoint { method: Seq<char>, route: Seq<char>, handler: Seq<char> },
    DataModel { fields: Seq<Seq<char>> },
    Feature { description: Seq<char>, source: Seq<char> },
    TestCase { test_type: TestType, targets: Seq<Seq<char>> },
    Requirement { ticket_id: Option<Seq<char>>, acceptance_criteria: Seq<Seq<char>> },
    Module { language: Seq<char>, exports: Seq<Seq<char>> },
}

/// The view of an optional string.
pub open spec fn opt_view(o: Option<String>) -> Option<Seq<char>> {
    match o {
        Some(s) => Some(s@),
        None => None,
    }
}

/// The views of a sequence of identifiers.
pub open spec fn id_views(v: Seq<EntityId>) -> Seq<Seq<char>> {
    v.map_values(|e: EntityId| e@)
}

impl View for EntityKind {
    type V = KindView;

    open spec fn view(&self) -> KindView {
        match self {
            EntityKind::Function { is_async, parameter_count, return_type } => KindView::Function {
                is_async: *is_async,
                parameter_count: *parameter_count,
                return_type: opt_view(*return_type),
            },
            EntityKind::ApiEndpoint { method, route, handler } => KindView::ApiEndpoint {
                method: method@,
                route: route@,
                handler: handler@,
            },
            EntityKind::DataModel { fields } => KindView::DataModel { fields: views(fields@) },
            EntityKind::Feature { description, source } => KindView::Feature {
                description: description@,
                source: source@,
            },
            EntityKind::TestCase { test_type, targets } => KindView::TestCase {
                test_type: *test_type,
                targets: id_views(targets@),
            },
            EntityKind::Requirement { ticket_id, acceptance_criteria } => KindView::Requirement {
                ticket_id: opt_view(*ticket_id),
                acceptance_criteria: views(acceptance_criteria@),
            },
            EntityKind::Module { language, exports } => KindView::Module {
                language: language@,
                exports: views(exports@),
            },
        }
    }
}

/// The name of a kind's variant, as `{:?}` begins.
pub open spec fn kind_name(k: KindView) -> Seq<char> {
    match k {
        KindView::Function { .. } => "Function"@,
        KindView::ApiEndpoint { .. } => "ApiEndpoint"@,
        KindView::DataModel { .. } => "DataModel"@,
        KindView::Feature { .. } => "Feature"@,
        KindView::TestCase { .. } => "TestCase"@,
        KindView::Requirement { .. } => "Requirement"@,
        KindView::Module { .. } => "Module"@,
    }
}

impl EntityKind {
    /// The name of the kind's variant.
    pub fn variant_name(&self) -> (r: &'static str)
        ensures
            r@ == kind_name(self@),
    {
        match self {
            EntityKind::Function { .. } => "Function",
            EntityKind::ApiEndpoint { .. } => "ApiEndpoint",
            EntityKind::DataModel { .. } => "DataModel",
            EntityKind::Feature { .. } => "Feature",
            EntityKind::TestCase { .. } => "TestCase",
            EntityKind::Requirement { .. } => "Requirement",
            EntityKind::Module { .. } => "Module",
        }
    }

    /// A copy of this kind.
    pub fn duplicate(&self) -> (r: EntityKind)
        ensures
            r@ == self@,
    {
        match self {
            EntityKind::Function { is_async, parameter_count, return_type } => EntityKind::Function {
                is_async: *is_async,
                parameter_count: *parameter_count,
                return_type: match return_type {
                    Some(t) => Some(t.clone()),
                    None => None,
                },
            },
            EntityKind::ApiEndpoint { method, route, handler } => EntityKind::ApiEndpoint {
                method: method.clone(),
                route: route.clone(),
                handler: handler.clone(),
            },
            EntityKind::DataModel { fields } => EntityKind::DataModel {
                fields: copy_strings(fields),
            },
            EntityKind::Feature { description, source } => EntityKind::Feature {
                description: description.clone(),
                source: source.clone(),
            },
            EntityKind::TestCase { test_type, targets } => EntityKind::TestCase {
                test_type: *test_type,
                targets: copy_ids(targets),
            },
            EntityKind::Requirement { ticket_id, acceptance_criteria } => EntityKind::Requirement {
                ticket_id: match ticket_id {
                    Some(t) => Some(t.clone()),
                    None => None,
                },
                acceptance_criteria: copy_strings(acceptance_criteria),
            },
            EntityKind::Module { language, exports } => EntityKind::Module {
                language: language.clone(),
                exports: copy_strings(exports),
            },
        }
    }
}

/// A copy of a list of strings.
pub fn copy_strings(v: &Vec<String>) -> (r: Vec<String>)
    ensures
        views(r@) == views(v@),
{
    let mut out: Vec<String> = Vec::new();
    let mut i: usize = 0;
    while i < v.len()
        invariant
            i <= v.len(),
            views(out@) == views(v@).take(i as int),
        decreases v.len() - i,
    {
        let ghost prev = out@;
        let c = v[i].clone();
        out.push(c);
        assert(out@ =~= prev.push(c));
        assert(views(out@) =~= views(prev).push(c@));
        assert(views(v@).take(i + 1) =~= views(v@).take(i as int).push(v@[i as int]@));
        i += 1;
    }
    assert(views(v@).take(v.len() as int) =~= views(v@));
    out
}

/// A copy of a list of identifiers.
pub fn copy_ids(v: &Vec<EntityId>) -> (r: Vec<EntityId>)
    ensures
        id_views(r@) == id_views(v@),
{
    let mut out: Vec<EntityId> = Vec::new();
    let mut i: usize = 0;
    while i < v.len()
        invariant
            i <= v.len(),
            id_views(out@) == id_views(v@).take(i as int),
        decreases v.len() - i,
    {
        let ghost prev = out@;
        let c = v[i].duplicate();
        out.push(c);
        assert(out@ =~= prev.push(c));
        assert(id_views(out@) =~= id_views(prev).push(c@));
        assert(id_views(v@).take(i + 1) =~= id_views(v@).take(i as int).push(v@[i as int]@));
        i += 1;
    }
    assert(id_views(v@).take(v.len() as int) =~= id_views(v@));
    out
}

/// How an entity was discovered — determines base confidence and decay rate.
#[derive(Debug, Clone, Copy, PartialEq, Eq, Structural)]
pub enum DiscoverySource {
    /// Extracted from source code
    StaticAnalysis,
    /// Inferred from git diff comparison
    GitDiff,
    /// Extracted from Jira/ticket system
    TicketSystem,
    /// Observed in API traffic logs
    ApiTraffic,
    /// Loaded from historical context snapshot
    HistoricalContext,
    /// Manually specified
    Manual,
}

/// A node in the context graph — an entity with its identity and metadata.
#[derive(Debug, Clone)]
pub struct UcmEntity {
    /// SCIP-style globally unique identifier
    pub id: EntityId,
    /// What kind of entity this is
    pub kind: EntityKind,
    /// Human-readable name
    pub name: String,
    /// Source file path (relative to project root)
    pub file_path: String,
    /// Line range in source file [start, end]
    pub line_range: Option<(usize, usize)>,
    /// Programming language
    pub language: String,
    /// When this entity was first discovered (milliseconds since the Unix epoch, UTC)
    pub discovered_at: i64,
    /// Which ingestion source discovered it
    pub discovery_source: DiscoverySource,
}

impl UcmEntity {
    /// A new entity discovered now, without a line range.
    pub fn new(
        id: EntityId,
        kind: EntityKind,
        name: String,
        file_path: String,
        language: String,
        source: DiscoverySource,
    ) -> (r: Self)
        ensures
            r.id == id,
            r.kind == kind,
            r.name == name,
            r.file_path == file_path,
            r.line_range is None,
            r.language == language,
            r.discovery_source == source,
    {
        UcmEntity {
            id,
            kind,
            name,
            file_path,
            line_range: None,
            language,
            discovered_at: now_millis(),
            discovery_source: source,
        }
    }

    /// The same entity with a line range set.
    pub fn with_line_range(self, start: usize, end: usize) -> (r: Self)
        ensures
            r == (UcmEntity { line_range: Some((start, end)), ..self }),
    {
        let mut e = self;
        e.line_range = Some((start, end));
        e
    }
}

} // verus!
