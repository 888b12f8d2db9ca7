//! The set of opened databases, each classified by the type that its
//! metadata names, and the checks that run over all of them.
use vstd::prelude::*;

use crate::table::{distinct_keys, has_entry, has_key, key_index, lemma_upsert, lemma_upsert_entries, upsert};
use crate::records::{LookupResult, Record, ResultView, empty_result, stored_all};
use crate::text::{contains, contains_seq};

verus! {

/// The kinds of database that lookups understand.
#[derive(Debug, Clone, Copy, PartialEq, Eq, Structural)]
pub enum DatabaseType {
    City,
    Country,
    Asn,
    Isp,
    Domain,
    ConnectionType,
}

/// The text that `str::to_lowercase` gives for `s`.
pub uninterp spec fn lowercase(s: Seq<char>) -> Seq<char>;

/// Calls `str::to_lowercase`. Its result is a function of `s` alone (Unicode
/// lowercase mapping), which `lowercase` names; nothing more of it is stated.
#[verifier::external_body]
fn to_lowercase(s: &str) -> (r: String)
    ensures
        r@ == lowercase(s@),
{
    s.to_lowercase()
}

/// The kind of database whose lowercased metadata type is `lowered`: the first
/// of "city", "country", "asn", "isp", "domain", "connection-type" that it
/// contains decides.
pub open spec fn kind_of_lowered(lowered: Seq<char>) -> Option<DatabaseType> {
    if contains_seq(lowered, "city"@) {
        Some(DatabaseType::City)
    } else if contains_seq(lowered, "country"@) {
        Some(DatabaseType::Country)
    } else if contains_seq(lowered, "asn"@) {
        Some(DatabaseType::Asn)
    } else if contains_seq(lowered, "isp"@) {
        Some(DatabaseType::Isp)
    } else if contains_seq(lowered, "domain"@) {
        Some(DatabaseType::Domain)
    } else if contains_seq(lowered, "connection-type"@) {
        Some(DatabaseType::ConnectionType)
    } else {
        None
    }
}

/// The kind of database whose metadata names type `name`.
pub open spec fn kind_of(name: Seq<char>) -> Option<DatabaseType> {
    kind_of_lowered(lowercase(name))
}

/// Classifies an already lowercased database type.
pub fn classify_lowered(lowered: &str) -> (r: Option<DatabaseType>)
    ensures
        r == kind_of_lowered(lowered@),
{
    if contains(lowered, "city") {
        Some(DatabaseType::City)
    } else if contains(lowered, "country") {
        Some(DatabaseType::Country)
    } else if contains(lowered, "asn") {
        Some(DatabaseType::Asn)
    } else if contains(lowered, "isp") {
        Some(DatabaseType::Isp)
    } else if contains(lowered, "domain") {
        Some(DatabaseType::Domain)
    } else if contains(lowered, "connection-type") {
        Some(DatabaseType::ConnectionType)
    } else {
        None
    }
}

/// Why opening the databases failed; `E` is the error of the database reader.
#[derive(Debug)]
pub enum LookupError<E> {
    /// The database at `path` could not be opened.
    Open { path: String, source: E },
    /// A database's metadata names a type that lookups do not understand; the
    /// type is given lowercased.
    UnsupportedDatabaseType(String),
}

/// Classifies a database by the type that its metadata names.
pub fn classify_database_type<E>(name: &str) -> (r: Result<DatabaseType, LookupError<E>>)
    ensures
        r matches Ok(kind) ==> kind_of(name@) == Some(kind),
        r matches Err(e) ==> (e matches LookupError::<E>::UnsupportedDatabaseType(t) && t@ == lowercase(name@)),
        r is Ok <==> kind_of(name@) is Some,
{
    let lowered = to_lowercase(name);
    match classify_lowered(lowered.as_str()) {
        Some(kind) => Ok(kind),
        None => Err(LookupError::UnsupportedDatabaseType(lowered)),
    }
}

/// What opening the file at a path gave: a reader and the database type that
/// its metadata names, or the reader's error.
#[derive(Debug)]
pub enum DatabaseSource<R, E> {
    /// `key` is the text by which paths are compared: the loader gives equal
    /// keys exactly for paths that name the same file path.
    Opened { path: String, key: String, database_type: String, reader: R },
    Failed { path: String, error: E },
}

/// The source opened and names a database type that lookups understand.
pub open spec fn source_usable<R, E>(s: DatabaseSource<R, E>) -> bool {
    s matches DatabaseSource::Opened { database_type, .. } && kind_of(database_type@) is Some
}

/// `e` is the error that opening reports for the unusable source `s`.
pub open spec fn failure_of<R, E>(s: DatabaseSource<R, E>, e: LookupError<E>) -> bool {
    match s {
        DatabaseSource::Failed { path, error } => e matches LookupError::Open { path: p, source }
            && p@ == path@ && source == error,
        DatabaseSource::Opened { database_type, .. } => e matches LookupError::UnsupportedDatabaseType(t)
            && t@ == lowercase(database_type@),
    }
}

/// The usable sources as path, kind and reader, keyed by the key of their path
/// in order: a path given again keeps its first place and takes the later
/// path text, kind and reader. Paths are compared as the key text that the
/// loader reports for them.
pub open spec fn catalog<R, E>(sources: Seq<DatabaseSource<R, E>>) -> Seq<(Seq<char>, (Seq<char>, DatabaseType, R))>
    decreases sources.len(),
{
    if sources.len() == 0 {
        Seq::empty()
    } else {
        let before = catalog(sources.drop_last());
        match sources.last() {
            DatabaseSource::Opened { path, key, database_type, reader } => match kind_of(database_type@) {
                Some(kind) => upsert(before, key@, (path@, kind, reader)),
                None => before,
            },
            DatabaseSource::Failed { .. } => before,
        }
    }
}

/// An opened database: where it came from, what kind it is, and its reader.
#[derive(Debug)]
pub struct Database<R> {
    pub path: String,
    /// The text by which its path is compared with others.
    pub key: String,
    pub kind: DatabaseType,
    pub reader: R,
}

/// Path, kind and reader of each database.
pub open spec fn databases_view<R>(s: Seq<Database<R>>) -> Seq<(Seq<char>, (Seq<char>, DatabaseType, R))> {
    s.map_values(|d: Database<R>| (d.key@, (d.path@, d.kind, d.reader)))
}

/// The opened databases, keyed by the key of the path that each was opened from; a
/// lookup asks all of them.
#[derive(Debug)]
pub struct Lookup<R> {
    databases: Vec<Database<R>>,
}

impl<R> View for Lookup<R> {
    type V = Seq<(Seq<char>, (Seq<char>, DatabaseType, R))>;

    closed spec fn view(&self) -> Seq<(Seq<char>, (Seq<char>, DatabaseType, R))> {
        databases_view(self.databases@)
    }
}

impl<R> Lookup<R> {
    /// Each path occurs once.
    pub open spec fn well_formed(&self) -> bool {
        distinct_keys(self@)
    }

    /// The databases, in the order of the catalog.
    pub closed spec fn entries(&self) -> Seq<Database<R>> {
        self.databases@
    }

    /// The view is the path, kind and reader of each database.
    pub proof fn lemma_view_of_entries(&self)
        ensures
            self@ == databases_view(self.entries()),
    {
    }

    /// The opened databases, in the order of the catalog.
    pub fn databases(&self) -> (r: &Vec<Database<R>>)
        ensures
            r@ == self.entries(),
            databases_view(r@) == self@,
    {
        &self.databases
    }

    /// Adds a database under the key of its path, replacing one opened from
    /// the same path.
    fn insert(&mut self, key: String, path: String, kind: DatabaseType, reader: R)
        requires
            distinct_keys(old(self)@),
        ensures
            final(self)@ == upsert(old(self)@, key@, (path@, kind, reader)),
            distinct_keys(final(self)@),
    {
        let ghost before = self@;
        let n = self.databases.len();
        let mut i: usize = 0;
        while i < n
            invariant
                n == self.databases@.len(),
                before == self@,
                before == old(self)@,
                distinct_keys(before),
                i <= n,
                forall|k: int| 0 <= k < i ==> self@[k].0 != key@,
            decreases n - i,
        {
            if self.databases[i].key == key {
                proof {
                    assert(before[i as int].0 == key@);
                    lemma_upsert(before, key@, (path@, kind, reader), i as int);
                }
                self.databases.set(i, Database { path, key, kind, reader });
                assert(self@ =~= upsert(before, key@, (path@, kind, reader)));
                return;
            }
            i = i + 1;
        }
        proof {
            lemma_upsert(before, key@, (path@, kind, reader), 0);
            assert(!has_key(before, key@));
        }
        self.databases.push(Database { path, key, kind, reader });
        assert(self@ =~= upsert(before, key@, (path@, kind, reader)));
    }

    /// Runs `check` over every database in order and fails with the first
    /// error it reports.
    pub fn verify_dbs<E, F: Fn(&R) -> Result<(), E>>(&self, check: F) -> (r: Result<(), E>)
        requires
            forall|i: int| 0 <= i < self.entries().len() ==> call_requires(check, (&#[trigger] self.entries()[i].reader,)),
        ensures
            r is Ok ==> forall|i: int|
                0 <= i < self.entries().len() ==> call_ensures(check, (&#[trigger] self.entries()[i].reader,), Ok(())),
            r matches Err(e) ==> exists|i: int|
                0 <= i < self.entries().len() && call_ensures(check, (&#[trigger] self.entries()[i].reader,), Err(e))
                    && forall|j: int| 0 <= j < i ==> call_ensures(check, (&self.entries()[j].reader,), Ok(())),
    {
        let n = self.databases.len();
        for i in 0..n
            invariant
                n == self.databases@.len(),
                forall|k: int| 0 <= k < self.databases@.len() ==> call_requires(check, (&#[trigger] self.databases@[k].reader,)),
                forall|k: int| 0 <= k < i ==> call_ensures(check, (&#[trigger] self.databases@[k].reader,), Ok(())),
        {
            let res = check(&self.databases[i].reader);
            assert(call_ensures(check, (&self.databases@[i as int].reader,), res));
            match res {
                Ok(u) => {
                    assert(res =~= Ok::<(), E>(()));
                },
                Err(e) => {
                    assert(self.entries()[i as int] == self.databases@[i as int]);
                    return Err(e);
                },
            }
        }
        Ok(())
    }

    /// Asks every database in order, by its kind and reader, for what it holds
    /// for one address, and collects the answers: each record found goes to the
    /// slot of the kind that found it. Fails with the first error, asking no
    /// database after it.
    pub fn get<E, F: Fn(DatabaseType, &R) -> Result<Record, E>>(&self, ask: F) -> (r: Result<LookupResult, E>)
        requires
            forall|i: int| 0 <= i < self.entries().len() ==> call_requires(
                ask,
                (self.entries()[i].kind, &#[trigger] self.entries()[i].reader),
            ),
            answers_in_kind(ask),
        ensures
            r matches Ok(result) ==> answered(self.entries(), ask, result@),
            r matches Err(e) ==> failed_at_first(self.entries(), ask, e),
    {
        let mut result = LookupResult::new();
        let ghost mut answers: Seq<Record> = Seq::empty();
        let n = self.databases.len();
        for i in 0..n
            invariant
                n == self.entries().len(),
                forall|k: int| 0 <= k < self.entries().len() ==> call_requires(
                    ask,
                    (self.entries()[k].kind, &#[trigger] self.entries()[k].reader),
                ),
                answers_in_kind(ask),
                answers.len() == i,
                all_answered(self.entries(), ask, answers),
                result@ == stored_all(empty_result(), answers),
        {
            let db = &self.databases[i];
            let res = ask(db.kind, &db.reader);
            assert(self.entries()[i as int] == self.databases@[i as int]);
            assert(call_ensures(ask, (self.entries()[i as int].kind, &self.entries()[i as int].reader), res));
            match res {
                Ok(record) => {
                    let ghost before = answers;
                    proof {
                        answers = answers.push(record);
                        assert(answers.drop_last() =~= before);
                        assert forall|k: int| 0 <= k < answers.len() implies {
                            &&& call_ensures(ask, (self.entries()[k].kind, &self.entries()[k].reader), Ok(#[trigger] answers[k]))
                            &&& answers_kind(self.entries()[k].kind, answers[k])
                        } by {
                            if k < i {
                                assert(answers[k] == before[k]);
                            }
                        }
                    }
                    result.store(record);
                },
                Err(e) => {
                    assert(answers.len() < self.entries().len());
                    return Err(e);
                },
            }
        }
        Ok(result)
    }

    /// Opens the databases at `paths` one after the other with `load`, which
    /// opens the file at a path: stops at the first source that did not open
    /// or whose type lookups do not understand, with its error, loading no
    /// path after it; else holds every database under its path. Paths are
    /// compared as the key text that `load` reports for them.
    pub fn open<P, E, F: Fn(&P) -> DatabaseSource<R, E>>(paths: Vec<P>, load: F) -> (r: Result<Self, LookupError<E>>)
        requires
            forall|i: int| 0 <= i < paths@.len() ==> call_requires(load, (&#[trigger] paths@[i],)),
        ensures
            open_outcome(paths@, load, r),
    {
        let mut lookup = Lookup { databases: Vec::new() };
        let ghost mut sources: Seq<DatabaseSource<R, E>> = Seq::empty();
        let n = paths.len();
        for i in 0..n
            invariant
                n == paths@.len(),
                forall|k: int| 0 <= k < paths@.len() ==> call_requires(load, (&#[trigger] paths@[k],)),
                sources.len() == i,
                loaded(paths@, load, sources),
                forall|j: int| 0 <= j < i ==> source_usable(#[trigger] sources[j]),
                lookup@ == catalog(sources),
                distinct_keys(lookup@),
        {
            let source = load(&paths[i]);
            let ghost before = sources;
            proof {
                sources = sources.push(source);
                assert(sources.drop_last() =~= before);
                assert forall|k: int| 0 <= k < sources.len() implies call_ensures(load, (&paths@[k],), #[trigger] sources[k]) by {
                    if k < i {
                        assert(sources[k] == before[k]);
                    }
                }
                assert(loaded(paths@, load, sources));
            }
            match source {
                DatabaseSource::Opened { path, key, database_type, reader } => {
                    match classify_database_type::<E>(database_type.as_str()) {
                        Ok(kind) => {
                            lookup.insert(key, path, kind, reader);
                        },
                        Err(e) => {
                            assert(failure_of(sources.last(), e));
                            assert(opened_from(paths@, sources, Err::<Self, LookupError<E>>(e)));
                            return Err(e);
                        },
                    }
                },
                DatabaseSource::Failed { path, error } => {
                    let e = LookupError::Open { path, source: error };
                    assert(failure_of(sources.last(), e));
                    assert(opened_from(paths@, sources, Err::<Self, LookupError<E>>(e)));
                    return Err(e);
                },
            }
        }
        assert(opened_from(paths@, sources, Ok::<Self, LookupError<E>>(lookup)));
        Ok(lookup)
    }
}

/// What opening the databases at `paths` with `load` may end in, by the
/// contract of `Lookup::open`: `load` gave some sources for the first paths
/// in order, and the result is what opening those sources gives.
pub open spec fn open_outcome<P, R, E, F: Fn(&P) -> DatabaseSource<R, E>>(
    paths: Seq<P>,
    load: F,
    r: Result<Lookup<R>, LookupError<E>>,
) -> bool {
    exists|sources: Seq<DatabaseSource<R, E>>| #[trigger] loaded(paths, load, sources) && opened_from(paths, sources, r)
}

/// `load` gives one source for each path.
pub open spec fn loads_deterministically<P, R, E, F: Fn(&P) -> DatabaseSource<R, E>>(load: F) -> bool {
    forall|p: &P, x: DatabaseSource<R, E>, y: DatabaseSource<R, E>|
        #[trigger] call_ensures(load, (p,), x) && #[trigger] call_ensures(load, (p,), y) ==> x == y
}

/// The two errors say the same: the same path and reader error, or the same
/// unsupported type.
pub open spec fn same_error<E>(e1: LookupError<E>, e2: LookupError<E>) -> bool {
    match (e1, e2) {
        (LookupError::Open { path: p1, source: s1 }, LookupError::Open { path: p2, source: s2 }) => p1@ == p2@ && s1 == s2,
        (LookupError::UnsupportedDatabaseType(t1), LookupError::UnsupportedDatabaseType(t2)) => t1@ == t2@,
        _ => false,
    }
}

/// Two openings of the same paths with a loader that gives one source per
/// path end alike, whether through `open` or `Lookup::open`: both hold the
/// same databases under the same paths, or both fail with the same error.
pub proof fn lemma_open_deterministic<P, R, E, F: Fn(&P) -> DatabaseSource<R, E>>(
    paths: Seq<P>,
    load: F,
    r1: Result<Lookup<R>, LookupError<E>>,
    r2: Result<Lookup<R>, LookupError<E>>,
)
    requires
        loads_deterministically(load),
        open_outcome(paths, load, r1),
        open_outcome(paths, load, r2),
    ensures
        r1 is Ok <==> r2 is Ok,
        r1 matches Ok(l1) ==> r2 matches Ok(l2) && l1@ == l2@,
        r1 matches Err(e1) ==> r2 matches Err(e2) && same_error(e1, e2),
{
    let s1 = choose|s: Seq<DatabaseSource<R, E>>| #[trigger] loaded(paths, load, s) && opened_from(paths, s, r1);
    let s2 = choose|s: Seq<DatabaseSource<R, E>>| #[trigger] loaded(paths, load, s) && opened_from(paths, s, r2);
    assert forall|i: int| 0 <= i < s1.len() && i < s2.len() implies s1[i] == s2[i] by {
        assert(call_ensures(load, (&paths[i],), s1[i]));
        assert(call_ensures(load, (&paths[i],), s2[i]));
    }
    match (r1, r2) {
        (Ok(l1), Ok(l2)) => {
            assert(s1 =~= s2);
        },
        (Ok(l1), Err(e2)) => {
            let n = s2.len() - 1;
            assert(s1[n] == s2[n]);
            assert(source_usable(s1[n]));
        },
        (Err(e1), Ok(l2)) => {
            let n = s1.len() - 1;
            assert(s1[n] == s2[n]);
            assert(source_usable(s2[n]));
        },
        (Err(e1), Err(e2)) => {
            let n1 = s1.len() - 1;
            let n2 = s2.len() - 1;
            if n1 < n2 {
                assert(s1[n1] == s2[n1]);
                assert(source_usable(s2[n1]));
            } else if n2 < n1 {
                assert(s1[n2] == s2[n2]);
                assert(source_usable(s1[n2]));
            } else {
                assert(s1[n1] == s2[n2]);
            }
        },
    }
}

/// `load` gave `sources` for the first paths, one for each, in order.
pub open spec fn loaded<P, R, E, F: Fn(&P) -> DatabaseSource<R, E>>(
    paths: Seq<P>,
    load: F,
    sources: Seq<DatabaseSource<R, E>>,
) -> bool {
    &&& sources.len() <= paths.len()
    &&& forall|i: int| 0 <= i < sources.len() ==> call_ensures(load, (&paths[i],), #[trigger] sources[i])
}

/// Opening that loaded `sources` from `paths` ended in `r`: with every path
/// loaded and usable, and the databases those sources give keyed by path; or
/// with the error of the last source loaded, the first that is not usable.
pub open spec fn opened_from<P, R, E>(
    paths: Seq<P>,
    sources: Seq<DatabaseSource<R, E>>,
    r: Result<Lookup<R>, LookupError<E>>,
) -> bool {
    match r {
        Ok(l) => {
            &&& sources.len() == paths.len()
            &&& forall|i: int| 0 <= i < sources.len() ==> source_usable(#[trigger] sources[i])
            &&& l@ == catalog(sources)
            &&& l.well_formed()
        },
        Err(e) => {
            &&& sources.len() >= 1
            &&& forall|i: int| 0 <= i < sources.len() - 1 ==> source_usable(#[trigger] sources[i])
            &&& !source_usable(sources.last())
            &&& failure_of(sources.last(), e)
        },
    }
}

/// Opens the databases at `paths`; see `Lookup::open`.
pub fn open<P, R, E, F: Fn(&P) -> DatabaseSource<R, E>>(paths: Vec<P>, load: F) -> (r: Result<Lookup<R>, LookupError<E>>)
    requires
        forall|i: int| 0 <= i < paths@.len() ==> call_requires(load, (&#[trigger] paths@[i],)),
    ensures
        open_outcome(paths@, load, r),
{
    Lookup::open(paths, load)
}

/// Inserting keeps every key that was there and adds the new one.
proof fn lemma_upsert_keys<V>(s: Seq<(Seq<char>, V)>, k: Seq<char>, v: V, other: Seq<char>)
    ensures
        has_key(upsert(s, k, v), k),
        has_key(s, other) ==> has_key(upsert(s, k, v), other),
{
    let t = upsert(s, k, v);
    if has_key(s, k) {
        let j = key_index(s, k);
        assert(t[j].0 == k);
        if has_key(s, other) {
            let m = choose|m: int| 0 <= m < s.len() && s[m].0 == other;
            assert(t[m].0 == other);
        }
    } else {
        assert(t[s.len() as int].0 == k);
        if has_key(s, other) {
            let m = choose|m: int| 0 <= m < s.len() && s[m].0 == other;
            assert(t[m].0 == other);
        }
    }
}

/// The key of an opened source's path.
pub open spec fn source_key<R, E>(s: DatabaseSource<R, E>) -> Seq<char> {
    match s {
        DatabaseSource::Opened { key, .. } => key@,
        DatabaseSource::Failed { path, .. } => path@,
    }
}

/// Every usable source's path is in the catalog, under its key, once.
pub proof fn lemma_catalog_paths<R, E>(sources: Seq<DatabaseSource<R, E>>, i: int)
    requires
        0 <= i < sources.len(),
        source_usable(sources[i]),
    ensures
        has_key(catalog(sources), source_key(sources[i])),
        distinct_keys(catalog(sources)),
    decreases sources.len(),
{
    lemma_catalog_distinct(sources);
    let before = catalog(sources.drop_last());
    if i == sources.len() - 1 {
        match sources.last() {
            DatabaseSource::Opened { path, key, database_type, reader } => {
                lemma_upsert_keys(before, key@, (path@, kind_of(database_type@)->0, reader), key@);
            },
            DatabaseSource::Failed { .. } => {},
        }
    } else {
        assert(sources.drop_last()[i] == sources[i]);
        lemma_catalog_paths(sources.drop_last(), i);
        match sources.last() {
            DatabaseSource::Opened { path, key, database_type, reader } => {
                if let Some(kind) = kind_of(database_type@) {
                    lemma_upsert_keys(before, key@, (path@, kind, reader), source_key(sources[i]));
                }
            },
            DatabaseSource::Failed { .. } => {},
        }
    }
}

/// No path is in the catalog twice.
pub proof fn lemma_catalog_distinct<R, E>(sources: Seq<DatabaseSource<R, E>>)
    ensures
        distinct_keys(catalog(sources)),
    decreases sources.len(),
{
    if sources.len() > 0 {
        lemma_catalog_distinct(sources.drop_last());
        match sources.last() {
            DatabaseSource::Opened { path, key, database_type, reader } => {
                if let Some(kind) = kind_of(database_type@) {
                    lemma_upsert(catalog(sources.drop_last()), key@, (path@, kind, reader), 0);
                }
            },
            DatabaseSource::Failed { .. } => {},
        }
    }
}

/// The answer is the kind of record that a database of `kind` holds.
pub open spec fn answers_kind(kind: DatabaseType, answer: Record) -> bool {
    match (kind, answer) {
        (DatabaseType::City, Record::City(_)) => true,
        (DatabaseType::Country, Record::Country(_)) => true,
        (DatabaseType::Asn, Record::Asn(_)) => true,
        (DatabaseType::Isp, Record::Isp(_)) => true,
        (DatabaseType::Domain, Record::Domain(_)) => true,
        (DatabaseType::ConnectionType, Record::ConnectionType(_)) => true,
        _ => false,
    }
}

/// `ask` answers a database only with the kind of record that its kind holds.
pub open spec fn answers_in_kind<R, E, F: Fn(DatabaseType, &R) -> Result<Record, E>>(ask: F) -> bool {
    forall|kind: DatabaseType, reader: &R, answer: Record|
        #[trigger] call_ensures(ask, (kind, reader), Ok(answer)) ==> answers_kind(kind, answer)
}

/// `ask` gave each answer in `answers` for the database at the same place,
/// each of that database's kind.
pub open spec fn all_answered<R, E, F: Fn(DatabaseType, &R) -> Result<Record, E>>(
    dbs: Seq<Database<R>>,
    ask: F,
    answers: Seq<Record>,
) -> bool {
    forall|i: int| 0 <= i < answers.len() ==> {
        &&& call_ensures(ask, (dbs[i].kind, &dbs[i].reader), Ok(#[trigger] answers[i]))
        &&& answers_kind(dbs[i].kind, answers[i])
    }
}

/// Every database answered, and `result` collects the answers in order.
pub open spec fn answered<R, E, F: Fn(DatabaseType, &R) -> Result<Record, E>>(
    dbs: Seq<Database<R>>,
    ask: F,
    result: ResultView,
) -> bool {
    exists|answers: Seq<Record>| {
        &&& answers.len() == dbs.len()
        &&& #[trigger] all_answered(dbs, ask, answers)
        &&& result == stored_all(empty_result(), answers)
    }
}

/// The databases before some database answered, and that one failed with `e`.
pub open spec fn failed_at_first<R, E, F: Fn(DatabaseType, &R) -> Result<Record, E>>(
    dbs: Seq<Database<R>>,
    ask: F,
    e: E,
) -> bool {
    exists|answers: Seq<Record>| {
        &&& answers.len() < dbs.len()
        &&& #[trigger] all_answered(dbs, ask, answers)
        &&& call_ensures(ask, (dbs[answers.len() as int].kind, &dbs[answers.len() as int].reader), Err(e))
    }
}

/// `ask` gives one answer for each database kind and reader.
pub open spec fn deterministic<R, E, F: Fn(DatabaseType, &R) -> Result<Record, E>>(ask: F) -> bool {
    forall|kind: DatabaseType, reader: &R, x: Result<Record, E>, y: Result<Record, E>|
        #[trigger] call_ensures(ask, (kind, reader), x) && #[trigger] call_ensures(ask, (kind, reader), y) ==> x
            == y
}

/// What a lookup over `dbs` may end in, by the contract of `Lookup::get`.
pub open spec fn lookup_outcome<R, E, F: Fn(DatabaseType, &R) -> Result<Record, E>>(
    dbs: Seq<Database<R>>,
    ask: F,
    r: Result<ResultView, E>,
) -> bool {
    match r {
        Ok(result) => answered(dbs, ask, result),
        Err(e) => failed_at_first(dbs, ask, e),
    }
}

/// Two lookups over the same databases with an `ask` that gives one answer
/// per database end alike: both fail with the same error, or both give the
/// same record, or none, in every slot.
pub proof fn lemma_get_deterministic<R, E, F: Fn(DatabaseType, &R) -> Result<Record, E>>(
    dbs: Seq<Database<R>>,
    ask: F,
    r1: Result<ResultView, E>,
    r2: Result<ResultView, E>,
)
    requires
        deterministic(ask),
        lookup_outcome(dbs, ask, r1),
        lookup_outcome(dbs, ask, r2),
    ensures
        r1 == r2,
{
    match (r1, r2) {
        (Ok(v1), Ok(v2)) => {
            let a1 = choose|a: Seq<Record>| a.len() == dbs.len() && #[trigger] all_answered(dbs, ask, a) && v1 == stored_all(empty_result(), a);
            let a2 = choose|a: Seq<Record>| a.len() == dbs.len() && #[trigger] all_answered(dbs, ask, a) && v2 == stored_all(empty_result(), a);
            assert forall|i: int| 0 <= i < a1.len() implies a1[i] == a2[i] by {
                assert(call_ensures(ask, (dbs[i].kind, &dbs[i].reader), Ok(a1[i])));
                assert(call_ensures(ask, (dbs[i].kind, &dbs[i].reader), Ok(a2[i])));
                assert(Ok::<Record, E>(a1[i]) == Ok::<Record, E>(a2[i]));
            }
            assert(a1 =~= a2);
        },
        (Ok(v1), Err(e2)) => {
            let a1 = choose|a: Seq<Record>| a.len() == dbs.len() && #[trigger] all_answered(dbs, ask, a) && v1 == stored_all(empty_result(), a);
            let b2 = choose|b: Seq<Record>| b.len() < dbs.len() && #[trigger] all_answered(dbs, ask, b) && call_ensures(ask, (dbs[b.len() as int].kind, &dbs[b.len() as int].reader), Err(e2));
            let n = b2.len() as int;
            assert(call_ensures(ask, (dbs[n].kind, &dbs[n].reader), Ok(a1[n])));
            assert(Ok::<Record, E>(a1[n]) == Err::<Record, E>(e2));
        },
        (Err(e1), Ok(v2)) => {
            let a2 = choose|a: Seq<Record>| a.len() == dbs.len() && #[trigger] all_answered(dbs, ask, a) && v2 == stored_all(empty_result(), a);
            let b1 = choose|b: Seq<Record>| b.len() < dbs.len() && #[trigger] all_answered(dbs, ask, b) && call_ensures(ask, (dbs[b.len() as int].kind, &dbs[b.len() as int].reader), Err(e1));
            let n = b1.len() as int;
            assert(call_ensures(ask, (dbs[n].kind, &dbs[n].reader), Ok(a2[n])));
            assert(Ok::<Record, E>(a2[n]) == Err::<Record, E>(e1));
        },
        (Err(e1), Err(e2)) => {
            let b1 = choose|b: Seq<Record>| b.len() < dbs.len() && #[trigger] all_answered(dbs, ask, b) && call_ensures(ask, (dbs[b.len() as int].kind, &dbs[b.len() as int].reader), Err(e1));
            let b2 = choose|b: Seq<Record>| b.len() < dbs.len() && #[trigger] all_answered(dbs, ask, b) && call_ensures(ask, (dbs[b.len() as int].kind, &dbs[b.len() as int].reader), Err(e2));
            let n1 = b1.len() as int;
            let n2 = b2.len() as int;
            if n1 < n2 {
                assert(call_ensures(ask, (dbs[n1].kind, &dbs[n1].reader), Ok(b2[n1])));
                assert(Ok::<Record, E>(b2[n1]) == Err::<Record, E>(e1));
            } else if n2 < n1 {
                assert(call_ensures(ask, (dbs[n2].kind, &dbs[n2].reader), Ok(b1[n2])));
                assert(Ok::<Record, E>(b1[n2]) == Err::<Record, E>(e2));
            } else {
                assert(Err::<Record, E>(e1) == Err::<Record, E>(e2));
            }
        },
    }
}

/// A lowercased type names a City database when it contains "city"; else a
/// Country database when it contains "country"; else ASN, ISP, Domain and
/// Connection-Type in that order, each by its word; else no database kind.
pub proof fn lemma_classification(s: Seq<char>)
    ensures
        contains_seq(s, "city"@) ==> kind_of_lowered(s) == Some(DatabaseType::City),
        !contains_seq(s, "city"@) && contains_seq(s, "country"@) ==> kind_of_lowered(s) == Some(
            DatabaseType::Country,
        ),
        !contains_seq(s, "city"@) && !contains_seq(s, "country"@) && contains_seq(s, "asn"@) ==> kind_of_lowered(s)
            == Some(DatabaseType::Asn),
        !contains_seq(s, "city"@) && !contains_seq(s, "country"@) && !contains_seq(s, "asn"@) && contains_seq(
            s,
            "isp"@,
        ) ==> kind_of_lowered(s) == Some(DatabaseType::Isp),
        !contains_seq(s, "city"@) && !contains_seq(s, "country"@) && !contains_seq(s, "asn"@) && !contains_seq(
            s,
            "isp"@,
        ) && contains_seq(s, "domain"@) ==> kind_of_lowered(s) == Some(DatabaseType::Domain),
        !contains_seq(s, "city"@) && !contains_seq(s, "country"@) && !contains_seq(s, "asn"@) && !contains_seq(
            s,
            "isp"@,
        ) && !contains_seq(s, "domain"@) && contains_seq(s, "connection-type"@) ==> kind_of_lowered(s) == Some(
            DatabaseType::ConnectionType,
        ),
        kind_of_lowered(s) is None <==> !contains_seq(s, "city"@) && !contains_seq(s, "country"@) && !contains_seq(
            s,
            "asn"@,
        ) && !contains_seq(s, "isp"@) && !contains_seq(s, "domain"@) && !contains_seq(s, "connection-type"@),
{
}

/// Each usable source whose path no later usable source shares is in the
/// catalog under the key of its path, with its path text, the kind that its
/// metadata type classifies to, and its own reader.
pub proof fn lemma_catalog_entry<R, E>(sources: Seq<DatabaseSource<R, E>>, i: int)
    requires
        0 <= i < sources.len(),
        source_usable(sources[i]),
        forall|j: int|
            i < j < sources.len() && source_usable(#[trigger] sources[j]) ==> source_key(sources[j]) != source_key(
                sources[i],
            ),
    ensures
        sources[i] matches DatabaseSource::Opened { path, key, database_type, reader } && has_entry(
            catalog(sources),
            key@,
            (path@, kind_of(database_type@)->0, reader),
        ),
    decreases sources.len(),
{
    lemma_catalog_distinct(sources.drop_last());
    let before = catalog(sources.drop_last());
    if i == sources.len() - 1 {
        match sources.last() {
            DatabaseSource::Opened { path, key, database_type, reader } => {
                lemma_upsert_entries(before, key@, (path@, kind_of(database_type@)->0, reader));
            },
            DatabaseSource::Failed { .. } => {},
        }
    } else {
        let rest = sources.drop_last();
        assert(rest[i] == sources[i]);
        assert forall|j: int|
            i < j < rest.len() && source_usable(#[trigger] rest[j]) implies source_key(rest[j]) != source_key(rest[i]) by {
            assert(rest[j] == sources[j]);
        }
        lemma_catalog_entry(rest, i);
        let last = sources.last();
        assert(last == sources[sources.len() - 1]);
        match last {
            DatabaseSource::Opened { path, key, database_type, reader } => {
                if let Some(kind) = kind_of(database_type@) {
                    assert(source_usable(sources[sources.len() - 1]));
                    lemma_upsert_entries(before, key@, (path@, kind, reader));
                }
            },
            DatabaseSource::Failed { .. } => {},
        }
    }
}

} // verus!
