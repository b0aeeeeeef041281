//! Incremental elaboration engine.
//!
//! Query memoisation in the style of Salsa: a per-file parse query and a
//! per-definition elaborate query, each cached and invalidated by content
//! changes.  A document change is detected by comparing BLAKE3 digests of the
//! document text; a change bumps the global revision, drops the file's parse
//! snapshot and every elaborated entry that depends on the file's module key.

use std::collections::BTreeSet;
use vstd::hash_map::StringHashMap;
use vstd::prelude::*;
use vstd::utf8::encode_utf8;

use crate::digest::{blake3_digest, blake3_hash, digest_eq};

verus! {

/// Definition key uniquely identifying a module or top-level definition.
#[derive(Debug, Hash)]
pub struct DefinitionKey {
    /// Stringified URL.
    pub uri: String,
    /// "<module>" for whole-module entries, or the definition name.
    pub name: String,
}

/// Mathematical value of a [`DefinitionKey`]: (uri, name).
pub type DefinitionKeyView = (Seq<char>, Seq<char>);

impl View for DefinitionKey {
    type V = DefinitionKeyView;

    open spec fn view(&self) -> DefinitionKeyView {
        (self.uri@, self.name@)
    }
}

impl Clone for DefinitionKey {
    fn clone(&self) -> (r: Self)
        ensures
            r == *self,
    {
        DefinitionKey { uri: self.uri.clone(), name: self.name.clone() }
    }
}

impl PartialEq for DefinitionKey {
    fn eq(&self, other: &Self) -> (r: bool) {
        self.uri.eq(&other.uri) && self.name.eq(&other.name)
    }
}

impl vstd::std_specs::cmp::PartialEqSpecImpl for DefinitionKey {
    open spec fn obeys_eq_spec() -> bool {
        true
    }

    open spec fn eq_spec(&self, other: &Self) -> bool {
        self@ == other@
    }
}

impl Eq for DefinitionKey {
}

/// The key of a file's whole-module entry.
pub open spec fn module_key(uri: Seq<char>) -> DefinitionKeyView {
    (uri, "<module>"@)
}

/// Views of a sequence of keys.
pub open spec fn key_views(keys: Seq<DefinitionKey>) -> Seq<DefinitionKeyView> {
    keys.map_values(|k: DefinitionKey| k@)
}

/// A finite set of definition keys, each held once.
#[derive(Debug)]
pub struct DefinitionKeySet {
    keys: Vec<DefinitionKey>,
}

impl View for DefinitionKeySet {
    type V = Set<DefinitionKeyView>;

    closed spec fn view(&self) -> Set<DefinitionKeyView> {
        key_views(self.keys@).to_set()
    }
}

impl DefinitionKeySet {
    #[verifier::type_invariant]
    closed spec fn keys_distinct(self) -> bool {
        key_views(self.keys@).no_duplicates()
    }

    /// The empty set.
    pub fn new() -> (r: Self)
        ensures
            r@ == Set::<DefinitionKeyView>::empty(),
    {
        let r = DefinitionKeySet { keys: Vec::new() };
        assert(key_views(r.keys@).to_set() =~= Set::empty());
        r
    }

    /// Membership test.
    pub fn contains(&self, key: &DefinitionKey) -> (r: bool)
        ensures
            r == self@.contains(key@),
    {
        let mut i: usize = 0;
        while i < self.keys.len()
            invariant
                0 <= i <= self.keys@.len(),
                forall|j: int| 0 <= j < i ==> self.keys@[j]@ != key@,
            decreases self.keys@.len() - i,
        {
            if self.keys[i].eq(key) {
                assert(key_views(self.keys@)[i as int] == key@);
                return true;
            }
            i += 1;
        }
        assert(!key_views(self.keys@).contains(key@));
        false
    }

    /// Add `key`; true if it was not yet present (as `BTreeSet::insert`).
    pub fn insert(&mut self, key: DefinitionKey) -> (added: bool)
        ensures
            final(self)@ == old(self)@.insert(key@),
            added == !old(self)@.contains(key@),
    {
        proof {
            use_type_invariant(&*self);
        }
        if self.contains(&key) {
            assert(old(self)@.insert(key@) =~= old(self)@);
            return false;
        }
        let ghost before = key_views(self.keys@);
        let mut keys: Vec<DefinitionKey> = Vec::new();
        std::mem::swap(&mut keys, &mut self.keys);
        keys.push(key);
        assert(key_views(keys@) =~= before.push(key@));
        proof {
            before.lemma_push_to_set_commute(key@);
        }
        self.keys = keys;
        true
    }

    /// Number of keys.
    pub fn len(&self) -> (r: usize)
        ensures
            r == self@.len(),
    {
        proof {
            use_type_invariant(self);
            key_views(self.keys@).unique_seq_to_set();
        }
        self.keys.len()
    }

    /// The keys, each once, in insertion order.
    pub fn as_slice(&self) -> (r: &[DefinitionKey])
        ensures
            key_views(r@).to_set() == self@,
            key_views(r@).no_duplicates(),
    {
        proof {
            use_type_invariant(self);
        }
        self.keys.as_slice()
    }
}

impl Clone for DefinitionKeySet {
    fn clone(&self) -> (r: Self)
        ensures
            r@ == self@,
    {
        proof {
            use_type_invariant(self);
        }
        let mut keys: Vec<DefinitionKey> = Vec::new();
        let mut i: usize = 0;
        while i < self.keys.len()
            invariant
                0 <= i <= self.keys@.len(),
                keys@ == self.keys@.subrange(0, i as int),
            decreases self.keys@.len() - i,
        {
            keys.push(self.keys[i].clone());
            assert(keys@ =~= self.keys@.subrange(0, i + 1));
            i += 1;
        }
        assert(keys@ =~= self.keys@);
        DefinitionKeySet { keys }
    }
}


/// Snapshot of an elaborated module or definition.
#[derive(Debug)]
pub struct ElaboratedSnapshot {
    /// Revision at which this snapshot was computed.
    pub rev: u64,
    /// Definition keys this elaboration depends on.
    pub deps_from: DefinitionKeySet,
    /// Number of diagnostics of the elaboration (0 until definitions are elaborated).
    pub diagnostics_count: u32,
}

/// Mathematical value of an [`ElaboratedSnapshot`].
pub ghost struct ElaboratedView {
    pub rev: u64,
    pub deps_from: Set<DefinitionKeyView>,
    pub diagnostics_count: u32,
}

impl View for ElaboratedSnapshot {
    type V = ElaboratedView;

    open spec fn view(&self) -> ElaboratedView {
        ElaboratedView {
            rev: self.rev,
            deps_from: self.deps_from@,
            diagnostics_count: self.diagnostics_count,
        }
    }
}

impl Clone for ElaboratedSnapshot {
    fn clone(&self) -> (r: Self)
        ensures
            r@ == self@,
    {
        ElaboratedSnapshot {
            rev: self.rev,
            deps_from: self.deps_from.clone(),
            diagnostics_count: self.diagnostics_count,
        }
    }
}

/// Keys of a sequence of table entries.
pub open spec fn entry_keys(s: Seq<(DefinitionKey, ElaboratedSnapshot)>) -> Seq<DefinitionKeyView> {
    s.map_values(|e: (DefinitionKey, ElaboratedSnapshot)| e.0@)
}

/// Index of the entry holding key `k`.
pub open spec fn entry_index(s: Seq<(DefinitionKey, ElaboratedSnapshot)>, k: DefinitionKeyView) -> int {
    choose|i: int| 0 <= i < s.len() && s[i].0@ == k
}

/// The map that a sequence of entries with distinct keys stands for.
pub open spec fn entries_map(s: Seq<(DefinitionKey, ElaboratedSnapshot)>) -> Map<DefinitionKeyView, ElaboratedView> {
    Map::new(|k: DefinitionKeyView| entry_keys(s).contains(k), |k: DefinitionKeyView| s[entry_index(s, k)].1@)
}

proof fn lemma_entries_lookup(s: Seq<(DefinitionKey, ElaboratedSnapshot)>, i: int)
    requires
        entry_keys(s).no_duplicates(),
        0 <= i < s.len(),
    ensures
        entries_map(s).contains_key(s[i].0@),
        entries_map(s)[s[i].0@] == s[i].1@,
        entry_index(s, s[i].0@) == i,
{
    assert(entry_keys(s)[i] == s[i].0@);
    let j = entry_index(s, s[i].0@);
    assert(entry_keys(s)[j] == entry_keys(s)[i]);
}

proof fn lemma_entries_keys(s: Seq<(DefinitionKey, ElaboratedSnapshot)>, k: DefinitionKeyView)
    requires
        entry_keys(s).no_duplicates(),
        entries_map(s).contains_key(k),
    ensures
        0 <= entry_index(s, k) < s.len(),
        s[entry_index(s, k)].0@ == k,
{
    let i = choose|i: int| 0 <= i < entry_keys(s).len() && entry_keys(s)[i] == k;
    assert(s[i].0@ == k);
}

proof fn lemma_entries_dom(s: Seq<(DefinitionKey, ElaboratedSnapshot)>)
    requires
        entry_keys(s).no_duplicates(),
    ensures
        entries_map(s).dom() == entry_keys(s).to_set(),
        entries_map(s).len() == s.len(),
{
    assert(entries_map(s).dom() =~= entry_keys(s).to_set());
    entry_keys(s).unique_seq_to_set();
}

/// A finite map from definition keys to elaborated snapshots.
#[derive(Debug)]
pub struct DefinitionTable {
    entries: Vec<(DefinitionKey, ElaboratedSnapshot)>,
}

impl View for DefinitionTable {
    type V = Map<DefinitionKeyView, ElaboratedView>;

    closed spec fn view(&self) -> Map<DefinitionKeyView, ElaboratedView> {
        entries_map(self.entries@)
    }
}

impl DefinitionTable {
    #[verifier::type_invariant]
    closed spec fn keys_distinct(self) -> bool {
        entry_keys(self.entries@).no_duplicates()
    }

    /// The keys of the table in storage order, each once.
    pub closed spec fn key_seq(&self) -> Seq<DefinitionKeyView> {
        entry_keys(self.entries@)
    }

    /// The empty table.
    pub fn new() -> (r: Self)
        ensures
            r@ == Map::<DefinitionKeyView, ElaboratedView>::empty(),
    {
        let r = DefinitionTable { entries: Vec::new() };
        assert(r@ =~= Map::empty());
        r
    }

    /// Number of entries.
    pub fn len(&self) -> (r: usize)
        ensures
            r == self@.len(),
    {
        proof {
            use_type_invariant(self);
            lemma_entries_dom(self.entries@);
        }
        self.entries.len()
    }

    /// Number of entries; `key_seq` lists the table's keys, each exactly once.
    pub fn entry_count(&self) -> (r: usize)
        ensures
            r == self.key_seq().len(),
            r == self@.len(),
            self.key_seq().no_duplicates(),
            self@.dom() == self.key_seq().to_set(),
    {
        proof {
            use_type_invariant(self);
            lemma_entries_dom(self.entries@);
        }
        self.entries.len()
    }

    /// The key at storage position `i`.
    pub fn key_at(&self, i: usize) -> (r: &DefinitionKey)
        requires
            i < self.key_seq().len(),
        ensures
            r@ == self.key_seq()[i as int],
    {
        &self.entries[i].0
    }

    /// The snapshot at storage position `i`.
    pub fn value_at(&self, i: usize) -> (r: &ElaboratedSnapshot)
        requires
            i < self.key_seq().len(),
        ensures
            self@.contains_key(self.key_seq()[i as int]),
            r@ == self@[self.key_seq()[i as int]],
    {
        proof {
            use_type_invariant(self);
            lemma_entries_lookup(self.entries@, i as int);
        }
        &self.entries[i].1
    }

    fn position(&self, key: &DefinitionKey) -> (r: Option<usize>)
        ensures
            match r {
                Some(i) => i < self.entries@.len() && self.entries@[i as int].0@ == key@,
                None => !self@.contains_key(key@),
            },
    {
        let mut i: usize = 0;
        while i < self.entries.len()
            invariant
                0 <= i <= self.entries@.len(),
                forall|j: int| 0 <= j < i ==> self.entries@[j].0@ != key@,
            decreases self.entries@.len() - i,
        {
            if self.entries[i].0.eq(key) {
                return Some(i);
            }
            i += 1;
        }
        proof {
            if entry_keys(self.entries@).contains(key@) {
                let j = choose|j: int| 0 <= j < entry_keys(self.entries@).len() && entry_keys(self.entries@)[j] == key@;
                assert(self.entries@[j].0@ == key@);
            }
        }
        None
    }

    /// The snapshot stored under `key`, if any.
    pub fn get(&self, key: &DefinitionKey) -> (r: Option<&ElaboratedSnapshot>)
        ensures
            match r {
                Some(v) => self@.contains_key(key@) && v@ == self@[key@],
                None => !self@.contains_key(key@),
            },
    {
        proof {
            use_type_invariant(self);
        }
        match self.position(key) {
            Some(i) => {
                proof {
                    lemma_entries_lookup(self.entries@, i as int);
                }
                Some(&self.entries[i].1)
            },
            None => None,
        }
    }

    /// Store `value` under `key`, replacing any previous entry.
    pub fn insert(&mut self, key: DefinitionKey, value: ElaboratedSnapshot)
        ensures
            final(self)@ == old(self)@.insert(key@, value@),
    {
        proof {
            use_type_invariant(&*self);
        }
        let pos = self.position(&key);
        let ghost old_entries = self.entries@;
        let ghost kv = key@;
        let ghost vv = value@;
        let mut entries: Vec<(DefinitionKey, ElaboratedSnapshot)> = Vec::new();
        std::mem::swap(&mut entries, &mut self.entries);
        match pos {
            Some(i) => {
                entries.set(i, (key, value));
                proof {
                    assert(entry_keys(entries@) =~= entry_keys(old_entries));
                    assert forall|k: DefinitionKeyView| #[trigger] entries_map(entries@).contains_key(k)
                        implies entries_map(entries@)[k] == entries_map(old_entries).insert(kv, vv)[k] by {
                        lemma_entries_keys(entries@, k);
                        let j = entry_index(entries@, k);
                        lemma_entries_lookup(entries@, j);
                        if j != i as int {
                            assert(entries@[j] == old_entries[j]);
                            lemma_entries_lookup(old_entries, j);
                            lemma_entries_lookup(old_entries, i as int);
                            assert(entry_keys(old_entries)[j] != entry_keys(old_entries)[i as int]);
                        }
                    }
                    lemma_entries_lookup(old_entries, i as int);
                    assert(entries_map(entries@).dom() =~= entries_map(old_entries).insert(kv, vv).dom());
                    assert(entries_map(entries@) =~= entries_map(old_entries).insert(kv, vv));
                }
            },
            None => {
                entries.push((key, value));
                proof {
                    assert(entry_keys(entries@) =~= entry_keys(old_entries).push(kv));
                    assert(!entry_keys(old_entries).contains(kv));
                    assert forall|a: int, b: int| 0 <= a < b < entry_keys(entries@).len()
                        implies entry_keys(entries@)[a] != entry_keys(entries@)[b] by {
                        if b == old_entries.len() {
                            assert(entry_keys(old_entries)[a] == entry_keys(entries@)[a]);
                        }
                    }
                    assert forall|k: DefinitionKeyView|
                        entries_map(entries@).contains_key(k) <==> entries_map(old_entries).insert(kv, vv).contains_key(k) by {
                        if entry_keys(old_entries).contains(k) {
                            let j = choose|j: int| 0 <= j < entry_keys(old_entries).len() && entry_keys(old_entries)[j] == k;
                            assert(entry_keys(entries@)[j] == k);
                        }
                        if entry_keys(entries@).contains(k) {
                            let j = choose|j: int| 0 <= j < entry_keys(entries@).len() && entry_keys(entries@)[j] == k;
                            if j < old_entries.len() {
                                assert(entry_keys(old_entries)[j] == k);
                            }
                        }
                        assert(entry_keys(entries@)[old_entries.len() as int] == kv);
                    }
                    assert forall|k: DefinitionKeyView| #[trigger] entries_map(entries@).contains_key(k)
                        implies entries_map(entries@)[k] == entries_map(old_entries).insert(kv, vv)[k] by {
                        lemma_entries_keys(entries@, k);
                        let j = entry_index(entries@, k);
                        lemma_entries_lookup(entries@, j);
                        if j != old_entries.len() {
                            assert(entries@[j] == old_entries[j]);
                            lemma_entries_lookup(old_entries, j);
                        }
                    }
                    assert(entries_map(entries@) =~= entries_map(old_entries).insert(kv, vv));
                }
            },
        }
        self.entries = entries;
    }

    /// Remove the entry stored under `key`, if any.
    pub fn remove(&mut self, key: &DefinitionKey)
        ensures
            final(self)@ == old(self)@.remove(key@),
    {
        proof {
            use_type_invariant(&*self);
        }
        match self.position(key) {
            Some(i) => {
                let ghost old_entries = self.entries@;
                let mut entries: Vec<(DefinitionKey, ElaboratedSnapshot)> = Vec::new();
                std::mem::swap(&mut entries, &mut self.entries);
                let _ = entries.remove(i);
                proof {
                    assert(entry_keys(entries@) =~= entry_keys(old_entries).remove(i as int));
                    assert forall|a: int, b: int| 0 <= a < b < entry_keys(entries@).len()
                        implies entry_keys(entries@)[a] != entry_keys(entries@)[b] by {
                        let a2 = if a < i { a } else { a + 1 };
                        let b2 = if b < i { b } else { b + 1 };
                        assert(entry_keys(old_entries)[a2] != entry_keys(old_entries)[b2]);
                    }
                    assert forall|k: DefinitionKeyView|
                        entries_map(entries@).contains_key(k) <==> entries_map(old_entries).remove(key@).contains_key(k) by {
                        if entries_map(entries@).contains_key(k) {
                            lemma_entries_keys(entries@, k);
                            let j = entry_index(entries@, k);
                            let j2 = if j < i { j } else { j + 1 };
                            assert(entries@[j] == old_entries[j2]);
                            lemma_entries_lookup(old_entries, j2);
                            lemma_entries_lookup(old_entries, i as int);
                        }
                        if entries_map(old_entries).remove(key@).contains_key(k) {
                            lemma_entries_keys(old_entries, k);
                            let j2 = entry_index(old_entries, k);
                            lemma_entries_lookup(old_entries, i as int);
                            let j = if j2 < i { j2 } else { j2 - 1 };
                            assert(entries@[j] == old_entries[j2]);
                            assert(entry_keys(entries@)[j] == k);
                        }
                    }
                    assert forall|k: DefinitionKeyView| #[trigger] entries_map(entries@).contains_key(k)
                        implies entries_map(entries@)[k] == entries_map(old_entries)[k] by {
                        lemma_entries_keys(entries@, k);
                        let j = entry_index(entries@, k);
                        lemma_entries_lookup(entries@, j);
                        let j2 = if j < i { j } else { j + 1 };
                        assert(entries@[j] == old_entries[j2]);
                        lemma_entries_lookup(old_entries, j2);
                    }
                    assert(entries_map(entries@) =~= entries_map(old_entries).remove(key@));
                }
                self.entries = entries;
            },
            None => {
                assert(old(self)@.remove(key@) =~= old(self)@);
            },
        }
    }
}


/// Snapshot of a source document.
#[derive(Debug)]
pub struct DocumentSnapshot {
    /// Revision at which the document last changed.
    pub rev: u64,
    /// BLAKE3 hash of the content.
    pub content_hash: [u8; 32],
    /// Source text.
    pub text: String,
}

/// Mathematical value of a [`DocumentSnapshot`].
pub ghost struct DocumentView {
    pub rev: u64,
    pub content_hash: Seq<u8>,
    pub text: Seq<char>,
}

impl View for DocumentSnapshot {
    type V = DocumentView;

    open spec fn view(&self) -> DocumentView {
        DocumentView { rev: self.rev, content_hash: self.content_hash@, text: self.text@ }
    }
}

/// Snapshot of a parsed file.
#[derive(Debug)]
pub struct ParsedSnapshot {
    /// Revision at which this snapshot was computed.
    pub rev: u64,
    /// URIs imported by this file.
    pub deps_from: BTreeSet<String>,
    /// Length of the source text in bytes.
    pub source_len: usize,
}

/// Mathematical value of a [`ParsedSnapshot`].
pub ghost struct ParsedView {
    pub rev: u64,
    pub deps_from: Set<String>,
    pub source_len: usize,
}

impl View for ParsedSnapshot {
    type V = ParsedView;

    open spec fn view(&self) -> ParsedView {
        ParsedView { rev: self.rev, deps_from: self.deps_from@, source_len: self.source_len }
    }
}

impl Clone for ParsedSnapshot {
    fn clone(&self) -> (r: Self)
        ensures
            r@ == self@,
    {
        ParsedSnapshot { rev: self.rev, deps_from: self.deps_from.clone(), source_len: self.source_len }
    }
}

/// Query statistics for monitoring cache effectiveness.
#[derive(Default, Clone, Copy, Debug)]
pub struct QueryStats {
    /// Total parse query invocations.
    pub parse_calls: u64,
    /// Total elaborate query invocations.
    pub elab_calls: u64,
    /// Cache hits across all queries.
    pub hits: u64,
    /// Cache misses across all queries.
    pub misses: u64,
}

/// Incremental elaboration query engine.
pub struct QueryEngine {
    /// Global revision counter, incremented on each document change.
    pub revision: u64,
    /// Document snapshots keyed by URI.
    pub documents: StringHashMap<DocumentSnapshot>,
    /// Parsed snapshots keyed by URI.
    pub parsed: StringHashMap<ParsedSnapshot>,
    /// Elaborated snapshots keyed by definition key.
    pub elaborated_definitions: DefinitionTable,
    /// Query statistics.
    pub stats: QueryStats,
}

/// Mathematical value of a [`QueryEngine`].
pub ghost struct EngineView {
    pub revision: u64,
    pub documents: Map<Seq<char>, DocumentView>,
    pub parsed: Map<Seq<char>, ParsedView>,
    pub elaborated: Map<DefinitionKeyView, ElaboratedView>,
    pub stats: QueryStats,
}

impl View for QueryEngine {
    type V = EngineView;

    open spec fn view(&self) -> EngineView {
        EngineView {
            revision: self.revision,
            documents: self.documents@.map_values(|d: DocumentSnapshot| d@),
            parsed: self.parsed@.map_values(|p: ParsedSnapshot| p@),
            elaborated: self.elaborated_definitions@,
            stats: self.stats,
        }
    }
}

/// Digest under which a document text is recorded: BLAKE3 of its UTF-8 bytes.
pub open spec fn document_digest(text: Seq<char>) -> Seq<u8> {
    blake3_digest(encode_utf8(text))
}

/// The elaboration depends on the whole-module key of file `uri`.
pub open spec fn depends_on_file(e: ElaboratedView, uri: Seq<char>) -> bool {
    e.deps_from.contains(module_key(uri))
}

/// The elaborated entries that survive a change of file `uri`.
pub open spec fn cascade(m: Map<DefinitionKeyView, ElaboratedView>, uri: Seq<char>) -> Map<DefinitionKeyView, ElaboratedView> {
    Map::new(|k: DefinitionKeyView| m.contains_key(k) && !depends_on_file(m[k], uri), |k: DefinitionKeyView| m[k])
}

/// State after ingesting `text` as the content of `uri`.
pub open spec fn set_document_spec(e: EngineView, uri: Seq<char>, text: Seq<char>) -> EngineView {
    let h = document_digest(text);
    if e.documents.contains_key(uri) && e.documents[uri].content_hash == h {
        e
    } else {
        let rev = (e.revision + 1) as u64;
        EngineView {
            revision: rev,
            documents: e.documents.insert(uri, DocumentView { rev, content_hash: h, text }),
            parsed: e.parsed.remove(uri),
            elaborated: cascade(e.elaborated, uri),
            stats: e.stats,
        }
    }
}

/// State and result of [`QueryEngine::set_document_checked`]: as
/// [`set_document_spec`] with `true` when the revision counter has room or
/// the text is unchanged; otherwise the engine unchanged and `false`.
pub open spec fn set_document_checked_spec(e: EngineView, uri: Seq<char>, text: Seq<char>) -> (EngineView, bool) {
    if e.revision < u64::MAX || document_unchanged(e, uri, text) {
        (set_document_spec(e, uri, text), true)
    } else {
        (e, false)
    }
}

/// `text` has the digest recorded for `uri`: ingesting it changes nothing.
pub open spec fn document_unchanged(e: EngineView, uri: Seq<char>, text: Seq<char>) -> bool {
    e.documents.contains_key(uri) && e.documents[uri].content_hash == document_digest(text)
}

/// The cached parse of `uri` is at the revision of its document.
pub open spec fn parse_is_fresh(e: EngineView, uri: Seq<char>) -> bool {
    &&& e.parsed.contains_key(uri)
    &&& e.documents.contains_key(uri)
    &&& e.parsed[uri].rev == e.documents[uri].rev
}

/// The parse snapshot computed for a document.
pub open spec fn fresh_parse(doc: DocumentView) -> ParsedView {
    ParsedView { rev: doc.rev, deps_from: Set::empty(), source_len: encode_utf8(doc.text).len() as usize }
}

/// State and result of a parse query for `uri`.
pub open spec fn query_parse_spec(e: EngineView, uri: Seq<char>) -> (EngineView, Option<ParsedView>) {
    let calls = (e.stats.parse_calls + 1) as u64;
    if parse_is_fresh(e, uri) {
        let stats = QueryStats { parse_calls: calls, hits: (e.stats.hits + 1) as u64, ..e.stats };
        (EngineView { stats, ..e }, Some(e.parsed[uri]))
    } else {
        let stats = QueryStats { parse_calls: calls, misses: (e.stats.misses + 1) as u64, ..e.stats };
        if !e.documents.contains_key(uri) {
            (EngineView { stats, ..e }, None)
        } else {
            let p = fresh_parse(e.documents[uri]);
            (EngineView { stats, parsed: e.parsed.insert(uri, p), ..e }, Some(p))
        }
    }
}

/// Some dependency of the cached entry for `key` was elaborated at a newer revision.
pub open spec fn has_stale_dependency(m: Map<DefinitionKeyView, ElaboratedView>, key: DefinitionKeyView) -> bool {
    exists|d: DefinitionKeyView|
        #![trigger m[key].deps_from.contains(d), m.contains_key(d)]
        m[key].deps_from.contains(d) && m.contains_key(d) && m[d].rev > m[key].rev
}

/// State and result of an elaboration query for `key`.
pub open spec fn query_elab_spec(e: EngineView, key: DefinitionKeyView) -> (EngineView, ElaboratedView) {
    let calls = (e.stats.elab_calls + 1) as u64;
    if e.elaborated.contains_key(key) && !has_stale_dependency(e.elaborated, key) {
        let stats = QueryStats { elab_calls: calls, hits: (e.stats.hits + 1) as u64, ..e.stats };
        (EngineView { stats, ..e }, e.elaborated[key])
    } else {
        let stats = QueryStats { elab_calls: calls, misses: (e.stats.misses + 1) as u64, ..e.stats };
        let fresh = ElaboratedView { rev: e.revision, deps_from: Set::empty(), diagnostics_count: 0 };
        (EngineView { stats, elaborated: e.elaborated.insert(key, fresh), ..e }, fresh)
    }
}

/// No counter of `s` is at its maximum.
pub open spec fn stats_room(s: QueryStats) -> bool {
    &&& s.parse_calls < u64::MAX
    &&& s.elab_calls < u64::MAX
    &&& s.hits < u64::MAX
    &&& s.misses < u64::MAX
}

/// Compute the BLAKE3 hash of `text`.
fn content_hash(text: &str) -> (r: [u8; 32])
    ensures
        r@ == document_digest(text@),
{
    blake3_hash(text.as_bytes())
}

impl QueryEngine {
    /// Create an empty engine at revision 0.
    pub fn new() -> (r: Self)
        ensures
            r@.revision == 0,
            r@.documents == Map::<Seq<char>, DocumentView>::empty(),
            r@.parsed == Map::<Seq<char>, ParsedView>::empty(),
            r@.elaborated == Map::<DefinitionKeyView, ElaboratedView>::empty(),
            r@.stats == (QueryStats { parse_calls: 0, elab_calls: 0, hits: 0, misses: 0 }),
    {
        let r = QueryEngine {
            revision: 0,
            documents: StringHashMap::new(),
            parsed: StringHashMap::new(),
            elaborated_definitions: DefinitionTable::new(),
            stats: QueryStats { parse_calls: 0, elab_calls: 0, hits: 0, misses: 0 },
        };
        assert(r@.documents =~= Map::empty());
        assert(r@.parsed =~= Map::empty());
        r
    }

    /// Ingest a document change: a no-op when the text's digest equals the
    /// recorded one; otherwise bump the revision, record the new snapshot,
    /// drop the file's parse and every elaboration depending on the file.
    pub fn set_document(&mut self, uri: &str, text: &str)
        requires
            !document_unchanged(old(self)@, uri@, text@) ==> old(self).revision < u64::MAX,
        ensures
            final(self)@ == set_document_spec(old(self)@, uri@, text@),
    {
        let new_hash = content_hash(text);

        // Early exit if no change.
        match self.documents.get(uri) {
            Some(doc) => {
                if digest_eq(&doc.content_hash, &new_hash) {
                    return;
                }
            },
            None => {},
        }

        let ghost e = self@;
        self.revision = self.revision + 1;
        let snapshot = DocumentSnapshot { rev: self.revision, content_hash: new_hash, text: text.to_owned() };
        let ghost dv = snapshot@;
        self.documents.insert(uri.to_owned(), snapshot);
        self.parsed.remove(uri);
        proof {
            assert(self@.documents =~= e.documents.insert(uri@, dv));
            assert(self@.parsed =~= e.parsed.remove(uri@));
        }
        self.invalidate_cascade(uri);
    }

    /// Ingest a document change when the revision counter allows it.  At the
    /// largest revision a changed text cannot get a new revision: the engine
    /// is left as it is and `false` returned.  Otherwise as
    /// [`QueryEngine::set_document`], returning `true`.
    pub fn set_document_checked(&mut self, uri: &str, text: &str) -> (r: bool)
        ensures
            (final(self)@, r) == set_document_checked_spec(old(self)@, uri@, text@),
    {
        if self.revision < u64::MAX {
            self.set_document(uri, text);
            return true;
        }
        let new_hash = content_hash(text);
        let unchanged = match self.documents.get(uri) {
            Some(doc) => digest_eq(&doc.content_hash, &new_hash),
            None => false,
        };
        if unchanged {
            self.set_document(uri, text);
            true
        } else {
            false
        }
    }

    /// Lookup the parsed snapshot of `uri`; recompute it if missing or stale.
    /// `None` when no document is recorded for `uri`.
    pub fn query_parse(&mut self, uri: &str) -> (r: Option<ParsedSnapshot>)
        requires
            stats_room(old(self).stats),
        ensures
            (final(self)@, match r {
                Some(p) => Some(p@),
                None => None,
            }) == query_parse_spec(old(self)@, uri@),
    {
        let ghost e = self@;
        self.stats.parse_calls = self.stats.parse_calls + 1;

        // Check if already cached and at the document's revision.
        match self.parsed.get(uri) {
            Some(parsed) => match self.documents.get(uri) {
                Some(doc) => {
                    if parsed.rev == doc.rev {
                        self.stats.hits = self.stats.hits + 1;
                        return Some(parsed.clone());
                    }
                },
                None => {},
            },
            None => {},
        }

        self.stats.misses = self.stats.misses + 1;

        // Recompute: a snapshot at the document's revision.
        let (rev, source_len) = match self.documents.get(uri) {
            Some(doc) => (doc.rev, doc.text.as_str().len()),
            None => {
                return None;
            },
        };
        let parsed = ParsedSnapshot { rev, deps_from: BTreeSet::new(), source_len };
        let out = parsed.clone();
        let ghost pv = parsed@;
        self.parsed.insert(uri.to_owned(), parsed);
        proof {
            assert(pv == fresh_parse(e.documents[uri@]));
            assert(self@.parsed =~= e.parsed.insert(uri@, pv));
        }
        Some(out)
    }

    /// Lookup the elaborated snapshot of `key`; recompute it if missing or if
    /// any dependency has a newer revision than the cached entry.
    pub fn query_elab(&mut self, key: &DefinitionKey) -> (r: Option<ElaboratedSnapshot>)
        requires
            stats_room(old(self).stats),
        ensures
            r is Some,
            (final(self)@, r.unwrap()@) == query_elab_spec(old(self)@, key@),
    {
        let ghost e = self@;
        self.stats.elab_calls = self.stats.elab_calls + 1;

        match self.elaborated_definitions.get(key) {
            Some(elab) => {
                let deps = elab.deps_from.as_slice();
                let mut deps_stale = false;
                let mut i: usize = 0;
                while i < deps.len() && !deps_stale
                    invariant
                        0 <= i <= deps@.len(),
                        key_views(deps@).to_set() == elab.deps_from@,
                        e.elaborated.contains_key(key@),
                        e.elaborated[key@] == elab@,
                        self.elaborated_definitions@ == e.elaborated,
                        !deps_stale ==> forall|j: int| 0 <= j < i ==> !(#[trigger] e.elaborated.contains_key(deps@[j]@)
                            && e.elaborated[deps@[j]@].rev > elab.rev),
                        deps_stale ==> has_stale_dependency(e.elaborated, key@),
                    decreases deps@.len() - i,
                {
                    match self.elaborated_definitions.get(&deps[i]) {
                        Some(dep_elab) => {
                            if dep_elab.rev > elab.rev {
                                proof {
                                    let d = deps@[i as int]@;
                                    assert(key_views(deps@)[i as int] == d);
                                    assert(elab.deps_from@.contains(d));
                                    assert(e.elaborated[key@].deps_from.contains(d));
                                    assert(e.elaborated.contains_key(d));
                                    assert(e.elaborated[d].rev > e.elaborated[key@].rev);
                                }
                                deps_stale = true;
                            }
                        },
                        None => {},
                    }
                    i += 1;
                }
                if !deps_stale {
                    proof {
                        assert(!has_stale_dependency(e.elaborated, key@)) by {
                            if has_stale_dependency(e.elaborated, key@) {
                                let d = choose|d: DefinitionKeyView|
                                    #![trigger e.elaborated[key@].deps_from.contains(d), e.elaborated.contains_key(d)]
                                    e.elaborated[key@].deps_from.contains(d) && e.elaborated.contains_key(d)
                                        && e.elaborated[d].rev > e.elaborated[key@].rev;
                                assert(key_views(deps@).contains(d));
                                let j = choose|j: int| 0 <= j < key_views(deps@).len() && key_views(deps@)[j] == d;
                                assert(deps@[j]@ == d);
                            }
                        }
                    }
                    self.stats.hits = self.stats.hits + 1;
                    return Some(elab.clone());
                }
            },
            None => {},
        }

        self.stats.misses = self.stats.misses + 1;

        // Recompute: a fresh snapshot at the current revision.
        let elaborated = ElaboratedSnapshot {
            rev: self.revision,
            deps_from: DefinitionKeySet::new(),
            diagnostics_count: 0,
        };
        let out = elaborated.clone();
        self.elaborated_definitions.insert(key.clone(), elaborated);
        Some(out)
    }

    /// Drop every elaborated entry that depends on `uri`'s whole-module key.
    pub fn invalidate_cascade(&mut self, uri: &str)
        ensures
            final(self)@ == (EngineView { elaborated: cascade(old(self)@.elaborated, uri@), ..old(self)@ }),
    {
        let uri_default_key = DefinitionKey { uri: uri.to_owned(), name: "<module>".to_owned() };
        let ghost m = self.elaborated_definitions@;
        let ghost dep = module_key(uri@);
        assert(uri_default_key@ == dep);

        // Collect the keys to remove.
        let n = self.elaborated_definitions.entry_count();
        let ghost ks = self.elaborated_definitions.key_seq();
        let mut keys_to_remove: Vec<DefinitionKey> = Vec::new();
        let mut i: usize = 0;
        while i < n
            invariant
                0 <= i <= n,
                self.revision == old(self).revision,
                self.documents == old(self).documents,
                self.parsed == old(self).parsed,
                self.stats == old(self).stats,
                n == ks.len(),
                ks == self.elaborated_definitions.key_seq(),
                m == self.elaborated_definitions@,
                ks.no_duplicates(),
                m.dom() == ks.to_set(),
                uri_default_key@ == dep,
                forall|j: int| 0 <= j < keys_to_remove@.len() ==> m.contains_key(#[trigger] keys_to_remove@[j]@)
                    && m[keys_to_remove@[j]@].deps_from.contains(dep),
                forall|j: int| 0 <= j < i && #[trigger] m[ks[j]].deps_from.contains(dep)
                    ==> key_views(keys_to_remove@).contains(ks[j]),
            decreases n - i,
        {
            let elab = self.elaborated_definitions.value_at(i);
            if elab.deps_from.contains(&uri_default_key) {
                let k = self.elaborated_definitions.key_at(i).clone();
                let ghost before = keys_to_remove@;
                keys_to_remove.push(k);
                proof {
                    assert(key_views(keys_to_remove@) =~= key_views(before).push(ks[i as int]));
                    assert forall|j: int| 0 <= j < i && #[trigger] m[ks[j]].deps_from.contains(dep)
                        implies key_views(keys_to_remove@).contains(ks[j]) by {
                        assert(key_views(before).contains(ks[j]));
                        let t = choose|t: int| 0 <= t < key_views(before).len() && key_views(before)[t] == ks[j];
                        assert(key_views(keys_to_remove@)[t] == ks[j]);
                    }
                    assert(key_views(keys_to_remove@)[before.len() as int] == ks[i as int]);
                }
            }
            i += 1;
        }
        let ghost doomed = key_views(keys_to_remove@).to_set();
        proof {
            assert forall|k: DefinitionKeyView| m.contains_key(k) && m[k].deps_from.contains(dep) implies #[trigger] doomed.contains(k) by {
                assert(ks.to_set().contains(k));
                let j = choose|j: int| 0 <= j < ks.len() && ks[j] == k;
                assert(m[ks[j]].deps_from.contains(dep));
            }
            assert forall|k: DefinitionKeyView| #[trigger] doomed.contains(k) implies m.contains_key(k) && m[k].deps_from.contains(dep) by {
                let j = choose|j: int| 0 <= j < key_views(keys_to_remove@).len() && key_views(keys_to_remove@)[j] == k;
                assert(keys_to_remove@[j]@ == k);
            }
            assert(m.remove_keys(doomed) =~= cascade(m, uri@));
        }

        // Remove all stale entries.
        let mut r: usize = 0;
        while r < keys_to_remove.len()
            invariant
                0 <= r <= keys_to_remove@.len(),
                self.revision == old(self).revision,
                self.documents == old(self).documents,
                self.parsed == old(self).parsed,
                self.stats == old(self).stats,
                self.elaborated_definitions@ == m.remove_keys(key_views(keys_to_remove@.subrange(0, r as int)).to_set()),
            decreases keys_to_remove@.len() - r,
        {
            let ghost before = key_views(keys_to_remove@.subrange(0, r as int));
            self.elaborated_definitions.remove(&keys_to_remove[r]);
            proof {
                assert(key_views(keys_to_remove@.subrange(0, r + 1)) =~= before.push(keys_to_remove@[r as int]@));
                before.lemma_push_to_set_commute(keys_to_remove@[r as int]@);
                assert(self.elaborated_definitions@ =~= m.remove_keys(before.push(keys_to_remove@[r as int]@).to_set()));
            }
            r += 1;
        }
        assert(keys_to_remove@.subrange(0, keys_to_remove@.len() as int) =~= keys_to_remove@);
        assert(self.elaborated_definitions@ =~= cascade(m, uri@));
    }

    /// Return current query statistics.
    pub fn stats(&self) -> (r: QueryStats)
        ensures
            r == self.stats,
    {
        self.stats
    }
}


/// Ingesting the same text twice is the same as ingesting it once: after the
/// first `set_document` the text's digest is recorded, so the second call
/// needs no room in the revision counter and changes nothing.
pub proof fn lemma_set_document_idempotent(e: EngineView, uri: Seq<char>, text: Seq<char>)
    ensures
        document_unchanged(set_document_spec(e, uri, text), uri, text),
        set_document_spec(set_document_spec(e, uri, text), uri, text) == set_document_spec(e, uri, text),
{
}

/// Ingesting the same text twice through
/// [`QueryEngine::set_document_checked`] is the same as ingesting it once,
/// on every engine: the second call gives the state and the answer of the
/// first.
pub proof fn lemma_set_document_checked_idempotent(e: EngineView, uri: Seq<char>, text: Seq<char>)
    ensures
        ({
            let (e1, r1) = set_document_checked_spec(e, uri, text);
            set_document_checked_spec(e1, uri, text) == (e1, r1)
        }),
{
    lemma_set_document_idempotent(e, uri, text);
}

/// A document change bumps the revision by exactly one, records the text at
/// the new revision, drops the file's parse and leaves no cached elaboration
/// that depends on the file; a text with the recorded digest changes nothing.
/// Query statistics are never touched.
pub proof fn lemma_set_document_effect(e: EngineView, uri: Seq<char>, text: Seq<char>)
    requires
        e.revision < u64::MAX,
    ensures
        ({
            let e2 = set_document_spec(e, uri, text);
            &&& e2.revision == e.revision || e2.revision == e.revision + 1
            &&& e2.documents.contains_key(uri)
            &&& e2.documents[uri].content_hash == document_digest(text)
            &&& e2.stats == e.stats
            &&& e2.revision == e.revision ==> e2 == e
            &&& e2.revision == e.revision + 1 ==> {
                &&& e2.documents[uri] == (DocumentView { rev: e2.revision, content_hash: document_digest(text), text })
                &&& !e2.parsed.contains_key(uri)
                &&& forall|k: DefinitionKeyView| #[trigger] e2.elaborated.contains_key(k)
                    ==> !depends_on_file(e2.elaborated[k], uri)
                &&& forall|u: Seq<char>| u != uri ==> e2.documents.contains_key(u) == e.documents.contains_key(u)
            }
        }),
{
}

/// A parse query repeated with no change in between is a cache hit that
/// returns the same snapshot; the snapshot is at the document's revision.
/// Without a document for the file both queries give `None`.
pub proof fn lemma_query_parse_memoised(e: EngineView, uri: Seq<char>)
    requires
        stats_room(e.stats),
        stats_room(query_parse_spec(e, uri).0.stats),
    ensures
        ({
            let (e1, r1) = query_parse_spec(e, uri);
            let (e2, r2) = query_parse_spec(e1, uri);
            &&& e.documents.contains_key(uri) ==> {
                &&& r1 is Some
                &&& r1.unwrap().rev == e.documents[uri].rev
                &&& r2 == r1
                &&& e2.stats.hits == e1.stats.hits + 1
                &&& e2.stats.misses == e1.stats.misses
                &&& e2.parsed == e1.parsed
                &&& e2.documents == e1.documents
            }
            &&& !e.documents.contains_key(uri) ==> r1 is None && r2 is None
        }),
{
}

/// An elaboration query repeated with no change in between is a cache hit
/// that returns the same snapshot.
pub proof fn lemma_query_elab_memoised(e: EngineView, key: DefinitionKeyView)
    requires
        stats_room(e.stats),
        stats_room(query_elab_spec(e, key).0.stats),
    ensures
        ({
            let (e1, r1) = query_elab_spec(e, key);
            let (e2, r2) = query_elab_spec(e1, key);
            &&& r2 == r1
            &&& e2.stats.hits == e1.stats.hits + 1
            &&& e2.elaborated == e1.elaborated
        }),
{
    let (e1, r1) = query_elab_spec(e, key);
    if !(e.elaborated.contains_key(key) && !has_stale_dependency(e.elaborated, key)) {
        assert(e1.elaborated[key].deps_from == Set::<DefinitionKeyView>::empty());
        assert(!has_stale_dependency(e1.elaborated, key));
    }
}

/// The staleness rule of elaboration queries: a cached entry is returned
/// unchanged, as a hit, exactly when no dependency it records has been
/// elaborated at a revision newer than its own (a dependency at the same or
/// an older revision keeps it fresh); otherwise, or when nothing is cached,
/// the query is a miss that records and returns an empty elaboration at the
/// engine's revision.
pub proof fn lemma_query_elab_staleness(e: EngineView, key: DefinitionKeyView)
    ensures
        ({
            let (e1, r) = query_elab_spec(e, key);
            let fresh = e.elaborated.contains_key(key) && forall|d: DefinitionKeyView|
                #[trigger] e.elaborated[key].deps_from.contains(d) && e.elaborated.contains_key(d)
                    ==> e.elaborated[d].rev <= e.elaborated[key].rev;
            &&& e1.stats.elab_calls == (e.stats.elab_calls + 1) as u64
            &&& e1.revision == e.revision && e1.documents == e.documents && e1.parsed == e.parsed
            &&& fresh ==> {
                &&& r == e.elaborated[key]
                &&& e1.elaborated == e.elaborated
                &&& e1.stats.hits == (e.stats.hits + 1) as u64
                &&& e1.stats.misses == e.stats.misses
            }
            &&& !fresh ==> {
                &&& r == (ElaboratedView { rev: e.revision, deps_from: Set::empty(), diagnostics_count: 0 })
                &&& e1.elaborated == e.elaborated.insert(key, r)
                &&& e1.stats.misses == (e.stats.misses + 1) as u64
                &&& e1.stats.hits == e.stats.hits
            }
        }),
{
    let fresh = e.elaborated.contains_key(key) && forall|d: DefinitionKeyView|
        #[trigger] e.elaborated[key].deps_from.contains(d) && e.elaborated.contains_key(d)
            ==> e.elaborated[d].rev <= e.elaborated[key].rev;
    if e.elaborated.contains_key(key) {
        if fresh {
            if has_stale_dependency(e.elaborated, key) {
                let d = choose|d: DefinitionKeyView|
                    #![trigger e.elaborated[key].deps_from.contains(d), e.elaborated.contains_key(d)]
                    e.elaborated[key].deps_from.contains(d) && e.elaborated.contains_key(d)
                        && e.elaborated[d].rev > e.elaborated[key].rev;
                assert(e.elaborated[d].rev <= e.elaborated[key].rev);
            }
        } else {
            let d = choose|d: DefinitionKeyView|
                !(#[trigger] e.elaborated[key].deps_from.contains(d) && e.elaborated.contains_key(d)
                    ==> e.elaborated[d].rev <= e.elaborated[key].rev);
            assert(has_stale_dependency(e.elaborated, key));
        }
    }
}

/// Hits and misses together count the queries.
pub open spec fn stats_balanced(s: QueryStats) -> bool {
    s.hits + s.misses == s.parse_calls + s.elab_calls
}

/// Every query is counted once as a call and once as either a hit or a miss,
/// so the balance `hits + misses == parse_calls + elab_calls` (which holds of
/// a new engine) is kept by both queries and untouched by document changes.
pub proof fn lemma_stats_balance(e: EngineView, uri: Seq<char>, text: Seq<char>, key: DefinitionKeyView)
    requires
        stats_balanced(e.stats),
        stats_room(e.stats),
    ensures
        stats_balanced(query_parse_spec(e, uri).0.stats),
        stats_balanced(query_elab_spec(e, key).0.stats),
        stats_balanced(set_document_spec(e, uri, text).stats),
{
}

} // verus!
