//! The document store: ingested documents, their expiry times and the current document.
use vstd::prelude::*;
use crate::document::{outline, pages, plan_document, plan_of, planned_chunks};
use crate::lexicon::{word_stats, WordStats};
use crate::text::{chars_of, seqs_of, string_of, strings_of, take_chars};
use crate::json::{
    field, find_field, is_flat_object, is_leaf, is_record, json_of_text, json_text, keys_of, lemma_field_absent,
    lemma_field_of_distinct, parse_json, pretty_text, read_back, same_leaf_entries, same_record,
    same_value, text_of, Json,
};

verus! {

/// The most characters a stored chunk keeps, where a limit is set.
pub const MAX_CHARS: usize = 8000;

/// How long an ingested document is kept, in seconds, by default.
pub const DEFAULT_TTL_SECS: u64 = 1800;

/// The settings of a store.
pub struct StoreConfig {
    /// Whether physics scoring is enabled.
    pub physics_enabled: bool,
    /// The most characters a stored chunk keeps; 0 keeps them all.
    pub max_chars: usize,
    /// How long an ingested document is kept, in seconds.
    pub ttl_secs: u64,
}

impl StoreConfig {
    /// The settings of a bare store: physics off, no truncation, no time to live.
    pub fn bare() -> (c: StoreConfig)
        ensures
            !c.physics_enabled,
            c.max_chars == 0,
            c.ttl_secs == 0,
    {
        StoreConfig { physics_enabled: false, max_chars: 0, ttl_secs: 0 }
    }

    /// The standard settings: physics on, chunks cut at `MAX_CHARS` characters,
    /// documents kept `DEFAULT_TTL_SECS` seconds.
    pub fn standard() -> (c: StoreConfig)
        ensures
            c.physics_enabled,
            c.max_chars == MAX_CHARS,
            c.ttl_secs == DEFAULT_TTL_SECS,
    {
        StoreConfig { physics_enabled: true, max_chars: MAX_CHARS, ttl_secs: DEFAULT_TTL_SECS }
    }
}

/// One stored chunk of a document.
pub struct Chunk {
    /// The line of the document that the chunk comes from, counted from 1.
    pub page: usize,
    /// The text of the chunk, cut to the store's character limit.
    pub text: String,
    /// The word counts of the whole chunk text, before it was cut.
    pub stats: WordStats,
}

/// One ingested document.
pub struct Document {
    /// The name the document was ingested under.
    pub id: String,
    /// The lines of the document.
    pub pages: Vec<String>,
    /// Up to five headings found among its lines.
    pub outline: Vec<String>,
    /// Its chunks, in order.
    pub chunks: Vec<Chunk>,
}

/// The text a chunk keeps of `t` under the character limit `max_chars` (0: no limit).
pub open spec fn stored_text(t: Seq<char>, max_chars: nat) -> Seq<char> {
    if max_chars > 0 {
        take_chars(t, max_chars)
    } else {
        t
    }
}

impl Document {
    /// Whether this document is what ingesting `content` under `id` with the
    /// character limit `max_chars` gives.
    pub open spec fn records(self, id: Seq<char>, content: Seq<char>, max_chars: nat) -> bool {
        let plan = planned_chunks(content);
        &&& self.id@ == id
        &&& strings_of(self.pages@) == pages(content)
        &&& strings_of(self.outline@) == outline(content)
        &&& self.chunks@.len() == plan.len()
        &&& forall|k: int|
            0 <= k < plan.len() ==> {
                &&& (#[trigger] self.chunks@[k]).page == plan[k].0
                &&& self.chunks@[k].text@ == stored_text(plan[k].1, max_chars)
                &&& self.chunks@[k].stats.of_text(plan[k].1)
            }
    }
}

/// The current time in whole seconds since the Unix epoch (0 for a clock set before it).
#[verifier::external_body]
pub fn now_secs() -> u64 {
    match std::time::SystemTime::now().duration_since(std::time::UNIX_EPOCH) {
        Ok(d) => d.as_secs(),
        Err(_) => 0,
    }
}

/// The first `n` characters of `v`, or all of them where it has fewer.
pub fn take_chars_of(v: &[char], n: usize) -> (r: Vec<char>)
    ensures
        r@ == take_chars(v@, n as nat),
{
    let end = if n < v.len() {
        n
    } else {
        v.len()
    };
    let mut r: Vec<char> = Vec::new();
    let mut i: usize = 0;
    while i < end
        invariant
            i <= end <= v.len(),
            end == (if n < v.len() { n } else { v.len() }),
            r@ == v@.take(i as int),
        decreases end - i,
    {
        r.push(v[i]);
        i = i + 1;
        proof {
            assert(r@ =~= v@.take(i as int));
        }
    }
    proof {
        if n >= v.len() {
            assert(r@ =~= v@);
        }
    }
    r
}

/// The strings of the character vectors `v`.
pub fn strings_of_chars(v: &Vec<Vec<char>>) -> (r: Vec<String>)
    ensures
        strings_of(r@) == seqs_of(v@),
{
    let mut r: Vec<String> = Vec::new();
    let mut i: usize = 0;
    while i < v.len()
        invariant
            i <= v.len(),
            strings_of(r@) == seqs_of(v@).take(i as int),
        decreases v.len() - i,
    {
        let ghost prev = strings_of(r@);
        let s = string_of(v[i].as_slice());
        let ghost sv = s@;
        r.push(s);
        i = i + 1;
        proof {
            assert(strings_of(r@) =~= prev.push(sv));
            assert(seqs_of(v@).take(i as int) =~= seqs_of(v@).take(i - 1).push(v@[i - 1]@));
        }
    }
    proof {
        assert(seqs_of(v@).take(v.len() as int) =~= seqs_of(v@));
    }
    r
}

/// Builds the document that ingesting `content` under `id` gives, chunk texts cut to
/// `max_chars` characters (0: no limit).
pub fn build_document(id: String, content: &str, max_chars: usize) -> (d: Document)
    ensures
        d.records(id@, content@, max_chars as nat),
{
    let cs = chars_of(content);
    let (ls, heads, plan) = plan_document(cs.as_slice());
    let ghost pv = plan_of(plan@);
    let mut chunks: Vec<Chunk> = Vec::new();
    let mut k: usize = 0;
    while k < plan.len()
        invariant
            k <= plan.len(),
            pv == plan_of(plan@),
            pv == planned_chunks(content@),
            chunks@.len() == k,
            forall|j: int|
                0 <= j < k ==> {
                    &&& (#[trigger] chunks@[j]).page == pv[j].0
                    &&& chunks@[j].text@ == stored_text(pv[j].1, max_chars as nat)
                    &&& chunks@[j].stats.of_text(pv[j].1)
                },
        decreases plan.len() - k,
    {
        let entry = &plan[k];
        let whole = string_of(entry.1.as_slice());
        let stats = word_stats(whole.as_str());
        let text = if max_chars > 0 {
            let cut = take_chars_of(entry.1.as_slice(), max_chars);
            string_of(cut.as_slice())
        } else {
            whole
        };
        proof {
            assert(pv[k as int] == (entry.0 as int, entry.1@));
        }
        chunks.push(Chunk { page: entry.0, text, stats });
        k = k + 1;
    }
    let pages_v = strings_of_chars(&ls);
    let outline_v = strings_of_chars(&heads);
    Document { id, pages: pages_v, outline: outline_v, chunks }
}


/// The names of the documents `ds`, in order.
pub open spec fn ids_of(ds: Seq<Document>) -> Seq<Seq<char>> {
    ds.map_values(|d: Document| d.id@)
}

/// Whether no name occurs twice in `s`.
pub open spec fn no_repeats<T>(s: Seq<T>) -> bool {
    forall|i: int, j: int| 0 <= i < s.len() && 0 <= j < s.len() && i != j ==> s[i] != s[j]
}

/// The expiry times and names of the entries `es`.
pub open spec fn entries_of(es: Seq<(u64, String)>) -> Seq<(u64, Seq<char>)> {
    es.map_values(|e: (u64, String)| (e.0, e.1@))
}

/// The total number of chunks of the documents `ds`.
pub open spec fn total_chunks(ds: Seq<Document>) -> nat
    decreases ds.len(),
{
    if ds.len() == 0 {
        0
    } else {
        total_chunks(ds.drop_last()) + ds.last().chunks@.len()
    }
}

/// The documents that have been ingested, keyed by name; the time at which each is
/// due to expire; and the document that searches go to.
pub struct Store {
    documents: Vec<Document>,
    expiries: Vec<(u64, String)>,
    current: Option<String>,
    config: StoreConfig,
}

impl Store {
    /// The documents, in the order they were first ingested.
    pub closed spec fn docs(self) -> Seq<Document> {
        self.documents@
    }

    /// The expiry entries: each a time and the name of the document ingested last
    /// with it.
    pub closed spec fn expiry_entries(self) -> Seq<(u64, Seq<char>)> {
        entries_of(self.expiries@)
    }

    /// The name of the current document, if any.
    pub closed spec fn current_id(self) -> Option<Seq<char>> {
        match self.current {
            Some(c) => Some(c@),
            None => None,
        }
    }

    /// The settings.
    pub closed spec fn settings(self) -> StoreConfig {
        self.config
    }

    /// The names of the stored documents.
    pub open spec fn ids(self) -> Seq<Seq<char>> {
        ids_of(self.docs())
    }

    /// Whether a document is stored under `id`.
    pub open spec fn has(self, id: Seq<char>) -> bool {
        self.ids().contains(id)
    }

    /// The document stored under `id`.
    pub open spec fn doc(self, id: Seq<char>) -> Document
        recommends
            self.has(id),
    {
        self.docs()[self.ids().index_of(id)]
    }

    /// The expiry times of the expiry entries, in order.
    pub open spec fn expiry_times(self) -> Seq<u64> {
        self.expiry_entries().map_values(|x: (u64, Seq<char>)| x.0)
    }

    /// The expiry times as a map: each time to the name of the document ingested last
    /// with it.
    pub open spec fn expiry_map(self) -> Map<u64, Seq<char>> {
        Map::new(
            |e: u64| self.expiry_times().contains(e),
            |e: u64| self.expiry_entries()[self.expiry_times().index_of(e)].1,
        )
    }

    /// The store's invariant: it holds its core invariant, and where it holds any
    /// document, one of them is current.
    pub open spec fn wf(self) -> bool {
        &&& self.wf_core()
        &&& (self.docs().len() > 0 ==> self.current_id() is Some)
    }

    /// The store's core invariant: no name is repeated among the documents, no time
    /// among the expiry entries, and the current document, if any, and every document
    /// an expiry entry names, are stored.
    pub open spec fn wf_core(self) -> bool {
        &&& no_repeats(self.ids())
        &&& no_repeats(self.expiry_times())
        &&& (self.current_id() matches Some(c) ==> self.has(c))
        &&& forall|k: int| 0 <= k < self.expiry_entries().len() ==> self.has(#[trigger] self.expiry_entries()[k].1)
    }

    /// An empty store with the bare settings.
    pub fn new() -> (s: Store)
        ensures
            s.wf(),
            s.docs().len() == 0,
            s.expiry_entries().len() == 0,
            s.current_id() is None,
            !s.settings().physics_enabled,
            s.settings().max_chars == 0,
            s.settings().ttl_secs == 0,
    {
        Store {
            documents: Vec::new(),
            expiries: Vec::new(),
            current: None,
            config: StoreConfig { physics_enabled: false, max_chars: 0, ttl_secs: 0 },
        }
    }

    /// An empty store with the settings `config`.
    pub fn with_config(config: StoreConfig) -> (s: Store)
        ensures
            s.wf(),
            s.docs().len() == 0,
            s.expiry_entries().len() == 0,
            s.current_id() is None,
            s.settings() == config,
    {
        Store { documents: Vec::new(), expiries: Vec::new(), current: None, config }
    }

    /// The settings.
    pub fn config(&self) -> (c: &StoreConfig)
        ensures
            *c == self.settings(),
    {
        &self.config
    }

    /// The stored documents, in the order they were first ingested.
    pub fn documents(&self) -> (ds: &Vec<Document>)
        ensures
            ds@ == self.docs(),
    {
        &self.documents
    }

    /// The name of the current document, if any.
    pub fn current_doc(&self) -> (c: Option<String>)
        ensures
            match c {
                Some(s) => self.current_id() == Some(s@),
                None => self.current_id() is None,
            },
    {
        match &self.current {
            Some(s) => Some(s.clone()),
            None => None,
        }
    }

    /// Where the document named `id` stands among the documents, if it is stored.
    pub fn position_of(&self, id: &String) -> (r: Option<usize>)
        requires
            self.wf_core(),
        ensures
            match r {
                Some(k) => k < self.docs().len() && self.ids()[k as int] == id@
                    && self.ids().index_of(id@) == k,
                None => !self.has(id@),
            },
    {
        let mut k: usize = 0;
        while k < self.documents.len()
            invariant
                self.wf_core(),
                k <= self.documents@.len(),
                forall|j: int| 0 <= j < k ==> self.ids()[j] != id@,
            decreases self.documents.len() - k,
        {
            if self.documents[k].id == *id {
                proof {
                    assert(self.ids()[k as int] == id@);
                    assert(self.has(id@));
                    let t = self.ids().index_of(id@);
                    assert(self.ids()[t] == id@);
                    assert(t == k);
                }
                return Some(k);
            }
            k = k + 1;
        }
        None
    }

    /// Where the expiry time `e` stands among the expiry entries, if it is there.
    fn expiry_position(&self, e: u64) -> (r: Option<usize>)
        requires
            self.wf_core(),
        ensures
            match r {
                Some(k) => k < self.expiry_entries().len() && self.expiry_times()[k as int] == e,
                None => !self.expiry_map().dom().contains(e),
            },
    {
        let mut k: usize = 0;
        while k < self.expiries.len()
            invariant
                self.wf_core(),
                k <= self.expiries@.len(),
                forall|j: int| 0 <= j < k ==> self.expiry_times()[j] != e,
            decreases self.expiries.len() - k,
        {
            if self.expiries[k].0 == e {
                return Some(k);
            }
            k = k + 1;
        }
        proof {
            let ks = self.expiry_times();
            if ks.contains(e) {
                let t = choose|t: int| 0 <= t < ks.len() && ks[t] == e;
                assert(ks[t] == e);
            }
        }
        None
    }

    /// Records that the document `id` is due to expire at `e`, replacing what was
    /// recorded for `e`.
    fn set_expiry(&mut self, e: u64, id: String)
        requires
            old(self).wf_core(),
            old(self).has(id@),
        ensures
            final(self).wf_core(),
            final(self).expiry_map() == old(self).expiry_map().insert(e, id@),
            final(self).docs() == old(self).docs(),
            final(self).current_id() == old(self).current_id(),
            final(self).settings() == old(self).settings(),
    {
        let ghost old_entries = self.expiry_entries();
        let ghost old_map = self.expiry_map();
        let ghost idv = id@;
        let ghost oks = old_entries.map_values(|x: (u64, Seq<char>)| x.0);
        match self.expiry_position(e) {
            Some(k) => {
                self.expiries.set(k, (e, id));
                proof {
                    let ne = self.expiry_entries();
                    let ks = self.expiry_times();
                    assert(ne =~= old_entries.update(k as int, (e, idv)));
                    assert(ks =~= oks);
                    assert forall|x: u64| #![auto] self.expiry_map().dom().contains(x) == old_map.insert(e, idv).dom().contains(x) by {
                        if x == e {
                            assert(ks[k as int] == e);
                        }
                    }
                    assert forall|x: u64| #![auto] self.expiry_map().dom().contains(x) implies self.expiry_map()[x] == old_map.insert(e, idv)[x] by {
                        let t = ks.index_of(x);
                        assert(ks[t] == x);
                        if x == e {
                            assert(ks[k as int] == e);
                            assert(t == k);
                        } else {
                            assert(t != k);
                            assert(ne[t] == old_entries[t]);
                        }
                    }
                    assert(self.expiry_map() =~= old_map.insert(e, idv));
                    assert forall|j: int| 0 <= j < ne.len() implies self.has(#[trigger] ne[j].1) by {
                        if j != k {
                            assert(ne[j] == old_entries[j]);
                        }
                    }
                }
            },
            None => {
                self.expiries.push((e, id));
                proof {
                    let ne = self.expiry_entries();
                    let ks = self.expiry_times();
                    assert(ne =~= old_entries.push((e, idv)));
                    assert(ks =~= oks.push(e));
                    assert(!oks.contains(e));
                    assert forall|i: int, j: int| 0 <= i < ks.len() && 0 <= j < ks.len() && i != j implies ks[i] != ks[j] by {
                        if i == ks.len() - 1 {
                            assert(oks[j] != e);
                        } else if j == ks.len() - 1 {
                            assert(oks[i] != e);
                        }
                    }
                    assert forall|x: u64| #![auto] self.expiry_map().dom().contains(x) == old_map.insert(e, idv).dom().contains(x) by {
                        if x == e {
                            assert(ks[ks.len() - 1] == e);
                        } else if ks.contains(x) {
                            let t = choose|t: int| 0 <= t < ks.len() && ks[t] == x;
                            assert(oks[t] == x);
                        } else if oks.contains(x) {
                            let t = choose|t: int| 0 <= t < oks.len() && oks[t] == x;
                            assert(ks[t] == x);
                        }
                    }
                    assert forall|x: u64| #![auto] self.expiry_map().dom().contains(x) implies self.expiry_map()[x] == old_map.insert(e, idv)[x] by {
                        let t = ks.index_of(x);
                        assert(ks[t] == x);
                        if x == e {
                            assert(ks[ks.len() - 1] == e);
                            assert(t == ks.len() - 1);
                        } else {
                            assert(t < oks.len());
                            let u = oks.index_of(x);
                            assert(oks[u] == x);
                            assert(ks[u] == x);
                            assert(t == u);
                            assert(ne[t] == old_entries[t]);
                        }
                    }
                    assert(self.expiry_map() =~= old_map.insert(e, idv));
                    assert forall|j: int| 0 <= j < ne.len() implies self.has(#[trigger] ne[j].1) by {
                        if j < old_entries.len() {
                            assert(ne[j] == old_entries[j]);
                        }
                    }
                }
            },
        }
    }

    /// Stores `d`, replacing the document of the same name if there is one.
    fn put_document(&mut self, d: Document)
        requires
            old(self).wf_core(),
        ensures
            final(self).wf_core(),
            final(self).ids() == if old(self).has(d.id@) {
                old(self).ids()
            } else {
                old(self).ids().push(d.id@)
            },
            final(self).doc(d.id@) == d,
            forall|x: Seq<char>|
                x != d.id@ && #[trigger] old(self).has(x) ==> final(self).doc(x) == old(self).doc(x),
            final(self).expiry_entries() == old(self).expiry_entries(),
            final(self).current_id() == old(self).current_id(),
            final(self).settings() == old(self).settings(),
    {
        let ghost old_docs = self.docs();
        let ghost old_ids = self.ids();
        let ghost id = d.id@;
        let ghost dv = d;
        match self.position_of(&d.id) {
            Some(k) => {
                self.documents.set(k, d);
                proof {
                    assert(self.docs() =~= old_docs.update(k as int, dv));
                    assert(self.ids() =~= old_ids);
                    assert(self.ids().index_of(id) == k) by {
                        let t = self.ids().index_of(id);
                        assert(self.ids()[k as int] == id);
                        assert(self.ids()[t] == id);
                    }
                    assert forall|x: Seq<char>| x != id && #[trigger] old_ids.contains(x) implies self.doc(x) == old_docs[old_ids.index_of(x)] by {
                        let t = old_ids.index_of(x);
                        assert(old_ids[t] == x);
                        assert(t != k);
                    }
                }
            },
            None => {
                self.documents.push(d);
                proof {
                    let n = old_docs.len() as int;
                    assert(self.docs() =~= old_docs.push(dv));
                    assert(self.ids() =~= old_ids.push(id));
                    assert(!old_ids.contains(id));
                    let ids = self.ids();
                    assert forall|i: int, j: int| 0 <= i < ids.len() && 0 <= j < ids.len() && i != j implies ids[i] != ids[j] by {
                        if i == n {
                            assert(old_ids[j] != id);
                        } else if j == n {
                            assert(old_ids[i] != id);
                        }
                    }
                    assert(ids.index_of(id) == n) by {
                        let t = ids.index_of(id);
                        assert(ids[n] == id);
                        assert(ids[t] == id);
                    }
                    assert forall|x: Seq<char>| x != id && #[trigger] old_ids.contains(x) implies self.doc(x) == old_docs[old_ids.index_of(x)] by {
                        let t = old_ids.index_of(x);
                        assert(old_ids[t] == x);
                        assert(ids[t] == x);
                        let u = ids.index_of(x);
                        assert(ids[u] == x);
                    }
                    if let Some(c) = self.current_id() {
                        let t = choose|t: int| 0 <= t < old_ids.len() && old_ids[t] == c;
                        assert(ids[t] == c);
                    }
                    assert forall|j: int| 0 <= j < self.expiry_entries().len() implies self.has(#[trigger] self.expiry_entries()[j].1) by {
                        let x = self.expiry_entries()[j].1;
                        let t = choose|t: int| 0 <= t < old_ids.len() && old_ids[t] == x;
                        assert(ids[t] == x);
                    }
                }
            },
        }
    }

    /// Ingests `content` under the name `doc_id` at the time `now` (seconds since the
    /// Unix epoch): stores the document it gives, replacing one of the same name, makes
    /// it current, records that it expires `ttl_secs` seconds after `now`, and returns
    /// its number of chunks.
    pub fn ingest_at(&mut self, doc_id: String, content: String, now: u64) -> (count: usize)
        requires
            old(self).wf(),
        ensures
            final(self).wf(),
            count == planned_chunks(content@).len(),
            final(self).ids() == if old(self).has(doc_id@) {
                old(self).ids()
            } else {
                old(self).ids().push(doc_id@)
            },
            final(self).doc(doc_id@).records(doc_id@, content@, old(self).settings().max_chars as nat),
            forall|x: Seq<char>|
                x != doc_id@ && #[trigger] old(self).has(x) ==> final(self).doc(x) == old(self).doc(x),
            final(self).current_id() == Some(doc_id@),
            final(self).expiry_map() == old(self).expiry_map().insert(
                expiry_time(now, old(self).settings().ttl_secs),
                doc_id@,
            ),
            final(self).settings() == old(self).settings(),
    {
        let d = build_document(doc_id.clone(), content.as_str(), self.config.max_chars);
        let count = d.chunks.len();
        let ghost was = self.has(doc_id@);
        let ghost old_ids = self.ids();
        self.put_document(d);
        proof {
            if !was {
                assert(self.ids()[old_ids.len() as int] == doc_id@);
            }
            assert(self.has(doc_id@));
        }
        let e = now.saturating_add(self.config.ttl_secs);
        self.set_expiry(e, doc_id.clone());
        self.current = Some(doc_id);
        count
    }

    /// Ingests `content` under the name `doc_id` now; see `ingest_at`.
    pub fn ingest(&mut self, doc_id: String, content: String) -> (count: usize)
        requires
            old(self).wf(),
        ensures
            final(self).wf(),
            count == planned_chunks(content@).len(),
            final(self).ids() == if old(self).has(doc_id@) {
                old(self).ids()
            } else {
                old(self).ids().push(doc_id@)
            },
            final(self).doc(doc_id@).records(doc_id@, content@, old(self).settings().max_chars as nat),
            forall|x: Seq<char>|
                x != doc_id@ && #[trigger] old(self).has(x) ==> final(self).doc(x) == old(self).doc(x),
            final(self).current_id() == Some(doc_id@),
            exists|now: u64|
                final(self).expiry_map() == old(self).expiry_map().insert(
                    #[trigger] expiry_time(now, old(self).settings().ttl_secs),
                    doc_id@,
                ),
            final(self).settings() == old(self).settings(),
    {
        let now = now_secs();
        self.ingest_at(doc_id, content, now)
    }
}

/// When a document ingested at `now` expires: `ttl` seconds later, held at the
/// largest time there is.
pub open spec fn expiry_time(now: u64, ttl: u64) -> u64 {
    if now + ttl <= u64::MAX {
        (now + ttl) as u64
    } else {
        u64::MAX
    }
}


/// A store's summary: its document names joined by `", "`, each document's name with
/// its own number of chunks, the number of chunks in all and whether physics scoring
/// is enabled.
pub struct StoreStatus {
    /// The names of the documents, joined by `", "`.
    pub documents: String,
    /// Each document's name and number of chunks, in store order.
    pub listing: Vec<(String, usize)>,
    /// The number of chunks over all documents (held at `usize::MAX`).
    pub total_chunks: usize,
    /// Whether physics scoring is enabled.
    pub physics_enabled: bool,
}

/// Each document's name and number of chunks.
pub open spec fn listing_of(ds: Seq<Document>) -> Seq<(Seq<char>, nat)> {
    ds.map_values(|d: Document| (d.id@, d.chunks@.len()))
}

/// The views of name and count pairs.
pub open spec fn listing_view(v: Seq<(String, usize)>) -> Seq<(Seq<char>, nat)> {
    v.map_values(|e: (String, usize)| (e.0@, e.1 as nat))
}

/// Where a search goes.
pub enum SearchPlan {
    /// To the current document, named here.
    Current(String),
    /// To every document, each asked for this many results.
    Every(usize),
}

/// What a store writes out to keep its state: each document's name with its lines
/// joined by line feeds, the expiry entries, and the current document.
pub struct Snapshot {
    /// Each document's name and text.
    pub docs: Vec<(String, String)>,
    /// Each expiry time and the name of the document due then.
    pub expiries: Vec<(u64, String)>,
    /// The name of the current document, if any.
    pub current: Option<String>,
}

/// The names and texts that a snapshot keeps of the documents `ds`.
pub open spec fn snapshot_docs(ds: Seq<Document>) -> Seq<(Seq<char>, Seq<char>)> {
    ds.map_values(|d: Document| (d.id@, crate::text::join(strings_of(d.pages@), seq!['\n'])))
}

/// The views of name and text pairs.
pub open spec fn pairs_of(v: Seq<(String, String)>) -> Seq<(Seq<char>, Seq<char>)> {
    v.map_values(|p: (String, String)| (p.0@, p.1@))
}

/// Appends the characters of `s` to `out`.
pub fn push_str_chars(out: &mut Vec<char>, s: &str)
    ensures
        final(out)@ == old(out)@ + s@,
{
    let cs = chars_of(s);
    let ghost start = out@;
    let mut i: usize = 0;
    while i < cs.len()
        invariant
            i <= cs.len(),
            cs@ == s@,
            out@ == start + cs@.take(i as int),
        decreases cs.len() - i,
    {
        out.push(cs[i]);
        i = i + 1;
        proof {
            assert(out@ =~= start + cs@.take(i as int));
        }
    }
    proof {
        assert(cs@.take(cs.len() as int) =~= cs@);
    }
}

/// The strings `v` joined by `sep`.
pub fn join_strings(v: &Vec<String>, sep: &str) -> (r: String)
    ensures
        r@ == crate::text::join(strings_of(v@), sep@),
{
    let ghost sv = strings_of(v@);
    let mut out: Vec<char> = Vec::new();
    let mut i: usize = 0;
    while i < v.len()
        invariant
            i <= v.len(),
            sv == strings_of(v@),
            out@ == crate::text::join(sv.take(i as int), sep@),
        decreases v.len() - i,
    {
        let ghost before = out@;
        if i > 0 {
            push_str_chars(&mut out, sep);
        }
        push_str_chars(&mut out, v[i].as_str());
        proof {
            assert(sv.take(i + 1).drop_last() =~= sv.take(i as int));
            if i == 0 {
                assert(sv.take(1) =~= seq![sv[0]]);
            }
        }
        i = i + 1;
    }
    proof {
        assert(sv.take(v.len() as int) =~= sv);
    }
    string_of(out.as_slice())
}

impl Store {
    /// Removes every document and expiry entry; no document is current.
    pub fn clear(&mut self)
        ensures
            final(self).wf(),
            final(self).docs().len() == 0,
            final(self).expiry_entries().len() == 0,
            final(self).current_id() is None,
            final(self).settings() == old(self).settings(),
    {
        self.documents = Vec::new();
        self.expiries = Vec::new();
        self.current = None;
    }

    /// The store's summary.
    pub fn status(&self) -> (st: StoreStatus)
        ensures
            st.documents@ == crate::text::join(self.ids(), seq![',', ' ']),
            listing_view(st.listing@) == listing_of(self.docs()),
            st.total_chunks == if total_chunks(self.docs()) <= usize::MAX {
                total_chunks(self.docs())
            } else {
                usize::MAX as nat
            },
            st.physics_enabled == self.settings().physics_enabled,
    {
        let ghost ids = self.ids();
        let mut out: Vec<char> = Vec::new();
        let mut listing: Vec<(String, usize)> = Vec::new();
        let mut total: usize = 0;
        let mut i: usize = 0;
        while i < self.documents.len()
            invariant
                i <= self.documents@.len(),
                ids == self.ids(),
                listing_view(listing@) == listing_of(self.docs()).take(i as int),
                out@ == crate::text::join(ids.take(i as int), seq![',', ' ']),
                total == if total_chunks(self.docs().take(i as int)) <= usize::MAX {
                    total_chunks(self.docs().take(i as int))
                } else {
                    usize::MAX as nat
                },
            decreases self.documents.len() - i,
        {
            if i > 0 {
                out.push(',');
                out.push(' ');
            }
            push_str_chars(&mut out, self.documents[i].id.as_str());
            total = total.saturating_add(self.documents[i].chunks.len());
            let ghost prev = listing_view(listing@);
            listing.push((self.documents[i].id.clone(), self.documents[i].chunks.len()));
            proof {
                assert(listing_view(listing@) =~= prev.push((self.docs()[i as int].id@, self.docs()[i as int].chunks@.len())));
                assert(listing_of(self.docs()).take(i + 1) =~= listing_of(self.docs()).take(i as int).push(
                    (self.docs()[i as int].id@, self.docs()[i as int].chunks@.len()),
                ));
                assert(ids.take(i + 1).drop_last() =~= ids.take(i as int));
                assert(self.docs().take(i + 1).drop_last() =~= self.docs().take(i as int));
                if i == 0 {
                    assert(ids.take(1) =~= seq![ids[0]]);
                }
            }
            i = i + 1;
        }
        proof {
            assert(ids.take(i as int) =~= ids);
            assert(self.docs().take(i as int) =~= self.docs());
            assert(listing_of(self.docs()).take(i as int) =~= listing_of(self.docs()));
        }
        StoreStatus {
            documents: string_of(out.as_slice()),
            listing,
            total_chunks: total,
            physics_enabled: self.config.physics_enabled,
        }
    }

    /// Where a search for `k` results goes: to the current document if there is one,
    /// else to every document, each asked for `k` divided by the number of documents
    /// (there are none then: a store that holds documents always has a current one).
    pub fn search_plan(&self, k: usize) -> (p: SearchPlan)
        requires
            self.wf(),
        ensures
            match p {
                SearchPlan::Current(c) => self.current_id() == Some(c@) && self.has(c@),
                SearchPlan::Every(m) => self.current_id() is None && self.docs().len() == 0 && m as int == k as int / (if self.docs().len() > 1 {
                    self.docs().len() as int
                } else {
                    1int
                }),
            },
    {
        match &self.current {
            Some(c) => SearchPlan::Current(c.clone()),
            None => {
                let n = if self.documents.len() > 1 {
                    self.documents.len()
                } else {
                    1
                };
                SearchPlan::Every(k / n)
            },
        }
    }

    /// What the store writes out to keep its state.
    pub fn snapshot(&self) -> (sn: Snapshot)
        ensures
            pairs_of(sn.docs@) == snapshot_docs(self.docs()),
            entries_of(sn.expiries@) == self.expiry_entries(),
            match sn.current {
                Some(c) => self.current_id() == Some(c@),
                None => self.current_id() is None,
            },
    {
        let mut docs: Vec<(String, String)> = Vec::new();
        let mut i: usize = 0;
        while i < self.documents.len()
            invariant
                i <= self.documents@.len(),
                pairs_of(docs@) == snapshot_docs(self.docs()).take(i as int),
            decreases self.documents.len() - i,
        {
            let d = &self.documents[i];
            let text = join_strings(&d.pages, "\n");
            proof {
                reveal_strlit("\n");
                assert("\n"@ =~= seq!['\n']);
                assert(text@ == crate::text::join(strings_of(d.pages@), seq!['\n']));
            }
            let ghost prev = pairs_of(docs@);
            let entry = (d.id.clone(), text);
            let ghost ev = (entry.0@, entry.1@);
            docs.push(entry);
            i = i + 1;
            proof {
                assert(pairs_of(docs@) =~= prev.push(ev));
                assert(snapshot_docs(self.docs()).take(i as int) =~= snapshot_docs(self.docs()).take(i - 1).push(ev));
            }
        }
        proof {
            assert(snapshot_docs(self.docs()).take(i as int) =~= snapshot_docs(self.docs()));
        }
        let mut expiries: Vec<(u64, String)> = Vec::new();
        let mut j: usize = 0;
        while j < self.expiries.len()
            invariant
                j <= self.expiries@.len(),
                entries_of(expiries@) == self.expiry_entries().take(j as int),
            decreases self.expiries.len() - j,
        {
            let ghost prev = entries_of(expiries@);
            let entry = (self.expiries[j].0, self.expiries[j].1.clone());
            let ghost ev = (entry.0, entry.1@);
            expiries.push(entry);
            j = j + 1;
            proof {
                assert(entries_of(expiries@) =~= prev.push(ev));
                assert(self.expiry_entries().take(j as int) =~= self.expiry_entries().take(j - 1).push(ev));
            }
        }
        proof {
            assert(self.expiry_entries().take(j as int) =~= self.expiry_entries());
        }
        let current = match &self.current {
            Some(c) => Some(c.clone()),
            None => None,
        };
        Snapshot { docs, expiries, current }
    }
}


/// What a store reads back of its kept state: the expiry entries (each the text of a
/// time and the document name, where that is a string), the documents (each a name
/// and its text, where that is a string), and the current document's name.
pub struct SavedState {
    /// Each expiry time as written, and the name of the document due then.
    pub expiries: Vec<(String, Option<String>)>,
    /// Each document's name, and its text.
    pub docs: Vec<(String, Option<String>)>,
    /// The name of the current document, if one was written.
    pub current: Option<String>,
}

/// The views of name and optional text pairs.
pub open spec fn saved_pairs(v: Seq<(String, Option<String>)>) -> Seq<(Seq<char>, Option<Seq<char>>)> {
    v.map_values(
        |p: (String, Option<String>)|
            (
                p.0@,
                match p.1 {
                    Some(t) => Some(t@),
                    None => None,
                },
            ),
    )
}

/// The text saved for the first document named `id` in `docs`.
pub open spec fn saved_text(docs: Seq<(Seq<char>, Option<Seq<char>>)>, id: Seq<char>) -> Option<Seq<char>>
    decreases docs.len(),
{
    if docs.len() == 0 {
        None
    } else if docs[0].0 == id {
        docs[0].1
    } else {
        saved_text(docs.drop_first(), id)
    }
}

/// The time an expiry entry was written with: its text read as a decimal, 0 where it
/// is none.
pub open spec fn saved_time(t: Seq<char>) -> u64 {
    match crate::numbers::parse_decimal(t) {
        Some(v) => v,
        None => 0,
    }
}

/// The document that an expiry entry brings back at the time `now`: none where it
/// has expired, names no document, or names one without a saved text.
pub open spec fn revived(
    e: (Seq<char>, Option<Seq<char>>),
    docs: Seq<(Seq<char>, Option<Seq<char>>)>,
    now: u64,
) -> Option<(Seq<char>, Seq<char>)> {
    if saved_time(e.0) < now {
        None
    } else {
        match e.1 {
            Some(id) => match saved_text(docs, id) {
                Some(t) => Some((id, t)),
                None => None,
            },
            None => None,
        }
    }
}

/// The documents that the expiry entries `es` bring back at the time `now`, in order.
pub open spec fn revived_all(
    es: Seq<(Seq<char>, Option<Seq<char>>)>,
    docs: Seq<(Seq<char>, Option<Seq<char>>)>,
    now: u64,
) -> Seq<(Seq<char>, Seq<char>)>
    decreases es.len(),
{
    if es.len() == 0 {
        seq![]
    } else {
        let r = revived_all(es.drop_last(), docs, now);
        match revived(es.last(), docs, now) {
            Some(p) => r.push(p),
            None => r,
        }
    }
}

/// The documents that the kept state `saved` brings back at the time `now`, in order.
pub open spec fn revived_from(saved: SavedState, now: u64) -> Seq<(Seq<char>, Seq<char>)> {
    revived_all(saved_pairs(saved.expiries@), saved_pairs(saved.docs@), now)
}

/// Whether some pair of `r` names `x`.
pub open spec fn names(r: Seq<(Seq<char>, Seq<char>)>, x: Seq<char>) -> bool {
    exists|j: int| 0 <= j < r.len() && (#[trigger] r[j]).0 == x
}

/// The text saved for `id` in `docs`.
pub fn saved_text_of(docs: &Vec<(String, Option<String>)>, id: &String) -> (r: Option<String>)
    ensures
        match r {
            Some(t) => saved_text(saved_pairs(docs@), id@) == Some(t@),
            None => saved_text(saved_pairs(docs@), id@) is None,
        },
{
    let ghost v = saved_pairs(docs@);
    let mut i: usize = 0;
    proof {
        assert(v.skip(0) =~= v);
    }
    while i < docs.len()
        invariant
            i <= docs.len(),
            v == saved_pairs(docs@),
            saved_text(v, id@) == saved_text(v.skip(i as int), id@),
        decreases docs.len() - i,
    {
        proof {
            assert(v.skip(i as int).drop_first() =~= v.skip(i + 1));
            assert(v.skip(i as int)[0] == v[i as int]);
        }
        if docs[i].0 == *id {
            return match &docs[i].1 {
                Some(t) => Some(t.clone()),
                None => None,
            };
        }
        i = i + 1;
    }
    None
}


/// What bringing back kept state at the time `now` does to a store, the state being
/// the expiry entries `es` (each a time as written and a name), the documents `ds`
/// (each a name and its text) and the current document `current`: the documents that
/// the unexpired entries name are ingested in order, with `now` as their ingestion
/// time; the last of them becomes current, or, where none comes back, the saved
/// current document if it is stored; nothing else changes.
pub open spec fn restores_from(
    before: Store,
    after: Store,
    es: Seq<(Seq<char>, Option<Seq<char>>)>,
    ds: Seq<(Seq<char>, Option<Seq<char>>)>,
    current: Option<Seq<char>>,
    now: u64,
) -> bool {
    let r = revived_all(es, ds, now);
    &&& after.settings() == before.settings()
    &&& forall|x: Seq<char>| #[trigger] after.has(x) == (before.has(x) || names(r, x))
    &&& forall|j: int|
        0 <= j < r.len() ==> after.doc((#[trigger] r[j]).0).records(
            r[j].0,
            r[j].1,
            before.settings().max_chars as nat,
        )
    &&& forall|x: Seq<char>| #[trigger] before.has(x) && !names(r, x) ==> after.doc(x) == before.doc(x)
    &&& after.expiry_map() == if r.len() > 0 {
        before.expiry_map().insert(expiry_time(now, before.settings().ttl_secs), r.last().0)
    } else {
        before.expiry_map()
    }
    &&& after.current_id() == if r.len() > 0 {
        Some(r.last().0)
    } else {
        match current {
            Some(c) => if before.has(c) {
                Some(c)
            } else {
                before.current_id()
            },
            None => before.current_id(),
        }
    }
}

/// What bringing back the kept state `saved` at the time `now` does to a store; see
/// `restores_from`.
pub open spec fn restores(before: Store, after: Store, saved: SavedState, now: u64) -> bool {
    restores_from(
        before,
        after,
        saved_pairs(saved.expiries@),
        saved_pairs(saved.docs@),
        crate::mcp::opt_view(saved.current),
        now,
    )
}

impl Store {
    /// Brings back the state `saved` at the time `now`: ingests, in order, each
    /// document that an unexpired expiry entry names and that has a saved text; makes
    /// the last of them current, or else the saved current document if it is stored.
    pub fn restore_at(&mut self, saved: &SavedState, now: u64)
        requires
            old(self).wf(),
        ensures
            final(self).wf(),
            restores(*old(self), *final(self), *saved, now),
    {
        let ghost es = saved_pairs(saved.expiries@);
        let ghost ds = saved_pairs(saved.docs@);
        let ghost t = expiry_time(now, self.config.ttl_secs);
        let ghost start = *self;
        let mut any = false;
        let mut i: usize = 0;
        while i < saved.expiries.len()
            invariant
                i <= saved.expiries@.len(),
                es == saved_pairs(saved.expiries@),
                ds == saved_pairs(saved.docs@),
                start.wf(),
                t == expiry_time(now, start.settings().ttl_secs),
                self.wf(),
                self.settings() == start.settings(),
                any == (revived_all(es.take(i as int), ds, now).len() > 0),
                forall|j: int|
                    0 <= j < revived_all(es.take(i as int), ds, now).len() ==> saved_text(
                        ds,
                        (#[trigger] revived_all(es.take(i as int), ds, now)[j]).0,
                    ) == Some(revived_all(es.take(i as int), ds, now)[j].1),
                forall|x: Seq<char>|
                    #[trigger] self.has(x) == (start.has(x) || names(revived_all(es.take(i as int), ds, now), x)),
                forall|j: int|
                    0 <= j < revived_all(es.take(i as int), ds, now).len() ==> self.doc(
                        (#[trigger] revived_all(es.take(i as int), ds, now)[j]).0,
                    ).records(
                        revived_all(es.take(i as int), ds, now)[j].0,
                        revived_all(es.take(i as int), ds, now)[j].1,
                        start.settings().max_chars as nat,
                    ),
                forall|x: Seq<char>|
                    #[trigger] start.has(x) && !names(revived_all(es.take(i as int), ds, now), x)
                        ==> self.doc(x) == start.doc(x),
                revived_all(es.take(i as int), ds, now).len() > 0 ==> self.expiry_map()
                    == start.expiry_map().insert(t, revived_all(es.take(i as int), ds, now).last().0),
                revived_all(es.take(i as int), ds, now).len() > 0 ==> self.current_id() == Some(
                    revived_all(es.take(i as int), ds, now).last().0,
                ),
                revived_all(es.take(i as int), ds, now).len() == 0 ==> self.expiry_map()
                    == start.expiry_map(),
                revived_all(es.take(i as int), ds, now).len() == 0 ==> self.current_id()
                    == start.current_id(),
                revived_all(es.take(i as int), ds, now).len() == 0 ==> forall|x: Seq<char>|
                    #[trigger] self.has(x) ==> self.doc(x) == start.doc(x),
            decreases saved.expiries.len() - i,
        {
            let ghost prev = revived_all(es.take(i as int), ds, now);
            let ghost before = *self;
            proof {
                assert(es.take(i + 1).drop_last() =~= es.take(i as int));
                assert(es.take(i + 1).last() == es[i as int]);
            }
            let key = chars_of(saved.expiries[i].0.as_str());
            let when = match crate::numbers::parse_u64(key.as_slice()) {
                Some(v) => v,
                None => 0,
            };
            if when >= now {
                match &saved.expiries[i].1 {
                    Some(id) => {
                        match saved_text_of(&saved.docs, id) {
                            Some(text) => {
                                self.ingest_at(id.clone(), text, now);
                                any = true;
                                proof {
                                    assert forall|x: Seq<char>| #[trigger] self.has(x) == (before.has(x) || x == id@) by {
                                        if !before.has(id@) {
                                            let bi = before.ids();
                                            assert(self.ids() == bi.push(id@));
                                            if x == id@ {
                                                assert(self.ids()[bi.len() as int] == x);
                                            } else if self.has(x) {
                                                let j = choose|j: int| 0 <= j < self.ids().len() && self.ids()[j] == x;
                                                assert(bi[j] == x);
                                            } else if before.has(x) {
                                                let j = choose|j: int| 0 <= j < bi.len() && bi[j] == x;
                                                assert(self.ids()[j] == x);
                                            }
                                        }
                                    }
                                    let cur = revived_all(es.take(i + 1), ds, now);
                                    assert(cur == prev.push((id@, text@)));
                                    assert(cur.last().0 == id@);
                                    assert forall|x: Seq<char>| #[trigger] self.has(x) == (start.has(x) || names(cur, x)) by {
                                        if x == id@ {
                                            assert(cur[prev.len() as int].0 == x);
                                        } else if names(cur, x) {
                                            let j = choose|j: int| 0 <= j < cur.len() && (#[trigger] cur[j]).0 == x;
                                            assert(prev[j].0 == x);
                                        } else if names(prev, x) {
                                            let j = choose|j: int| 0 <= j < prev.len() && (#[trigger] prev[j]).0 == x;
                                            assert(cur[j].0 == x);
                                        }
                                    }
                                    assert forall|j: int| 0 <= j < cur.len() implies saved_text(ds, (#[trigger] cur[j]).0) == Some(cur[j].1) by {
                                        if j < prev.len() {
                                            assert(cur[j] == prev[j]);
                                        }
                                    }
                                    assert forall|j: int| 0 <= j < cur.len() implies self.doc((#[trigger] cur[j]).0).records(cur[j].0, cur[j].1, start.settings().max_chars as nat) by {
                                        if j < prev.len() {
                                            assert(cur[j] == prev[j]);
                                            if prev[j].0 == id@ {
                                                assert(prev[j].1 == text@);
                                            } else {
                                                assert(before.has(prev[j].0));
                                            }
                                        }
                                    }
                                    assert forall|x: Seq<char>| #[trigger] start.has(x) && !names(cur, x) implies self.doc(x) == start.doc(x) by {
                                        if !names(prev, x) && x != id@ {
                                            assert(before.has(x));
                                        }
                                        assert(names(prev, x) ==> names(cur, x)) by {
                                            if names(prev, x) {
                                                let j = choose|j: int| 0 <= j < prev.len() && (#[trigger] prev[j]).0 == x;
                                                assert(cur[j].0 == x);
                                            }
                                        }
                                        assert(x != id@) by {
                                            if x == id@ {
                                                assert(cur[prev.len() as int].0 == x);
                                            }
                                        }
                                    }
                                    if prev.len() > 0 {
                                        assert(self.expiry_map() =~= start.expiry_map().insert(t, id@));
                                    }
                                }
                            },
                            None => {
                                proof {
                                    assert(revived_all(es.take(i + 1), ds, now) == prev);
                                }
                            },
                        }
                    },
                    None => {
                        proof {
                            assert(revived_all(es.take(i + 1), ds, now) == prev);
                        }
                    },
                }
            } else {
                proof {
                    assert(revived_all(es.take(i + 1), ds, now) == prev);
                }
            }
            i = i + 1;
        }
        proof {
            assert(es.take(i as int) =~= es);
            assert(revived_from(*saved, now) == revived_all(es, ds, now));
        }
        let ghost mid = *self;
        if !any {
            match &saved.current {
                Some(c) => {
                    proof {
                        assert(!names(revived_from(*saved, now), c@));
                        assert(self.has(c@) == start.has(c@));
                    }
                    if self.position_of(c).is_some() {
                        self.current = Some(c.clone());
                    }
                },
                None => {},
            }
        }
        proof {
            assert(self.docs() == mid.docs());
            assert(self.ids() == mid.ids());
            assert forall|x: Seq<char>| #[trigger] self.has(x) == mid.has(x) by {}
            assert forall|x: Seq<char>| mid.has(x) implies self.doc(x) == mid.doc(x) by {}
            if any {
                assert(self.current_id() == Some(revived_from(*saved, now).last().0));
            } else {
                assert(revived_from(*saved, now).len() == 0);
                assert(mid.current_id() == start.current_id());
            }
        }
    }

    /// Brings back the state `saved` now; see `restore_at`.
    pub fn restore(&mut self, saved: &SavedState)
        requires
            old(self).wf(),
        ensures
            final(self).wf(),
            exists|now: u64| restores(*old(self), *final(self), *saved, now),
    {
        let now = now_secs();
        self.restore_at(saved, now);
    }
}


/// How documents are written out: each name with its text as a string.
pub open spec fn written_docs(docs: Seq<(Seq<char>, Seq<char>)>) -> Seq<(Seq<char>, Option<Seq<char>>)> {
    docs.map_values(|p: (Seq<char>, Seq<char>)| (p.0, Some(p.1)))
}

/// How expiry entries are written out: each time as its decimal numeral, each name
/// as a string.
pub open spec fn written_expiries(exps: Seq<(u64, Seq<char>)>) -> Seq<(Seq<char>, Option<Seq<char>>)> {
    exps.map_values(|e: (u64, Seq<char>)| (crate::numbers::decimal(e.0 as nat), Some(e.1)))
}

impl Snapshot {
    /// What the snapshot is written out as: each expiry time as its decimal numeral,
    /// each name and text as a string.
    pub fn to_saved(&self) -> (saved: SavedState)
        ensures
            saved_pairs(saved.docs@) == written_docs(pairs_of(self.docs@)),
            saved_pairs(saved.expiries@) == written_expiries(entries_of(self.expiries@)),
            crate::mcp::opt_view(saved.current) == crate::mcp::opt_view(self.current),
    {
        let mut docs: Vec<(String, Option<String>)> = Vec::new();
        let mut i: usize = 0;
        while i < self.docs.len()
            invariant
                i <= self.docs@.len(),
                saved_pairs(docs@) == written_docs(pairs_of(self.docs@)).take(i as int),
            decreases self.docs.len() - i,
        {
            let ghost prev = saved_pairs(docs@);
            let entry = (self.docs[i].0.clone(), Some(self.docs[i].1.clone()));
            let ghost ev = (entry.0@, Some(self.docs@[i as int].1@));
            docs.push(entry);
            i = i + 1;
            proof {
                assert(saved_pairs(docs@) =~= prev.push(ev));
                assert(written_docs(pairs_of(self.docs@)).take(i as int)
                    =~= written_docs(pairs_of(self.docs@)).take(i - 1).push(ev));
            }
        }
        let mut exps: Vec<(String, Option<String>)> = Vec::new();
        let mut j: usize = 0;
        while j < self.expiries.len()
            invariant
                j <= self.expiries@.len(),
                saved_pairs(exps@) == written_expiries(entries_of(self.expiries@)).take(j as int),
            decreases self.expiries.len() - j,
        {
            let ghost prev = saved_pairs(exps@);
            let entry = (crate::numbers::decimal_string(self.expiries[j].0), Some(self.expiries[j].1.clone()));
            let ghost ev = (entry.0@, Some(self.expiries@[j as int].1@));
            exps.push(entry);
            j = j + 1;
            proof {
                assert(saved_pairs(exps@) =~= prev.push(ev));
                assert(written_expiries(entries_of(self.expiries@)).take(j as int)
                    =~= written_expiries(entries_of(self.expiries@)).take(j - 1).push(ev));
            }
        }
        proof {
            assert(written_docs(pairs_of(self.docs@)).take(i as int)
                =~= written_docs(pairs_of(self.docs@)));
            assert(written_expiries(entries_of(self.expiries@)).take(j as int)
                =~= written_expiries(entries_of(self.expiries@)));
        }
        let current = match &self.current {
            Some(c) => Some(c.clone()),
            None => None,
        };
        SavedState { expiries: exps, docs, current }
    }
}

/// The name and string pairs of object entries: each key, with its value where that
/// is a string.
pub open spec fn leaf_pairs(fs: Seq<(String, Json)>) -> Seq<(Seq<char>, Option<Seq<char>>)> {
    fs.map_values(|e: (String, Json)| (e.0@, text_of(e.1)))
}

/// The names of name and string pairs.
pub open spec fn pair_keys(ps: Seq<(Seq<char>, Option<Seq<char>>)>) -> Seq<Seq<char>> {
    ps.map_values(|p: (Seq<char>, Option<Seq<char>>)| p.0)
}

/// The pairs that kept state holds under `key`: the entries of the object there, each
/// with its value where that is a string; none where there is no object.
pub open spec fn pairs_under(es: Seq<(String, Json)>, key: Seq<char>) -> Seq<(Seq<char>, Option<Seq<char>>)> {
    match field(es, key) {
        Some(Json::Object(fs)) => leaf_pairs(fs@),
        _ => seq![],
    }
}

/// What kept state written as the JSON value `j` holds: the pairs of its `ttl` object
/// (each an expiry time as written and a name), those of its `docs` object (each a
/// name and a text), and its `current` string; nothing where `j` is no object.
pub open spec fn saved_of(j: Json) -> (Seq<(Seq<char>, Option<Seq<char>>)>, Seq<(Seq<char>, Option<Seq<char>>)>, Option<Seq<char>>) {
    match j {
        Json::Object(es) => (
            pairs_under(es@, "ttl"@),
            pairs_under(es@, "docs"@),
            match field(es@, "current"@) {
                Some(v) => text_of(v),
                None => None,
            },
        ),
        _ => (seq![], seq![], None),
    }
}

/// How kept state is laid out as a JSON value: an object with `docs`, the object of
/// the document pairs `ds`, then `ttl`, the object of the expiry pairs `es` (each time
/// numeral to a name), then, only where there is a current document, `current`, its
/// name.
pub open spec fn state_layout(
    j: Json,
    es: Seq<(Seq<char>, Option<Seq<char>>)>,
    ds: Seq<(Seq<char>, Option<Seq<char>>)>,
    cur: Option<Seq<char>>,
) -> bool {
    match j {
        Json::Object(top) => {
            &&& top@.len() == if cur is Some {
                3int
            } else {
                2int
            }
            &&& top@[0].0@ == "docs"@
            &&& top@[0].1 matches Json::Object(d) && leaf_pairs(d@) == ds
            &&& top@[1].0@ == "ttl"@
            &&& top@[1].1 matches Json::Object(t) && leaf_pairs(t@) == es
            &&& cur matches Some(c) ==> top@[2].0@ == "current"@ && text_of(top@[2].1) == Some(c)
        },
        _ => false,
    }
}

/// Whether the kept state `p` (expiry pairs, document pairs, current name) is what a
/// store with the documents `docs`, the expiry entries `exps` and the current
/// document `current` writes out, pairs in any order: each expiry time as its decimal
/// numeral with its name, each document name with its text.
pub open spec fn kept_as(
    p: (Seq<(Seq<char>, Option<Seq<char>>)>, Seq<(Seq<char>, Option<Seq<char>>)>, Option<Seq<char>>),
    docs: Seq<(Seq<char>, Seq<char>)>,
    exps: Seq<(u64, Seq<char>)>,
    current: Option<Seq<char>>,
) -> bool {
    &&& forall|i: int| 0 <= i < p.1.len() ==> written_docs(docs).contains(#[trigger] p.1[i])
    &&& forall|k: int| 0 <= k < docs.len() ==> p.1.contains(#[trigger] written_docs(docs)[k])
    &&& forall|i: int| 0 <= i < p.0.len() ==> written_expiries(exps).contains(#[trigger] p.0[i])
    &&& forall|k: int| 0 <= k < exps.len() ==> p.0.contains(#[trigger] written_expiries(exps)[k])
    &&& p.2 == current
}

/// The entries of an object holding the pairs `ps`: each name with its text as a
/// string, or `null` where it has none.
fn leaf_entries(ps: &Vec<(String, Option<String>)>) -> (r: Vec<(String, Json)>)
    ensures
        leaf_pairs(r@) == saved_pairs(ps@),
        forall|i: int| 0 <= i < r@.len() ==> is_leaf(#[trigger] r@[i].1),
{
    let mut r: Vec<(String, Json)> = Vec::new();
    let mut i: usize = 0;
    while i < ps.len()
        invariant
            i <= ps.len(),
            leaf_pairs(r@) == saved_pairs(ps@).take(i as int),
            forall|j: int| 0 <= j < r@.len() ==> is_leaf(#[trigger] r@[j].1),
        decreases ps.len() - i,
    {
        let ghost prev = r@;
        let v = match &ps[i].1 {
            Some(t) => Json::Text(t.clone()),
            None => Json::Null,
        };
        let e = (ps[i].0.clone(), v);
        let ghost ev = e;
        proof {
            assert((ev.0@, text_of(ev.1)) == saved_pairs(ps@)[i as int]);
            assert(is_leaf(ev.1));
        }
        r.push(e);
        i = i + 1;
        proof {
            assert(r@ == prev.push(ev));
            assert(leaf_pairs(r@) =~= leaf_pairs(prev).push(saved_pairs(ps@)[i - 1]));
            assert(saved_pairs(ps@).take(i as int) =~= saved_pairs(ps@).take(i - 1).push(saved_pairs(ps@)[i - 1]));
            assert forall|j: int| 0 <= j < r@.len() implies is_leaf(#[trigger] r@[j].1) by {
                if j < prev.len() {
                    assert(r@[j] == prev[j]);
                }
            }
        }
    }
    proof {
        assert(saved_pairs(ps@).take(i as int) =~= saved_pairs(ps@));
    }
    r
}

/// The pairs of the object entries `fs`: each key, with its value where that is a
/// string.
fn pairs_of_entries(fs: &Vec<(String, Json)>) -> (r: Vec<(String, Option<String>)>)
    ensures
        saved_pairs(r@) == leaf_pairs(fs@),
{
    let mut r: Vec<(String, Option<String>)> = Vec::new();
    let mut i: usize = 0;
    while i < fs.len()
        invariant
            i <= fs.len(),
            saved_pairs(r@) == leaf_pairs(fs@).take(i as int),
        decreases fs.len() - i,
    {
        let ghost prev = saved_pairs(r@);
        let v = match &fs[i].1 {
            Json::Text(t) => Some(t.clone()),
            _ => None,
        };
        let entry = (fs[i].0.clone(), v);
        let ghost ev = (entry.0@, crate::mcp::opt_view(entry.1));
        r.push(entry);
        i = i + 1;
        proof {
            assert(ev == leaf_pairs(fs@)[i - 1]);
            assert(saved_pairs(r@) =~= prev.push(ev));
            assert(leaf_pairs(fs@).take(i as int) =~= leaf_pairs(fs@).take(i - 1).push(ev));
        }
    }
    proof {
        assert(leaf_pairs(fs@).take(i as int) =~= leaf_pairs(fs@));
    }
    r
}

/// The pairs that kept state holds under `key` in the object entries `es`.
fn pairs_at(es: &Vec<(String, Json)>, key: &str) -> (r: Vec<(String, Option<String>)>)
    ensures
        saved_pairs(r@) == pairs_under(es@, key@),
{
    match find_field(es, key) {
        Some(Json::Object(fs)) => pairs_of_entries(fs),
        _ => {
            let r: Vec<(String, Option<String>)> = Vec::new();
            proof {
                assert(saved_pairs(r@) =~= seq![]);
            }
            r
        },
    }
}

/// What kept state written as the JSON value `j` holds.
pub fn saved_state_of(j: &Json) -> (s: SavedState)
    ensures
        (saved_pairs(s.expiries@), saved_pairs(s.docs@), crate::mcp::opt_view(s.current)) == saved_of(*j),
{
    match j {
        Json::Object(es) => {
            let expiries = pairs_at(es, "ttl");
            let docs = pairs_at(es, "docs");
            let current = match find_field(es, "current") {
                Some(Json::Text(c)) => Some(c.clone()),
                _ => None,
            };
            SavedState { expiries, docs, current }
        },
        _ => {
            let s = SavedState { expiries: Vec::new(), docs: Vec::new(), current: None };
            proof {
                assert(saved_pairs(s.expiries@) =~= seq![]);
                assert(saved_pairs(s.docs@) =~= seq![]);
            }
            s
        },
    }
}

/// The JSON value that keeps the state `saved`: an object with `docs` and `ttl`, the
/// objects of its document and expiry pairs, and `current`, only where there is a
/// current document.
pub fn json_of_saved(saved: &SavedState) -> (j: Json)
    ensures
        state_layout(j, saved_pairs(saved.expiries@), saved_pairs(saved.docs@), crate::mcp::opt_view(saved.current)),
        saved_of(j) == (saved_pairs(saved.expiries@), saved_pairs(saved.docs@), crate::mcp::opt_view(saved.current)),
        no_repeats(pair_keys(saved_pairs(saved.expiries@))) && no_repeats(pair_keys(saved_pairs(saved.docs@)))
            ==> is_record(j),
{
    let d = leaf_entries(&saved.docs);
    let t = leaf_entries(&saved.expiries);
    let ghost dv = d@;
    let ghost tv = t@;
    let jd = Json::Object(d);
    let jt = Json::Object(t);
    let ghost gd = jd;
    let ghost gt = jt;
    let mut top: Vec<(String, Json)> = Vec::new();
    top.push((String::from_str("docs"), jd));
    top.push((String::from_str("ttl"), jt));
    match &saved.current {
        Some(c) => {
            top.push((String::from_str("current"), Json::Text(c.clone())));
        },
        None => {},
    }
    proof {
        reveal_strlit("docs");
        reveal_strlit("ttl");
        reveal_strlit("current");
        let es = top@;
        assert(es[0].0@ == "docs"@);
        assert(es[1].0@ == "ttl"@);
        assert("docs"@ != "ttl"@) by {
            assert("docs"@[0] != "ttl"@[0]);
        }
        assert("docs"@ != "current"@) by {
            assert("docs"@[0] != "current"@[0]);
        }
        assert("ttl"@ != "current"@) by {
            assert("ttl"@[0] != "current"@[0]);
        }
        assert(no_repeats(keys_of(es))) by {
            assert forall|i: int, k: int| 0 <= i < es.len() && 0 <= k < es.len() && i != k implies keys_of(es)[i]
                != keys_of(es)[k] by {
                if es.len() == 3 {
                    assert(es[2].0@ == "current"@);
                }
            }
        }
        lemma_field_of_distinct(es, 0);
        lemma_field_of_distinct(es, 1);
        assert(field(es, "docs"@) == Some(es[0].1));
        assert(field(es, "ttl"@) == Some(es[1].1));
        if es.len() == 3 {
            lemma_field_of_distinct(es, 2);
            assert(field(es, "current"@) == Some(es[2].1));
        } else {
            assert forall|i: int| 0 <= i < es.len() implies (#[trigger] es[i]).0@ != "current"@ by {}
            lemma_field_absent(es, "current"@);
        }
        assert(keys_of(dv) =~= pair_keys(leaf_pairs(dv)));
        assert(keys_of(tv) =~= pair_keys(leaf_pairs(tv)));
        if no_repeats(pair_keys(saved_pairs(saved.expiries@))) && no_repeats(pair_keys(saved_pairs(saved.docs@))) {
            assert forall|i: int| 0 <= i < es.len() implies is_leaf(#[trigger] es[i].1) || is_flat_object(es[i].1) by {
                if i == 0 {
                    assert(es[0].1 == gd);
                    assert(is_flat_object(gd));
                } else if i == 1 {
                    assert(es[1].1 == gt);
                    assert(is_flat_object(gt));
                }
            }
        }
    }
    Json::Object(top)
}

/// Whether the pairs `a` and `b` are the same, in any order.
pub open spec fn same_pairs(a: Seq<(Seq<char>, Option<Seq<char>>)>, b: Seq<(Seq<char>, Option<Seq<char>>)>) -> bool {
    &&& forall|i: int| 0 <= i < a.len() ==> b.contains(#[trigger] a[i])
    &&& forall|k: int| 0 <= k < b.len() ==> a.contains(#[trigger] b[k])
}

/// Object entries that are the same in any order give the same pairs in any order.
proof fn lemma_leaf_pairs_same(x: Seq<(String, Json)>, y: Seq<(String, Json)>)
    requires
        same_leaf_entries(x, y),
    ensures
        same_pairs(leaf_pairs(x), leaf_pairs(y)),
{
    let lx = leaf_pairs(x);
    let ly = leaf_pairs(y);
    assert forall|i: int| 0 <= i < lx.len() implies ly.contains(#[trigger] lx[i]) by {
        let k = choose|k: int| 0 <= k < y.len() && y[k].0@ == (#[trigger] x[i]).0@ && text_of(y[k].1) == text_of(x[i].1);
        assert(ly[k] == lx[i]);
    }
    assert forall|k: int| 0 <= k < ly.len() implies lx.contains(#[trigger] ly[k]) by {
        let i = choose|i: int| 0 <= i < x.len() && x[i].0@ == (#[trigger] y[k]).0@ && text_of(x[i].1) == text_of(y[k].1);
        assert(lx[i] == ly[k]);
    }
}

/// Where entries hold a value under `key`, one of them has that key.
proof fn lemma_field_has_key(es: Seq<(String, Json)>, key: Seq<char>)
    requires
        field(es, key) is Some,
    ensures
        exists|k: int| 0 <= k < es.len() && (#[trigger] es[k]).0@ == key,
    decreases es.len(),
{
    if es[0].0@ != key {
        lemma_field_has_key(es.drop_first(), key);
        let k = choose|k: int| 0 <= k < es.drop_first().len() && (#[trigger] es.drop_first()[k]).0@ == key;
        assert(es[k + 1] == es.drop_first()[k]);
    }
}

/// Records with the same entries in any order hold the same value under each key.
proof fn lemma_record_field(rs: Seq<(String, Json)>, js: Seq<(String, Json)>, key: Seq<char>)
    requires
        no_repeats(keys_of(rs)),
        no_repeats(keys_of(js)),
        forall|i: int|
            0 <= i < rs.len() ==> exists|k: int|
                0 <= k < js.len() && js[k].0@ == (#[trigger] rs[i]).0@ && same_value(rs[i].1, js[k].1),
        forall|k: int|
            0 <= k < js.len() ==> exists|i: int|
                0 <= i < rs.len() && rs[i].0@ == (#[trigger] js[k]).0@ && same_value(rs[i].1, js[k].1),
    ensures
        field(js, key) is None ==> field(rs, key) is None,
        field(js, key) matches Some(v) ==> (field(rs, key) matches Some(u) && same_value(u, v)),
{
    if field(js, key) is Some {
        lemma_field_has_key(js, key);
        let k = choose|k: int| 0 <= k < js.len() && (#[trigger] js[k]).0@ == key;
        lemma_field_of_distinct(js, k);
        let i = choose|i: int| 0 <= i < rs.len() && rs[i].0@ == (#[trigger] js[k]).0@ && same_value(rs[i].1, js[k].1);
        lemma_field_of_distinct(rs, i);
    } else {
        assert forall|i: int| 0 <= i < rs.len() implies (#[trigger] rs[i]).0@ != key by {
            if rs[i].0@ == key {
                let k = choose|k: int| 0 <= k < js.len() && js[k].0@ == (#[trigger] rs[i]).0@ && same_value(rs[i].1, js[k].1);
                lemma_field_of_distinct(js, k);
            }
        }
        lemma_field_absent(rs, key);
    }
}

/// What a record read back holds is what the record it was written from holds, pairs
/// in any order.
proof fn lemma_saved_of_same_record(r: Json, j: Json)
    requires
        is_record(r),
        is_record(j),
        same_record(r, j),
    ensures
        same_pairs(saved_of(r).0, saved_of(j).0),
        same_pairs(saved_of(r).1, saved_of(j).1),
        saved_of(r).2 == saved_of(j).2,
{
    match (r, j) {
        (Json::Object(rv), Json::Object(jv)) => {
            let rs = rv@;
            let js = jv@;
            assert forall|key: Seq<char>| #![auto] same_pairs(pairs_under(rs, key), pairs_under(js, key)) by {
                lemma_record_field(rs, js, key);
                match field(js, key) {
                    Some(Json::Object(y)) => {
                        let u = field(rs, key)->0;
                        match u {
                            Json::Object(x) => {
                                lemma_leaf_pairs_same(x@, y@);
                            },
                            _ => {},
                        }
                    },
                    _ => {},
                }
            }
            lemma_record_field(rs, js, "ttl"@);
            lemma_record_field(rs, js, "docs"@);
            lemma_record_field(rs, js, "current"@);
            assert(same_pairs(pairs_under(rs, "ttl"@), pairs_under(js, "ttl"@)));
            assert(same_pairs(pairs_under(rs, "docs"@), pairs_under(js, "docs"@)));
        },
        _ => {},
    }
}

impl Store {
    /// The JSON text that keeps the store's state, as `serde_json` writes it pretty:
    /// `docs` maps each document's name to its lines joined by line feeds, `ttl` maps
    /// each expiry time's decimal numeral to the name of the document due then, and
    /// `current`, written only where a document is current, names it. Read back, the
    /// text holds exactly those pairs.
    pub fn state_text(&self) -> (t: String)
        requires
            self.wf(),
        ensures
            exists|j: Json|
                pretty_text(j) == t@ && #[trigger] state_layout(
                    j,
                    written_expiries(self.expiry_entries()),
                    written_docs(snapshot_docs(self.docs())),
                    self.current_id(),
                ),
            json_of_text(t@) is Some,
            kept_as(saved_of(read_back(t@)), snapshot_docs(self.docs()), self.expiry_entries(), self.current_id()),
    {
        let sn = self.snapshot();
        let saved = sn.to_saved();
        let j = json_of_saved(&saved);
        let ghost es = written_expiries(self.expiry_entries());
        let ghost ds = written_docs(snapshot_docs(self.docs()));
        proof {
            assert(saved_pairs(saved.expiries@) == es);
            assert(saved_pairs(saved.docs@) == ds);
            assert(crate::mcp::opt_view(saved.current) == self.current_id());
            let ex = self.expiry_entries();
            assert forall|a: int, b: int| 0 <= a < es.len() && 0 <= b < es.len() && a != b implies pair_keys(es)[a]
                != pair_keys(es)[b] by {
                assert(pair_keys(es)[a] == crate::numbers::decimal(ex[a].0 as nat));
                assert(pair_keys(es)[b] == crate::numbers::decimal(ex[b].0 as nat));
                crate::numbers::lemma_parse_decimal_roundtrip(ex[a].0);
                crate::numbers::lemma_parse_decimal_roundtrip(ex[b].0);
                assert(self.expiry_times()[a] != self.expiry_times()[b]);
            }
            assert(pair_keys(ds) =~= self.ids());
        }
        let t = json_text(&j);
        proof {
            let r = read_back(t@);
            lemma_saved_of_same_record(r, j);
            let p = saved_of(r);
            assert(saved_of(j) == (es, ds, self.current_id()));
            assert forall|i: int| 0 <= i < p.1.len() implies ds.contains(#[trigger] p.1[i]) by {}
            assert forall|k: int| 0 <= k < ds.len() implies p.1.contains(#[trigger] ds[k]) by {}
            assert forall|i: int| 0 <= i < p.0.len() implies es.contains(#[trigger] p.0[i]) by {}
            assert forall|k: int| 0 <= k < es.len() implies p.0.contains(#[trigger] es[k]) by {}
        }
        t
    }

    /// Brings back the kept state written in the JSON text `raw` at the time `now`:
    /// where `raw` is JSON, restores what it holds as `restore_at` does and returns
    /// `true`; else leaves the store as it was and returns `false`.
    pub fn restore_text_at(&mut self, raw: &str, now: u64) -> (ok: bool)
        requires
            old(self).wf(),
        ensures
            final(self).wf(),
            ok == (json_of_text(raw@) is Some),
            ok ==> restores_from(
                *old(self),
                *final(self),
                saved_of(read_back(raw@)).0,
                saved_of(read_back(raw@)).1,
                saved_of(read_back(raw@)).2,
                now,
            ),
            !ok ==> *final(self) == *old(self),
    {
        match parse_json(raw) {
            Some(j) => {
                let saved = saved_state_of(&j);
                self.restore_at(&saved, now);
                true
            },
            None => false,
        }
    }

    /// Brings back the kept state written in the JSON text `raw` now; see
    /// `restore_text_at`.
    pub fn restore_text(&mut self, raw: &str) -> (ok: bool)
        requires
            old(self).wf(),
        ensures
            final(self).wf(),
            ok == (json_of_text(raw@) is Some),
            ok ==> exists|now: u64|
                #[trigger] restores_from(
                    *old(self),
                    *final(self),
                    saved_of(read_back(raw@)).0,
                    saved_of(read_back(raw@)).1,
                    saved_of(read_back(raw@)).2,
                    now,
                ),
            !ok ==> *final(self) == *old(self),
    {
        let now = now_secs();
        self.restore_text_at(raw, now)
    }
}

impl Store {
    /// Splits `text` into chunks of `CHUNK_WORDS` words joined by single spaces,
    /// consecutive chunks sharing `CHUNK_OVERLAP` words.
    pub fn chunk_text(&self, text: &str) -> (out: Vec<String>)
        ensures
            strings_of(out@) == crate::chunking::chunks(text@),
    {
        crate::chunking::chunk_text(text)
    }

    /// The document stored under `id`, if any.
    pub fn document(&self, id: &String) -> (d: Option<&Document>)
        requires
            self.wf(),
        ensures
            match d {
                Some(d) => self.has(id@) && *d == self.doc(id@),
                None => !self.has(id@),
            },
    {
        match self.position_of(id) {
            Some(k) => Some(&self.documents[k]),
            None => None,
        }
    }
}

} // verus!
