use vstd::prelude::*;
use crate::analyzer::text::text_eq;

verus! {

/// A file to create or update.
#[derive(Debug)]
pub struct FileUpsert {
    pub stable_id: String,
    pub path: String,
    pub hash: String,
    pub lang: String,
    pub namespace: String,
    pub repo: String,
}

/// A symbol to create or update. The three default coordinates are held
/// as the IEEE-754 bits of 64-bit floats.
#[derive(Debug)]
pub struct SymbolUpsert {
    pub stable_id: String,
    pub fqn: String,
    pub kind: String,
    pub file_stable_id: String,
    pub span_start: u32,
    pub span_end: u32,
    pub range_start_line: u32,
    pub range_start_character: u32,
    pub range_end_line: u32,
    pub range_end_character: u32,
    pub byte_start: u64,
    pub byte_end: u64,
    pub identifier_tokens: String,
    pub name: String,
    pub signature: Option<String>,
    pub doc: Option<String>,
    pub file_path: String,
    pub language: String,
    pub visibility: String,
    pub namespace: String,
    pub repo: String,
    pub default_x: u64,
    pub default_y: u64,
    pub default_z: u64,
}

/// A symbol to remove.
#[derive(Debug)]
pub struct SymbolDrop {
    pub stable_id: String,
}

/// An edge between two entities to create or update.
#[derive(Debug)]
pub struct EdgeUpsert {
    pub kind: String,
    pub stable_id: String,
    pub from_stable_id: String,
    pub to_stable_id: String,
    pub payload: Option<String>,
    pub namespace: String,
    pub repo: String,
}

/// An edge to remove.
#[derive(Debug)]
pub struct EdgeDrop {
    pub kind: String,
    pub stable_id: String,
}

/// A use site to (re)create, with its two edges.
#[derive(Debug)]
pub struct SiteUpsert {
    pub stable_id: String,
    pub kind: String,
    pub source_stable_id: String,
    pub container_stable_id: String,
    pub file_stable_id: String,
    pub file_path: String,
    pub uri: String,
    pub range_start_line: u32,
    pub range_start_character: u32,
    pub range_end_line: u32,
    pub range_end_character: u32,
    pub byte_start: u64,
    pub byte_end: u64,
    pub snippet: Option<String>,
    pub snippet_highlight_start_line: Option<u32>,
    pub snippet_highlight_start_character: Option<u32>,
    pub snippet_highlight_end_line: Option<u32>,
    pub snippet_highlight_end_character: Option<u32>,
    pub language: String,
    pub is_in_test: bool,
    pub is_conditional: bool,
    pub is_generated: bool,
    pub namespace: String,
    pub repo: String,
}

/// A site whose edges are to be removed.
#[derive(Debug)]
pub struct SiteDrop {
    pub stable_id: String,
}

/// One batch of mutations for a partition, up to an offset.
#[derive(Debug)]
pub struct ApplyMutationBatchInput {
    pub partition: u32,
    pub offset: u64,
    pub to_rev: String,
    pub file_upsert: Option<FileUpsert>,
    pub symbol_upserts: Vec<SymbolUpsert>,
    pub symbol_drops: Vec<SymbolDrop>,
    pub edge_upserts: Vec<EdgeUpsert>,
    pub edge_drops: Vec<EdgeDrop>,
    pub site_upserts: Vec<SiteUpsert>,
    pub site_drops: Vec<SiteDrop>,
}

/// What an applied batch answers.
#[derive(Debug)]
pub struct BatchAck {
    pub partition: u32,
    pub offset: u64,
    pub to_rev: String,
}

// ---------------------------------------------------------------------
// The stable-id to node-id cache of one batch.
// ---------------------------------------------------------------------

/// The mapping that a list of entries denotes: later entries win.
pub open spec fn entries_map(e: Seq<(Seq<char>, u128)>) -> Map<Seq<char>, u128>
    decreases e.len(),
{
    if e.len() == 0 {
        Map::empty()
    } else {
        entries_map(e.drop_last()).insert(e.last().0, e.last().1)
    }
}

/// Entries whose key is not `k`.
pub open spec fn key_other(k: Seq<char>) -> spec_fn((Seq<char>, u128)) -> bool {
    |p: (Seq<char>, u128)| p.0 != k
}

/// Dropping the entries of one key removes that key from the mapping.
proof fn lemma_entries_map_filter(e: Seq<(Seq<char>, u128)>, k: Seq<char>)
    ensures
        entries_map(e.filter(key_other(k))) == entries_map(e).remove(k),
    decreases e.len(),
{
    if e.len() == 0 {
        assert(entries_map(e).remove(k) =~= Map::empty());
    } else {
        lemma_entries_map_filter(e.drop_last(), k);
        assert(e =~= e.drop_last().push(e.last()));
        e.drop_last().lemma_filter_push(e.last(), key_other(k));
        if e.last().0 == k {
            assert(entries_map(e).remove(k) =~= entries_map(e.drop_last()).remove(k));
        } else {
            assert(e.filter(key_other(k)).drop_last() =~= e.drop_last().filter(key_other(k)));
            assert(entries_map(e).remove(k) =~= entries_map(e.drop_last()).remove(k).insert(
                e.last().0,
                e.last().1,
            ));
        }
    }
}

/// The last entry with key `k` gives the mapping's value for `k`.
proof fn lemma_entries_map_last(e: Seq<(Seq<char>, u128)>, k: Seq<char>, i: int)
    requires
        0 <= i < e.len(),
        e[i].0 == k,
        forall|j: int| i < j < e.len() ==> (#[trigger] e[j]).0 != k,
    ensures
        entries_map(e).contains_key(k),
        entries_map(e)[k] == e[i].1,
    decreases e.len(),
{
    if i < e.len() - 1 {
        assert forall|j: int| i < j < e.drop_last().len() implies (#[trigger] e.drop_last()[j]).0 != k by {
            assert(e.drop_last()[j] == e[j]);
        }
        lemma_entries_map_last(e.drop_last(), k, i);
    }
}

/// No entry with key `k`, no value for `k`.
proof fn lemma_entries_map_absent(e: Seq<(Seq<char>, u128)>, k: Seq<char>)
    requires
        forall|j: int| 0 <= j < e.len() ==> (#[trigger] e[j]).0 != k,
    ensures
        !entries_map(e).contains_key(k),
    decreases e.len(),
{
    if e.len() > 0 {
        assert forall|j: int| 0 <= j < e.drop_last().len() implies (#[trigger] e.drop_last()[j]).0 != k by {
            assert(e.drop_last()[j] == e[j]);
        }
        lemma_entries_map_absent(e.drop_last(), k);
    }
}

/// The node ids already resolved in a batch, by stable id.
pub struct NodeIdCache {
    entries: Vec<(String, u128)>,
}

pub open spec fn cache_entries_view(v: Seq<(String, u128)>) -> Seq<(Seq<char>, u128)> {
    v.map_values(|p: (String, u128)| (p.0@, p.1))
}

impl View for NodeIdCache {
    type V = Map<Seq<char>, u128>;

    closed spec fn view(&self) -> Map<Seq<char>, u128> {
        entries_map(cache_entries_view(self.entries@))
    }
}

impl NodeIdCache {
    /// An empty cache.
    pub fn new() -> (c: NodeIdCache)
        ensures
            c@ == Map::<Seq<char>, u128>::empty(),
    {
        let c = NodeIdCache { entries: Vec::new() };
        assert(cache_entries_view(c.entries@) =~= Seq::<(Seq<char>, u128)>::empty());
        c
    }

    /// The node id cached for `key`.
    pub fn get(&self, key: &str) -> (r: Option<u128>)
        ensures
            match r {
                Some(id) => self@.contains_key(key@) && self@[key@] == id,
                None => !self@.contains_key(key@),
            },
    {
        let ghost ev = cache_entries_view(self.entries@);
        let mut i: usize = self.entries.len();
        while i > 0
            invariant
                i <= self.entries@.len(),
                ev == cache_entries_view(self.entries@),
                forall|j: int| i <= j < ev.len() ==> (#[trigger] ev[j]).0 != key@,
            decreases i,
        {
            let j = i - 1;
            assert(ev[j as int] == (self.entries@[j as int].0@, self.entries@[j as int].1));
            if text_eq(self.entries[j].0.as_str(), key) {
                proof {
                    lemma_entries_map_last(ev, key@, j as int);
                }
                return Some(self.entries[j].1);
            }
            i = j;
        }
        proof {
            lemma_entries_map_absent(ev, key@);
        }
        None
    }

    /// Forgets `key`.
    pub fn remove(&mut self, key: &str)
        ensures
            final(self)@ == old(self)@.remove(key@),
    {
        let ghost ev = cache_entries_view(self.entries@);
        let ghost p = key_other(key@);
        let mut kept: Vec<(String, u128)> = Vec::new();
        let mut i: usize = 0;
        while i < self.entries.len()
            invariant
                i <= self.entries@.len(),
                ev == cache_entries_view(self.entries@),
                p == key_other(key@),
                cache_entries_view(kept@) == ev.subrange(0, i as int).filter(p),
            decreases self.entries@.len() - i,
        {
            let ghost before = kept@;
            assert(ev[i as int] == (self.entries@[i as int].0@, self.entries@[i as int].1));
            proof {
                ev.subrange(0, i as int).lemma_filter_push(ev[i as int], p);
                assert(ev.subrange(0, i as int + 1) =~= ev.subrange(0, i as int).push(ev[i as int]));
            }
            if !text_eq(self.entries[i].0.as_str(), key) {
                kept.push((self.entries[i].0.clone(), self.entries[i].1));
                assert(cache_entries_view(kept@) =~= cache_entries_view(before).push(ev[i as int]));
            }
            i = i + 1;
        }
        assert(ev.subrange(0, ev.len() as int) =~= ev);
        proof {
            lemma_entries_map_filter(ev, key@);
        }
        self.entries = kept;
    }

    /// Caches `id` for `key`, replacing what was cached for it.
    pub fn insert(&mut self, key: &str, id: u128)
        ensures
            final(self)@ == old(self)@.insert(key@, id),
    {
        self.remove(key);
        let ghost before = self.entries@;
        let ghost mid = self@;
        self.entries.push((key.to_owned(), id));
        let ghost ev = cache_entries_view(self.entries@);
        assert(ev =~= cache_entries_view(before).push((key@, id)));
        assert(ev.drop_last() =~= cache_entries_view(before));
        assert(ev.last() == (key@, id));
        assert(self@ == entries_map(ev));
        assert(entries_map(ev) == entries_map(ev.drop_last()).insert(key@, id));
        assert(self@ =~= old(self)@.remove(key@).insert(key@, id));
        assert(old(self)@.remove(key@).insert(key@, id) =~= old(self)@.insert(key@, id));
    }
}

} // verus!
