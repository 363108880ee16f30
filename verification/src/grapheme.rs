use std::sync::atomic::{AtomicU32, Ordering};
use std::sync::Arc;

use vstd::prelude::*;

use crate::image::share;
use vstd::string::StringExecFns;

use crate::text::{append_decimal, decimal_chars};

verus! {

/// Stable identity for an interned grapheme cluster.
#[derive(Clone, Copy, Debug, PartialEq, Eq, Structural, Hash)]
pub struct GraphemeId(u32);

impl GraphemeId {
    /// The numeric identity.
    pub closed spec fn value(self) -> u32 {
        self.0
    }

    /// Returns the numeric identity assigned by the store.
    pub fn get(self) -> (r: u32)
        ensures
            r == self.value(),
    {
        self.0
    }

    /// An identity with a chosen numeric value, for tests.
    pub fn from_test_value(value: u32) -> (r: Self)
        ensures
            r.value() == value,
    {
        GraphemeId(value)
    }
}

/// Errors produced while interning graphemes.
#[derive(Clone, Copy, Debug, PartialEq, Eq, Structural)]
pub enum GraphemeStoreError {
    /// The value was not exactly one extended grapheme cluster.
    InvalidGrapheme,
    /// The store exhausted its representable identity space.
    CapacityExceeded,
    /// A cell referenced an identity that is not present in the store.
    UnknownId(GraphemeId),
}

impl GraphemeStoreError {
    /// Human-readable description.
    pub open spec fn text_spec(&self) -> Seq<char> {
        match *self {
            GraphemeStoreError::InvalidGrapheme => "value is not one extended grapheme cluster"@,
            GraphemeStoreError::CapacityExceeded => "grapheme store capacity exceeded"@,
            GraphemeStoreError::UnknownId(id) => "unknown grapheme id "@ + decimal_chars(
                id.value() as nat,
            ),
        }
    }

    /// Returns the human-readable description.
    pub fn text(&self) -> (r: String)
        ensures
            r@ == self.text_spec(),
    {
        match *self {
            GraphemeStoreError::InvalidGrapheme => String::from_str(
                "value is not one extended grapheme cluster",
            ),
            GraphemeStoreError::CapacityExceeded => String::from_str(
                "grapheme store capacity exceeded",
            ),
            GraphemeStoreError::UnknownId(id) => {
                let mut s = String::from_str("unknown grapheme id ");
                append_decimal(&mut s, id.get().into());
                s
            },
        }
    }
}

/// Extended grapheme clusters of a text, in order, as `unicode-segmentation`
/// splits it.
pub uninterp spec fn extended_graphemes(text: Seq<char>) -> Seq<Seq<char>>;

/// Calls `unicode_segmentation::UnicodeSegmentation::graphemes` with
/// extended clusters and collects the clusters in order.
#[verifier::external_body]
fn grapheme_clusters(value: &str) -> (r: Vec<String>)
    ensures
        r@.map_values(|s: String| s@) == extended_graphemes(value@),
{
    unicode_segmentation::UnicodeSegmentation::graphemes(value, true).map(String::from).collect()
}

/// The counter value after handing out `next`, or `None` when the identity
/// space is exhausted.
fn next_grapheme_id(next: u32) -> (r: Option<u32>)
    ensures
        next < u32::MAX ==> r == Some((next + 1) as u32),
        next == u32::MAX ==> r is None,
{
    if next < u32::MAX {
        Some(next + 1)
    } else {
        None
    }
}

/// Calls `AtomicU32::fetch_update` with [`next_grapheme_id`] as the update:
/// the shared counter advances by one unless it is at `u32::MAX`, and its
/// previous value comes back. The value depends on every store sharing the
/// counter, so only that a returned value lies below `u32::MAX` is stated.
#[verifier::external_body]
fn allocate_id(counter: &AtomicU32) -> (r: Option<u32>)
    ensures
        r matches Some(v) ==> v < u32::MAX,
{
    counter.fetch_update(Ordering::Relaxed, Ordering::Relaxed, next_grapheme_id).ok()
}

/// Identities with the text each entry holds.
pub open spec fn entry_views(v: Seq<(GraphemeId, String)>) -> Seq<(GraphemeId, Seq<char>)> {
    v.map_values(|e: (GraphemeId, String)| (e.0, e.1@))
}

/// The grapheme texts held by entries.
pub open spec fn texts(entries: Seq<(GraphemeId, Seq<char>)>) -> Set<Seq<char>> {
    entries.map_values(|e: (GraphemeId, Seq<char>)| e.1).to_set()
}

/// Whether `id` resolves to `text`: the first entry with that identity
/// holds that text.
pub open spec fn resolves(entries: Seq<(GraphemeId, Seq<char>)>, id: GraphemeId, text: Seq<char>) -> bool {
    exists|i: int|
        0 <= i < entries.len() && #[trigger] entries[i] == (id, text) && forall|k: int|
            0 <= k < i ==> #[trigger] entries[k].0 != id
}

/// Appending an entry adds its text to the texts.
proof fn lemma_texts_push(entries: Seq<(GraphemeId, Seq<char>)>, e: (GraphemeId, Seq<char>))
    ensures
        texts(entries.push(e)) == texts(entries).insert(e.1),
{
    let f = |x: (GraphemeId, Seq<char>)| x.1;
    assert(entries.push(e).map_values(f) =~= entries.map_values(f).push(e.1));
    assert(texts(entries.push(e)) =~= texts(entries).insert(e.1)) by {
        assert forall|t: Seq<char>| texts(entries.push(e)).contains(t) <==> texts(entries).insert(
            e.1,
        ).contains(t) by {
            let m = entries.map_values(f);
            if texts(entries.push(e)).contains(t) {
                let k = choose|k: int| 0 <= k < m.push(e.1).len() && m.push(e.1)[k] == t;
                if k < m.len() {
                    assert(m[k] == t);
                }
            }
            if texts(entries).contains(t) {
                let k = choose|k: int| 0 <= k < m.len() && m[k] == t;
                assert(m.push(e.1)[k] == t);
            }
            if t == e.1 {
                assert(m.push(e.1)[m.len() as int] == t);
            }
        }
    }
}

/// A well-formed store holds one entry per distinct grapheme text, so its
/// length counts the distinct graphemes interned into it.
pub proof fn lemma_len_counts_distinct_graphemes(store: &GraphemeStore)
    requires
        store.wf(),
    ensures
        store.entries_spec().len() == texts(store.entries_spec()).len(),
{
    let e = store.entries_spec();
    let m = e.map_values(|x: (GraphemeId, Seq<char>)| x.1);
    assert(m.no_duplicates()) by {
        assert forall|i: int, j: int| 0 <= i < m.len() && 0 <= j < m.len() && i != j implies m[i]
            != m[j] by {
            if i < j {
                assert(e[i].1 != e[j].1);
            } else {
                assert(e[j].1 != e[i].1);
            }
        }
    }
    m.unique_seq_to_set();
}

/// An identity resolves to one text, and appending entries, as interning
/// does, never changes what an identity already resolves to.
pub proof fn lemma_resolution_is_stable(
    entries: Seq<(GraphemeId, Seq<char>)>,
    id: GraphemeId,
    text: Seq<char>,
    other: Seq<char>,
    appended: (GraphemeId, Seq<char>),
)
    requires
        resolves(entries, id, text),
    ensures
        resolves(entries, id, other) ==> other == text,
        resolves(entries.push(appended), id, text),
{
    let i = choose|i: int|
        0 <= i < entries.len() && #[trigger] entries[i] == (id, text) && forall|k: int|
            0 <= k < i ==> #[trigger] entries[k].0 != id;
    if resolves(entries, id, other) {
        let j = choose|j: int|
            0 <= j < entries.len() && #[trigger] entries[j] == (id, other) && forall|k: int|
                0 <= k < j ==> #[trigger] entries[k].0 != id;
        if i < j {
            assert(entries[i].0 == id);
        } else if j < i {
            assert(entries[j].0 == id);
        }
    }
    let pushed = entries.push(appended);
    assert(pushed[i] == (id, text));
    assert forall|k: int| 0 <= k < i implies #[trigger] pushed[k].0 != id by {
        assert(pushed[k] == entries[k]);
    }
}

/// A store of deduplicated grapheme strings.
///
/// Clones retain their entries and share identity allocation, so
/// independently added entries cannot alias while cloned stores coexist.
#[derive(Debug)]
pub struct GraphemeStore {
    entries: Vec<(GraphemeId, String)>,
    next_id: Arc<AtomicU32>,
}

impl Clone for GraphemeStore {
    /// Copies the entries and shares identity allocation with the original,
    /// so graphemes interned independently into either store are handed
    /// distinct identities by the shared counter.
    fn clone(&self) -> (r: Self)
        ensures
            r.entries_spec() == self.entries_spec(),
    {
        let mut entries: Vec<(GraphemeId, String)> = Vec::new();
        let mut i: usize = 0;
        while i < self.entries.len()
            invariant
                i <= self.entries@.len(),
                entry_views(entries@) == self.entries_spec().take(i as int),
            decreases self.entries@.len() - i,
        {
            let id = self.entries[i].0;
            let text = self.entries[i].1.clone();
            let ghost before = entries@;
            entries.push((id, text));
            proof {
                let m = entry_views(entries@);
                let t = self.entries_spec().take(i + 1);
                assert(entry_views(before).len() == i);
                assert forall|k: int| 0 <= k < t.len() implies m[k] == t[k] by {
                    if k < i {
                        assert(entries@[k] == before[k]);
                        assert(entry_views(before)[k] == self.entries_spec().take(i as int)[k]);
                    }
                }
                assert(m =~= t);
            }
            i = i + 1;
        }
        let r = GraphemeStore { entries, next_id: share(&self.next_id) };
        assert(self.entries_spec().take(self.entries@.len() as int) =~= self.entries_spec());
        assert(r.entries_spec() =~= self.entries_spec());
        r
    }
}

impl GraphemeStore {
    /// Interned graphemes with their identities, in interning order.
    pub closed spec fn entries_spec(&self) -> Seq<(GraphemeId, Seq<char>)> {
        entry_views(self.entries@)
    }

    /// Each grapheme is interned once, under an identity no other entry
    /// holds.
    pub open spec fn wf(&self) -> bool {
        forall|i: int, j: int|
            0 <= i < j < self.entries_spec().len() ==> self.entries_spec()[i].1
                != self.entries_spec()[j].1 && self.entries_spec()[i].0 != self.entries_spec()[j].0
    }

    /// Whether some entry holds `id`.
    fn holds_id(&self, id: GraphemeId) -> (r: bool)
        ensures
            r == exists|i: int| 0 <= i < self.entries_spec().len() && #[trigger] self.entries_spec()[i].0 == id,
    {
        let mut i: usize = 0;
        while i < self.entries.len()
            invariant
                i <= self.entries@.len(),
                forall|k: int| 0 <= k < i ==> #[trigger] self.entries_spec()[k].0 != id,
            decreases self.entries@.len() - i,
        {
            if self.entries[i].0 == id {
                assert(self.entries_spec()[i as int].0 == id);
                return true;
            }
            i = i + 1;
        }
        false
    }

    /// Creates an empty store.
    pub fn new() -> (r: Self)
        ensures
            r.wf(),
            r.entries_spec().len() == 0,
    {
        let r = GraphemeStore { entries: Vec::new(), next_id: Arc::new(AtomicU32::new(0)) };
        assert(r.entries_spec() =~= Seq::empty());
        r
    }

    /// Returns the number of distinct graphemes in the store.
    pub fn len(&self) -> (r: usize)
        ensures
            r == self.entries_spec().len(),
    {
        self.entries.len()
    }

    /// Returns whether the store contains no graphemes.
    pub fn is_empty(&self) -> (r: bool)
        ensures
            r == (self.entries_spec().len() == 0),
    {
        self.entries.len() == 0
    }

    /// Position of the entry holding `text`.
    fn position_of(&self, text: &String) -> (r: Option<usize>)
        ensures
            r matches Some(i) ==> i < self.entries_spec().len() && self.entries_spec()[i as int].1
                == text@,
            r is None ==> forall|i: int|
                0 <= i < self.entries_spec().len() ==> self.entries_spec()[i].1 != text@,
    {
        let mut i: usize = 0;
        while i < self.entries.len()
            invariant
                i <= self.entries@.len(),
                forall|k: int| 0 <= k < i ==> self.entries_spec()[k].1 != text@,
            decreases self.entries@.len() - i,
        {
            if self.entries[i].1 == *text {
                return Some(i);
            }
            i = i + 1;
        }
        None
    }

    /// Interns exactly one extended grapheme cluster, returning the identity
    /// it already has or a newly allocated one.
    pub fn intern(&mut self, value: &str) -> (r: Result<GraphemeId, GraphemeStoreError>)
        requires
            old(self).wf(),
        ensures
            final(self).wf(),
            r is Ok ==> texts(final(self).entries_spec()) == texts(old(self).entries_spec()).insert(
                value@,
            ),
            r matches Ok(id) ==> final(self).entries_spec().contains((id, value@)),
            extended_graphemes(value@).len() != 1 ==> r == Err::<GraphemeId, GraphemeStoreError>(
                GraphemeStoreError::InvalidGrapheme,
            ),
            r is Err ==> final(self).entries_spec() == old(self).entries_spec(),
            r is Err ==> r == Err::<GraphemeId, GraphemeStoreError>(
                GraphemeStoreError::InvalidGrapheme,
            ) || r == Err::<GraphemeId, GraphemeStoreError>(GraphemeStoreError::CapacityExceeded),
            extended_graphemes(value@).len() == 1 ==> r != Err::<GraphemeId, GraphemeStoreError>(
                GraphemeStoreError::InvalidGrapheme,
            ),
            extended_graphemes(value@).len() == 1 && (exists|i: int|
                0 <= i < old(self).entries_spec().len() && #[trigger] old(self).entries_spec()[i].1
                    == value@) ==> {
                &&& final(self).entries_spec() == old(self).entries_spec()
                &&& r matches Ok(id) && exists|i: int|
                    0 <= i < old(self).entries_spec().len() && #[trigger] old(
                        self,
                    ).entries_spec()[i] == (id, value@)
            },
            extended_graphemes(value@).len() == 1 && (forall|i: int|
                0 <= i < old(self).entries_spec().len() ==> #[trigger] old(self).entries_spec()[i].1
                    != value@) ==> (r matches Ok(id) ==> final(self).entries_spec() == old(
                self,
            ).entries_spec().push((id, value@))),
    {
        let clusters = grapheme_clusters(value);
        if clusters.len() != 1 {
            return Err(GraphemeStoreError::InvalidGrapheme);
        }
        let text = String::from_str(value);
        if let Some(i) = self.position_of(&text) {
            proof {
                let e = self.entries_spec();
                assert(e[i as int] == (self.entries@[i as int].0, self.entries@[i as int].1@));
                assert(e.map_values(|x: (GraphemeId, Seq<char>)| x.1)[i as int] == value@);
                assert(texts(e).contains(value@));
                assert(texts(e) =~= texts(e).insert(value@));
            }
            return Ok(self.entries[i].0);
        }
        // The shared counter never hands out an identity twice; an identity
        // this store already holds is skipped all the same.
        let attempts = self.entries.len();
        let mut tried: usize = 0;
        loop
            invariant
                old(self).wf(),
                self.entries_spec() == old(self).entries_spec(),
                self.next_id == old(self).next_id,
                tried <= attempts,
                attempts == self.entries@.len(),
                text@ == value@,
                extended_graphemes(value@).len() == 1,
                forall|i: int| 0 <= i < self.entries_spec().len() ==> #[trigger] self.entries_spec()[i].1 != value@,
            decreases attempts - tried,
        {
            match allocate_id(&self.next_id) {
                None => {
                    return Err(GraphemeStoreError::CapacityExceeded);
                },
                Some(v) => {
                    let id = GraphemeId(v);
                    if !self.holds_id(id) {
                        let ghost before = self.entries_spec();
                        self.entries.push((id, text));
                        proof {
                            assert(self.entries_spec() =~= before.push((id, value@)));
                            lemma_texts_push(before, (id, value@));
                            assert(self.entries_spec()[before.len() as int] == (id, value@));
                            assert forall|i: int, j: int|
                                0 <= i < j < self.entries_spec().len() implies self.entries_spec()[i].1
                                    != self.entries_spec()[j].1 && self.entries_spec()[i].0
                                    != self.entries_spec()[j].0 by {
                                if j == before.len() {
                                    assert(self.entries_spec()[i] == before[i]);
                                } else {
                                    assert(self.entries_spec()[i] == before[i]);
                                    assert(self.entries_spec()[j] == before[j]);
                                }
                            }
                        }
                        return Ok(id);
                    }
                    if tried == attempts {
                        return Err(GraphemeStoreError::CapacityExceeded);
                    }
                    tried = tried + 1;
                },
            }
        }
    }

    /// Resolves an identity to its grapheme text.
    pub fn get(&self, id: GraphemeId) -> (r: Result<&String, GraphemeStoreError>)
        ensures
            r matches Ok(s) ==> resolves(self.entries_spec(), id, s@),
            r is Err <==> forall|i: int|
                0 <= i < self.entries_spec().len() ==> #[trigger] self.entries_spec()[i].0 != id,
            r is Err ==> r == Err::<&String, GraphemeStoreError>(GraphemeStoreError::UnknownId(id)),
    {
        let mut i: usize = 0;
        while i < self.entries.len()
            invariant
                i <= self.entries@.len(),
                forall|k: int| 0 <= k < i ==> #[trigger] self.entries_spec()[k].0 != id,
            decreases self.entries@.len() - i,
        {
            if self.entries[i].0 == id {
                assert(self.entries_spec()[i as int] == (id, self.entries@[i as int].1@));
                assert(self.entries_spec()[i as int].0 == id);
                assert(resolves(self.entries_spec(), id, self.entries@[i as int].1@));
                return Ok(&self.entries[i].1);
            }
            i = i + 1;
        }
        Err(GraphemeStoreError::UnknownId(id))
    }

    /// Keeps only the graphemes whose identity is among `ids`.
    pub fn retain(&mut self, ids: &[GraphemeId])
        requires
            old(self).wf(),
        ensures
            final(self).wf(),
            forall|e: (GraphemeId, Seq<char>)|
                #[trigger] final(self).entries_spec().contains(e) <==> (old(
                    self,
                ).entries_spec().contains(e) && ids@.contains(e.0)),
    {
        let ghost old_entries = self.entries_spec();
        let mut kept: Vec<(GraphemeId, String)> = Vec::new();
        let mut i: usize = 0;
        while i < self.entries.len()
            invariant
                i <= self.entries@.len(),
                old_entries == self.entries_spec(),
                forall|a: int, b: int|
                    0 <= a < b < old_entries.len() ==> old_entries[a].1 != old_entries[b].1,
                forall|k: int|
                    #![trigger kept@[k]]
                    0 <= k < kept@.len() ==> exists|j: int|
                        0 <= j < i && #[trigger] old_entries[j] == (kept@[k].0, kept@[k].1@),
                forall|a: int, b: int| 0 <= a < b < kept@.len() ==> kept@[a].1@ != kept@[b].1@,
                forall|e: (GraphemeId, Seq<char>)|
                    (exists|k: int| 0 <= k < kept@.len() && (kept@[k].0, kept@[k].1@) == e) <==> (
                    exists|j: int| 0 <= j < i && #[trigger] old_entries[j] == e) && ids@.contains(
                        e.0,
                    ),
            decreases self.entries@.len() - i,
        {
            let id = self.entries[i].0;
            let mut found = false;
            let mut k: usize = 0;
            while k < ids.len()
                invariant
                    k <= ids@.len(),
                    found <==> exists|q: int| 0 <= q < k && ids@[q] == id,
                decreases ids@.len() - k,
            {
                if ids[k] == id {
                    found = true;
                }
                k = k + 1;
            }
            let ghost before = kept@;
            let ghost current = old_entries[i as int];
            assert(current == (self.entries@[i as int].0, self.entries@[i as int].1@));
            if found {
                proof {
                    assert forall|a: int| 0 <= a < before.len() implies before[a].1@ != current.1 by {
                        let j = choose|j: int|
                            0 <= j < i && #[trigger] old_entries[j] == (before[a].0, before[a].1@);
                        assert(old_entries[j].1 != old_entries[i as int].1);
                    }
                }
                kept.push((id, self.entries[i].1.clone()));
            }
            proof {
                assert forall|e: (GraphemeId, Seq<char>)|
                    (exists|k: int| 0 <= k < kept@.len() && (kept@[k].0, kept@[k].1@) == e) <==> (
                    exists|j: int| 0 <= j < i + 1 && #[trigger] old_entries[j] == e)
                        && ids@.contains(e.0) by {
                    if exists|k: int| 0 <= k < kept@.len() && (kept@[k].0, kept@[k].1@) == e {
                        let k = choose|k: int| 0 <= k < kept@.len() && (kept@[k].0, kept@[k].1@) == e;
                        if k < before.len() {
                            assert(kept@[k] == before[k]);
                        } else {
                            assert(e == current);
                            assert(ids@.contains(id));
                        }
                    }
                    if (exists|j: int| 0 <= j < i + 1 && #[trigger] old_entries[j] == e)
                        && ids@.contains(e.0) {
                        let j = choose|j: int| 0 <= j < i + 1 && #[trigger] old_entries[j] == e;
                        if j == i {
                            let q = choose|q: int| 0 <= q < ids@.len() && ids@[q] == e.0;
                            assert(found);
                            assert((kept@[kept@.len() - 1].0, kept@[kept@.len() - 1].1@) == e);
                        } else {
                            let k = choose|k: int|
                                0 <= k < before.len() && (before[k].0, before[k].1@) == e;
                            assert(kept@[k] == before[k]);
                        }
                    }
                }
                assert forall|k: int| #![trigger kept@[k]] 0 <= k < kept@.len() implies exists|j: int|
                    0 <= j < i + 1 && #[trigger] old_entries[j] == (kept@[k].0, kept@[k].1@) by {
                    if k < before.len() {
                        assert(kept@[k] == before[k]);
                    }
                }
            }
            i = i + 1;
        }
        self.entries = kept;
        proof {
            assert forall|e: (GraphemeId, Seq<char>)|
                #[trigger] self.entries_spec().contains(e) <==> (old_entries.contains(e)
                    && ids@.contains(e.0)) by {
                if self.entries_spec().contains(e) {
                    let k = choose|k: int| 0 <= k < self.entries_spec().len() && self.entries_spec()[k] == e;
                    assert(self.entries_spec()[k] == (self.entries@[k].0, self.entries@[k].1@));
                }
                if exists|k: int| 0 <= k < self.entries@.len() && (self.entries@[k].0, self.entries@[k].1@) == e {
                    let k = choose|k: int| 0 <= k < self.entries@.len() && (self.entries@[k].0, self.entries@[k].1@) == e;
                    assert(self.entries_spec()[k] == e);
                }
            }
        }
    }
}

impl Default for GraphemeStore {
    fn default() -> (r: Self)
        ensures
            r.wf(),
            r.entries_spec().len() == 0,
    {
        Self::new()
    }
}

/// A well-formed store gives each grapheme one identity, so interning the
/// same grapheme again returns the identity it already has.
pub proof fn lemma_grapheme_identity_is_unique(
    store: &GraphemeStore,
    first: GraphemeId,
    second: GraphemeId,
    text: Seq<char>,
)
    requires
        store.wf(),
        store.entries_spec().contains((first, text)),
        store.entries_spec().contains((second, text)),
    ensures
        first == second,
{
    let entries = store.entries_spec();
    let i = choose|i: int| 0 <= i < entries.len() && entries[i] == (first, text);
    let j = choose|j: int| 0 <= j < entries.len() && entries[j] == (second, text);
    if i < j {
        assert(entries[i].1 != entries[j].1);
    } else if j < i {
        assert(entries[j].1 != entries[i].1);
    }
}

/// Entries whose texts are pairwise distinct.
pub open spec fn distinct_texts(e: Seq<(GraphemeId, Seq<char>)>) -> bool {
    forall|i: int, j: int| 0 <= i < j < e.len() ==> e[i].1 != e[j].1
}

/// Entries with pairwise distinct texts are as many as their texts.
proof fn lemma_distinct_texts_len(e: Seq<(GraphemeId, Seq<char>)>)
    requires
        distinct_texts(e),
    ensures
        e.len() == texts(e).len(),
{
    let m = e.map_values(|x: (GraphemeId, Seq<char>)| x.1);
    assert(m.no_duplicates()) by {
        assert forall|i: int, j: int| 0 <= i < m.len() && 0 <= j < m.len() && i != j implies m[i]
            != m[j] by {
            if i < j {
                assert(e[i].1 != e[j].1);
            } else {
                assert(e[j].1 != e[i].1);
            }
        }
    }
    m.unique_seq_to_set();
}

/// Interning `values` one after another into an empty store, each call
/// succeeding, leaves exactly the distinct values in the store: the texts
/// are the set of values and the length is its size. Here `states[i]` is
/// the store's entries before the `i`-th call, and each step is what
/// `intern` ensures of a well-formed store.
pub proof fn lemma_interning_counts_distinct_values(
    states: Seq<Seq<(GraphemeId, Seq<char>)>>,
    values: Seq<Seq<char>>,
)
    requires
        states.len() == values.len() + 1,
        states[0].len() == 0,
        forall|i: int| 0 <= i < states.len() ==> distinct_texts(#[trigger] states[i]),
        forall|i: int|
            0 <= i < values.len() ==> texts(#[trigger] states[i + 1]) == texts(states[i]).insert(
                values[i],
            ),
    ensures
        texts(states.last()) == values.to_set(),
        states.last().len() == values.to_set().len(),
        (states.last().len() == 0) == (values.len() == 0),
    decreases values.len(),
{
    if values.len() == 0 {
        assert(texts(states[0]) =~= Set::empty());
        assert(values.to_set() =~= Set::empty());
    } else {
        let n = values.len() - 1;
        let prefix_states = states.take(states.len() - 1);
        let prefix_values = values.take(n);
        assert forall|i: int| 0 <= i < prefix_states.len() implies distinct_texts(
            #[trigger] prefix_states[i],
        ) by {
            assert(prefix_states[i] == states[i]);
        }
        assert forall|i: int| 0 <= i < prefix_values.len() implies texts(
            #[trigger] prefix_states[i + 1],
        ) == texts(prefix_states[i]).insert(prefix_values[i]) by {
            assert(prefix_states[i + 1] == states[i + 1]);
            assert(prefix_states[i] == states[i]);
            assert(prefix_values[i] == values[i]);
        }
        lemma_interning_counts_distinct_values(prefix_states, prefix_values);
        assert(prefix_states.last() == states[n]);
        assert(texts(states[n + 1]) == texts(states[n]).insert(values[n]));
        assert(values.to_set() =~= prefix_values.to_set().insert(values[n])) by {
            assert(values =~= prefix_values.push(values[n]));
            prefix_values.lemma_push_to_set_commute(values[n]);
        }
        assert(states.last() == states[n + 1]);
        lemma_distinct_texts_len(states[n + 1]);
        if states.last().len() == 0 {
            assert(texts(states.last()).contains(values[n]));
            let m = states.last().map_values(|x: (GraphemeId, Seq<char>)| x.1);
            assert(m.len() == 0);
        }
    }
}

} // verus!
