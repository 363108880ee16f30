use std::sync::Arc;

use vstd::prelude::*;

use crate::image::{contains_image, share, ImageId, ImagePlacement, RgbaImage};
use crate::scene::ImageScene;
use crate::kitty::{
    encodes_image, encoding_fails, has_key, transfer_size, transfer_size_spec, CacheEntry, EncodeFailure,
    EncodedImage, EncodingCache, EncodingKey, TransferSize, MAX_ENCODED_CACHE_BYTES,
    MAX_IMAGE_DIMENSION, MAX_PREPARED_IMAGE_BYTES,
};
use crate::terminal::TerminalViewport;
use vstd::set_lib::{lemma_len_subset, lemma_len_union};

verus! {

broadcast use vstd::seq_lib::seq_to_set_is_finite;

// ---------------------------------------------------------------------------
// Image-to-wire-id bookkeeping.
// ---------------------------------------------------------------------------

/// Whether every element is smaller than the next one.
pub open spec fn strictly_sorted(s: Seq<u32>) -> bool {
    forall|i: int, j: int| 0 <= i < j < s.len() ==> s[i] < s[j]
}

/// Whether `mappings` holds a wire id for `image`.
pub open spec fn has_image(mappings: Seq<(ImageId, u32)>, image: ImageId) -> bool {
    exists|i: int| 0 <= i < mappings.len() && #[trigger] mappings[i].0 == image
}

/// Whether `mappings` assigns wire id `id` to `image`.
pub open spec fn maps_to(mappings: Seq<(ImageId, u32)>, image: ImageId, id: u32) -> bool {
    exists|i: int| 0 <= i < mappings.len() && #[trigger] mappings[i] == (image, id)
}

/// Wire ids that `mappings` hands out.
pub open spec fn mapped_ids(mappings: Seq<(ImageId, u32)>) -> Set<u32> {
    mappings.map_values(|p: (ImageId, u32)| p.1).to_set()
}

/// Steps from `start` to `id` when candidates advance through `1..=u32::MAX`
/// and wrap from `u32::MAX` back to 1.
pub open spec fn wire_distance(start: u32, id: u32) -> int {
    if id >= start {
        id - start
    } else {
        id - start + u32::MAX
    }
}

/// The candidate after `id`: the next integer, wrapping past `u32::MAX` to 1.
pub open spec fn next_wire(id: u32) -> u32 {
    if id == u32::MAX {
        1
    } else {
        (id + 1) as u32
    }
}

/// Kitty image ownership and transfer state of one terminal session.
///
/// Wire ids that may exist in the terminal are kept in ascending order so a
/// cleanup can delete a superset of what a partial write left behind.
#[derive(Debug)]
pub struct KittyState {
    single_command: bool,
    mappings: Vec<(ImageId, u32)>,
    possibly_owned: Vec<u32>,
    next_id: u32,
    stream_uncertain: bool,
    cache: EncodingCache,
}

impl KittyState {
    /// Whether uploads are sent as one command (xterm.js workaround).
    pub closed spec fn single_command_spec(&self) -> bool {
        self.single_command
    }

    /// Wire id of each image that currently has one.
    pub closed spec fn mappings_spec(&self) -> Seq<(ImageId, u32)> {
        self.mappings@
    }

    /// Wire ids that may exist in the terminal, ascending.
    pub closed spec fn owned_spec(&self) -> Seq<u32> {
        self.possibly_owned@
    }

    /// First candidate for the next new wire id.
    pub closed spec fn next_id_spec(&self) -> u32 {
        self.next_id
    }

    /// Whether the output stream may hold an unterminated command.
    pub closed spec fn uncertain_spec(&self) -> bool {
        self.stream_uncertain
    }

    /// Cache of encoded payloads.
    pub closed spec fn cache_spec(&self) -> EncodingCache {
        self.cache
    }

    /// Wire ids in use: possibly owned by the terminal or mapped to an image.
    pub open spec fn taken(&self) -> Set<u32> {
        self.owned_spec().to_set().union(mapped_ids(self.mappings_spec()))
    }

    /// Each image has at most one wire id, no wire id serves two images,
    /// wire ids are nonzero, possibly owned ids are ascending without
    /// repeats, and the cache is well formed.
    pub open spec fn wf(&self) -> bool {
        let m = self.mappings_spec();
        &&& forall|i: int, j: int| 0 <= i < j < m.len() ==> m[i].0 != m[j].0 && m[i].1 != m[j].1
        &&& forall|i: int| 0 <= i < m.len() ==> #[trigger] m[i].1 != 0
        &&& strictly_sorted(self.owned_spec())
        &&& self.next_id_spec() >= 1
        &&& self.cache_spec().wf()
    }

    /// Creates an empty state; `single_command` selects one-command uploads.
    pub fn new(single_command: bool) -> (r: Self)
        ensures
            r.wf(),
            r.single_command_spec() == single_command,
            r.mappings_spec().len() == 0,
            r.owned_spec().len() == 0,
            r.next_id_spec() == 1,
            !r.uncertain_spec(),
            r.cache_spec().entries_spec().len() == 0,
            r.cache_spec().limit_spec() == MAX_ENCODED_CACHE_BYTES,
    {
        KittyState {
            single_command,
            mappings: Vec::new(),
            possibly_owned: Vec::new(),
            next_id: 1,
            stream_uncertain: false,
            cache: EncodingCache::new(MAX_ENCODED_CACHE_BYTES),
        }
    }

    /// Wire ids a cleanup must delete, ascending.
    pub fn cleanup_ids(&self) -> (r: Vec<u32>)
        ensures
            r@ == self.owned_spec(),
    {
        self.possibly_owned.clone()
    }

    /// Whether the output stream may hold an unterminated command.
    pub fn stream_uncertain(&self) -> (r: bool)
        ensures
            r == self.uncertain_spec(),
    {
        self.stream_uncertain
    }

    /// Records that output was interrupted and may need recovery.
    pub fn mark_stream_uncertain(&mut self)
        ensures
            final(self).uncertain_spec(),
            final(self).single_command_spec() == old(self).single_command_spec(),
            final(self).mappings_spec() == old(self).mappings_spec(),
            final(self).owned_spec() == old(self).owned_spec(),
            final(self).next_id_spec() == old(self).next_id_spec(),
            final(self).cache_spec() == old(self).cache_spec(),
    {
        self.stream_uncertain = true;
    }

    /// Records that a cleanup reached the terminal: nothing is owned or
    /// mapped any more and the stream is clean.
    pub fn confirm_cleanup(&mut self)
        requires
            old(self).wf(),
        ensures
            final(self).wf(),
            !final(self).uncertain_spec(),
            final(self).mappings_spec().len() == 0,
            final(self).owned_spec().len() == 0,
            final(self).single_command_spec() == old(self).single_command_spec(),
            final(self).next_id_spec() == old(self).next_id_spec(),
            final(self).cache_spec() == old(self).cache_spec(),
    {
        self.mappings.clear();
        self.possibly_owned.clear();
        self.stream_uncertain = false;
    }

    /// Position of `image` in the mappings.
    fn mapping_index(&self, image: ImageId) -> (r: Option<usize>)
        ensures
            r matches Some(i) ==> i < self.mappings_spec().len() && self.mappings_spec()[i as int].0
                == image,
            r is None ==> !has_image(self.mappings_spec(), image),
    {
        let mut i: usize = 0;
        while i < self.mappings.len()
            invariant
                i <= self.mappings@.len(),
                forall|j: int| 0 <= j < i ==> self.mappings@[j].0 != image,
            decreases self.mappings@.len() - i,
        {
            if self.mappings[i].0 == image {
                return Some(i);
            }
            i = i + 1;
        }
        None
    }

    /// Whether `id` is in use.
    fn is_taken(&self, id: u32) -> (r: bool)
        ensures
            r == self.taken().contains(id),
    {
        let mut i: usize = 0;
        while i < self.possibly_owned.len()
            invariant
                i <= self.possibly_owned@.len(),
                forall|j: int| 0 <= j < i ==> self.possibly_owned@[j] != id,
            decreases self.possibly_owned@.len() - i,
        {
            if self.possibly_owned[i] == id {
                assert(self.owned_spec().to_set().contains(id));
                return true;
            }
            i = i + 1;
        }
        let mut k: usize = 0;
        while k < self.mappings.len()
            invariant
                k <= self.mappings@.len(),
                forall|j: int| 0 <= j < k ==> self.mappings@[j].1 != id,
            decreases self.mappings@.len() - k,
        {
            if self.mappings[k].1 == id {
                assert(self.mappings_spec().map_values(|p: (ImageId, u32)| p.1)[k as int] == id);
                return true;
            }
            k = k + 1;
        }
        assert(!self.owned_spec().contains(id));
        assert(!self.mappings_spec().map_values(|p: (ImageId, u32)| p.1).contains(id));
        false
    }

    /// Returns the wire id of `image`, assigning the first free nonzero id
    /// from the rotating candidate when the image has none.
    pub fn wire_id(&mut self, image: ImageId) -> (r: u32)
        requires
            old(self).wf(),
            old(self).taken().len() < u32::MAX,
        ensures
            final(self).wf(),
            final(self).single_command_spec() == old(self).single_command_spec(),
            final(self).owned_spec() == old(self).owned_spec(),
            final(self).uncertain_spec() == old(self).uncertain_spec(),
            final(self).cache_spec() == old(self).cache_spec(),
            has_image(old(self).mappings_spec(), image) ==> {
                &&& maps_to(old(self).mappings_spec(), image, r)
                &&& final(self).mappings_spec() == old(self).mappings_spec()
                &&& final(self).next_id_spec() == old(self).next_id_spec()
            },
            !has_image(old(self).mappings_spec(), image) ==> {
                &&& r != 0
                &&& !old(self).taken().contains(r)
                &&& forall|c: u32|
                    1 <= c && wire_distance(old(self).next_id_spec(), c) < wire_distance(
                        old(self).next_id_spec(),
                        r,
                    ) ==> old(self).taken().contains(c)
                &&& final(self).mappings_spec() == old(self).mappings_spec().push((image, r))
                &&& final(self).next_id_spec() == next_wire(r)
            },
    {
        if let Some(i) = self.mapping_index(image) {
            let id = self.mappings[i].1;
            assert(self.mappings_spec()[i as int] == (image, id));
            return id;
        }
        let ghost start = self.next_id;
        let ghost taken = self.taken();
        let ghost mut tried: Set<u32> = Set::empty();
        proof {
            lemma_taken_finite(self.owned_spec(), self.mappings_spec());
        }
        let mut id: u32 = 0;
        loop
            invariant_except_break
                self.wf(),
                self.taken() == taken,
                self.mappings_spec() == old(self).mappings_spec(),
                self.owned_spec() == old(self).owned_spec(),
                self.cache_spec() == old(self).cache_spec(),
                self.single_command_spec() == old(self).single_command_spec(),
                self.uncertain_spec() == old(self).uncertain_spec(),
                !has_image(self.mappings_spec(), image),
                1 <= start,
                start == old(self).next_id_spec(),
                taken.finite(),
                taken.len() < u32::MAX,
                tried.finite(),
                tried.len() == wire_distance(start, self.next_id),
                tried.subset_of(taken),
                forall|c: u32|
                    #[trigger] tried.contains(c) ==> 1 <= c && wire_distance(start, c)
                        < wire_distance(start, self.next_id),
                forall|c: u32|
                    1 <= c && wire_distance(start, c) < wire_distance(start, self.next_id)
                        ==> #[trigger] tried.contains(c),
            ensures
                self.wf(),
                self.mappings_spec() == old(self).mappings_spec(),
                self.owned_spec() == old(self).owned_spec(),
                self.cache_spec() == old(self).cache_spec(),
                self.single_command_spec() == old(self).single_command_spec(),
                self.uncertain_spec() == old(self).uncertain_spec(),
                !has_image(self.mappings_spec(), image),
                id != 0,
                !taken.contains(id),
                forall|c: u32|
                    1 <= c && wire_distance(start, c) < wire_distance(start, id) ==> taken.contains(
                        c,
                    ),
                self.next_id_spec() == next_wire(id),
            decreases u32::MAX - wire_distance(start, self.next_id),
        {
            let candidate = self.next_id;
            self.next_id = if self.next_id == u32::MAX {
                1
            } else {
                self.next_id + 1
            };
            if candidate != 0 && !self.is_taken(candidate) {
                id = candidate;
                break ;
            }
            proof {
                lemma_len_subset(tried.insert(candidate), taken);
                tried = tried.insert(candidate);
                assert forall|c: u32|
                    1 <= c && wire_distance(start, c) < wire_distance(
                        start,
                        self.next_id,
                    ) implies #[trigger] tried.contains(c) by {
                    if wire_distance(start, c) == wire_distance(start, candidate) {
                        assert(c == candidate);
                    }
                }
            }
        }
        self.mappings.push((image, id));
        proof {
            let m = self.mappings_spec();
            let om = old(self).mappings_spec();
            assert forall|i: int, j: int| 0 <= i < j < m.len() implies m[i].0 != m[j].0 && m[i].1
                != m[j].1 by {
                if j == m.len() - 1 {
                    assert(om.map_values(|p: (ImageId, u32)| p.1)[i] == m[i].1);
                    assert(mapped_ids(om).contains(m[i].1));
                }
            }
        }
        id
    }
}

// ---------------------------------------------------------------------------
// Planning the transfer size of each image.
// ---------------------------------------------------------------------------

/// Whether an image is too large to be sent with Kitty graphics.
pub open spec fn oversized(image: RgbaImage) -> bool {
    image.width_spec() > MAX_IMAGE_DIMENSION || image.height_spec() > MAX_IMAGE_DIMENSION
}

/// Transfer size of each image over the first `n` placements: among that
/// image's placements whose image is not oversized, the first one of
/// greatest transfer width decides.
pub open spec fn planned_sizes(
    scene: Seq<ImagePlacement>,
    viewport: Option<TerminalViewport>,
    n: nat,
) -> Map<ImageId, TransferSize>
    decreases n,
{
    if n == 0 {
        Map::empty()
    } else {
        let prior = planned_sizes(scene, viewport, (n - 1) as nat);
        let p = scene[n - 1];
        let image = p.image_spec();
        let id = image.id_spec();
        if oversized(image) {
            prior
        } else {
            let c = transfer_size_spec(
                image.width_spec(),
                image.height_spec(),
                p.destination_spec(),
                viewport,
            );
            if prior.contains_key(id) && c.width <= prior[id].width {
                prior
            } else {
                prior.insert(id, c)
            }
        }
    }
}

/// Whether `pairs` lists the entries of `sizes`, one per image.
pub open spec fn lists_sizes(
    pairs: Seq<(ImageId, TransferSize)>,
    sizes: Map<ImageId, TransferSize>,
) -> bool {
    &&& forall|i: int, j: int| 0 <= i < j < pairs.len() ==> pairs[i].0 != pairs[j].0
    &&& forall|i: int|
        0 <= i < pairs.len() ==> sizes.contains_key(#[trigger] pairs[i].0) && sizes[pairs[i].0]
            == pairs[i].1
    &&& forall|id: ImageId|
        #[trigger] sizes.contains_key(id) ==> exists|i: int| 0 <= i < pairs.len() && pairs[i].0 == id
}

/// Position of `id` among the listed pairs.
fn size_index(pairs: &Vec<(ImageId, TransferSize)>, id: ImageId) -> (r: Option<usize>)
    ensures
        r matches Some(i) ==> i < pairs@.len() && pairs@[i as int].0 == id,
        r is None ==> forall|i: int| 0 <= i < pairs@.len() ==> pairs@[i].0 != id,
{
    let mut i: usize = 0;
    while i < pairs.len()
        invariant
            i <= pairs@.len(),
            forall|j: int| 0 <= j < i ==> pairs@[j].0 != id,
        decreases pairs@.len() - i,
    {
        if pairs[i].0 == id {
            return Some(i);
        }
        i = i + 1;
    }
    None
}

/// Plans the transfer size of every image that the scene shows.
pub fn plan_transfer_sizes(scene: &[ImagePlacement], viewport: Option<TerminalViewport>) -> (r: Vec<
    (ImageId, TransferSize),
>)
    ensures
        lists_sizes(r@, planned_sizes(scene@, viewport, scene@.len())),
{
    let mut pairs: Vec<(ImageId, TransferSize)> = Vec::new();
    let mut i: usize = 0;
    while i < scene.len()
        invariant
            i <= scene@.len(),
            lists_sizes(pairs@, planned_sizes(scene@, viewport, i as nat)),
        decreases scene@.len() - i,
    {
        let placement = &scene[i];
        let image = placement.image();
        let id = image.id();
        let ghost prior = planned_sizes(scene@, viewport, i as nat);
        let ghost next = planned_sizes(scene@, viewport, (i + 1) as nat);
        if image.width() > MAX_IMAGE_DIMENSION || image.height() > MAX_IMAGE_DIMENSION {
            assert(next == prior);
        } else {
            let candidate = transfer_size(placement, viewport);
            match size_index(&pairs, id) {
                Some(j) => {
                    assert(prior.contains_key(id));
                    if candidate.width > pairs[j].1.width {
                        let ghost before = pairs@;
                        pairs.set(j, (id, candidate));
                        assert(next == prior.insert(id, candidate));
                        assert forall|x: ImageId| #[trigger] next.contains_key(x) implies exists|
                            k: int,
                        | 0 <= k < pairs@.len() && pairs@[k].0 == x by {
                            if x == id {
                                assert(pairs@[j as int].0 == x);
                            } else {
                                assert(prior.contains_key(x));
                                let k = choose|k: int| 0 <= k < before.len() && before[k].0 == x;
                                assert(pairs@[k].0 == x);
                            }
                        }
                    } else {
                        assert(next == prior);
                    }
                },
                None => {
                    assert(!prior.contains_key(id));
                    let ghost before = pairs@;
                    pairs.push((id, candidate));
                    assert(next == prior.insert(id, candidate));
                    assert forall|x: ImageId| #[trigger] next.contains_key(x) implies exists|
                        k: int,
                    | 0 <= k < pairs@.len() && pairs@[k].0 == x by {
                        if x == id {
                            assert(pairs@[before.len() as int].0 == x);
                        } else {
                            assert(prior.contains_key(x));
                            let k = choose|k: int| 0 <= k < before.len() && before[k].0 == x;
                            assert(pairs@[k].0 == x);
                        }
                    }
                },
            }
        }
        i = i + 1;
    }
    pairs
}

// ---------------------------------------------------------------------------
// Encoding within the prepared byte budget.
// ---------------------------------------------------------------------------

/// Whether placement `i` is the first one of its image in the scene.
pub open spec fn first_of_image(scene: Seq<ImagePlacement>, i: int) -> bool {
    forall|j: int|
        0 <= j < i ==> #[trigger] scene[j].image_spec().id_spec() != scene[i].image_spec().id_spec()
}

/// Scene indices, among the first `n`, at which an encoding is attempted:
/// the first placement of each image that has a planned transfer size.
pub open spec fn attempt_indices(
    scene: Seq<ImagePlacement>,
    sizes: Map<ImageId, TransferSize>,
    n: nat,
) -> Seq<int>
    decreases n,
{
    if n == 0 {
        Seq::empty()
    } else {
        let prior = attempt_indices(scene, sizes, (n - 1) as nat);
        let i = n - 1;
        if sizes.contains_key(scene[i].image_spec().id_spec()) && first_of_image(scene, i) {
            prior.push(i)
        } else {
            prior
        }
    }
}

/// Whether encoding some attempted image at its planned size can fail.
pub open spec fn some_attempt_fails<F: Fn(&RgbaImage, TransferSize) -> Vec<u8>>(
    scene: Seq<ImagePlacement>,
    sizes: Map<ImageId, TransferSize>,
    resize: F,
) -> bool {
    let a = attempt_indices(scene, sizes, scene.len());
    exists|j: int|
        0 <= j < a.len() && #[trigger] encoding_fails(
            scene[a[j]].image_spec(),
            sizes[scene[a[j]].image_spec().id_spec()],
            resize,
        )
}

/// Image ids of the attempts, in attempt order.
pub open spec fn attempt_ids(scene: Seq<ImagePlacement>, attempts: Seq<int>) -> Seq<ImageId> {
    attempts.map_values(|k: int| scene[k].image_spec().id_spec())
}

/// Payload bytes of the encodings chosen among the first `j` attempts.
pub open spec fn chosen_bytes(chosen: Seq<Option<Arc<EncodedImage>>>, j: int) -> int
    decreases j,
{
    if j <= 0 || j > chosen.len() {
        0
    } else {
        chosen_bytes(chosen, j - 1) + match chosen[j - 1] {
            Some(e) => e.payload@.len() as int,
            None => 0,
        }
    }
}

/// Whether `e` may be the candidate encoding of `image` at `size`: an entry
/// that the cache held for it, or a fresh encoding of its pixels.
pub open spec fn valid_candidate<F: Fn(&RgbaImage, TransferSize) -> Vec<u8>>(
    entries: Seq<CacheEntry>,
    image: RgbaImage,
    size: TransferSize,
    resize: F,
    e: Arc<EncodedImage>,
) -> bool {
    ||| exists|i: int|
        0 <= i < entries.len() && #[trigger] entries[i].key == (EncodingKey {
            image: image.id_spec(),
            size,
        }) && entries[i].encoded == e
    ||| encodes_image(*e, image, size, resize)
}

/// One greedy budget decision: a chosen encoding is a valid candidate that
/// fits in what the earlier choices left; an image is skipped only when its
/// candidate does not fit.
pub open spec fn budget_step<F: Fn(&RgbaImage, TransferSize) -> Vec<u8>>(
    image: RgbaImage,
    size: TransferSize,
    choice: Option<Arc<EncodedImage>>,
    before: int,
    limit: int,
    entries: Seq<CacheEntry>,
    resize: F,
) -> bool {
    match choice {
        Some(e) => valid_candidate(entries, image, size, resize, e) && before + e.payload@.len()
            <= limit,
        None => exists|e: Arc<EncodedImage>|
            #[trigger] valid_candidate(entries, image, size, resize, e) && before
                + e.payload@.len() > limit,
    }
}

/// Whether `chosen` holds, for each attempt in order, the greedy choice of
/// an encoding within `limit` payload bytes.
pub open spec fn within_budget<F: Fn(&RgbaImage, TransferSize) -> Vec<u8>>(
    scene: Seq<ImagePlacement>,
    sizes: Map<ImageId, TransferSize>,
    attempts: Seq<int>,
    chosen: Seq<Option<Arc<EncodedImage>>>,
    limit: int,
    entries: Seq<CacheEntry>,
    resize: F,
) -> bool {
    &&& chosen.len() == attempts.len()
    &&& forall|j: int|
        0 <= j < attempts.len() ==> budget_step(
            scene[attempts[j]].image_spec(),
            sizes[scene[attempts[j]].image_spec().id_spec()],
            #[trigger] chosen[j],
            chosen_bytes(chosen, j),
            limit,
            entries,
            resize,
        )
}

/// Attempt indices are increasing, below `n`, and exactly the first
/// placements of images with a planned size.
proof fn lemma_attempt_indices(scene: Seq<ImagePlacement>, sizes: Map<ImageId, TransferSize>, n: nat)
    requires
        n <= scene.len(),
    ensures
        ({
            let a = attempt_indices(scene, sizes, n);
            &&& forall|t: int, u: int| 0 <= t < u < a.len() ==> a[t] < a[u]
            &&& forall|t: int|
                0 <= t < a.len() ==> 0 <= #[trigger] a[t] < n && sizes.contains_key(
                    scene[a[t]].image_spec().id_spec(),
                ) && first_of_image(scene, a[t])
            &&& forall|k: int|
                0 <= k < n && sizes.contains_key(scene[k].image_spec().id_spec()) && first_of_image(
                    scene,
                    k,
                ) ==> exists|t: int| 0 <= t < a.len() && #[trigger] a[t] == k
        }),
    decreases n,
{
    if n > 0 {
        lemma_attempt_indices(scene, sizes, (n - 1) as nat);
        let prior = attempt_indices(scene, sizes, (n - 1) as nat);
        let a = attempt_indices(scene, sizes, n);
        assert forall|k: int|
            0 <= k < n && sizes.contains_key(scene[k].image_spec().id_spec()) && first_of_image(
                scene,
                k,
            ) implies exists|t: int| 0 <= t < a.len() && #[trigger] a[t] == k by {
            if k == n - 1 {
                assert(a[a.len() - 1] == k);
            } else {
                let t = choose|t: int| 0 <= t < prior.len() && #[trigger] prior[t] == k;
                assert(a[t] == k);
            }
        }
    }
}

/// The first placement, at or before `j`, that shows the image of placement `j`.
proof fn first_occurrence(scene: Seq<ImagePlacement>, j: int) -> (f: int)
    requires
        0 <= j < scene.len(),
    ensures
        0 <= f <= j,
        scene[f].image_spec().id_spec() == scene[j].image_spec().id_spec(),
        first_of_image(scene, f),
    decreases j,
{
    if !first_of_image(scene, j) {
        let k = choose|k: int|
            0 <= k < j && #[trigger] scene[k].image_spec().id_spec()
                == scene[j].image_spec().id_spec();
        first_occurrence(scene, k)
    } else {
        j
    }
}

/// Extending the attempts by one greedy decision keeps the budget property.
proof fn lemma_budget_extend<F: Fn(&RgbaImage, TransferSize) -> Vec<u8>>(
    scene: Seq<ImagePlacement>,
    sizes: Map<ImageId, TransferSize>,
    attempts: Seq<int>,
    chosen: Seq<Option<Arc<EncodedImage>>>,
    i: int,
    x: Option<Arc<EncodedImage>>,
    limit: int,
    entries: Seq<CacheEntry>,
    resize: F,
)
    requires
        within_budget(scene, sizes, attempts, chosen, limit, entries, resize),
        budget_step(
            scene[i].image_spec(),
            sizes[scene[i].image_spec().id_spec()],
            x,
            chosen_bytes(chosen, chosen.len() as int),
            limit,
            entries,
            resize,
        ),
    ensures
        within_budget(scene, sizes, attempts.push(i), chosen.push(x), limit, entries, resize),
        chosen_bytes(chosen.push(x), chosen.len() + 1int) == chosen_bytes(chosen, chosen.len() as int)
            + match x {
            Some(e) => e.payload@.len() as int,
            None => 0,
        },
{
    let a = attempts.push(i);
    let c = chosen.push(x);
    lemma_chosen_bytes_push(chosen, x, chosen.len() as int);
    assert forall|j: int| 0 <= j < a.len() implies budget_step(
        scene[a[j]].image_spec(),
        sizes[scene[a[j]].image_spec().id_spec()],
        #[trigger] c[j],
        chosen_bytes(c, j),
        limit,
        entries,
        resize,
    ) by {
        lemma_chosen_bytes_push(chosen, x, j);
        if j < attempts.len() {
            assert(c[j] == chosen[j]);
            assert(a[j] == attempts[j]);
        }
    }
}

/// After the cache records `key` (refreshing or inserting it), every entry
/// for another image was already there with the same payload.
proof fn lemma_accept_keeps_others(
    before: Seq<CacheEntry>,
    after: Seq<CacheEntry>,
    key: EncodingKey,
    encoded: Arc<EncodedImage>,
    clock: u64,
    k: int,
) -> (m: int)
    requires
        0 <= k < after.len(),
        after[k].key.image != key.image,
        after == before || (exists|m: int|
            0 <= m < before.len() && before[m].key == key && after == before.update(
                m,
                CacheEntry { key, encoded: before[m].encoded, last_used: clock },
            )) || ({
            let kept = after.drop_last();
            &&& after.len() >= 1
            &&& after.last() == (CacheEntry { key, encoded, last_used: clock })
            &&& forall|i: int| 0 <= i < kept.len() ==> before.contains(#[trigger] kept[i])
        }),
    ensures
        0 <= m < before.len(),
        before[m] == after[k],
{
    if after == before {
        k
    } else if exists|m: int|
        0 <= m < before.len() && before[m].key == key && after == before.update(
            m,
            CacheEntry { key, encoded: before[m].encoded, last_used: clock },
        ) {
        let m = choose|m: int|
            0 <= m < before.len() && before[m].key == key && after == before.update(
                m,
                CacheEntry { key, encoded: before[m].encoded, last_used: clock },
            );
        assert(after[k] == before[k]);
        k
    } else {
        assert(k < after.len() - 1);
        assert(after.drop_last()[k] == after[k]);
        assert(before.contains(after[k]));
        choose|m: int| 0 <= m < before.len() && before[m] == after[k]
    }
}

/// Appending a choice leaves the bytes of earlier prefixes unchanged.
proof fn lemma_chosen_bytes_push(s: Seq<Option<Arc<EncodedImage>>>, x: Option<Arc<EncodedImage>>, j: int)
    requires
        0 <= j <= s.len(),
    ensures
        chosen_bytes(s.push(x), j) == chosen_bytes(s, j),
    decreases j,
{
    if j > 0 {
        lemma_chosen_bytes_push(s, x, j - 1);
        assert(s.push(x)[j - 1] == s[j - 1]);
    }
}

/// Obtains a candidate encoding for the first placement of each planned
/// image, in scene order, and keeps it when it fits in what the earlier
/// kept encodings left of `limit` payload bytes; a kept encoding is recorded
/// in the cache.
fn encode_attempts<F: Fn(&RgbaImage, TransferSize) -> Vec<u8>>(
    cache: &mut EncodingCache,
    scene: &[ImagePlacement],
    pairs: &Vec<(ImageId, TransferSize)>,
    Ghost(sizes): Ghost<Map<ImageId, TransferSize>>,
    limit: usize,
    resize: &F,
) -> (r: Result<(Vec<ImageId>, Vec<Option<Arc<EncodedImage>>>), EncodeFailure>)
    requires
        old(cache).wf(),
        lists_sizes(pairs@, sizes),
        forall|i: &RgbaImage, t: TransferSize| call_requires(*resize, (i, t)),
    ensures
        final(cache).wf(),
        final(cache).limit_spec() == old(cache).limit_spec(),
        attempt_indices(scene@, sizes, scene@.len()).len() == 0 ==> r is Ok,
        r is Err ==> some_attempt_fails(scene@, sizes, *resize),
        r matches Ok((attempted, chosen)) ==> {
            let idx = attempt_indices(scene@, sizes, scene@.len());
            &&& attempted@ == attempt_ids(scene@, idx)
            &&& within_budget(
                scene@,
                sizes,
                idx,
                chosen@,
                limit as int,
                old(cache).entries_spec(),
                *resize,
            )
        },
{
    let ghost entries0 = cache.entries_spec();
    let mut attempted: Vec<ImageId> = Vec::new();
    let mut chosen: Vec<Option<Arc<EncodedImage>>> = Vec::new();
    let mut prepared: usize = 0;
    let mut i: usize = 0;
    while i < scene.len()
        invariant
            i <= scene@.len(),
            cache.wf(),
            cache.limit_spec() == old(cache).limit_spec(),
            entries0 == old(cache).entries_spec(),
            lists_sizes(pairs@, sizes),
            forall|i: &RgbaImage, t: TransferSize| call_requires(*resize, (i, t)),
            attempted@ == attempt_ids(scene@, attempt_indices(scene@, sizes, i as nat)),
            within_budget(
                scene@,
                sizes,
                attempt_indices(scene@, sizes, i as nat),
                chosen@,
                limit as int,
                entries0,
                *resize,
            ),
            prepared == chosen_bytes(chosen@, chosen@.len() as int),
            prepared <= limit,
            forall|k: int|
                0 <= k < cache.entries_spec().len() && !attempted@.contains(
                    #[trigger] cache.entries_spec()[k].key.image,
                ) ==> exists|e: int|
                    0 <= e < entries0.len() && entries0[e].key == cache.entries_spec()[k].key
                        && entries0[e].encoded == cache.entries_spec()[k].encoded,
        decreases scene@.len() - i,
    {
        proof {
            lemma_attempt_indices(scene@, sizes, i as nat);
            lemma_attempt_indices(scene@, sizes, (i + 1) as nat);
        }
        let ghost idx = attempt_indices(scene@, sizes, i as nat);
        let ghost idx_next = attempt_indices(scene@, sizes, (i + 1) as nat);
        let placement = &scene[i];
        let image = placement.image();
        let id = image.id();
        let slot = size_index(pairs, id);
        if slot.is_none() {
            assert(!sizes.contains_key(id));
            assert(idx_next == idx);
            i = i + 1;
            continue;
        }
        let size = pairs[slot.unwrap()].1;
        assert(sizes.contains_key(id) && sizes[id] == size);
        if contains_image(&attempted, id) {
            proof {
                let t = choose|t: int| 0 <= t < attempted@.len() && attempted@[t] == id;
                assert(scene@[idx[t]].image_spec().id_spec() == id);
                assert(!first_of_image(scene@, i as int));
            }
            assert(idx_next == idx);
            i = i + 1;
            continue;
        }
        proof {
            assert forall|j: int| 0 <= j < i implies #[trigger] scene@[j].image_spec().id_spec()
                != scene@[i as int].image_spec().id_spec() by {
                if scene@[j].image_spec().id_spec() == id {
                    let f = first_occurrence(scene@, j);
                    let t = choose|t: int| 0 <= t < idx.len() && #[trigger] idx[t] == f;
                    assert(attempted@[t] == id);
                }
            }
            assert(first_of_image(scene@, i as int));
            assert(idx_next == idx.push(i as int));
        }
        let key = EncodingKey { image: id, size };
        let candidate = cache.candidate(image, size, resize);
        let encoded = match candidate {
            Ok(e) => e,
            Err(e) => {
                proof {
                    lemma_attempt_indices(scene@, sizes, scene@.len());
                    let full = attempt_indices(scene@, sizes, scene@.len());
                    let t = choose|t: int| 0 <= t < full.len() && #[trigger] full[t] == i as int;
                    assert(encoding_fails(
                        scene@[full[t]].image_spec(),
                        sizes[scene@[full[t]].image_spec().id_spec()],
                        *resize,
                    ));
                }
                return Err(e);
            },
        };
        proof {
            if has_key(cache.entries_spec(), key) {
                let k = choose|k: int|
                    0 <= k < cache.entries_spec().len() && cache.entries_spec()[k].key == key;
                assert(!attempted@.contains(cache.entries_spec()[k].key.image));
                let e = choose|e: int|
                    0 <= e < entries0.len() && entries0[e].key == cache.entries_spec()[k].key
                        && entries0[e].encoded == cache.entries_spec()[k].encoded;
                assert(entries0[e].key == key);
            }
            assert(valid_candidate(entries0, *image, size, *resize, encoded));
        }
        let ghost before_chosen = chosen@;
        let ghost before_cache = cache.entries_spec();
        let ghost before_attempted = attempted@;
        let ghost encoded_copy = encoded;
        let length = encoded.payload.len();
        if length > limit - prepared {
            chosen.push(None);
        } else {
            prepared = prepared + length;
            cache.accept(key, &encoded);
            chosen.push(Some(encoded));
        }
        attempted.push(id);
        proof {
            lemma_budget_extend(
                scene@,
                sizes,
                idx,
                before_chosen,
                i as int,
                chosen@.last(),
                limit as int,
                entries0,
                *resize,
            );
            assert(chosen@ == before_chosen.push(chosen@.last()));
            assert(attempted@ =~= attempt_ids(scene@, idx_next));
            let after = cache.entries_spec();
            assert forall|k: int|
                0 <= k < after.len() && !attempted@.contains(
                    #[trigger] after[k].key.image,
                ) implies exists|e: int|
                0 <= e < entries0.len() && entries0[e].key == after[k].key && entries0[e].encoded
                    == after[k].encoded by {
                assert(attempted@[before_attempted.len() as int] == id);
                let m = lemma_accept_keeps_others(
                    before_cache,
                    after,
                    key,
                    encoded_copy,
                    cache.clock_spec(),
                    k,
                );
                assert forall|t: int| 0 <= t < before_attempted.len() implies before_attempted[t]
                    != before_cache[m].key.image by {
                    assert(attempted@[t] == before_attempted[t]);
                }
                assert(!before_attempted.contains(before_cache[m].key.image));
            }
        }
        i = i + 1;
    }
    proof {
        lemma_attempt_indices(scene@, sizes, i as nat);
    }
    Ok((attempted, chosen))
}

// ---------------------------------------------------------------------------
// Prepared updates.
// ---------------------------------------------------------------------------

/// One scene placement that an update shows with Kitty graphics.
#[derive(Debug)]
pub struct PreparedPlacement<'a> {
    /// Wire id of the image.
    pub id: u32,
    /// Stacking order: the placement's scene position, counted from 1.
    pub z_index: i32,
    /// The scene placement.
    pub placement: &'a ImagePlacement,
    /// The transfer encoding of its image.
    pub encoded: Arc<EncodedImage>,
    /// Whether this placement uploads the image (its first placement).
    pub upload: bool,
}

/// Everything one Kitty update writes, planned before any output starts.
#[derive(Debug)]
pub struct PreparedUpdate<'a> {
    /// Whether uploads are sent as one command.
    pub single_command: bool,
    /// Whether an interrupted command must be terminated first.
    pub recover_stream: bool,
    /// Wire ids deleted before the new placements, ascending.
    pub delete_ids: Vec<u32>,
    /// Placements to show, in scene order.
    pub placements: Vec<PreparedPlacement<'a>>,
    /// Images the update shows, without repeats.
    pub desired_image_ids: Vec<ImageId>,
    /// Wire ids the update shows, ascending.
    pub desired_wire_ids: Vec<u32>,
}

/// Stacking order of the placement at scene index `index`: `index + 1`,
/// saturating at `i32::MAX`.
pub open spec fn z_index_for(index: int) -> i32 {
    if index + 1 <= i32::MAX {
        (index + 1) as i32
    } else {
        i32::MAX
    }
}

/// The encoding chosen by the attempt for `id`, if one chose any.
pub open spec fn choice_for(
    attempted: Seq<ImageId>,
    chosen: Seq<Option<Arc<EncodedImage>>>,
    id: ImageId,
) -> Option<Arc<EncodedImage>> {
    if exists|j: int| 0 <= j < attempted.len() && attempted[j] == id {
        chosen[choose|j: int| 0 <= j < attempted.len() && attempted[j] == id]
    } else {
        None
    }
}

/// Scene indices, among the first `n`, whose image has a chosen encoding.
pub open spec fn shown_indices(
    scene: Seq<ImagePlacement>,
    attempted: Seq<ImageId>,
    chosen: Seq<Option<Arc<EncodedImage>>>,
    n: nat,
) -> Seq<int>
    decreases n,
{
    if n == 0 {
        Seq::empty()
    } else {
        let prior = shown_indices(scene, attempted, chosen, (n - 1) as nat);
        if choice_for(attempted, chosen, scene[n - 1].image_spec().id_spec()) is Some {
            prior.push(n - 1)
        } else {
            prior
        }
    }
}

/// Whether `placements` shows, in scene order, every one of the first `n`
/// scene placements whose image has a chosen encoding: with that encoding,
/// its stacking order, the wire id that `mappings` gives its image, and an
/// upload exactly at the image's first placement.
pub open spec fn shows_upto(
    placements: Seq<PreparedPlacement>,
    scene: Seq<ImagePlacement>,
    attempted: Seq<ImageId>,
    chosen: Seq<Option<Arc<EncodedImage>>>,
    mappings: Seq<(ImageId, u32)>,
    n: nat,
) -> bool {
    let shown = shown_indices(scene, attempted, chosen, n);
    &&& placements.len() == shown.len()
    &&& forall|k: int|
        0 <= k < placements.len() ==> {
            let pp = #[trigger] placements[k];
            let p = scene[shown[k]];
            &&& *pp.placement == p
            &&& pp.z_index == z_index_for(shown[k])
            &&& choice_for(attempted, chosen, p.image_spec().id_spec()) == Some(pp.encoded)
            &&& pp.upload == first_of_image(scene, shown[k])
            &&& maps_to(mappings, p.image_spec().id_spec(), pp.id)
        }
}

/// Whether `placements` shows every scene placement whose image has a
/// chosen encoding (see [`shows_upto`]).
pub open spec fn shows(
    placements: Seq<PreparedPlacement>,
    scene: Seq<ImagePlacement>,
    attempted: Seq<ImageId>,
    chosen: Seq<Option<Arc<EncodedImage>>>,
    mappings: Seq<(ImageId, u32)>,
) -> bool {
    shows_upto(placements, scene, attempted, chosen, mappings, scene.len())
}

/// Whether `after` keeps the mappings of `before` in place and appends only
/// mappings to wire ids outside `taken`.
pub open spec fn extends_mappings(
    before: Seq<(ImageId, u32)>,
    after: Seq<(ImageId, u32)>,
    taken: Set<u32>,
) -> bool {
    &&& before.len() <= after.len()
    &&& forall|i: int| 0 <= i < before.len() ==> #[trigger] after[i] == before[i]
    &&& forall|i: int| before.len() <= i < after.len() ==> !taken.contains(#[trigger] after[i].1)
}

/// Whether `ids` lists the images of `placements`, each once.
pub open spec fn lists_images(ids: Seq<ImageId>, placements: Seq<PreparedPlacement>) -> bool {
    &&& forall|i: int, j: int| 0 <= i < j < ids.len() ==> ids[i] != ids[j]
    &&& forall|x: ImageId|
        #[trigger] ids.contains(x) <==> exists|k: int|
            0 <= k < placements.len() && (*placements[k].placement).image_spec().id_spec() == x
}

/// Whether `ids` lists, ascending, the wire ids of `placements`.
pub open spec fn lists_wire_ids(ids: Seq<u32>, placements: Seq<PreparedPlacement>) -> bool {
    &&& strictly_sorted(ids)
    &&& forall|w: u32|
        #[trigger] ids.contains(w) <==> exists|k: int|
            0 <= k < placements.len() && placements[k].id == w
}

/// Shown indices are increasing, below `n`, and exactly the indices whose
/// image has a chosen encoding.
proof fn lemma_shown_indices(
    scene: Seq<ImagePlacement>,
    attempted: Seq<ImageId>,
    chosen: Seq<Option<Arc<EncodedImage>>>,
    n: nat,
)
    requires
        n <= scene.len(),
    ensures
        ({
            let a = shown_indices(scene, attempted, chosen, n);
            &&& forall|t: int, u: int| 0 <= t < u < a.len() ==> a[t] < a[u]
            &&& forall|t: int|
                0 <= t < a.len() ==> 0 <= #[trigger] a[t] < n && choice_for(
                    attempted,
                    chosen,
                    scene[a[t]].image_spec().id_spec(),
                ) is Some
            &&& forall|k: int|
                0 <= k < n && choice_for(attempted, chosen, scene[k].image_spec().id_spec())
                    is Some ==> exists|t: int| 0 <= t < a.len() && #[trigger] a[t] == k
        }),
    decreases n,
{
    if n > 0 {
        lemma_shown_indices(scene, attempted, chosen, (n - 1) as nat);
        let prior = shown_indices(scene, attempted, chosen, (n - 1) as nat);
        let a = shown_indices(scene, attempted, chosen, n);
        assert forall|k: int|
            0 <= k < n && choice_for(attempted, chosen, scene[k].image_spec().id_spec())
                is Some implies exists|t: int| 0 <= t < a.len() && #[trigger] a[t] == k by {
            if k == n - 1 {
                assert(a[a.len() - 1] == k);
            } else {
                let t = choose|t: int| 0 <= t < prior.len() && #[trigger] prior[t] == k;
                assert(a[t] == k);
            }
        }
    }
}

/// Wire ids handed out by pushing one mapping.
proof fn lemma_mapped_ids_push(m: Seq<(ImageId, u32)>, image: ImageId, id: u32)
    ensures
        mapped_ids(m.push((image, id))) == mapped_ids(m).insert(id),
{
    let f = |p: (ImageId, u32)| p.1;
    assert(m.push((image, id)).map_values(f) =~= m.map_values(f).push(id));
    assert(m.map_values(f).push(id) =~= m.map_values(f) + seq![id]);
    Seq::<u32>::lemma_to_set_insert_commutes(m.map_values(f), id);
}

/// Wire ids handed out by `m` are exactly its second components.
proof fn lemma_mapped_ids_contains(m: Seq<(ImageId, u32)>, id: u32)
    ensures
        mapped_ids(m).contains(id) <==> exists|i: int| 0 <= i < m.len() && #[trigger] m[i].1 == id,
{
    let v = m.map_values(|p: (ImageId, u32)| p.1);
    if mapped_ids(m).contains(id) {
        let i = choose|i: int| 0 <= i < v.len() && v[i] == id;
        assert(m[i].1 == id);
    }
    if exists|i: int| 0 <= i < m.len() && #[trigger] m[i].1 == id {
        let i = choose|i: int| 0 <= i < m.len() && #[trigger] m[i].1 == id;
        assert(v[i] == id);
    }
}

/// Extending the mappings never frees a wire id.
proof fn lemma_taken_grows(owned: Seq<u32>, before: Seq<(ImageId, u32)>, after: Seq<(ImageId, u32)>)
    requires
        before.len() <= after.len(),
        forall|i: int| 0 <= i < before.len() ==> #[trigger] after[i] == before[i],
    ensures
        owned.to_set().union(mapped_ids(before)).subset_of(owned.to_set().union(mapped_ids(after))),
{
    assert forall|x: u32| owned.to_set().union(mapped_ids(before)).contains(x) implies owned.to_set().union(
        mapped_ids(after),
    ).contains(x) by {
        lemma_mapped_ids_contains(before, x);
        lemma_mapped_ids_contains(after, x);
        if mapped_ids(before).contains(x) {
            let i = choose|i: int| 0 <= i < before.len() && #[trigger] before[i].1 == x;
            assert(after[i].1 == x);
        }
    }
}

/// Inserts `x` into an ascending list without repeats.
fn insert_sorted(v: &mut Vec<u32>, x: u32)
    requires
        strictly_sorted(old(v)@),
    ensures
        strictly_sorted(final(v)@),
        forall|y: u32| #[trigger] final(v)@.contains(y) <==> (old(v)@.contains(y) || y == x),
{
    let mut i: usize = 0;
    while i < v.len() && v[i] < x
        invariant
            i <= v@.len(),
            v@ == old(v)@,
            strictly_sorted(v@),
            forall|j: int| 0 <= j < i ==> v@[j] < x,
        decreases v@.len() - i,
    {
        i = i + 1;
    }
    if i < v.len() && v[i] == x {
        return;
    }
    let ghost before = v@;
    v.insert(i, x);
    proof {
        assert forall|a: int, b: int| 0 <= a < b < v@.len() implies v@[a] < v@[b] by {
            if b < i {
            } else if a < i && b == i {
            } else if a < i {
                assert(v@[b] == before[b - 1]);
                assert(before[i as int] > x);
            } else if a == i {
                assert(v@[b] == before[b - 1]);
                if b - 1 > i {
                    assert(before[i as int] < before[b - 1]);
                }
            } else {
                assert(v@[a] == before[a - 1]);
                assert(v@[b] == before[b - 1]);
            }
        }
        assert forall|y: u32| #[trigger] v@.contains(y) <==> (before.contains(y) || y == x) by {
            if v@.contains(y) {
                let k = choose|k: int| 0 <= k < v@.len() && v@[k] == y;
                if k < i {
                    assert(before[k] == y);
                } else if k > i {
                    assert(before[k - 1] == y);
                }
            }
            if before.contains(y) {
                let k = choose|k: int| 0 <= k < before.len() && before[k] == y;
                if k < i {
                    assert(v@[k] == y);
                } else {
                    assert(v@[k + 1] == y);
                }
            }
            if y == x {
                assert(v@[i as int] == x);
            }
        }
    }
}

/// Two mappings of one image give the same wire id.
proof fn lemma_maps_to_unique(m: Seq<(ImageId, u32)>, image: ImageId, a: u32, b: u32)
    requires
        forall|i: int, j: int| 0 <= i < j < m.len() ==> m[i].0 != m[j].0,
        maps_to(m, image, a),
        maps_to(m, image, b),
    ensures
        a == b,
{
    let i = choose|i: int| 0 <= i < m.len() && #[trigger] m[i] == (image, a);
    let j = choose|j: int| 0 <= j < m.len() && #[trigger] m[j] == (image, b);
    if i < j {
        assert(m[i].0 != m[j].0);
    } else if j < i {
        assert(m[j].0 != m[i].0);
    }
}

/// The encoding chosen by the attempt for `id`, if any.
fn choice_of(attempted: &Vec<ImageId>, chosen: &Vec<Option<Arc<EncodedImage>>>, id: ImageId) -> (r:
    Option<Arc<EncodedImage>>)
    requires
        attempted@.len() == chosen@.len(),
        forall|i: int, j: int| 0 <= i < j < attempted@.len() ==> attempted@[i] != attempted@[j],
    ensures
        r == choice_for(attempted@, chosen@, id),
{
    let mut j: usize = 0;
    while j < attempted.len()
        invariant
            j <= attempted@.len(),
            attempted@.len() == chosen@.len(),
            forall|a: int, b: int| 0 <= a < b < attempted@.len() ==> attempted@[a] != attempted@[b],
            forall|k: int| 0 <= k < j ==> attempted@[k] != id,
        decreases attempted@.len() - j,
    {
        if attempted[j] == id {
            proof {
                let c = choose|c: int| 0 <= c < attempted@.len() && attempted@[c] == id;
                if c < j {
                    assert(attempted@[c] != attempted@[j as int]);
                } else if c > j {
                    assert(attempted@[j as int] != attempted@[c]);
                }
            }
            return match &chosen[j] {
                Some(e) => Some(share(e)),
                None => None,
            };
        }
        j = j + 1;
    }
    None
}

/// Stacking order of the placement at `index`.
fn z_index_of(index: usize) -> (r: i32)
    ensures
        r == z_index_for(index as int),
{
    if index < i32::MAX as usize {
        (index + 1) as i32
    } else {
        i32::MAX
    }
}

impl KittyState {
    /// Gives every scene placement whose image has a chosen encoding its
    /// wire id, stacking order and upload flag, and lists the images and
    /// wire ids shown.
    fn assign_placements<'a>(
        &mut self,
        scene: &'a [ImagePlacement],
        attempted: &Vec<ImageId>,
        chosen: &Vec<Option<Arc<EncodedImage>>>,
    ) -> (r: (Vec<PreparedPlacement<'a>>, Vec<ImageId>, Vec<u32>))
        requires
            old(self).wf(),
            old(self).taken().len() + scene@.len() < u32::MAX,
            attempted@.len() == chosen@.len(),
            forall|i: int, j: int| 0 <= i < j < attempted@.len() ==> attempted@[i] != attempted@[j],
        ensures
            final(self).wf(),
            final(self).single_command_spec() == old(self).single_command_spec(),
            final(self).owned_spec() == old(self).owned_spec(),
            final(self).uncertain_spec() == old(self).uncertain_spec(),
            final(self).cache_spec() == old(self).cache_spec(),
            extends_mappings(old(self).mappings_spec(), final(self).mappings_spec(), old(self).taken()),
            shows(r.0@, scene@, attempted@, chosen@, final(self).mappings_spec()),
            lists_images(r.1@, r.0@),
            lists_wire_ids(r.2@, r.0@),
    {
        let mut placements: Vec<PreparedPlacement<'a>> = Vec::new();
        let mut images: Vec<ImageId> = Vec::new();
        let mut wires: Vec<u32> = Vec::new();
        proof {
            lemma_taken_finite(self.owned_spec(), self.mappings_spec());
        }
        let mut i: usize = 0;
        while i < scene.len()
            invariant
                i <= scene@.len(),
                self.wf(),
                self.single_command_spec() == old(self).single_command_spec(),
                self.owned_spec() == old(self).owned_spec(),
                self.uncertain_spec() == old(self).uncertain_spec(),
                self.cache_spec() == old(self).cache_spec(),
                extends_mappings(old(self).mappings_spec(), self.mappings_spec(), old(self).taken()),
                self.taken().finite(),
                self.taken().len() <= old(self).taken().len() + i,
                old(self).taken().len() + scene@.len() < u32::MAX,
                attempted@.len() == chosen@.len(),
                forall|a: int, b: int|
                    0 <= a < b < attempted@.len() ==> attempted@[a] != attempted@[b],
                shows_upto(placements@, scene@, attempted@, chosen@, self.mappings_spec(), i as nat),
                lists_images(images@, placements@),
                lists_wire_ids(wires@, placements@),
            decreases scene@.len() - i,
        {
            proof {
                lemma_shown_indices(scene@, attempted@, chosen@, i as nat);
                lemma_shown_indices(scene@, attempted@, chosen@, (i + 1) as nat);
            }
            let placement = &scene[i];
            let id = placement.image().id();
            let choice = choice_of(attempted, chosen, id);
            match choice {
                None => {
                    assert(shown_indices(scene@, attempted@, chosen@, (i + 1) as nat)
                        == shown_indices(scene@, attempted@, chosen@, i as nat));
                },
                Some(encoded) => {
                    let ghost m_before = self.mappings_spec();
                    let ghost taken_before = self.taken();
                    let ghost placements_before = placements@;
                    let ghost images_before = images@;
                    let ghost wires_before = wires@;
                    let wire = self.wire_id(id);
                    let upload = !contains_image(&images, id);
                    if upload {
                        images.push(id);
                        insert_sorted(&mut wires, wire);
                    }
                    let z_index = z_index_of(i);
                    placements.push(PreparedPlacement { id: wire, z_index, placement, encoded, upload });
                    proof {
                        lemma_taken_grows(
                            old(self).owned_spec(),
                            old(self).mappings_spec(),
                            m_before,
                        );
                        self.lemma_assign_step(
                            scene@,
                            attempted@,
                            chosen@,
                            i as int,
                            m_before,
                            taken_before,
                            placements_before,
                            images_before,
                            wires_before,
                            placements@,
                            images@,
                            wires@,
                            old(self).mappings_spec(),
                            old(self).taken(),
                        );
                    }
                },
            }
            i = i + 1;
        }
        (placements, images, wires)
    }
}

impl KittyState {
    /// One step of [`KittyState::assign_placements`] keeps its loop
    /// invariant: `self` is the state after the wire id of placement `i`'s
    /// image was obtained and the placement appended.
    proof fn lemma_assign_step(
        &self,
        scene: Seq<ImagePlacement>,
        attempted: Seq<ImageId>,
        chosen: Seq<Option<Arc<EncodedImage>>>,
        i: int,
        m_before: Seq<(ImageId, u32)>,
        taken_before: Set<u32>,
        placements_before: Seq<PreparedPlacement>,
        images_before: Seq<ImageId>,
        wires_before: Seq<u32>,
        placements: Seq<PreparedPlacement>,
        images: Seq<ImageId>,
        wires: Seq<u32>,
        m0: Seq<(ImageId, u32)>,
        taken0: Set<u32>,
    )
        requires
            0 <= i < scene.len(),
            self.wf(),
            taken_before == self.owned_spec().to_set().union(mapped_ids(m_before)),
            taken_before.finite(),
            taken_before.len() <= taken0.len() + i,
            extends_mappings(m0, m_before, taken0),
            taken0.subset_of(taken_before),
            forall|a: int, b: int| 0 <= a < b < m_before.len() ==> m_before[a].0 != m_before[b].0,
            shows_upto(placements_before, scene, attempted, chosen, m_before, i as nat),
            lists_images(images_before, placements_before),
            lists_wire_ids(wires_before, placements_before),
            placements.len() == placements_before.len() + 1,
            forall|k: int|
                0 <= k < placements_before.len() ==> #[trigger] placements[k]
                    == placements_before[k],
            ({
                let pp = placements.last();
                let id = scene[i].image_spec().id_spec();
                &&& *pp.placement == scene[i]
                &&& pp.z_index == z_index_for(i)
                &&& choice_for(attempted, chosen, id) == Some(pp.encoded)
                &&& pp.upload == !images_before.contains(id)
                &&& has_image(m_before, id) ==> maps_to(m_before, id, pp.id) && self.mappings_spec()
                    == m_before
                &&& !has_image(m_before, id) ==> !taken_before.contains(pp.id)
                    && self.mappings_spec() == m_before.push((id, pp.id))
                &&& images == if pp.upload {
                    images_before.push(id)
                } else {
                    images_before
                }
                &&& strictly_sorted(wires)
                &&& forall|y: u32|
                    #[trigger] wires.contains(y) <==> (wires_before.contains(y) || (pp.upload && y
                        == pp.id))
            }),
            shown_indices(scene, attempted, chosen, (i + 1) as nat) == shown_indices(
                scene,
                attempted,
                chosen,
                i as nat,
            ).push(i),
            forall|j: int|
                0 <= j < i && choice_for(attempted, chosen, scene[j].image_spec().id_spec())
                    is Some ==> exists|t: int|
                    0 <= t < shown_indices(scene, attempted, chosen, i as nat).len()
                        && #[trigger] shown_indices(scene, attempted, chosen, i as nat)[t] == j,
            forall|t: int|
                0 <= t < shown_indices(scene, attempted, chosen, i as nat).len() ==> 0
                    <= #[trigger] shown_indices(scene, attempted, chosen, i as nat)[t] < i,
        ensures
            extends_mappings(m0, self.mappings_spec(), taken0),
            self.taken().finite(),
            self.taken().len() <= taken0.len() + i + 1,
            shows_upto(placements, scene, attempted, chosen, self.mappings_spec(), (i + 1) as nat),
            lists_images(images, placements),
            lists_wire_ids(wires, placements),
    {
        let m = self.mappings_spec();
        let pp = placements.last();
        let id = scene[i].image_spec().id_spec();
        let shown_before = shown_indices(scene, attempted, chosen, i as nat);
        let shown = shown_indices(scene, attempted, chosen, (i + 1) as nat);
        // Mappings only grow, and only by a fresh wire id.
        if !has_image(m_before, id) {
            lemma_mapped_ids_push(m_before, id, pp.id);
            assert(self.taken() =~= taken_before.insert(pp.id));
        } else {
            assert(self.taken() == taken_before);
        }
        assert(forall|k: int| 0 <= k < m_before.len() ==> #[trigger] m[k] == m_before[k]);
        // Earlier placements keep their wire ids.
        assert forall|k: int| 0 <= k < placements_before.len() implies maps_to(
            m,
            scene[shown_before[k]].image_spec().id_spec(),
            #[trigger] placements_before[k].id,
        ) by {
            let x = scene[shown_before[k]].image_spec().id_spec();
            assert(maps_to(m_before, x, placements_before[k].id));
            let c = choose|c: int| 0 <= c < m_before.len() && #[trigger] m_before[c] == (
            x,
            placements_before[k].id,
            );
            assert(m[c] == m_before[c]);
        }
        // The new placement's wire id.
        if has_image(m_before, id) {
            assert(maps_to(m, id, pp.id));
        } else {
            assert(m[m.len() - 1] == (id, pp.id));
            assert(maps_to(m, id, pp.id));
        }
        // Upload exactly at the first placement of the image.
        if images_before.contains(id) {
            let k = choose|k: int|
                0 <= k < placements_before.len() && (
                *placements_before[k].placement).image_spec().id_spec() == id;
            assert(*placements_before[k].placement == scene[shown_before[k]]);
            assert(scene[shown_before[k]].image_spec().id_spec() == id);
            assert(!first_of_image(scene, i));
        } else {
            assert forall|j: int| 0 <= j < i implies #[trigger] scene[j].image_spec().id_spec()
                != scene[i].image_spec().id_spec() by {
                if scene[j].image_spec().id_spec() == id {
                    let t = choose|t: int|
                        0 <= t < shown_before.len() && #[trigger] shown_before[t] == j;
                    assert(*placements_before[t].placement == scene[j]);
                    assert(images_before.contains(id));
                }
            }
        }
        assert forall|k: int| 0 <= k < placements.len() implies {
            let pp = #[trigger] placements[k];
            let p = scene[shown[k]];
            &&& *pp.placement == p
            &&& pp.z_index == z_index_for(shown[k])
            &&& choice_for(attempted, chosen, p.image_spec().id_spec()) == Some(pp.encoded)
            &&& pp.upload == first_of_image(scene, shown[k])
            &&& maps_to(m, p.image_spec().id_spec(), pp.id)
        } by {
            if k < placements_before.len() {
                assert(placements[k] == placements_before[k]);
                assert(shown[k] == shown_before[k]);
            }
        }
        // The listed images.
        assert forall|x: ImageId| #[trigger] images.contains(x) <==> exists|k: int|
            0 <= k < placements.len() && (*placements[k].placement).image_spec().id_spec()
                == x by {
            if images.contains(x) {
                if images_before.contains(x) {
                    let k = choose|k: int|
                        0 <= k < placements_before.len() && (
                        *placements_before[k].placement).image_spec().id_spec() == x;
                    assert(placements[k] == placements_before[k]);
                } else {
                    assert(x == id);
                    assert((*placements[placements.len() - 1].placement).image_spec().id_spec()
                        == x);
                }
            }
            if exists|k: int|
                0 <= k < placements.len() && (*placements[k].placement).image_spec().id_spec()
                    == x {
                let k = choose|k: int|
                    0 <= k < placements.len() && (*placements[k].placement).image_spec().id_spec()
                        == x;
                if k < placements_before.len() {
                    assert(placements[k] == placements_before[k]);
                    assert(images_before.contains(x));
                    if pp.upload {
                        assert(images[images_before.index_of(x)] == x);
                    }
                } else {
                    if pp.upload {
                        assert(images[images.len() - 1] == x);
                    }
                }
            }
        }
        assert forall|a: int, b: int| 0 <= a < b < images.len() implies images[a] != images[b] by {
            if pp.upload && b == images.len() - 1 {
                assert(images[a] == images_before[a]);
            }
        }
        // The listed wire ids.
        assert forall|w: u32| #[trigger] wires.contains(w) <==> exists|k: int|
            0 <= k < placements.len() && placements[k].id == w by {
            if wires.contains(w) {
                if wires_before.contains(w) {
                    let k = choose|k: int| 0 <= k < placements_before.len() && placements_before[k].id == w;
                    assert(placements[k] == placements_before[k]);
                } else {
                    assert(placements[placements.len() - 1].id == w);
                }
            }
            if exists|k: int| 0 <= k < placements.len() && placements[k].id == w {
                let k = choose|k: int| 0 <= k < placements.len() && placements[k].id == w;
                if k < placements_before.len() {
                    assert(placements[k] == placements_before[k]);
                } else if !pp.upload {
                    let x = (*placements_before[0].placement).image_spec().id_spec();
                    let q = choose|q: int|
                        0 <= q < placements_before.len() && (
                        *placements_before[q].placement).image_spec().id_spec() == id;
                    assert(*placements_before[q].placement == scene[shown_before[q]]);
                    assert(maps_to(m, id, placements_before[q].id));
                    lemma_maps_to_unique(m, id, placements_before[q].id, pp.id);
                    assert(placements[q] == placements_before[q]);
                    assert(wires_before.contains(w));
                }
            }
        }
        lemma_taken_grows(self.owned_spec(), m_before, m);
    }
}

/// The attempted images are distinct.
proof fn lemma_attempt_ids_distinct(
    scene: Seq<ImagePlacement>,
    sizes: Map<ImageId, TransferSize>,
    n: nat,
)
    requires
        n <= scene.len(),
    ensures
        ({
            let ids = attempt_ids(scene, attempt_indices(scene, sizes, n));
            forall|a: int, b: int| 0 <= a < b < ids.len() ==> ids[a] != ids[b]
        }),
{
    lemma_attempt_indices(scene, sizes, n);
    let idx = attempt_indices(scene, sizes, n);
    let ids = attempt_ids(scene, idx);
    assert forall|a: int, b: int| 0 <= a < b < ids.len() implies ids[a] != ids[b] by {
        assert(idx[a] < idx[b]);
        assert(first_of_image(scene, idx[b]));
        assert(scene[idx[a]].image_spec().id_spec() != scene[idx[b]].image_spec().id_spec());
    }
}

/// Adds every id of `ids` to an ascending list without repeats.
fn merge_sorted(v: &mut Vec<u32>, ids: &Vec<u32>)
    requires
        strictly_sorted(old(v)@),
    ensures
        strictly_sorted(final(v)@),
        forall|y: u32| #[trigger] final(v)@.contains(y) <==> (old(v)@.contains(y) || ids@.contains(y)),
{
    let mut i: usize = 0;
    while i < ids.len()
        invariant
            i <= ids@.len(),
            strictly_sorted(v@),
            forall|y: u32|
                #[trigger] v@.contains(y) <==> (old(v)@.contains(y) || exists|j: int|
                    0 <= j < i && ids@[j] == y),
        decreases ids@.len() - i,
    {
        insert_sorted(v, ids[i]);
        proof {
            assert forall|y: u32| #[trigger] v@.contains(y) <==> (old(v)@.contains(y) || exists|
                j: int,
            | 0 <= j < i + 1 && ids@[j] == y) by {
                if y == ids@[i as int] {
                    assert(exists|j: int| 0 <= j < i + 1 && ids@[j] == y);
                }
            }
        }
        i = i + 1;
    }
}

impl<'a> PreparedUpdate<'a> {
    /// Whether the update writes anything: a stream recovery, deletions or
    /// placements.
    pub fn has_output(&self) -> (r: bool)
        ensures
            r == (self.recover_stream || self.delete_ids@.len() > 0 || self.placements@.len() > 0),
    {
        self.recover_stream || self.delete_ids.len() > 0 || self.placements.len() > 0
    }
}

impl KittyState {
    /// Plans the Kitty output for `scene`: every placement whose image is not
    /// oversized and whose encoding fits, greedily in scene order, in
    /// `prepared_limit` payload bytes. Deletion of every possibly owned wire
    /// id comes first; the wire ids to be shown are recorded as possibly
    /// owned before any output starts, so a partial write is always
    /// repaired by a cleanup of a superset. `resize` resamples an image whose
    /// transfer size differs from its own.
    pub fn prepare_with_budget<'a, F: Fn(&RgbaImage, TransferSize) -> Vec<u8>>(
        &mut self,
        scene: &'a ImageScene,
        viewport: Option<TerminalViewport>,
        prepared_limit: usize,
        resize: &F,
    ) -> (r: Result<PreparedUpdate<'a>, EncodeFailure>)
        requires
            old(self).wf(),
            old(self).taken().len() + scene.placements_spec().len() < u32::MAX,
            forall|i: &RgbaImage, t: TransferSize| call_requires(*resize, (i, t)),
        ensures
            final(self).wf(),
            final(self).single_command_spec() == old(self).single_command_spec(),
            final(self).uncertain_spec() == old(self).uncertain_spec(),
            final(self).cache_spec().limit_spec() == old(self).cache_spec().limit_spec(),
            attempt_indices(
                scene.placements_spec(),
                planned_sizes(scene.placements_spec(), viewport, scene.placements_spec().len()),
                scene.placements_spec().len(),
            ).len() == 0 ==> r is Ok,
            r is Err ==> some_attempt_fails(
                scene.placements_spec(),
                planned_sizes(scene.placements_spec(), viewport, scene.placements_spec().len()),
                *resize,
            ),
            r is Err ==> {
                &&& final(self).mappings_spec() == old(self).mappings_spec()
                &&& final(self).owned_spec() == old(self).owned_spec()
                &&& final(self).next_id_spec() == old(self).next_id_spec()
            },
            r matches Ok(u) ==> {
                let s = scene.placements_spec();
                let sizes = planned_sizes(s, viewport, s.len());
                let idx = attempt_indices(s, sizes, s.len());
                &&& u.single_command == old(self).single_command_spec()
                &&& u.recover_stream == old(self).uncertain_spec()
                &&& u.delete_ids@ == old(self).owned_spec()
                &&& exists|chosen: Seq<Option<Arc<EncodedImage>>>|
                    #[trigger] within_budget(
                        s,
                        sizes,
                        idx,
                        chosen,
                        prepared_limit as int,
                        old(self).cache_spec().entries_spec(),
                        *resize,
                    ) && shows(
                        u.placements@,
                        s,
                        attempt_ids(s, idx),
                        chosen,
                        final(self).mappings_spec(),
                    )
                &&& lists_images(u.desired_image_ids@, u.placements@)
                &&& lists_wire_ids(u.desired_wire_ids@, u.placements@)
                &&& extends_mappings(
                    old(self).mappings_spec(),
                    final(self).mappings_spec(),
                    old(self).taken(),
                )
                &&& forall|w: u32|
                    #[trigger] final(self).owned_spec().contains(w) <==> (old(
                        self,
                    ).owned_spec().contains(w) || u.desired_wire_ids@.contains(w))
            },
    {
        let delete_ids = self.possibly_owned.clone();
        let placements = scene.placements();
        let pairs = plan_transfer_sizes(placements, viewport);
        let ghost sizes = planned_sizes(placements@, viewport, placements@.len());
        let attempts = encode_attempts(
            &mut self.cache,
            placements,
            &pairs,
            Ghost(sizes),
            prepared_limit,
            resize,
        );
        let (attempted, chosen) = match attempts {
            Ok(pair) => pair,
            Err(e) => {
                return Err(e);
            },
        };
        proof {
            lemma_attempt_ids_distinct(placements@, sizes, placements@.len());
        }
        let (prepared, desired_image_ids, desired_wire_ids) = self.assign_placements(
            placements,
            &attempted,
            &chosen,
        );
        merge_sorted(&mut self.possibly_owned, &desired_wire_ids);
        Ok(
            PreparedUpdate {
                single_command: self.single_command,
                recover_stream: self.stream_uncertain,
                delete_ids,
                placements: prepared,
                desired_image_ids,
                desired_wire_ids,
            },
        )
    }

    /// Plans the Kitty output for `scene` within the default budget of
    /// `MAX_PREPARED_IMAGE_BYTES` payload bytes (see
    /// [`KittyState::prepare_with_budget`]).
    pub fn prepare_with_viewport<'a, F: Fn(&RgbaImage, TransferSize) -> Vec<u8>>(
        &mut self,
        scene: &'a ImageScene,
        viewport: Option<TerminalViewport>,
        resize: &F,
    ) -> (r: Result<PreparedUpdate<'a>, EncodeFailure>)
        requires
            old(self).wf(),
            old(self).taken().len() + scene.placements_spec().len() < u32::MAX,
            forall|i: &RgbaImage, t: TransferSize| call_requires(*resize, (i, t)),
        ensures
            final(self).wf(),
            final(self).single_command_spec() == old(self).single_command_spec(),
            final(self).uncertain_spec() == old(self).uncertain_spec(),
            final(self).cache_spec().limit_spec() == old(self).cache_spec().limit_spec(),
            attempt_indices(
                scene.placements_spec(),
                planned_sizes(scene.placements_spec(), viewport, scene.placements_spec().len()),
                scene.placements_spec().len(),
            ).len() == 0 ==> r is Ok,
            r is Err ==> some_attempt_fails(
                scene.placements_spec(),
                planned_sizes(scene.placements_spec(), viewport, scene.placements_spec().len()),
                *resize,
            ),
            r is Err ==> {
                &&& final(self).mappings_spec() == old(self).mappings_spec()
                &&& final(self).owned_spec() == old(self).owned_spec()
                &&& final(self).next_id_spec() == old(self).next_id_spec()
            },
            r matches Ok(u) ==> {
                let s = scene.placements_spec();
                let sizes = planned_sizes(s, viewport, s.len());
                let idx = attempt_indices(s, sizes, s.len());
                &&& u.single_command == old(self).single_command_spec()
                &&& u.recover_stream == old(self).uncertain_spec()
                &&& u.delete_ids@ == old(self).owned_spec()
                &&& exists|chosen: Seq<Option<Arc<EncodedImage>>>|
                    #[trigger] within_budget(
                        s,
                        sizes,
                        idx,
                        chosen,
                        MAX_PREPARED_IMAGE_BYTES as int,
                        old(self).cache_spec().entries_spec(),
                        *resize,
                    ) && shows(
                        u.placements@,
                        s,
                        attempt_ids(s, idx),
                        chosen,
                        final(self).mappings_spec(),
                    )
                &&& lists_images(u.desired_image_ids@, u.placements@)
                &&& lists_wire_ids(u.desired_wire_ids@, u.placements@)
                &&& extends_mappings(
                    old(self).mappings_spec(),
                    final(self).mappings_spec(),
                    old(self).taken(),
                )
                &&& forall|w: u32|
                    #[trigger] final(self).owned_spec().contains(w) <==> (old(
                        self,
                    ).owned_spec().contains(w) || u.desired_wire_ids@.contains(w))
            },
    {
        self.prepare_with_budget(scene, viewport, MAX_PREPARED_IMAGE_BYTES, resize)
    }

    /// Records that an update reached the terminal: the stream is clean,
    /// exactly the update's wire ids are owned, and only the images it shows
    /// keep their wire ids.
    pub fn confirm(&mut self, update: &PreparedUpdate)
        requires
            old(self).wf(),
            strictly_sorted(update.desired_wire_ids@),
        ensures
            final(self).wf(),
            !final(self).uncertain_spec(),
            final(self).owned_spec() == update.desired_wire_ids@,
            forall|p: (ImageId, u32)|
                #[trigger] final(self).mappings_spec().contains(p) <==> (old(
                    self,
                ).mappings_spec().contains(p) && update.desired_image_ids@.contains(p.0)),
            final(self).single_command_spec() == old(self).single_command_spec(),
            final(self).next_id_spec() == old(self).next_id_spec(),
            final(self).cache_spec() == old(self).cache_spec(),
    {
        let mut kept: Vec<(ImageId, u32)> = Vec::new();
        let mut i: usize = 0;
        while i < self.mappings.len()
            invariant
                i <= self.mappings@.len(),
                self.wf(),
                self.mappings@ == old(self).mappings_spec(),
                forall|k: int|
                    #![trigger kept@[k]]
                    0 <= k < kept@.len() ==> exists|j: int|
                        0 <= j < i && #[trigger] self.mappings@[j] == kept@[k],
                forall|a: int, b: int|
                    0 <= a < b < kept@.len() ==> kept@[a].0 != kept@[b].0 && kept@[a].1
                        != kept@[b].1,
                forall|p: (ImageId, u32)|
                    #[trigger] kept@.contains(p) <==> ((exists|j: int|
                        0 <= j < i && self.mappings@[j] == p) && update.desired_image_ids@.contains(
                        p.0,
                    )),
            decreases self.mappings@.len() - i,
        {
            let entry = self.mappings[i];
            let ghost before = kept@;
            if contains_image(&update.desired_image_ids, entry.0) {
                proof {
                    assert forall|a: int| 0 <= a < before.len() implies before[a].0 != entry.0
                        && before[a].1 != entry.1 by {
                        let j = choose|j: int| 0 <= j < i && #[trigger] self.mappings@[j] == before[a];
                        assert(self.mappings@[j].0 != self.mappings@[i as int].0);
                    }
                }
                kept.push(entry);
            }
            proof {
                assert forall|k: int| #![trigger kept@[k]] 0 <= k < kept@.len() implies exists|j: int|
                    0 <= j < i + 1 && #[trigger] self.mappings@[j] == kept@[k] by {
                    if k < before.len() {
                        assert(kept@[k] == before[k]);
                        let j = choose|j: int| 0 <= j < i && #[trigger] self.mappings@[j] == before[k];
                    } else {
                        assert(self.mappings@[i as int] == kept@[k]);
                    }
                }
                assert forall|p: (ImageId, u32)| #[trigger] kept@.contains(p) <==> ((exists|j: int|
                    0 <= j < i + 1 && self.mappings@[j] == p) && update.desired_image_ids@.contains(
                    p.0,
                )) by {
                    if kept@.contains(p) && !before.contains(p) {
                        let q = choose|q: int| 0 <= q < kept@.len() && kept@[q] == p;
                        assert(q == kept@.len() - 1);
                        assert(self.mappings@[i as int] == p);
                    }
                    if before.contains(p) {
                        let q = choose|q: int| 0 <= q < before.len() && before[q] == p;
                        assert(kept@[q] == p);
                    }
                    if (exists|j: int| 0 <= j < i + 1 && self.mappings@[j] == p)
                        && update.desired_image_ids@.contains(p.0) {
                        let j = choose|j: int| 0 <= j < i + 1 && self.mappings@[j] == p;
                        if j == i {
                            assert(kept@[kept@.len() - 1] == p);
                        }
                    }
                }
            }
            i = i + 1;
        }
        proof {
            assert forall|k: int| 0 <= k < kept@.len() implies #[trigger] kept@[k].1 != 0 by {
                let j = choose|j: int| 0 <= j < i && #[trigger] self.mappings@[j] == kept@[k];
            }
        }
        self.mappings = kept;
        self.possibly_owned = update.desired_wire_ids.clone();
        self.stream_uncertain = false;
    }
}

/// Within a prepared update, two placements share a wire id exactly when
/// they show the same image, and only the first placement of an image
/// uploads it.
pub proof fn lemma_wire_ids_follow_images(
    placements: Seq<PreparedPlacement>,
    scene: Seq<ImagePlacement>,
    attempted: Seq<ImageId>,
    chosen: Seq<Option<Arc<EncodedImage>>>,
    mappings: Seq<(ImageId, u32)>,
    k1: int,
    k2: int,
)
    requires
        shows(placements, scene, attempted, chosen, mappings),
        forall|i: int, j: int|
            0 <= i < j < mappings.len() ==> mappings[i].0 != mappings[j].0 && mappings[i].1
                != mappings[j].1,
        0 <= k1 < k2 < placements.len(),
    ensures
        ((*placements[k1].placement).image_spec().id_spec() == (
        *placements[k2].placement).image_spec().id_spec()) <==> (placements[k1].id
            == placements[k2].id),
        (*placements[k1].placement).image_spec().id_spec() == (
        *placements[k2].placement).image_spec().id_spec() ==> !placements[k2].upload,
{
    lemma_shown_indices(scene, attempted, chosen, scene.len());
    let shown = shown_indices(scene, attempted, chosen, scene.len());
    let a = (*placements[k1].placement).image_spec().id_spec();
    let b = (*placements[k2].placement).image_spec().id_spec();
    assert(placements[k1] == placements[k1]);
    assert(placements[k2] == placements[k2]);
    let i = choose|i: int| 0 <= i < mappings.len() && #[trigger] mappings[i] == (a, placements[k1].id);
    let j = choose|j: int| 0 <= j < mappings.len() && #[trigger] mappings[j] == (b, placements[k2].id);
    if a == b {
        lemma_maps_to_unique(mappings, a, placements[k1].id, placements[k2].id);
        assert(shown[k1] < shown[k2]);
        assert(scene[shown[k1]].image_spec().id_spec() == scene[shown[k2]].image_spec().id_spec());
        assert(!first_of_image(scene, shown[k2]));
    } else {
        if i < j {
            assert(mappings[i].1 != mappings[j].1);
        } else if j < i {
            assert(mappings[j].1 != mappings[i].1);
        }
    }
}

/// Two strictly increasing id lists with the same members are the same
/// list.
pub proof fn lemma_sorted_ids_unique(a: Seq<u32>, b: Seq<u32>)
    requires
        strictly_sorted(a),
        strictly_sorted(b),
        forall|w: u32| a.contains(w) <==> b.contains(w),
    ensures
        a == b,
    decreases a.len(),
{
    if a.len() == 0 {
        if b.len() > 0 {
            assert(b.contains(b[0]));
        }
        assert(a =~= b);
    } else {
        assert(a.contains(a[0]));
        assert(b.len() > 0);
        assert(b.contains(b[0]));
        let ia = choose|i: int| 0 <= i < a.len() && a[i] == b[0];
        let ib = choose|i: int| 0 <= i < b.len() && b[i] == a[0];
        assert(a[0] == b[0]) by {
            if a[0] < b[0] {
                assert(b[ib] == a[0]);
                if ib > 0 {
                    assert(b[0] < b[ib]);
                }
            } else if b[0] < a[0] {
                assert(a[ia] == b[0]);
                if ia > 0 {
                    assert(a[0] < a[ia]);
                }
            }
        }
        let ta = a.drop_first();
        let tb = b.drop_first();
        assert forall|w: u32| ta.contains(w) <==> tb.contains(w) by {
            if ta.contains(w) {
                let i = choose|i: int| 0 <= i < ta.len() && ta[i] == w;
                assert(a[i + 1] == w);
                assert(a[0] < a[i + 1]);
                assert(a.contains(w));
                let j = choose|j: int| 0 <= j < b.len() && b[j] == w;
                assert(j != 0);
                assert(tb[j - 1] == w);
            }
            if tb.contains(w) {
                let i = choose|i: int| 0 <= i < tb.len() && tb[i] == w;
                assert(b[i + 1] == w);
                assert(b[0] < b[i + 1]);
                assert(b.contains(w));
                let j = choose|j: int| 0 <= j < a.len() && a[j] == w;
                assert(j != 0);
                assert(ta[j - 1] == w);
            }
        }
        lemma_sorted_ids_unique(ta, tb);
        assert(a =~= seq![a[0]] + ta);
        assert(b =~= seq![b[0]] + tb);
    }
}

/// A prepared update keeps a cleanup superset: when the ids possibly owned
/// after preparing are those owned before together with the wire ids the
/// update shows (as `prepare_with_budget` ensures), the cleanup ids are the
/// increasing list of exactly that union, so every id owned before and
/// every id the update may upload is deleted by the next cleanup.
pub proof fn lemma_prepared_cleanup_is_sorted_union(
    before: KittyState,
    after: KittyState,
    shown: Seq<u32>,
    union: Seq<u32>,
)
    requires
        after.wf(),
        forall|w: u32|
            #[trigger] after.owned_spec().contains(w) <==> (before.owned_spec().contains(w)
                || shown.contains(w)),
        strictly_sorted(union),
        forall|w: u32|
            #[trigger] union.contains(w) <==> (before.owned_spec().contains(w) || shown.contains(w)),
    ensures
        after.owned_spec() == union,
        forall|w: u32| before.owned_spec().contains(w) ==> after.owned_spec().contains(w),
        forall|w: u32| shown.contains(w) ==> after.owned_spec().contains(w),
{
    lemma_sorted_ids_unique(after.owned_spec(), union);
}

impl Default for KittyState {
    fn default() -> (r: Self)
        ensures
            r.wf(),
            !r.single_command_spec(),
            r.mappings_spec().len() == 0,
            r.owned_spec().len() == 0,
            r.next_id_spec() == 1,
            !r.uncertain_spec(),
            r.cache_spec().entries_spec().len() == 0,
            r.cache_spec().limit_spec() == MAX_ENCODED_CACHE_BYTES,
    {
        Self::new(false)
    }
}

/// The in-use wire ids of a state form a finite set no larger than the
/// number of records they come from.
proof fn lemma_taken_finite(owned: Seq<u32>, mappings: Seq<(ImageId, u32)>)
    ensures
        owned.to_set().union(mapped_ids(mappings)).finite(),
        owned.to_set().union(mapped_ids(mappings)).len() <= owned.len() + mappings.len(),
{
    owned.lemma_cardinality_of_set();
    mappings.map_values(|p: (ImageId, u32)| p.1).lemma_cardinality_of_set();
    lemma_len_union(owned.to_set(), mapped_ids(mappings));
}


/// The transfer size a placement asks for: its image's size fitted to its
/// destination in the viewport.
pub open spec fn asked_size(p: ImagePlacement, viewport: Option<TerminalViewport>) -> TransferSize {
    transfer_size_spec(p.image_spec().width_spec(), p.image_spec().height_spec(), p.destination_spec(), viewport)
}

/// The widest placement decides an image's transfer size: over the first
/// `n` placements, every image with a placement that is not oversized gets
/// a planned size at least as wide as the size each such placement asks
/// for, the planned size is the one some such placement of that image asks
/// for, and no other image gets one.
pub proof fn lemma_widest_placement_decides_transfer_size(
    scene: Seq<ImagePlacement>,
    viewport: Option<TerminalViewport>,
    n: nat,
)
    requires
        n <= scene.len(),
    ensures
        forall|k: int|
            0 <= k < n && !oversized(#[trigger] scene[k].image_spec()) ==> {
                let sizes = planned_sizes(scene, viewport, n);
                let id = scene[k].image_spec().id_spec();
                &&& sizes.contains_key(id)
                &&& sizes[id].width >= asked_size(scene[k], viewport).width
            },
        forall|id: ImageId|
            #[trigger] planned_sizes(scene, viewport, n).contains_key(id) ==> exists|k: int|
                0 <= k < n && !oversized(scene[k].image_spec()) && scene[k].image_spec().id_spec()
                    == id && planned_sizes(scene, viewport, n)[id] == asked_size(scene[k], viewport),
    decreases n,
{
    if n > 0 {
        lemma_widest_placement_decides_transfer_size(scene, viewport, (n - 1) as nat);
        let prior = planned_sizes(scene, viewport, (n - 1) as nat);
        let next = planned_sizes(scene, viewport, n);
        let last = (n - 1) as int;
        assert forall|k: int|
            0 <= k < n && !oversized(#[trigger] scene[k].image_spec()) implies {
                let id = scene[k].image_spec().id_spec();
                &&& next.contains_key(id)
                &&& next[id].width >= asked_size(scene[k], viewport).width
            } by {
            if k < last {
                assert(prior.contains_key(scene[k].image_spec().id_spec()));
            }
        }
        assert forall|id: ImageId| #[trigger] next.contains_key(id) implies exists|k: int|
            0 <= k < n && !oversized(scene[k].image_spec()) && scene[k].image_spec().id_spec() == id
                && next[id] == asked_size(scene[k], viewport) by {
            if next == prior || id != scene[last].image_spec().id_spec() {
                assert(prior.contains_key(id));
                let k = choose|k: int|
                    0 <= k < n - 1 && !oversized(scene[k].image_spec())
                        && scene[k].image_spec().id_spec() == id && prior[id] == asked_size(
                        scene[k],
                        viewport,
                    );
                assert(next[id] == prior[id]);
            } else {
                assert(next[id] == asked_size(scene[last], viewport));
            }
        }
    }
}

} // verus!

