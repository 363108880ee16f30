use vstd::prelude::*;

use crate::geometry::Rect;
use crate::image::{contains_image, ImageId, ImagePlacement, ImageSceneError, MAX_IMAGE_PLACEMENTS, MAX_IMAGE_SCENE_BYTES};

verus! {

// ---------------------------------------------------------------------------
// Models of scene bookkeeping.
// ---------------------------------------------------------------------------

/// Number of `false` marks, that is of live placements.
pub open spec fn live_count(stale: Seq<bool>) -> nat
    decreases stale.len(),
{
    if stale.len() == 0 {
        0
    } else {
        live_count(stale.drop_last()) + if stale.last() {
            0nat
        } else {
            1nat
        }
    }
}

/// Images of the live placements among the first `n`.
pub open spec fn live_images(ps: Seq<ImagePlacement>, stale: Seq<bool>, n: nat) -> Set<ImageId>
    decreases n,
{
    if n == 0 {
        Set::empty()
    } else {
        let prior = live_images(ps, stale, (n - 1) as nat);
        if stale[n - 1] {
            prior
        } else {
            prior.insert(ps[n - 1].image_spec().id_spec())
        }
    }
}

/// Decoded bytes of the distinct images of the live placements among the
/// first `n`, each image counted once.
pub open spec fn live_bytes(ps: Seq<ImagePlacement>, stale: Seq<bool>, n: nat) -> int
    decreases n,
{
    if n == 0 {
        0
    } else {
        let prior = live_bytes(ps, stale, (n - 1) as nat);
        let image = ps[n - 1].image_spec();
        if stale[n - 1] || live_images(ps, stale, (n - 1) as nat).contains(image.id_spec()) {
            prior
        } else {
            prior + image.pixels_spec().len()
        }
    }
}

/// Decoded source bytes that the live placements reference once `p` is
/// added, each image counted once, saturating at `usize::MAX`.
pub open spec fn bytes_with(ps: Seq<ImagePlacement>, stale: Seq<bool>, p: ImagePlacement) -> int {
    let n = ps.len();
    let image = p.image_spec();
    let total = live_bytes(ps, stale, n) + if live_images(ps, stale, n).contains(image.id_spec()) {
        0
    } else {
        image.pixels_spec().len() as int
    };
    if total > usize::MAX {
        usize::MAX as int
    } else {
        total
    }
}

/// The elements of `s` whose `drop` mark is `false`, in order.
pub open spec fn keep<T>(s: Seq<T>, drop: Seq<bool>) -> Seq<T>
    decreases s.len(),
{
    if s.len() == 0 {
        Seq::empty()
    } else {
        let prior = keep(s.drop_last(), drop);
        if drop[s.len() - 1] {
            prior
        } else {
            prior.push(s.last())
        }
    }
}

/// Replay marks in effect after resuming the repaint scope at `depth`: the
/// marks of the scope at `depth` when deeper scopes are open.
pub open spec fn resumed_replayed(replayed: Seq<bool>, scopes: Seq<Seq<bool>>, depth: int) -> Seq<
    bool,
> {
    if scopes.len() > depth {
        scopes[depth]
    } else {
        replayed
    }
}

/// Enclosing scopes after resuming the repaint scope at `depth`.
pub open spec fn resumed_scopes(scopes: Seq<Seq<bool>>, depth: int) -> Seq<Seq<bool>> {
    if scopes.len() > depth {
        scopes.take(depth)
    } else {
        scopes
    }
}

/// Whether damaged `rows`, within `clip`, touch the placement: its
/// destination clipped to `clip` is nonempty and one of its rows that lies
/// within `rows` is damaged.
pub open spec fn damaged_by(p: ImagePlacement, rows: Seq<bool>, clip: Rect) -> bool {
    let d = p.destination_spec();
    &&& d.intersects_spec(clip)
    &&& {
        let v = d.intersection_spec(clip);
        let start = if v.y < 0 {
            0
        } else {
            v.y as int
        };
        let bottom = if v.bottom_spec() < 0 {
            0
        } else {
            v.bottom_spec()
        };
        let end = if bottom < rows.len() {
            bottom
        } else {
            rows.len() as int
        };
        exists|r: int| start <= r < end && rows[r]
    }
}

/// Stale marks after damage: a placement is stale when it was or when the
/// damage touches it.
pub open spec fn stale_after(
    ps: Seq<ImagePlacement>,
    stale: Seq<bool>,
    rows: Seq<bool>,
    clip: Rect,
) -> Seq<bool> {
    Seq::new(ps.len(), |i: int| stale[i] || damaged_by(ps[i], rows, clip))
}

/// Whether the damage touches a placement that was live.
pub open spec fn newly_damaged(
    ps: Seq<ImagePlacement>,
    stale: Seq<bool>,
    rows: Seq<bool>,
    clip: Rect,
) -> bool {
    exists|i: int| 0 <= i < ps.len() && !stale[i] && damaged_by(ps[i], rows, clip)
}

/// Stale placements that no live placement overlaps: they no longer anchor
/// the stacking order of anything.
pub open spec fn retired(ps: Seq<ImagePlacement>, stale: Seq<bool>) -> Seq<bool> {
    Seq::new(
        ps.len(),
        |i: int|
            stale[i] && forall|j: int|
                0 <= j < ps.len() && !stale[j] ==> !ps[i].destination_spec().intersects_spec(
                    #[trigger] ps[j].destination_spec(),
                ),
    )
}

/// Appending one element extends the kept elements by it unless dropped.
proof fn lemma_keep_take<T>(s: Seq<T>, drop: Seq<bool>, i: int)
    requires
        0 <= i < s.len(),
    ensures
        keep(s.take(i + 1), drop) == if drop[i] {
            keep(s.take(i), drop)
        } else {
            keep(s.take(i), drop).push(s[i])
        },
{
    assert(s.take(i + 1).drop_last() =~= s.take(i));
}

/// Keeps the marks whose `drop` mark is `false`.
fn keep_flags(v: &Vec<bool>, drop: &Vec<bool>) -> (r: Vec<bool>)
    requires
        drop@.len() == v@.len(),
    ensures
        r@ == keep(v@, drop@),
{
    let mut out: Vec<bool> = Vec::new();
    let mut i: usize = 0;
    while i < v.len()
        invariant
            i <= v@.len(),
            drop@.len() == v@.len(),
            out@ == keep(v@.take(i as int), drop@),
        decreases v@.len() - i,
    {
        proof {
            lemma_keep_take(v@, drop@, i as int);
        }
        if !drop[i] {
            out.push(v[i]);
        }
        i = i + 1;
    }
    assert(v@.take(v@.len() as int) =~= v@);
    out
}

/// Keeps the placements whose `drop` mark is `false`.
fn keep_placements(v: &Vec<ImagePlacement>, drop: &Vec<bool>) -> (r: Vec<ImagePlacement>)
    requires
        drop@.len() == v@.len(),
    ensures
        r@ == keep(v@, drop@),
{
    let mut out: Vec<ImagePlacement> = Vec::new();
    let mut i: usize = 0;
    while i < v.len()
        invariant
            i <= v@.len(),
            drop@.len() == v@.len(),
            out@ == keep(v@.take(i as int), drop@),
        decreases v@.len() - i,
    {
        proof {
            lemma_keep_take(v@, drop@, i as int);
        }
        if !drop[i] {
            out.push(v[i].clone());
        }
        i = i + 1;
    }
    assert(v@.take(v@.len() as int) =~= v@);
    out
}

/// The kept elements of equally long sequences are equally many.
proof fn lemma_keep_len<A, B>(a: Seq<A>, b: Seq<B>, drop: Seq<bool>)
    requires
        a.len() == b.len(),
    ensures
        keep(a, drop).len() == keep(b, drop).len(),
    decreases a.len(),
{
    if a.len() > 0 {
        lemma_keep_len(a.drop_last(), b.drop_last(), drop);
    }
}

/// Whether damaged `rows` within `clip` touch a placement.
fn touches(p: &ImagePlacement, rows: &[bool], clip: Rect) -> (r: bool)
    ensures
        r == damaged_by(*p, rows@, clip),
{
    match p.destination().intersection(clip) {
        None => false,
        Some(v) => {
            let start: usize = if v.y < 0 {
                0
            } else {
                v.y as usize
            };
            let b = v.bottom();
            let bottom: usize = if b < 0 {
                0
            } else {
                b as usize
            };
            let end = if bottom < rows.len() {
                bottom
            } else {
                rows.len()
            };
            let mut k: usize = start;
            while k < end
                invariant
                    start <= k,
                    end <= rows@.len(),
                    p.destination_spec().intersects_spec(clip),
                    v == p.destination_spec().intersection_spec(clip),
                    start == (if v.y < 0 {
                        0
                    } else {
                        v.y as int
                    }),
                    end == (if (if v.bottom_spec() < 0 {
                        0
                    } else {
                        v.bottom_spec()
                    }) < rows@.len() {
                        if v.bottom_spec() < 0 {
                            0
                        } else {
                            v.bottom_spec()
                        }
                    } else {
                        rows@.len() as int
                    }),
                    forall|r: int| start <= r < k ==> !rows@[r],
                decreases end - k,
            {
                if rows[k] {
                    proof {
                        let d = p.destination_spec();
                        assert(d.intersects_spec(clip));
                        assert(v == d.intersection_spec(clip));
                        let sp = if v.y < 0 {
                            0
                        } else {
                            v.y as int
                        };
                        let bp = if v.bottom_spec() < 0 {
                            0
                        } else {
                            v.bottom_spec()
                        };
                        let ep = if bp < rows@.len() {
                            bp
                        } else {
                            rows@.len() as int
                        };
                        assert(sp == start);
                        assert(ep == end);
                        assert(sp <= k < ep && rows@[k as int]);
                    }
                    return true;
                }
                k = k + 1;
            }
            false
        },
    }
}

/// Marks of the placements to retire under stale marks `stale`.
fn retired_marks(ps: &Vec<ImagePlacement>, stale: &Vec<bool>) -> (r: Vec<bool>)
    requires
        stale@.len() == ps@.len(),
    ensures
        r@ == retired(ps@, stale@),
{
    let mut out: Vec<bool> = Vec::new();
    let mut i: usize = 0;
    while i < ps.len()
        invariant
            i <= ps@.len(),
            stale@.len() == ps@.len(),
            out@.len() == i,
            forall|k: int| 0 <= k < i ==> #[trigger] out@[k] == retired(ps@, stale@)[k],
        decreases ps@.len() - i,
    {
        let mut overlapped = false;
        if stale[i] {
            let d = ps[i].destination();
            let mut j: usize = 0;
            while j < ps.len()
                invariant
                    j <= ps@.len(),
                    i < ps@.len(),
                    stale@.len() == ps@.len(),
                    d == ps@[i as int].destination_spec(),
                    !overlapped ==> forall|q: int|
                        0 <= q < j && !stale@[q] ==> !d.intersects_spec(
                            #[trigger] ps@[q].destination_spec(),
                        ),
                    overlapped ==> exists|q: int|
                        0 <= q < ps@.len() && !stale@[q] && d.intersects_spec(
                            #[trigger] ps@[q].destination_spec(),
                        ),
                decreases ps@.len() - j,
            {
                if !stale[j] && d.intersects(ps[j].destination()) {
                    overlapped = true;
                }
                j = j + 1;
            }
        }
        out.push(stale[i] && !overlapped);
        i = i + 1;
    }
    assert(out@ =~= retired(ps@, stale@));
    out
}

/// First stale position among the first `n`; `n` when none is stale.
pub open spec fn first_stale(stale: Seq<bool>, n: nat) -> int
    decreases n,
{
    if n == 0 {
        0
    } else {
        let prior = first_stale(stale, (n - 1) as nat);
        if prior < n - 1 {
            prior
        } else if stale[n - 1] {
            n - 1
        } else {
            n as int
        }
    }
}

/// First stale placement among the first `n` that shows the same image
/// region at the same place as `p`; `n` when none does.
pub open spec fn stale_match(ps: Seq<ImagePlacement>, stale: Seq<bool>, p: ImagePlacement, n: nat) -> int
    decreases n,
{
    if n == 0 {
        0
    } else {
        let prior = stale_match(ps, stale, p, (n - 1) as nat);
        if prior < n - 1 {
            prior
        } else if stale[n - 1] && ps[n - 1].same(&p) {
            n - 1
        } else {
            n as int
        }
    }
}

/// One past the last live placement among the first `n` whose replay mark
/// is `replayed_mark` and whose destination overlaps `dest`; 0 when none.
pub open spec fn after_overlap(
    ps: Seq<ImagePlacement>,
    replayed: Seq<bool>,
    stale: Seq<bool>,
    replayed_mark: bool,
    dest: Rect,
    n: nat,
) -> int
    decreases n,
{
    if n == 0 {
        0
    } else if replayed[n - 1] == replayed_mark && !stale[n - 1] && ps[n
        - 1].destination_spec().intersects_spec(dest) {
        n as int
    } else {
        after_overlap(ps, replayed, stale, replayed_mark, dest, (n - 1) as nat)
    }
}

/// The larger of two integers.
pub open spec fn max_int(a: int, b: int) -> int {
    if a >= b {
        a
    } else {
        b
    }
}

/// Where a new placement `p` goes: after every live placement and after
/// the last live replayed placement that it overlaps.
pub open spec fn insertion_point(
    ps: Seq<ImagePlacement>,
    replayed: Seq<bool>,
    stale: Seq<bool>,
    p: ImagePlacement,
) -> int {
    max_int(
        first_stale(stale, ps.len()),
        after_overlap(ps, replayed, stale, true, p.destination_spec(), ps.len()),
    )
}

/// Where a replayed stale occurrence at `index` goes: no earlier than the
/// insertion point, and after every untouched live placement before it that
/// it overlaps.
pub open spec fn replay_point(
    ps: Seq<ImagePlacement>,
    replayed: Seq<bool>,
    stale: Seq<bool>,
    p: ImagePlacement,
    index: int,
) -> int {
    max_int(
        insertion_point(ps, replayed, stale, p),
        after_overlap(ps, replayed, stale, false, p.destination_spec(), index as nat),
    )
}

/// Whether any placement of `block` overlaps `dest`.
pub open spec fn block_overlaps(block: Seq<ImagePlacement>, dest: Rect) -> bool {
    exists|j: int| 0 <= j < block.len() && #[trigger] block[j].destination_spec().intersects_spec(dest)
}

/// The marks of every scope at position `i`.
pub open spec fn scope_column(scopes: Seq<Seq<bool>>, i: int) -> Seq<bool> {
    scopes.map_values(|m: Seq<bool>| m[i])
}

/// The scopes without position `i`.
pub open spec fn scopes_without(scopes: Seq<Seq<bool>>, i: int) -> Seq<Seq<bool>> {
    scopes.map_values(|m: Seq<bool>| m.remove(i))
}

/// Gathers the block that moves with a replayed occurrence: scanning from
/// `scan` up to `next`, a placement joins the block when the block is empty
/// or when it is still awaiting its replay (stale, or not yet replayed) and
/// overlaps a placement already in the block. Joining removes it from the
/// scene columns, pulling `next` one earlier. The result holds the remaining
/// columns, the block with its stale marks and scope marks, and the final
/// `next`.
pub open spec fn gather(
    ps: Seq<ImagePlacement>,
    st: Seq<bool>,
    rp: Seq<bool>,
    sc: Seq<Seq<bool>>,
    block: Seq<ImagePlacement>,
    block_stale: Seq<bool>,
    block_marks: Seq<Seq<bool>>,
    scan: int,
    next: int,
) -> (Seq<ImagePlacement>, Seq<bool>, Seq<bool>, Seq<Seq<bool>>, Seq<ImagePlacement>, Seq<bool>, Seq<
    Seq<bool>,
>, int)
    decreases next - scan,
{
    if 0 <= scan < next <= ps.len() {
        if block.len() == 0 || ((st[scan] || !rp[scan]) && block_overlaps(
            block,
            ps[scan].destination_spec(),
        )) {
            gather(
                ps.remove(scan),
                st.remove(scan),
                rp.remove(scan),
                scopes_without(sc, scan),
                block.push(ps[scan]),
                block_stale.push(st[scan]),
                block_marks.push(scope_column(sc, scan)),
                scan,
                next - 1,
            )
        } else {
            gather(ps, st, rp, sc, block, block_stale, block_marks, scan + 1, next)
        }
    } else {
        (ps, st, rp, sc, block, block_stale, block_marks, next)
    }
}

/// The scene columns after the stale occurrence at `index` is replayed at
/// `next`: the gathered block is put back, in order, at the final `next`,
/// with its replay marks cleared, and the occurrence, now first in the
/// block, becomes live and replayed in every scope. The last component is
/// the occurrence's new position.
pub open spec fn replayed_block(
    ps: Seq<ImagePlacement>,
    st: Seq<bool>,
    rp: Seq<bool>,
    sc: Seq<Seq<bool>>,
    index: int,
    next: int,
) -> (Seq<ImagePlacement>, Seq<bool>, Seq<bool>, Seq<Seq<bool>>, int) {
    let g = gather(ps, st, rp, sc, seq![], seq![], seq![], index, next);
    let at = g.7;
    let count = g.4.len();
    (
        g.0.take(at) + g.4 + g.0.skip(at),
        (g.1.take(at) + g.5 + g.1.skip(at)).update(at, false),
        (g.2.take(at) + Seq::new(count, |j: int| false) + g.2.skip(at)).update(at, true),
        Seq::new(
            g.3.len(),
            |k: int|
                (g.3[k].take(at) + Seq::new(count, |j: int| g.6[j][k]) + g.3[k].skip(at)).update(
                    at,
                    true,
                ),
        ),
        at,
    )
}

/// The mark sequences held by a vector of mark vectors.
pub open spec fn marks_of(v: Seq<Vec<bool>>) -> Seq<Seq<bool>> {
    v.map_values(|x: Vec<bool>| x@)
}

/// Gathering keeps every column in step, never moves `next` before `scan`,
/// and only extends the block; from an empty block with room to scan, the
/// placement at `scan` opens the block.
proof fn lemma_gather(
    ps: Seq<ImagePlacement>,
    st: Seq<bool>,
    rp: Seq<bool>,
    sc: Seq<Seq<bool>>,
    block: Seq<ImagePlacement>,
    block_stale: Seq<bool>,
    block_marks: Seq<Seq<bool>>,
    scan: int,
    next: int,
)
    requires
        st.len() == ps.len(),
        rp.len() == ps.len(),
        forall|k: int| 0 <= k < sc.len() ==> #[trigger] sc[k].len() == ps.len(),
        block_stale.len() == block.len(),
        block_marks.len() == block.len(),
        forall|j: int| 0 <= j < block_marks.len() ==> #[trigger] block_marks[j].len() == sc.len(),
        0 <= scan <= next <= ps.len(),
    ensures
        ({
            let g = gather(ps, st, rp, sc, block, block_stale, block_marks, scan, next);
            &&& g.0.len() + g.4.len() == ps.len() + block.len()
            &&& g.1.len() == g.0.len()
            &&& g.2.len() == g.0.len()
            &&& g.3.len() == sc.len()
            &&& forall|k: int| 0 <= k < g.3.len() ==> #[trigger] g.3[k].len() == g.0.len()
            &&& g.5.len() == g.4.len()
            &&& g.6.len() == g.4.len()
            &&& forall|j: int| 0 <= j < g.6.len() ==> #[trigger] g.6[j].len() == sc.len()
            &&& scan <= g.7 <= g.0.len()
            &&& g.4.len() >= block.len()
            &&& block.len() > 0 ==> g.4[0] == block[0]
            &&& block.len() == 0 && scan < next ==> g.4.len() > 0 && g.4[0] == ps[scan]
        }),
    decreases next - scan,
{
    if scan < next {
        if block.len() == 0 || ((st[scan] || !rp[scan]) && block_overlaps(
            block,
            ps[scan].destination_spec(),
        )) {
            let sc2 = scopes_without(sc, scan);
            let bm2 = block_marks.push(scope_column(sc, scan));
            assert forall|k: int| 0 <= k < sc2.len() implies #[trigger] sc2[k].len() == ps.len() - 1 by {
                assert(sc2[k] == sc[k].remove(scan));
            }
            assert forall|j: int| 0 <= j < bm2.len() implies #[trigger] bm2[j].len() == sc.len() by {
                if j < block_marks.len() {
                    assert(bm2[j] == block_marks[j]);
                }
            }
            lemma_gather(
                ps.remove(scan),
                st.remove(scan),
                rp.remove(scan),
                sc2,
                block.push(ps[scan]),
                block_stale.push(st[scan]),
                bm2,
                scan,
                next - 1,
            );
        } else {
            lemma_gather(ps, st, rp, sc, block, block_stale, block_marks, scan + 1, next);
        }
    }
}

/// The outcome of adding `placement` to a scene with columns `ps`, `st`,
/// `rp` and `sc` within the given limits: `r` and the columns `ps2`, `st2`,
/// `rp2` and `sc2` afterwards. A limit error leaves the scene unchanged; a
/// new placement is inserted at the insertion point; a stale occurrence of
/// the same placement is replayed at its replay point.
pub open spec fn push_outcome(
    ps: Seq<ImagePlacement>,
    st: Seq<bool>,
    rp: Seq<bool>,
    sc: Seq<Seq<bool>>,
    placement: ImagePlacement,
    maximum_placements: usize,
    maximum_bytes: usize,
    r: Result<(), ImageSceneError>,
    ps2: Seq<ImagePlacement>,
    st2: Seq<bool>,
    rp2: Seq<bool>,
    sc2: Seq<Seq<bool>>,
) -> bool {
    let live = live_count(st);
    let bytes = bytes_with(ps, st, placement);
    let index = stale_match(ps, st, placement, ps.len());
    &&& live >= maximum_placements ==> r == Err::<(), ImageSceneError>(
        ImageSceneError::TooManyPlacements { maximum: maximum_placements },
    )
    &&& live < maximum_placements && bytes > maximum_bytes ==> r == Err::<
        (),
        ImageSceneError,
    >(ImageSceneError::TooLarge { bytes: bytes as usize, maximum: maximum_bytes })
    &&& r is Err ==> {
        &&& ps2 == ps
        &&& st2 == st
        &&& rp2 == rp
        &&& sc2 == sc
    }
    &&& live < maximum_placements && bytes <= maximum_bytes ==> r is Ok
    &&& ps2.len() == ps.len() + if r is Ok && index
        == ps.len() {
        1int
    } else {
        0int
    }
    &&& r is Ok && index == ps.len() ==> {
        let at = insertion_point(ps, rp, st, placement);
        &&& ps2 == ps.insert(at, placement)
        &&& st2 == st.insert(at, false)
        &&& rp2 == rp.insert(at, true)
        &&& sc2 == sc.map_values(|m: Seq<bool>| m.insert(at, true))
    }
    &&& r is Ok && index < ps.len() && index >= replay_point(
        ps,
        rp,
        st,
        placement,
        index,
    ) ==> {
        let at = replay_point(ps, rp, st, placement, index);
        &&& ps2 == ps.remove(index).insert(at, ps[index])
        &&& st2 == st.remove(index).insert(at, false)
        &&& rp2 == rp.remove(index).insert(at, true)
        &&& sc2 == sc.map_values(
            |m: Seq<bool>| m.remove(index).insert(at, true),
        )
    }
    &&& r is Ok && index < ps.len() && index < replay_point(
        ps,
        rp,
        st,
        placement,
        index,
    ) ==> {
        let moved = replayed_block(
            ps,
            st,
            rp,
            sc,
            index,
            replay_point(ps, rp, st, placement, index),
        );
        &&& ps2 == moved.0
        &&& st2 == moved.1
        &&& rp2 == moved.2
        &&& sc2 == moved.3
    }
}

/// Without stale placements, nothing is replayed and a new placement goes
/// on top of the stacking order.
proof fn lemma_nothing_stale(
    ps: Seq<ImagePlacement>,
    st: Seq<bool>,
    rp: Seq<bool>,
    placement: ImagePlacement,
)
    requires
        st.len() == ps.len(),
        forall|i: int| 0 <= i < st.len() ==> !st[i],
    ensures
        stale_match(ps, st, placement, ps.len()) == ps.len(),
        insertion_point(ps, rp, st, placement) == ps.len(),
        ps.insert(ps.len() as int, placement) == ps.push(placement),
{
    lemma_nothing_stale_upto(ps, st, rp, placement, ps.len());
    assert(ps.insert(ps.len() as int, placement) =~= ps.push(placement));
}

proof fn lemma_nothing_stale_upto(
    ps: Seq<ImagePlacement>,
    st: Seq<bool>,
    rp: Seq<bool>,
    placement: ImagePlacement,
    n: nat,
)
    requires
        n <= ps.len(),
        st.len() == ps.len(),
        forall|i: int| 0 <= i < st.len() ==> !st[i],
    ensures
        stale_match(ps, st, placement, n) == n,
        first_stale(st, n) == n,
        after_overlap(ps, rp, st, true, placement.destination_spec(), n) <= n,
    decreases n,
{
    if n > 0 {
        lemma_nothing_stale_upto(ps, st, rp, placement, (n - 1) as nat);
    }
}

/// Number of live placements.
fn live_placements(stale: &Vec<bool>) -> (r: usize)
    ensures
        r == live_count(stale@),
{
    let mut count: usize = 0;
    let mut i: usize = 0;
    while i < stale.len()
        invariant
            i <= stale@.len(),
            count == live_count(stale@.take(i as int)),
            count <= i,
        decreases stale@.len() - i,
    {
        assert(stale@.take(i + 1).drop_last() =~= stale@.take(i as int));
        if !stale[i] {
            count = count + 1;
        }
        i = i + 1;
    }
    assert(stale@.take(stale@.len() as int) =~= stale@);
    count
}

/// Position of the first stale placement, or the length.
fn first_stale_index(stale: &Vec<bool>) -> (r: usize)
    ensures
        r == first_stale(stale@, stale@.len()),
        r <= stale@.len(),
{
    let mut i: usize = 0;
    while i < stale.len()
        invariant
            i <= stale@.len(),
            first_stale(stale@, i as nat) == i,
        decreases stale@.len() - i,
    {
        if stale[i] {
            proof {
                lemma_first_found(stale@, i as nat, stale@.len());
            }
            return i;
        }
        i = i + 1;
    }
    i
}

/// Once the first stale position lies inside the first `m` marks, longer
/// prefixes keep it.
proof fn lemma_first_found(stale: Seq<bool>, m: nat, n: nat)
    requires
        m < n <= stale.len(),
        first_stale(stale, m) == m,
        stale[m as int],
    ensures
        first_stale(stale, n) == m,
    decreases n,
{
    if n > m + 1 {
        lemma_first_found(stale, m, (n - 1) as nat);
    }
}

/// Position of the first stale placement that matches `p`, or the length.
fn stale_match_index(ps: &Vec<ImagePlacement>, stale: &Vec<bool>, p: &ImagePlacement) -> (r: usize)
    requires
        stale@.len() == ps@.len(),
    ensures
        r == stale_match(ps@, stale@, *p, ps@.len()),
        r <= ps@.len(),
{
    let mut i: usize = 0;
    while i < ps.len()
        invariant
            i <= ps@.len(),
            stale@.len() == ps@.len(),
            stale_match(ps@, stale@, *p, i as nat) == i,
        decreases ps@.len() - i,
    {
        if stale[i] && ps[i] == *p {
            proof {
                lemma_match_found(ps@, stale@, *p, i as nat, ps@.len());
            }
            return i;
        }
        i = i + 1;
    }
    i
}

/// Once the first stale match lies inside the first `m` placements, longer
/// prefixes keep it.
proof fn lemma_match_found(ps: Seq<ImagePlacement>, stale: Seq<bool>, p: ImagePlacement, m: nat, n: nat)
    requires
        m < n <= ps.len(),
        stale.len() == ps.len(),
        stale_match(ps, stale, p, m) == m,
        stale[m as int] && ps[m as int].same(&p),
    ensures
        stale_match(ps, stale, p, n) == m,
    decreases n,
{
    if n > m + 1 {
        lemma_match_found(ps, stale, p, m, (n - 1) as nat);
    }
}

/// One past the last live placement before `n` with replay mark
/// `replayed_mark` that overlaps `dest`; 0 when none.
fn after_overlap_index(
    ps: &Vec<ImagePlacement>,
    replayed: &Vec<bool>,
    stale: &Vec<bool>,
    replayed_mark: bool,
    dest: Rect,
    n: usize,
) -> (r: usize)
    requires
        stale@.len() == ps@.len(),
        replayed@.len() == ps@.len(),
        n <= ps@.len(),
    ensures
        r == after_overlap(ps@, replayed@, stale@, replayed_mark, dest, n as nat),
        r <= n,
{
    let mut found: usize = 0;
    let mut i: usize = 0;
    while i < n
        invariant
            i <= n <= ps@.len(),
            stale@.len() == ps@.len(),
            replayed@.len() == ps@.len(),
            found == after_overlap(ps@, replayed@, stale@, replayed_mark, dest, i as nat),
            found <= i,
        decreases n - i,
    {
        if replayed[i] == replayed_mark && !stale[i] && ps[i].destination().intersects(dest) {
            found = i + 1;
        }
        i = i + 1;
    }
    found
}

/// Removes position `at` from every scope and returns the removed marks.
fn scopes_remove(scopes: &mut Vec<Vec<bool>>, at: usize) -> (bits: Vec<bool>)
    requires
        forall|k: int| 0 <= k < old(scopes)@.len() ==> at < #[trigger] old(scopes)@[k]@.len(),
    ensures
        final(scopes)@.len() == old(scopes)@.len(),
        forall|k: int|
            0 <= k < old(scopes)@.len() ==> #[trigger] final(scopes)@[k]@ == old(scopes)@[k]@.remove(
                at as int,
            ),
        bits@.len() == old(scopes)@.len(),
        forall|k: int| 0 <= k < old(scopes)@.len() ==> #[trigger] bits@[k] == old(scopes)@[k]@[at as int],
{
    let mut bits: Vec<bool> = Vec::new();
    let mut k: usize = 0;
    while k < scopes.len()
        invariant
            k <= scopes@.len(),
            scopes@.len() == old(scopes)@.len(),
            bits@.len() == k,
            forall|q: int| 0 <= q < k ==> #[trigger] scopes@[q]@ == old(scopes)@[q]@.remove(at as int),
            forall|q: int| k <= q < scopes@.len() ==> #[trigger] scopes@[q] == old(scopes)@[q],
            forall|q: int| 0 <= q < k ==> #[trigger] bits@[q] == old(scopes)@[q]@[at as int],
            forall|q: int| 0 <= q < old(scopes)@.len() ==> at < #[trigger] old(scopes)@[q]@.len(),
        decreases scopes@.len() - k,
    {
        let ghost before = scopes@;
        let mut inner = scopes.remove(k);
        let b = inner.remove(at);
        scopes.insert(k, inner);
        bits.push(b);
        proof {
            assert forall|q: int| k < q < scopes@.len() implies #[trigger] scopes@[q] == old(scopes)@[q] by {
                assert(scopes@[q] == before[q]);
            }
            assert forall|q: int| 0 <= q < k implies #[trigger] scopes@[q]@ == old(scopes)@[q]@.remove(at as int) by {
                assert(scopes@[q] == before[q]);
            }
        }
        k = k + 1;
    }
    bits
}

/// Inserts `bits[k]` at `at` into every scope `k`.
fn scopes_insert(scopes: &mut Vec<Vec<bool>>, at: usize, bits: &Vec<bool>)
    requires
        bits@.len() == old(scopes)@.len(),
        forall|k: int| 0 <= k < old(scopes)@.len() ==> at <= #[trigger] old(scopes)@[k]@.len(),
    ensures
        final(scopes)@.len() == old(scopes)@.len(),
        forall|k: int|
            0 <= k < old(scopes)@.len() ==> #[trigger] final(scopes)@[k]@ == old(scopes)@[k]@.insert(
                at as int,
                bits@[k],
            ),
{
    let mut k: usize = 0;
    while k < scopes.len()
        invariant
            k <= scopes@.len(),
            scopes@.len() == old(scopes)@.len(),
            bits@.len() == old(scopes)@.len(),
            forall|q: int|
                0 <= q < k ==> #[trigger] scopes@[q]@ == old(scopes)@[q]@.insert(at as int, bits@[q]),
            forall|q: int| k <= q < scopes@.len() ==> #[trigger] scopes@[q] == old(scopes)@[q],
            forall|q: int| 0 <= q < old(scopes)@.len() ==> at <= #[trigger] old(scopes)@[q]@.len(),
        decreases scopes@.len() - k,
    {
        let ghost before = scopes@;
        let mut inner = scopes.remove(k);
        inner.insert(at, bits[k]);
        scopes.insert(k, inner);
        proof {
            assert forall|q: int| k < q < scopes@.len() implies #[trigger] scopes@[q] == old(scopes)@[q] by {
                assert(scopes@[q] == before[q]);
            }
            assert forall|q: int| 0 <= q < k implies #[trigger] scopes@[q]@ == old(scopes)@[q]@.insert(at as int, bits@[q]) by {
                assert(scopes@[q] == before[q]);
            }
        }
        k = k + 1;
    }
}

/// Sets position `at` of every scope to `value`.
fn scopes_set(scopes: &mut Vec<Vec<bool>>, at: usize, value: bool)
    requires
        forall|k: int| 0 <= k < old(scopes)@.len() ==> at < #[trigger] old(scopes)@[k]@.len(),
    ensures
        final(scopes)@.len() == old(scopes)@.len(),
        forall|k: int|
            0 <= k < old(scopes)@.len() ==> #[trigger] final(scopes)@[k]@ == old(scopes)@[k]@.update(
                at as int,
                value,
            ),
{
    let mut k: usize = 0;
    while k < scopes.len()
        invariant
            k <= scopes@.len(),
            scopes@.len() == old(scopes)@.len(),
            forall|q: int|
                0 <= q < k ==> #[trigger] scopes@[q]@ == old(scopes)@[q]@.update(at as int, value),
            forall|q: int| k <= q < scopes@.len() ==> #[trigger] scopes@[q] == old(scopes)@[q],
            forall|q: int| 0 <= q < old(scopes)@.len() ==> at < #[trigger] old(scopes)@[q]@.len(),
        decreases scopes@.len() - k,
    {
        let ghost before = scopes@;
        let mut inner = scopes.remove(k);
        inner.set(at, value);
        scopes.insert(k, inner);
        proof {
            assert forall|q: int| k < q < scopes@.len() implies #[trigger] scopes@[q] == old(scopes)@[q] by {
                assert(scopes@[q] == before[q]);
            }
            assert forall|q: int| 0 <= q < k implies #[trigger] scopes@[q]@ == old(scopes)@[q]@.update(at as int, value) by {
                assert(scopes@[q] == before[q]);
            }
        }
        k = k + 1;
    }
}

/// Whether a destination overlaps one of the placements.
fn overlaps_any(ps: &Vec<ImagePlacement>, dest: Rect) -> (r: bool)
    ensures
        r == exists|j: int| 0 <= j < ps@.len() && #[trigger] ps@[j].destination_spec().intersects_spec(dest),
{
    let mut j: usize = 0;
    while j < ps.len()
        invariant
            j <= ps@.len(),
            forall|q: int| 0 <= q < j ==> !#[trigger] ps@[q].destination_spec().intersects_spec(dest),
        decreases ps@.len() - j,
    {
        if ps[j].destination().intersects(dest) {
            return true;
        }
        j = j + 1;
    }
    false
}

/// `n` copies of `value`.
pub open spec fn marks(n: nat, value: bool) -> Seq<bool> {
    Seq::new(n, |i: int| value)
}

/// Complete backend-neutral native-image scene for one logical frame.
///
/// Besides the placements in stacking order, the scene tracks during a
/// selective repaint which placements are stale (damaged and not yet
/// repainted), which were replayed in the current repaint scope, and the
/// replay marks of enclosing scopes.
#[derive(Debug)]
pub struct ImageScene {
    placements: Vec<ImagePlacement>,
    stale: Vec<bool>,
    replayed: Vec<bool>,
    replay_scopes: Vec<Vec<bool>>,
}

/// Copies a mark vector.
fn copy_marks(v: &Vec<bool>) -> (r: Vec<bool>)
    ensures
        r@ == v@,
{
    let mut r: Vec<bool> = Vec::new();
    let mut i: usize = 0;
    while i < v.len()
        invariant
            i <= v@.len(),
            r@ == v@.take(i as int),
        decreases v@.len() - i,
    {
        r.push(v[i]);
        i = i + 1;
        assert(r@ =~= v@.take(i as int));
    }
    assert(v@.take(v@.len() as int) =~= v@);
    r
}

impl Clone for ImageScene {
    /// Copies the placements, which share their pixels, and every mark.
    fn clone(&self) -> (r: Self)
        ensures
            r.placements_spec() == self.placements_spec(),
            r.stale_spec() == self.stale_spec(),
            r.replayed_spec() == self.replayed_spec(),
            r.scopes_spec() == self.scopes_spec(),
    {
        let mut placements: Vec<ImagePlacement> = Vec::new();
        let mut i: usize = 0;
        while i < self.placements.len()
            invariant
                i <= self.placements@.len(),
                placements@ == self.placements@.take(i as int),
            decreases self.placements@.len() - i,
        {
            placements.push(self.placements[i].clone());
            i = i + 1;
            assert(placements@ =~= self.placements@.take(i as int));
        }
        let mut scopes: Vec<Vec<bool>> = Vec::new();
        let mut k: usize = 0;
        while k < self.replay_scopes.len()
            invariant
                k <= self.replay_scopes@.len(),
                scopes@.len() == k,
                forall|j: int| 0 <= j < k ==> #[trigger] scopes@[j]@ == self.replay_scopes@[j]@,
            decreases self.replay_scopes@.len() - k,
        {
            scopes.push(copy_marks(&self.replay_scopes[k]));
            k = k + 1;
        }
        assert(self.placements@.take(self.placements@.len() as int) =~= self.placements@);
        let r = ImageScene {
            placements,
            stale: copy_marks(&self.stale),
            replayed: copy_marks(&self.replayed),
            replay_scopes: scopes,
        };
        assert(r.scopes_spec() =~= self.scopes_spec());
        r
    }
}

impl ImageScene {
    /// Placements in stacking order.
    pub closed spec fn placements_spec(&self) -> Seq<ImagePlacement> {
        self.placements@
    }

    /// Stale marks, one per placement.
    pub closed spec fn stale_spec(&self) -> Seq<bool> {
        self.stale@
    }

    /// Replay marks of the current repaint scope, one per placement.
    pub closed spec fn replayed_spec(&self) -> Seq<bool> {
        self.replayed@
    }

    /// Replay marks of enclosing repaint scopes.
    pub closed spec fn scopes_spec(&self) -> Seq<Seq<bool>> {
        self.replay_scopes@.map_values(|v: Vec<bool>| v@)
    }

    /// Every per-placement mark sequence has one mark per placement.
    pub open spec fn wf(&self) -> bool {
        &&& self.stale_spec().len() == self.placements_spec().len()
        &&& self.replayed_spec().len() == self.placements_spec().len()
        &&& forall|k: int|
            0 <= k < self.scopes_spec().len() ==> #[trigger] self.scopes_spec()[k].len()
                == self.placements_spec().len()
    }

    /// Creates an empty image scene.
    pub fn new() -> (r: Self)
        ensures
            r.wf(),
            r.placements_spec().len() == 0,
            r.scopes_spec().len() == 0,
    {
        ImageScene {
            placements: Vec::new(),
            stale: Vec::new(),
            replayed: Vec::new(),
            replay_scopes: Vec::new(),
        }
    }

    /// Creates a scene from placements in their supplied order.
    pub fn from_placements(placements: Vec<ImagePlacement>) -> (r: Self)
        ensures
            r.wf(),
            r.placements_spec() == placements@,
            forall|i: int| 0 <= i < placements@.len() ==> !#[trigger] r.stale_spec()[i],
            forall|i: int| 0 <= i < placements@.len() ==> !#[trigger] r.replayed_spec()[i],
            r.scopes_spec().len() == 0,
    {
        let n = placements.len();
        let stale = Self::flags(n, false);
        let replayed = Self::flags(n, false);
        let r = ImageScene { placements, stale, replayed, replay_scopes: Vec::new() };
        assert(r.scopes_spec() =~= Seq::<Seq<bool>>::empty());
        r
    }

    /// A vector of `n` copies of `value`.
    fn flags(n: usize, value: bool) -> (r: Vec<bool>)
        ensures
            r@ == Seq::new(n as nat, |i: int| value),
    {
        let mut v: Vec<bool> = Vec::new();
        let mut i: usize = 0;
        while i < n
            invariant
                i <= n,
                v@ == Seq::new(i as nat, |j: int| value),
            decreases n - i,
        {
            v.push(value);
            i = i + 1;
            assert(v@ =~= Seq::new(i as nat, |j: int| value));
        }
        v
    }

    /// Returns image placements in their retained scene order; relative
    /// order determines stacking for overlapping placements.
    pub fn placements(&self) -> (r: &[ImagePlacement])
        ensures
            r@ == self.placements_spec(),
    {
        self.placements.as_slice()
    }

    /// Returns the stale marks, one per placement.
    pub fn stale_marks(&self) -> (r: &[bool])
        ensures
            r@ == self.stale_spec(),
    {
        self.stale.as_slice()
    }

    /// Returns the replay marks of the current repaint scope, one per
    /// placement.
    pub fn replay_marks(&self) -> (r: &[bool])
        ensures
            r@ == self.replayed_spec(),
    {
        self.replayed.as_slice()
    }

    /// Returns the number of enclosing repaint scopes.
    pub fn scope_depth(&self) -> (r: usize)
        ensures
            r == self.scopes_spec().len(),
    {
        self.replay_scopes.len()
    }

    /// Returns whether the scene contains no placements.
    pub fn is_empty(&self) -> (r: bool)
        ensures
            r == (self.placements_spec().len() == 0),
    {
        self.placements.len() == 0
    }
}

impl ImageScene {
    /// Decoded source bytes that the live placements reference once
    /// `placement` is added, each image counted once, saturating.
    pub fn source_bytes_with(&self, placement: &ImagePlacement) -> (r: usize)
        requires
            self.wf(),
        ensures
            r == bytes_with(self.placements_spec(), self.stale_spec(), *placement),
    {
        let ghost ps = self.placements_spec();
        let ghost st = self.stale_spec();
        let mut sources: Vec<ImageId> = Vec::new();
        let mut bytes: usize = 0;
        let mut i: usize = 0;
        while i < self.placements.len()
            invariant
                i <= ps.len(),
                ps == self.placements@,
                st == self.stale@,
                st.len() == ps.len(),
                forall|x: ImageId| #[trigger] sources@.contains(x) <==> live_images(ps, st, i as nat).contains(x),
                live_bytes(ps, st, i as nat) >= 0,
                bytes == if live_bytes(ps, st, i as nat) > usize::MAX {
                    usize::MAX as int
                } else {
                    live_bytes(ps, st, i as nat)
                },
            decreases ps.len() - i,
        {
            let existing = &self.placements[i];
            let id = existing.image().id();
            let ghost before = sources@;
            if !self.stale[i] && !contains_image(&sources, id) {
                sources.push(id);
                bytes = bytes.saturating_add(existing.image().pixels().len());
                proof {
                    assert forall|x: ImageId| #[trigger] sources@.contains(x) <==> live_images(
                        ps,
                        st,
                        (i + 1) as nat,
                    ).contains(x) by {
                        if x == id {
                            assert(sources@[before.len() as int] == id);
                        }
                        if before.contains(x) {
                            let k = choose|k: int| 0 <= k < before.len() && before[k] == x;
                            assert(sources@[k] == x);
                        }
                    }
                }
            }
            i = i + 1;
        }
        let id = placement.image().id();
        if !contains_image(&sources, id) {
            bytes = bytes.saturating_add(placement.image().pixels().len());
        }
        bytes
    }

    /// Returns to the repaint scope at `depth`, taking back the replay marks
    /// of the innermost scope that closes.
    fn resume_repaint_scope(&mut self, depth: usize)
        requires
            old(self).wf(),
        ensures
            final(self).wf(),
            final(self).placements_spec() == old(self).placements_spec(),
            final(self).stale_spec() == old(self).stale_spec(),
            final(self).replayed_spec() == resumed_replayed(
                old(self).replayed_spec(),
                old(self).scopes_spec(),
                depth as int,
            ),
            final(self).scopes_spec() == resumed_scopes(old(self).scopes_spec(), depth as int),
    {
        let ghost scopes0 = self.scopes_spec();
        while self.replay_scopes.len() > depth
            invariant
                self.wf(),
                self.placements_spec() == old(self).placements_spec(),
                self.stale_spec() == old(self).stale_spec(),
                scopes0 == old(self).scopes_spec(),
                self.scopes_spec().len() <= scopes0.len(),
                scopes0.len() > depth ==> depth <= self.scopes_spec().len(),
                scopes0.len() <= depth ==> self.scopes_spec().len() == scopes0.len(),
                self.scopes_spec() == scopes0.take(self.scopes_spec().len() as int),
                self.scopes_spec().len() < scopes0.len() ==> self.replayed_spec()
                    == scopes0[self.scopes_spec().len() as int],
                self.scopes_spec().len() == scopes0.len() ==> self.replayed_spec() == old(
                    self,
                ).replayed_spec(),
            decreases self.replay_scopes@.len(),
        {
            let ghost n = self.scopes_spec().len();
            let ghost vs = self.replay_scopes@;
            assert(self.scopes_spec()[n - 1] == vs[n - 1]@);
            assert(self.scopes_spec()[n - 1].len() == self.placements_spec().len());
            let top = self.replay_scopes.pop();
            match top {
                Some(marks) => {
                    self.replayed = marks;
                },
                None => {},
            }
            proof {
                assert(self.replay_scopes@ == vs.drop_last());
                assert(self.scopes_spec() =~= scopes0.take(n - 1));
                assert(self.replayed_spec() == scopes0[n - 1]);
                assert forall|k: int| 0 <= k < self.scopes_spec().len() implies #[trigger] self.scopes_spec()[k].len()
                    == self.placements_spec().len() by {
                    assert(self.scopes_spec()[k] == scopes0[k]);
                }
            }
        }
        proof {
            if scopes0.len() <= depth {
                assert(self.scopes_spec() =~= scopes0);
            }
        }
    }

    /// Marks the placements that damaged `rows` within `clip` touch stale, at
    /// repaint depth `depth`, and returns the resulting depth. When the
    /// damage touches a live placement, stale placements that no live
    /// placement overlaps are retired, and a new replay scope opens.
    pub fn mark_damaged(&mut self, rows: &[bool], clip: Rect, depth: usize) -> (r: usize)
        requires
            old(self).wf(),
        ensures
            final(self).wf(),
            ({
                let ps = old(self).placements_spec();
                let st = old(self).stale_spec();
                let replayed0 = resumed_replayed(
                    old(self).replayed_spec(),
                    old(self).scopes_spec(),
                    depth as int,
                );
                let scopes0 = resumed_scopes(old(self).scopes_spec(), depth as int);
                let st1 = stale_after(ps, st, rows@, clip);
                if newly_damaged(ps, st, rows@, clip) {
                    let ret = retired(ps, st1);
                    &&& final(self).placements_spec() == keep(ps, ret)
                    &&& final(self).stale_spec() == keep(st1, ret)
                    &&& final(self).replayed_spec() == marks(
                        final(self).placements_spec().len(),
                        false,
                    )
                    &&& final(self).scopes_spec() == scopes0.map_values(
                        |m: Seq<bool>| keep(m, ret),
                    ).push(keep(replayed0, ret))
                    &&& r == scopes0.len() + 1
                } else {
                    &&& final(self).placements_spec() == ps
                    &&& final(self).stale_spec() == st
                    &&& final(self).replayed_spec() == replayed0
                    &&& final(self).scopes_spec() == scopes0
                    &&& r == scopes0.len()
                }
            }),
    {
        self.resume_repaint_scope(depth);
        let ghost ps = self.placements_spec();
        let ghost st = self.stale_spec();
        let mut stale1: Vec<bool> = Vec::new();
        let mut newly = false;
        let mut i: usize = 0;
        while i < self.placements.len()
            invariant
                i <= ps.len(),
                ps == self.placements@,
                st == self.stale@,
                st.len() == ps.len(),
                stale1@.len() == i,
                forall|k: int| 0 <= k < i ==> #[trigger] stale1@[k] == stale_after(ps, st, rows@, clip)[k],
                newly <==> exists|k: int| 0 <= k < i && !st[k] && damaged_by(ps[k], rows@, clip),
            decreases ps.len() - i,
        {
            let damaged = touches(&self.placements[i], rows, clip);
            if damaged && !self.stale[i] {
                newly = true;
            }
            stale1.push(self.stale[i] || damaged);
            i = i + 1;
        }
        assert(stale1@ =~= stale_after(ps, st, rows@, clip));
        if !newly {
            assert(stale1@ =~= st);
            return self.replay_scopes.len();
        }
        let ret = retired_marks(&self.placements, &stale1);
        let kept = keep_placements(&self.placements, &ret);
        let kept_stale = keep_flags(&stale1, &ret);
        let kept_replayed = keep_flags(&self.replayed, &ret);
        let mut scopes: Vec<Vec<bool>> = Vec::new();
        let ghost scopes0 = self.scopes_spec();
        let mut k: usize = 0;
        while k < self.replay_scopes.len()
            invariant
                k <= scopes0.len(),
                scopes0 == self.scopes_spec(),
                ret@.len() == ps.len(),
                forall|q: int| 0 <= q < scopes0.len() ==> #[trigger] scopes0[q].len() == ps.len(),
                scopes@.len() == k,
                forall|q: int| 0 <= q < k ==> #[trigger] scopes@[q]@ == keep(scopes0[q], ret@),
            decreases scopes0.len() - k,
        {
            assert(scopes0[k as int] == self.replay_scopes@[k as int]@);
            let flags = keep_flags(&self.replay_scopes[k], &ret);
            scopes.push(flags);
            k = k + 1;
        }
        let ghost before_push = scopes@;
        scopes.push(kept_replayed);
        let n = kept.len();
        proof {
            lemma_keep_len(ps, stale1@, ret@);
            lemma_keep_len(ps, self.replayed@, ret@);
            assert(scopes@.map_values(|v: Vec<bool>| v@) =~= scopes0.map_values(
                |m: Seq<bool>| keep(m, ret@),
            ).push(keep(self.replayed@, ret@)));
            assert forall|q: int| 0 <= q < scopes0.len() implies #[trigger] keep(scopes0[q], ret@).len()
                == n by {
                lemma_keep_len(scopes0[q], ps, ret@);
            }
        }
        self.placements = kept;
        self.stale = kept_stale;
        self.replayed = Self::flags(n, false);
        self.replay_scopes = scopes;
        proof {
            assert forall|q: int| 0 <= q < self.scopes_spec().len() implies #[trigger] self.scopes_spec()[q].len()
                == self.placements_spec().len() by {
                if q < scopes0.len() {
                    assert(self.scopes_spec()[q] == keep(scopes0[q], ret@));
                }
            }
        }
        self.replay_scopes.len()
    }

    /// Ends a selective repaint: stale placements are dropped and every mark
    /// and scope is cleared.
    pub fn finish_repaint(&mut self)
        requires
            old(self).wf(),
        ensures
            final(self).wf(),
            final(self).placements_spec() == keep(old(self).placements_spec(), old(self).stale_spec()),
            final(self).stale_spec() == marks(final(self).placements_spec().len(), false),
            final(self).replayed_spec() == marks(final(self).placements_spec().len(), false),
            final(self).scopes_spec().len() == 0,
    {
        let kept = keep_placements(&self.placements, &self.stale);
        let n = kept.len();
        self.placements = kept;
        self.stale = Self::flags(n, false);
        self.replayed = Self::flags(n, false);
        self.replay_scopes = Vec::new();
        assert(self.scopes_spec() =~= Seq::<Seq<bool>>::empty());
    }
}

impl ImageScene {
    /// Moves the stale occurrence at `index` later, to just before position
    /// `next`, carrying along the placements in between that still await
    /// their replay and overlap what moves (see [`gather`]); the moved block
    /// keeps its order and its replay marks are cleared. The occurrence
    /// becomes live and replayed; its new position is returned.
    fn move_replay(&mut self, index: usize, next: usize) -> (pos: usize)
        requires
            old(self).wf(),
            index < next <= old(self).placements_spec().len(),
        ensures
            final(self).wf(),
            final(self).placements_spec().len() == old(self).placements_spec().len(),
            (final(self).placements_spec(), final(self).stale_spec(), final(self).replayed_spec(),
            final(self).scopes_spec(), pos as int) == replayed_block(
                old(self).placements_spec(),
                old(self).stale_spec(),
                old(self).replayed_spec(),
                old(self).scopes_spec(),
                index as int,
                next as int,
            ),
    {
        let ghost ps0 = self.placements@;
        let ghost st0 = self.stale@;
        let ghost rp0 = self.replayed@;
        let ghost sc0 = self.scopes_spec();
        let ghost next0 = next as int;
        let ghost nscopes = self.replay_scopes@.len();
        let ghost g = gather(ps0, st0, rp0, sc0, seq![], seq![], seq![], index as int, next0);
        proof {
            assert forall|k: int| 0 <= k < nscopes implies #[trigger] self.replay_scopes@[k]@.len()
                == ps0.len() by {
                assert(self.scopes_spec()[k] == self.replay_scopes@[k]@);
            }
            lemma_gather(ps0, st0, rp0, sc0, seq![], seq![], seq![], index as int, next0);
        }
        let mut moving: Vec<ImagePlacement> = Vec::new();
        let mut moving_stale: Vec<bool> = Vec::new();
        let mut moving_bits: Vec<Vec<bool>> = Vec::new();
        let mut next = next;
        let mut scan = index;
        proof {
            assert(marks_of(moving_bits@) =~= seq![]);
            assert(moving@ =~= seq![]);
            assert(moving_stale@ =~= seq![]);
        }
        while scan < next
            invariant
                self.stale@.len() == self.placements@.len(),
                self.replayed@.len() == self.placements@.len(),
                self.replay_scopes@.len() == nscopes,
                forall|k: int| 0 <= k < nscopes ==> #[trigger] self.replay_scopes@[k]@.len()
                    == self.placements@.len(),
                moving_stale@.len() == moving@.len(),
                moving_bits@.len() == moving@.len(),
                forall|j: int| 0 <= j < moving_bits@.len() ==> #[trigger] moving_bits@[j]@.len()
                    == nscopes,
                index <= scan <= next <= self.placements@.len(),
                gather(
                    self.placements@,
                    self.stale@,
                    self.replayed@,
                    self.scopes_spec(),
                    moving@,
                    moving_stale@,
                    marks_of(moving_bits@),
                    scan as int,
                    next as int,
                ) == g,
            decreases next - scan,
        {
            let take = if moving.len() == 0 {
                true
            } else {
                (self.stale[scan] || !self.replayed[scan]) && overlaps_any(
                    &moving,
                    self.placements[scan].destination(),
                )
            };
            let ghost ps1 = self.placements@;
            let ghost st1 = self.stale@;
            let ghost rp1 = self.replayed@;
            let ghost sc1 = self.scopes_spec();
            let ghost mv1 = moving@;
            let ghost ms1 = moving_stale@;
            let ghost mb1 = marks_of(moving_bits@);
            if take {
                let p = self.placements.remove(scan);
                moving.push(p);
                let st = self.stale.remove(scan);
                moving_stale.push(st);
                self.replayed.remove(scan);
                let ghost scopes_before = self.replay_scopes@;
                let bits = scopes_remove(&mut self.replay_scopes, scan);
                moving_bits.push(bits);
                next = next - 1;
                proof {
                    assert(self.scopes_spec() =~= scopes_without(sc1, scan as int)) by {
                        assert forall|k: int| 0 <= k < nscopes implies #[trigger] self.scopes_spec()[k]
                            == scopes_without(sc1, scan as int)[k] by {
                            assert(sc1[k] == scopes_before[k]@);
                        }
                    }
                    assert(bits@ =~= scope_column(sc1, scan as int)) by {
                        assert forall|k: int| 0 <= k < nscopes implies #[trigger] bits@[k]
                            == scope_column(sc1, scan as int)[k] by {
                            assert(sc1[k] == scopes_before[k]@);
                        }
                    }
                    assert(marks_of(moving_bits@) =~= mb1.push(scope_column(sc1, scan as int)));
                    assert(mv1.len() == 0 || ((st1[scan as int] || !rp1[scan as int])
                        && block_overlaps(mv1, ps1[scan as int].destination_spec())));
                }
            } else {
                scan = scan + 1;
                proof {
                    assert(!(mv1.len() == 0 || ((st1[scan - 1] || !rp1[scan - 1]) && block_overlaps(
                        mv1,
                        ps1[scan - 1].destination_spec(),
                    ))));
                }
            }
        }
        let ghost at = next as int;
        let ghost count = moving@.len();
        proof {
            assert(g == (self.placements@, self.stale@, self.replayed@, self.scopes_spec(),
            moving@, moving_stale@, marks_of(moving_bits@), at));
        }
        let ghost rest_ps = self.placements@;
        let ghost rest_st = self.stale@;
        let ghost rest_rp = self.replayed@;
        let ghost rest_sc = self.scopes_spec();
        let ghost block = moving@;
        let ghost block_stale = moving_stale@;
        let ghost block_marks = marks_of(moving_bits@);
        let mut remaining = moving.len();
        proof {
            assert(rest_ps.take(at) + block.skip(count as int) + rest_ps.skip(at) =~= rest_ps);
            assert(rest_st.take(at) + block_stale.skip(count as int) + rest_st.skip(at) =~= rest_st);
            assert(rest_rp.take(at) + Seq::new(0, |j: int| false) + rest_rp.skip(at) =~= rest_rp);
            assert forall|k: int| 0 <= k < nscopes implies #[trigger] self.scopes_spec()[k]
                == rest_sc[k].take(at) + Seq::new(0, |j: int| block_marks[j][k])
                + rest_sc[k].skip(at) by {
                assert(rest_sc[k].take(at) + Seq::new(0, |j: int| block_marks[j][k])
                    + rest_sc[k].skip(at) =~= rest_sc[k]);
            }
        }
        while remaining > 0
            invariant
                remaining <= count,
                count == block.len(),
                moving@.len() == remaining,
                moving_stale@.len() == remaining,
                moving_bits@.len() == remaining,
                moving@ == block.take(remaining as int),
                moving_stale@ == block_stale.take(remaining as int),
                marks_of(moving_bits@) == block_marks.take(remaining as int),
                block_stale.len() == count,
                block_marks.len() == count,
                forall|j: int| 0 <= j < moving_bits@.len() ==> #[trigger] moving_bits@[j]@.len()
                    == nscopes,
                0 <= at <= rest_ps.len(),
                next == at,
                rest_st.len() == rest_ps.len(),
                rest_rp.len() == rest_ps.len(),
                rest_sc.len() == nscopes,
                forall|k: int| 0 <= k < nscopes ==> #[trigger] rest_sc[k].len() == rest_ps.len(),
                self.replay_scopes@.len() == nscopes,
                self.placements@ == rest_ps.take(at) + block.skip(remaining as int) + rest_ps.skip(
                    at,
                ),
                self.stale@ == rest_st.take(at) + block_stale.skip(remaining as int) + rest_st.skip(
                    at,
                ),
                self.replayed@ == rest_rp.take(at) + Seq::new(
                    (count - remaining) as nat,
                    |j: int| false,
                ) + rest_rp.skip(at),
                forall|k: int|
                    0 <= k < nscopes ==> #[trigger] self.scopes_spec()[k] == rest_sc[k].take(at)
                        + Seq::new((count - remaining) as nat, |j: int| block_marks[remaining + j][k])
                        + rest_sc[k].skip(at),
            decreases remaining,
        {
            let ghost before_sc = self.scopes_spec();
            let ghost r = remaining as int;
            let p = moving.pop().unwrap();
            self.placements.insert(next, p);
            let st = moving_stale.pop().unwrap();
            self.stale.insert(next, st);
            self.replayed.insert(next, false);
            let ghost scopes_before = self.replay_scopes@;
            let bits = moving_bits.pop().unwrap();
            proof {
                assert(marks_of(moving_bits@) =~= block_marks.take(r - 1));
                assert(bits@ == block_marks[r - 1]) by {
                    assert(marks_of(moving_bits@.push(bits)) == block_marks.take(r));
                    assert(marks_of(moving_bits@.push(bits))[r - 1] == bits@);
                }
                assert forall|k: int| 0 <= k < nscopes implies next <= #[trigger] self.replay_scopes@[k]@.len() by {
                    assert(before_sc[k] == self.replay_scopes@[k]@);
                }
            }
            scopes_insert(&mut self.replay_scopes, next, &bits);
            remaining = remaining - 1;
            proof {
                assert(moving@ =~= block.take(remaining as int));
                assert(moving_stale@ =~= block_stale.take(remaining as int));
                assert(p == block[remaining as int]);
                assert(st == block_stale[remaining as int]);
                assert(self.placements@ =~= rest_ps.take(at) + block.skip(remaining as int)
                    + rest_ps.skip(at));
                assert(self.stale@ =~= rest_st.take(at) + block_stale.skip(remaining as int)
                    + rest_st.skip(at));
                assert(self.replayed@ =~= rest_rp.take(at) + Seq::new(
                    (count - remaining) as nat,
                    |j: int| false,
                ) + rest_rp.skip(at));
                assert forall|k: int| 0 <= k < nscopes implies #[trigger] self.scopes_spec()[k]
                    == rest_sc[k].take(at) + Seq::new(
                    (count - remaining) as nat,
                    |j: int| block_marks[remaining + j][k],
                ) + rest_sc[k].skip(at) by {
                    assert(before_sc[k] == scopes_before[k]@);
                    assert(self.scopes_spec()[k] == before_sc[k].insert(at, bits@[k]));
                    assert(self.scopes_spec()[k] =~= rest_sc[k].take(at) + Seq::new(
                        (count - remaining) as nat,
                        |j: int| block_marks[remaining + j][k],
                    ) + rest_sc[k].skip(at));
                }
            }
        }
        proof {
            assert(block.len() > 0);
            assert forall|k: int| 0 <= k < nscopes implies next < #[trigger] self.replay_scopes@[k]@.len() by {
                assert(self.scopes_spec()[k] == self.replay_scopes@[k]@);
            }
        }
        let ghost sc_before_set = self.scopes_spec();
        let ghost sc_before_set_vecs = self.replay_scopes@;
        self.stale.set(next, false);
        self.replayed.set(next, true);
        scopes_set(&mut self.replay_scopes, next, true);
        proof {
            let expected = replayed_block(ps0, st0, rp0, sc0, index as int, next0);
            assert(self.placements@ =~= expected.0);
            assert(self.placements@.len() == ps0.len());
            assert(self.stale@ =~= expected.1);
            assert(self.replayed@ =~= expected.2);
            assert(g.6 == block_marks);
            assert(self.scopes_spec() =~= expected.3) by {
                assert forall|k: int| 0 <= k < nscopes implies #[trigger] self.scopes_spec()[k]
                    == expected.3[k] by {
                    assert(sc_before_set[k] == rest_sc[k].take(at) + Seq::new(
                        (count - 0) as nat,
                        |j: int| block_marks[0 + j][k],
                    ) + rest_sc[k].skip(at));
                    assert(Seq::new((count - 0) as nat, |j: int| block_marks[0 + j][k]) =~= Seq::new(
                        count,
                        |j: int| g.6[j][k],
                    ));
                    assert(sc_before_set[k] == sc_before_set_vecs[k]@);
                    assert(self.scopes_spec()[k] == sc_before_set[k].update(at, true));
                    assert(self.scopes_spec()[k] =~= expected.3[k]);
                }
            }
            assert forall|k: int| 0 <= k < self.scopes_spec().len() implies #[trigger] self.scopes_spec()[k].len()
                == self.placements_spec().len() by {
                assert(self.scopes_spec()[k] == expected.3[k]);
            }
        }
        next
    }
}

impl ImageScene {
    /// Adds `placement` during a repaint, within `maximum_placements` live
    /// placements and `maximum_bytes` decoded source bytes.
    ///
    /// A stale occurrence of the same placement is replayed rather than
    /// duplicated: it becomes live again at its replay position, after every
    /// untouched placement before it that it overlaps. Otherwise the
    /// placement is inserted at the insertion point. Either way it is
    /// marked replayed in every open scope. Errors leave the scene unchanged.
    pub fn push_with_limits(
        &mut self,
        placement: ImagePlacement,
        maximum_placements: usize,
        maximum_bytes: usize,
    ) -> (r: Result<(), ImageSceneError>)
        requires
            old(self).wf(),
        ensures
            final(self).wf(),
            push_outcome(
                old(self).placements_spec(),
                old(self).stale_spec(),
                old(self).replayed_spec(),
                old(self).scopes_spec(),
                placement,
                maximum_placements,
                maximum_bytes,
                r,
                final(self).placements_spec(),
                final(self).stale_spec(),
                final(self).replayed_spec(),
                final(self).scopes_spec(),
            ),
    {
        let live = live_placements(&self.stale);
        if live >= maximum_placements {
            return Err(ImageSceneError::TooManyPlacements { maximum: maximum_placements });
        }
        let bytes = self.source_bytes_with(&placement);
        if bytes > maximum_bytes {
            return Err(ImageSceneError::TooLarge { bytes, maximum: maximum_bytes });
        }
        let n = self.placements.len();
        let first = first_stale_index(&self.stale);
        let after = after_overlap_index(
            &self.placements,
            &self.replayed,
            &self.stale,
            true,
            placement.destination(),
            n,
        );
        let mut next = if first >= after {
            first
        } else {
            after
        };
        let index = stale_match_index(&self.placements, &self.stale, &placement);
        let ghost sc = self.scopes_spec();
        proof {
            assert forall|k: int| 0 <= k < self.replay_scopes@.len() implies #[trigger] self.replay_scopes@[k]@.len()
                == n by {
                assert(self.scopes_spec()[k] == self.replay_scopes@[k]@);
            }
        }
        if index < n {
            let anchor = after_overlap_index(
                &self.placements,
                &self.replayed,
                &self.stale,
                false,
                placement.destination(),
                index,
            );
            if anchor > next {
                next = anchor;
            }
            if index < next {
                let pos = self.move_replay(index, next);
                return Ok(());
            }
            let moved = self.placements.remove(index);
            self.placements.insert(next, moved);
            self.stale.remove(index);
            self.stale.insert(next, false);
            self.replayed.remove(index);
            self.replayed.insert(next, true);
            let ghost scopes_before = self.replay_scopes@;
            let _ = scopes_remove(&mut self.replay_scopes, index);
            let ghost scopes_mid = self.replay_scopes@;
            let trues = Self::flags(self.replay_scopes.len(), true);
            scopes_insert(&mut self.replay_scopes, next, &trues);
            proof {
                assert(self.scopes_spec() =~= sc.map_values(
                    |m: Seq<bool>| m.remove(index as int).insert(next as int, true),
                )) by {
                    assert forall|k: int| 0 <= k < sc.len() implies #[trigger] self.scopes_spec()[k]
                        == sc[k].remove(index as int).insert(next as int, true) by {
                        assert(sc[k] == scopes_before[k]@);
                        assert(scopes_mid[k]@ == scopes_before[k]@.remove(index as int));
                    }
                }
                assert forall|k: int| 0 <= k < self.scopes_spec().len() implies #[trigger] self.scopes_spec()[k].len()
                    == self.placements_spec().len() by {
                    assert(self.scopes_spec()[k] == sc[k].remove(index as int).insert(next as int, true));
                }
            }
            return Ok(());
        }
        self.placements.insert(next, placement);
        self.stale.insert(next, false);
        self.replayed.insert(next, true);
        let ghost scopes_before = self.replay_scopes@;
        let trues = Self::flags(self.replay_scopes.len(), true);
        scopes_insert(&mut self.replay_scopes, next, &trues);
        proof {
            assert(self.scopes_spec() =~= sc.map_values(|m: Seq<bool>| m.insert(next as int, true)))
                by {
                assert forall|k: int| 0 <= k < sc.len() implies #[trigger] self.scopes_spec()[k]
                    == sc[k].insert(next as int, true) by {
                    assert(sc[k] == scopes_before[k]@);
                }
            }
            assert forall|k: int| 0 <= k < self.scopes_spec().len() implies #[trigger] self.scopes_spec()[k].len()
                == self.placements_spec().len() by {
                assert(self.scopes_spec()[k] == sc[k].insert(next as int, true));
            }
        }
        Ok(())
    }

    /// Adds `placement` at repaint depth `depth` within the scene limits
    /// `MAX_IMAGE_PLACEMENTS` and `MAX_IMAGE_SCENE_BYTES` (see
    /// [`ImageScene::push_with_limits`]).
    pub fn push(&mut self, placement: ImagePlacement, depth: usize) -> (r: Result<(), ImageSceneError>)
        requires
            old(self).wf(),
        ensures
            final(self).wf(),
            push_outcome(
                old(self).placements_spec(),
                old(self).stale_spec(),
                resumed_replayed(old(self).replayed_spec(), old(self).scopes_spec(), depth as int),
                resumed_scopes(old(self).scopes_spec(), depth as int),
                placement,
                MAX_IMAGE_PLACEMENTS,
                MAX_IMAGE_SCENE_BYTES,
                r,
                final(self).placements_spec(),
                final(self).stale_spec(),
                final(self).replayed_spec(),
                final(self).scopes_spec(),
            ),
            (forall|i: int| 0 <= i < old(self).stale_spec().len() ==> !old(self).stale_spec()[i])
                && r is Ok ==> final(self).placements_spec() == old(self).placements_spec().push(
                placement,
            ),
    {
        self.resume_repaint_scope(depth);
        let ghost ps = self.placements_spec();
        let ghost st = self.stale_spec();
        let ghost rp = self.replayed_spec();
        let r = self.push_with_limits(placement, MAX_IMAGE_PLACEMENTS, MAX_IMAGE_SCENE_BYTES);
        proof {
            if (forall|i: int| 0 <= i < st.len() ==> !st[i]) {
                lemma_nothing_stale(ps, st, rp, placement);
            }
        }
        r
    }
}

impl Default for ImageScene {
    fn default() -> (r: Self)
        ensures
            r.wf(),
            r.placements_spec().len() == 0,
            r.scopes_spec().len() == 0,
    {
        Self::new()
    }
}

} // verus!
