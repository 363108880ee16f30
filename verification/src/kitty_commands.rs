use vstd::prelude::*;

use crate::geometry::Rect;
use crate::image::PixelRect;
use crate::kitty::{scaled_source, scaled_source_spec, EncodedImage, TransferSize, MAX_CHUNK_BYTES};
use crate::kitty_state::{PreparedPlacement, PreparedUpdate};
use vstd::seq_lib::lemma_concat_associative;
use crate::wire::{
    addressable, ascii, coordinate, decimal, move_to, push_bytes, push_decimal, push_literal,
    push_move_to, CoordinateOutOfRange,
};

verus! {

// ---------------------------------------------------------------------------
// Byte-exact Kitty graphics commands.
// ---------------------------------------------------------------------------

/// Decimal digits of an integer, with a leading `-` when negative.
pub open spec fn signed_decimal(v: int) -> Seq<u8> {
    if v < 0 {
        ascii("-"@) + decimal((-v) as nat)
    } else {
        decimal(v as nat)
    }
}

/// Deletes the image with wire id `id` and all of its placements, quietly.
pub open spec fn deletion(id: u32) -> Seq<u8> {
    ascii("\x1b_Ga=d,d=I,i="@) + decimal(id as nat) + ascii(",q=2\x1b\\"@)
}

/// One deletion command per wire id, in order.
pub open spec fn deletions(ids: Seq<u32>) -> Seq<u8>
    decreases ids.len(),
{
    if ids.len() == 0 {
        Seq::empty()
    } else {
        deletions(ids.drop_last()) + deletion(ids.last())
    }
}

/// Terminates an interrupted APC command and ends a synchronized update
/// whose closing sequence it may have swallowed.
pub open spec fn recovery(recover_stream: bool) -> Seq<u8> {
    if recover_stream {
        ascii("\x1b\\"@) + ascii("\x1b[?2026l"@)
    } else {
        Seq::empty()
    }
}

/// The placement fields shared by uploads and repeated placements: source
/// region in transfer pixels, destination size in cells, and stacking order.
pub open spec fn placement_fields(source: PixelRect, destination: Rect, z_index: i32) -> Seq<u8> {
    ascii(",x="@) + decimal(source.x as nat) + ascii(",y="@) + decimal(source.y as nat) + ascii(
        ",w="@,
    ) + decimal(source.width as nat) + ascii(",h="@) + decimal(source.height as nat) + ascii(
        ",c="@,
    ) + decimal(destination.width as nat) + ascii(",r="@) + decimal(destination.height as nat)
        + ascii(",C=1,q=2,z="@) + signed_decimal(z_index as int)
}

/// Shows the already uploaded image `id` again without moving the cursor.
pub open spec fn placement_command(
    id: u32,
    source: PixelRect,
    destination: Rect,
    z_index: i32,
) -> Seq<u8> {
    ascii("\x1b_Ga=p,i="@) + decimal(id as nat) + placement_fields(source, destination, z_index)
        + ascii("\x1b\\"@)
}

/// Continuation commands carrying `rest` in chunks of `MAX_CHUNK_BYTES`;
/// every chunk but the last announces more data.
pub open spec fn continuations(rest: Seq<u8>) -> Seq<u8>
    decreases rest.len(),
{
    if rest.len() == 0 {
        Seq::empty()
    } else if rest.len() <= MAX_CHUNK_BYTES {
        ascii("\x1b_Gm=0,q=2;"@) + rest + ascii("\x1b\\"@)
    } else {
        ascii("\x1b_Gm=1,q=2;"@) + rest.take(MAX_CHUNK_BYTES as int) + ascii("\x1b\\"@)
            + continuations(rest.skip(MAX_CHUNK_BYTES as int))
    }
}

/// Length of the payload carried by the first upload command: all of it in
/// single-command mode, otherwise at most `MAX_CHUNK_BYTES`.
pub open spec fn first_chunk_len(len: int, single_command: bool) -> int {
    if single_command || len <= MAX_CHUNK_BYTES {
        len
    } else {
        MAX_CHUNK_BYTES as int
    }
}

/// Transmits and shows an image with direct transfer: the header with the
/// first payload chunk, then continuation chunks.
pub open spec fn upload_command(
    encoded: EncodedImage,
    id: u32,
    source: PixelRect,
    destination: Rect,
    z_index: i32,
    single_command: bool,
) -> Seq<u8> {
    let payload = encoded.payload@;
    let first = first_chunk_len(payload.len() as int, single_command);
    ascii("\x1b_Ga=T,f="@) + decimal(encoded.format as nat) + ascii(",t=d"@) + (if encoded.compressed {
        ascii(",o=z"@)
    } else {
        Seq::empty()
    }) + ascii(",s="@) + decimal(encoded.size.width as nat) + ascii(",v="@) + decimal(
        encoded.size.height as nat,
    ) + ascii(",i="@) + decimal(id as nat) + placement_fields(source, destination, z_index) + (if first
        < payload.len() {
        ascii(",m=1"@)
    } else {
        Seq::empty()
    }) + ascii(";"@) + payload.take(first) + ascii("\x1b\\"@) + continuations(payload.skip(first))
}

/// Whether the destination of a prepared placement can be addressed.
pub open spec fn placeable(p: PreparedPlacement) -> bool {
    addressable(p.placement.destination_spec().x as int) && addressable(
        p.placement.destination_spec().y as int,
    )
}

/// Output for one prepared placement: a cursor move to its destination,
/// then its upload or repeated placement.
pub open spec fn placement_output(p: PreparedPlacement, single_command: bool) -> Seq<u8> {
    let placement = *p.placement;
    let image = placement.image_spec();
    let destination = placement.destination_spec();
    let source = scaled_source_spec(
        placement.source_spec(),
        image.width_spec(),
        image.height_spec(),
        p.encoded.size,
    );
    move_to(destination.x as u16, destination.y as u16) + if p.upload {
        upload_command(*p.encoded, p.id, source, destination, p.z_index, single_command)
    } else {
        placement_command(p.id, source, destination, p.z_index)
    }
}

/// Output for a sequence of prepared placements, in order.
pub open spec fn content_output(ps: Seq<PreparedPlacement>, single_command: bool) -> Seq<u8>
    decreases ps.len(),
{
    if ps.len() == 0 {
        Seq::empty()
    } else {
        content_output(ps.drop_last(), single_command) + placement_output(ps.last(), single_command)
    }
}

/// Appends the bytes of `s` from `start` up to `end`.
fn push_range(out: &mut Vec<u8>, s: &[u8], start: usize, end: usize)
    requires
        start <= end <= s@.len(),
    ensures
        final(out)@ == old(out)@ + s@.subrange(start as int, end as int),
{
    let ghost base = out@;
    let mut i: usize = start;
    while i < end
        invariant
            start <= i <= end,
            end <= s@.len(),
            out@ == base + s@.subrange(start as int, i as int),
        decreases end - i,
    {
        out.push(s[i]);
        i = i + 1;
        assert(out@ =~= base + s@.subrange(start as int, i as int));
    }
}

/// Appends the decimal digits of `v`, with a leading `-` when negative.
fn push_signed(out: &mut Vec<u8>, v: i32)
    ensures
        final(out)@ == old(out)@ + signed_decimal(v as int),
{
    if v < 0 {
        proof {
            reveal_strlit("-");
        }
        push_literal(out, "-");
        push_decimal(out, (-(v as i64)) as u64);
    } else {
        push_decimal(out, v as u64);
    }
    assert(final(out)@ =~= old(out)@ + signed_decimal(v as int));
}

/// Appends the deletion command of every wire id, in order.
pub fn write_deletions(out: &mut Vec<u8>, ids: &[u32])
    ensures
        final(out)@ == old(out)@ + deletions(ids@),
{
    let ghost base = out@;
    let mut i: usize = 0;
    while i < ids.len()
        invariant
            i <= ids@.len(),
            out@ == base + deletions(ids@.subrange(0, i as int)),
        decreases ids@.len() - i,
    {
        proof {
            reveal_strlit("\x1b_Ga=d,d=I,i=");
            reveal_strlit(",q=2\x1b\\");
        }
        push_literal(out, "\x1b_Ga=d,d=I,i=");
        push_decimal(out, ids[i] as u64);
        push_literal(out, ",q=2\x1b\\");
        assert(ids@.subrange(0, i + 1).drop_last() =~= ids@.subrange(0, i as int));
        i = i + 1;
        assert(out@ =~= base + deletions(ids@.subrange(0, i as int)));
    }
    assert(ids@.subrange(0, ids@.len() as int) =~= ids@);
}

/// Appends the stream recovery when an earlier write may have been cut off.
pub fn write_recovery_if_needed(out: &mut Vec<u8>, recover_stream: bool)
    ensures
        final(out)@ == old(out)@ + recovery(recover_stream),
{
    if recover_stream {
        proof {
            reveal_strlit("\x1b\\");
            reveal_strlit("\x1b[?2026l");
        }
        push_literal(out, "\x1b\\");
        push_literal(out, "\x1b[?2026l");
    }
    assert(final(out)@ =~= old(out)@ + recovery(recover_stream));
}

/// Appends the placement fields shared by both command forms.
fn push_placement_fields(out: &mut Vec<u8>, source: PixelRect, destination: Rect, z_index: i32)
    ensures
        final(out)@ == old(out)@ + placement_fields(source, destination, z_index),
{
    proof {
        reveal_strlit(",x=");
        reveal_strlit(",y=");
        reveal_strlit(",w=");
        reveal_strlit(",h=");
        reveal_strlit(",c=");
        reveal_strlit(",r=");
        reveal_strlit(",C=1,q=2,z=");
    }
    push_literal(out, ",x=");
    push_decimal(out, source.x as u64);
    push_literal(out, ",y=");
    push_decimal(out, source.y as u64);
    push_literal(out, ",w=");
    push_decimal(out, source.width as u64);
    push_literal(out, ",h=");
    push_decimal(out, source.height as u64);
    push_literal(out, ",c=");
    push_decimal(out, destination.width as u64);
    push_literal(out, ",r=");
    push_decimal(out, destination.height as u64);
    push_literal(out, ",C=1,q=2,z=");
    push_signed(out, z_index);
    assert(final(out)@ =~= old(out)@ + placement_fields(source, destination, z_index));
}

/// Appends the continuation chunks of `payload` from `start` on.
fn push_continuations(out: &mut Vec<u8>, payload: &[u8], start: usize)
    requires
        start <= payload@.len(),
    ensures
        final(out)@ == old(out)@ + continuations(payload@.skip(start as int)),
{
    let ghost base = out@;
    let ghost target = continuations(payload@.skip(start as int));
    let n = payload.len();
    let mut pos: usize = start;
    while pos < n
        invariant
            start <= pos <= n,
            n == payload@.len(),
            out@ + continuations(payload@.skip(pos as int)) == base + target,
        decreases n - pos,
    {
        proof {
            reveal_strlit("\x1b_Gm=0,q=2;");
            reveal_strlit("\x1b_Gm=1,q=2;");
            reveal_strlit("\x1b\\");
        }
        let ghost rest = payload@.skip(pos as int);
        let ghost before = out@;
        if n - pos <= MAX_CHUNK_BYTES {
            push_literal(out, "\x1b_Gm=0,q=2;");
            push_range(out, payload, pos, n);
            push_literal(out, "\x1b\\");
            assert(payload@.subrange(pos as int, n as int) =~= rest);
            assert(payload@.skip(n as int) =~= Seq::<u8>::empty());
            assert(out@ =~= before + continuations(rest));
            pos = n;
        } else {
            push_literal(out, "\x1b_Gm=1,q=2;");
            push_range(out, payload, pos, pos + MAX_CHUNK_BYTES);
            push_literal(out, "\x1b\\");
            assert(payload@.subrange(pos as int, pos + MAX_CHUNK_BYTES) =~= rest.take(
                MAX_CHUNK_BYTES as int,
            ));
            assert(rest.skip(MAX_CHUNK_BYTES as int) =~= payload@.skip(pos + MAX_CHUNK_BYTES));
            pos = pos + MAX_CHUNK_BYTES;
            assert(out@ + continuations(payload@.skip(pos as int)) =~= before + continuations(
                rest,
            ));
        }
    }
    assert(payload@.skip(n as int) =~= Seq::<u8>::empty());
    assert(out@ =~= base + target);
}

/// Header of an upload command up to the payload, which starts after the
/// `;`; `more` announces continuation chunks.
pub open spec fn upload_header(
    encoded: EncodedImage,
    id: u32,
    source: PixelRect,
    destination: Rect,
    z_index: i32,
    more: bool,
) -> Seq<u8> {
    ascii("\x1b_Ga=T,f="@) + decimal(encoded.format as nat) + ascii(",t=d"@) + (if encoded.compressed {
        ascii(",o=z"@)
    } else {
        Seq::empty()
    }) + ascii(",s="@) + decimal(encoded.size.width as nat) + ascii(",v="@) + decimal(
        encoded.size.height as nat,
    ) + ascii(",i="@) + decimal(id as nat) + placement_fields(source, destination, z_index) + (if more {
        ascii(",m=1"@)
    } else {
        Seq::empty()
    }) + ascii(";"@)
}

/// An upload is its header, the first payload chunk, the terminator and the
/// continuation chunks.
proof fn lemma_upload_parts(
    encoded: EncodedImage,
    id: u32,
    source: PixelRect,
    destination: Rect,
    z_index: i32,
    single_command: bool,
)
    ensures
        ({
            let payload = encoded.payload@;
            let first = first_chunk_len(payload.len() as int, single_command);
            upload_command(encoded, id, source, destination, z_index, single_command)
                == upload_header(encoded, id, source, destination, z_index, first < payload.len())
                + payload.take(first) + ascii("\x1b\\"@) + continuations(payload.skip(first))
        }),
{
}

/// Appends the header of an upload command.
fn push_upload_header(
    out: &mut Vec<u8>,
    encoded: &EncodedImage,
    id: u32,
    source: PixelRect,
    destination: Rect,
    z_index: i32,
    more: bool,
)
    ensures
        final(out)@ == old(out)@ + upload_header(*encoded, id, source, destination, z_index, more),
{
    assert("\x1b_Ga=T,f=".is_ascii()) by {
        reveal_strlit("\x1b_Ga=T,f=");
    }
    assert(",t=d".is_ascii()) by {
        reveal_strlit(",t=d");
    }
    assert(",o=z".is_ascii()) by {
        reveal_strlit(",o=z");
    }
    assert(",s=".is_ascii()) by {
        reveal_strlit(",s=");
    }
    assert(",v=".is_ascii()) by {
        reveal_strlit(",v=");
    }
    assert(",i=".is_ascii()) by {
        reveal_strlit(",i=");
    }
    assert(",m=1".is_ascii()) by {
        reveal_strlit(",m=1");
    }
    assert(";".is_ascii()) by {
        reveal_strlit(";");
    }
    let ghost base = out@;
    let ghost mut acc: Seq<u8> = Seq::empty();
    assert(base + acc =~= base);
    push_literal(out, "\x1b_Ga=T,f=");
    proof {
        lemma_concat_associative(base, acc, ascii("\x1b_Ga=T,f="@));
        acc = acc + ascii("\x1b_Ga=T,f="@);
    }
    push_decimal(out, encoded.format as u64);
    proof {
        lemma_concat_associative(base, acc, decimal(encoded.format as nat));
        acc = acc + decimal(encoded.format as nat);
    }
    push_literal(out, ",t=d");
    proof {
        lemma_concat_associative(base, acc, ascii(",t=d"@));
        acc = acc + ascii(",t=d"@);
    }
    let ghost compression: Seq<u8> = if encoded.compressed {
        ascii(",o=z"@)
    } else {
        Seq::empty()
    };
    if encoded.compressed {
        push_literal(out, ",o=z");
    }
    proof {
        assert(out@ =~= base + acc + compression);
        lemma_concat_associative(base, acc, compression);
        acc = acc + compression;
    }
    push_literal(out, ",s=");
    proof {
        lemma_concat_associative(base, acc, ascii(",s="@));
        acc = acc + ascii(",s="@);
    }
    push_decimal(out, encoded.size.width as u64);
    proof {
        lemma_concat_associative(base, acc, decimal(encoded.size.width as nat));
        acc = acc + decimal(encoded.size.width as nat);
    }
    push_literal(out, ",v=");
    proof {
        lemma_concat_associative(base, acc, ascii(",v="@));
        acc = acc + ascii(",v="@);
    }
    push_decimal(out, encoded.size.height as u64);
    proof {
        lemma_concat_associative(base, acc, decimal(encoded.size.height as nat));
        acc = acc + decimal(encoded.size.height as nat);
    }
    push_literal(out, ",i=");
    proof {
        lemma_concat_associative(base, acc, ascii(",i="@));
        acc = acc + ascii(",i="@);
    }
    push_decimal(out, id as u64);
    proof {
        lemma_concat_associative(base, acc, decimal(id as nat));
        acc = acc + decimal(id as nat);
    }
    push_placement_fields(out, source, destination, z_index);
    proof {
        lemma_concat_associative(base, acc, placement_fields(source, destination, z_index));
        acc = acc + placement_fields(source, destination, z_index);
    }
    let ghost continued: Seq<u8> = if more {
        ascii(",m=1"@)
    } else {
        Seq::empty()
    };
    if more {
        push_literal(out, ",m=1");
    }
    proof {
        assert(out@ =~= base + acc + continued);
        lemma_concat_associative(base, acc, continued);
        acc = acc + continued;
    }
    push_literal(out, ";");
    proof {
        lemma_concat_associative(base, acc, ascii(";"@));
        acc = acc + ascii(";"@);
        assert(acc == upload_header(*encoded, id, source, destination, z_index, more));
    }
}

/// Appends the upload of `encoded` as wire id `id`.
fn push_upload(
    out: &mut Vec<u8>,
    encoded: &EncodedImage,
    id: u32,
    source: PixelRect,
    destination: Rect,
    z_index: i32,
    single_command: bool,
)
    ensures
        final(out)@ == old(out)@ + upload_command(
            *encoded,
            id,
            source,
            destination,
            z_index,
            single_command,
        ),
{
    proof {
        reveal_strlit("\x1b\\");
        lemma_upload_parts(*encoded, id, source, destination, z_index, single_command);
    }
    let payload = encoded.payload.as_slice();
    let n = payload.len();
    let first = if single_command || n <= MAX_CHUNK_BYTES {
        n
    } else {
        MAX_CHUNK_BYTES
    };
    let ghost base = out@;
    push_upload_header(out, encoded, id, source, destination, z_index, first < n);
    let ghost header = out@;
    push_range(out, payload, 0, first);
    push_literal(out, "\x1b\\");
    push_continuations(out, payload, first);
    assert(payload@.subrange(0, first as int) =~= payload@.take(first as int));
    assert(out@ =~= base + upload_header(*encoded, id, source, destination, z_index, first < n)
        + payload@.take(first as int) + ascii("\x1b\\"@) + continuations(payload@.skip(first as int)));
}

/// Appends the output for one prepared placement. A destination that a
/// cursor movement cannot address is rejected before anything is written.
pub fn write_prepared(out: &mut Vec<u8>, prepared: &PreparedPlacement, single_command: bool) -> (r:
    Result<(), CoordinateOutOfRange>)
    ensures
        placeable(*prepared) ==> r is Ok && final(out)@ == old(out)@ + placement_output(
            *prepared,
            single_command,
        ),
        !placeable(*prepared) ==> r is Err && final(out)@ == old(out)@,
{
    let placement = prepared.placement;
    proof {
        use_type_invariant(placement);
    }
    let destination = placement.destination();
    let x = match coordinate(destination.x, 0) {
        Ok(x) => x,
        Err(e) => {
            return Err(e);
        },
    };
    let y = match coordinate(destination.y, 0) {
        Ok(y) => y,
        Err(e) => {
            return Err(e);
        },
    };
    let image = placement.image();
    let source = scaled_source(placement.source(), image, prepared.encoded.size);
    let ghost base = out@;
    push_move_to(out, x, y);
    if prepared.upload {
        push_upload(
            out,
            &prepared.encoded,
            prepared.id,
            source,
            destination,
            prepared.z_index,
            single_command,
        );
    } else {
        proof {
            reveal_strlit("\x1b_Ga=p,i=");
            reveal_strlit("\x1b\\");
        }
        push_literal(out, "\x1b_Ga=p,i=");
        push_decimal(out, prepared.id as u64);
        push_placement_fields(out, source, destination, prepared.z_index);
        push_literal(out, "\x1b\\");
    }
    assert(out@ =~= base + placement_output(*prepared, single_command));
    Ok(())
}

/// Whether the first `k` placements are placeable and placement `k` is not.
pub open spec fn first_unplaceable(ps: Seq<PreparedPlacement>, k: int) -> bool {
    &&& 0 <= k < ps.len()
    &&& !placeable(ps[k])
    &&& forall|j: int| 0 <= j < k ==> placeable(#[trigger] ps[j])
}

/// Appends the uploads and placements of an update, in order. Output stops
/// at the first placement whose destination cannot be addressed.
pub fn write_update_content(out: &mut Vec<u8>, update: &PreparedUpdate) -> (r: Result<
    (),
    CoordinateOutOfRange,
>)
    ensures
        (forall|j: int| 0 <= j < update.placements@.len() ==> placeable(
            #[trigger] update.placements@[j],
        )) ==> r is Ok && final(out)@ == old(out)@ + content_output(
            update.placements@,
            update.single_command,
        ),
        r is Err ==> exists|k: int|
            #![trigger first_unplaceable(update.placements@, k)]
            first_unplaceable(update.placements@, k) && final(out)@ == old(out)@ + content_output(
                update.placements@.take(k),
                update.single_command,
            ),
        r is Err <==> exists|k: int|
            0 <= k < update.placements@.len() && !placeable(#[trigger] update.placements@[k]),
{
    let ghost base = out@;
    let ghost ps = update.placements@;
    let n = update.placements.len();
    let mut failed = false;
    let mut i: usize = 0;
    while i < n && !failed
        invariant
            i <= n,
            n == ps.len(),
            ps == update.placements@,
            forall|j: int| 0 <= j < i ==> placeable(#[trigger] ps[j]),
            out@ == base + content_output(ps.take(i as int), update.single_command),
            failed ==> i < n && !placeable(ps[i as int]),
        decreases n - i + (if failed {
            0int
        } else {
            1int
        }),
    {
        let written = write_prepared(out, &update.placements[i], update.single_command);
        if written.is_err() {
            failed = true;
        } else {
            assert(ps.take(i + 1).drop_last() =~= ps.take(i as int));
            i = i + 1;
        }
    }
    if failed {
        assert(first_unplaceable(update.placements@, i as int));
        Err(CoordinateOutOfRange)
    } else {
        assert(ps.take(ps.len() as int) =~= ps);
        Ok(())
    }
}

/// Appends a complete update: stream recovery when needed, deletion of
/// every possibly owned image, then the uploads and placements.
pub fn write_update(out: &mut Vec<u8>, update: &PreparedUpdate) -> (r: Result<
    (),
    CoordinateOutOfRange,
>)
    ensures
        (forall|j: int| 0 <= j < update.placements@.len() ==> placeable(
            #[trigger] update.placements@[j],
        )) ==> r is Ok && final(out)@ == old(out)@ + recovery(update.recover_stream) + deletions(
            update.delete_ids@,
        ) + content_output(update.placements@, update.single_command),
        r is Err ==> exists|k: int|
            #![trigger first_unplaceable(update.placements@, k)]
            first_unplaceable(update.placements@, k) && final(out)@ == old(out)@ + recovery(
                update.recover_stream,
            ) + deletions(update.delete_ids@) + content_output(
                update.placements@.take(k),
                update.single_command,
            ),
        r is Err <==> exists|k: int|
            0 <= k < update.placements@.len() && !placeable(#[trigger] update.placements@[k]),
{
    let ghost base = out@;
    write_recovery_if_needed(out, update.recover_stream);
    write_deletions(out, update.delete_ids.as_slice());
    let ghost mid = out@;
    let r = write_update_content(out, update);
    assert(mid =~= base + recovery(update.recover_stream) + deletions(update.delete_ids@));
    r
}

} // verus!
