use std::collections::HashMap;
use std::io::Read;
use std::sync::Arc;

use arborui::geometry::{Rect, Size};
use arborui::image::{ImagePlacement, RgbaImage};
use arborui::kitty::{
    bucket_up, div_ceil, transfer_size, EncodingCache, EncodingKey, TransferSize,
    MAX_ENCODED_CACHE_ENTRIES, MAX_IMAGE_DIMENSION,
};
use arborui::kitty_commands::write_update;
use arborui::kitty_state::KittyState;
use arborui::scene::ImageScene;
use arborui::terminal::{TerminalPixelSize, TerminalViewport};
use base64::Engine;
use flate2::read::ZlibDecoder;

/// Nearest-size stand-in for resampling: opaque white pixels of the target size.
fn white(_: &RgbaImage, size: TransferSize) -> Vec<u8> {
    vec![255; size.width as usize * size.height as usize * 4]
}

fn pseudo_random_bytes(length: usize) -> Vec<u8> {
    let mut value = 0x1234_5678_u32;
    (0..length)
        .map(|_| {
            value ^= value << 13;
            value ^= value >> 17;
            value ^= value << 5;
            value as u8
        })
        .collect()
}

fn output_of(state: &mut KittyState, scene: &ImageScene) -> String {
    let update = state
        .prepare_with_viewport(scene, None, &white)
        .expect("prepared update");
    let mut output = Vec::new();
    write_update(&mut output, &update).expect("addressable placements");
    String::from_utf8(output).expect("ASCII output")
}

#[test]
fn encoded_cache_evicts_the_least_recently_used_payload() {
    let first = RgbaImage::new(1, 1, vec![1, 2, 3, 4]).expect("first");
    let second = RgbaImage::new(1, 1, vec![5, 6, 7, 8]).expect("second");
    let size = TransferSize {
        width: 1,
        height: 1,
    };
    let mut cache = EncodingCache::new(8);

    cache.get_or_encode(&first, size, &white).expect("first encoding");
    cache.get_or_encode(&second, size, &white).expect("second encoding");

    assert_eq!(cache.len(), 1);
    assert!(cache.contains(EncodingKey {
        image: second.id(),
        size,
    }));
    assert!(cache.bytes() <= cache.limit());
}

#[test]
fn encoded_cache_bounds_small_entry_overhead() {
    let mut cache = EncodingCache::new(usize::MAX);
    let size = TransferSize {
        width: 1,
        height: 1,
    };
    let mut first_id = None;
    for value in 0..=MAX_ENCODED_CACHE_ENTRIES {
        let image = RgbaImage::new(1, 1, vec![value as u8, 0, 0, 1]).expect("image");
        first_id.get_or_insert(image.id());
        cache.get_or_encode(&image, size, &white).expect("encoding");
    }

    assert_eq!(cache.len(), MAX_ENCODED_CACHE_ENTRIES);
    assert!(!cache.contains(EncodingKey {
        image: first_id.expect("first image identity"),
        size,
    }));
}

#[test]
fn combines_upload_with_first_placement() {
    let image = RgbaImage::new(1, 1, vec![1, 2, 3, 4]).expect("image");
    let scene = ImageScene::from_placements(vec![ImagePlacement::new(image, Rect::new(2, 3, 4, 5))]);
    let mut state = KittyState::default();

    let output = output_of(&mut state, &scene);

    assert!(output.contains("\x1b[4;3H"));
    assert!(output.contains("\x1b_Ga=T,f=32,t=d,s=1,v=1,i=1,x=0,y=0,w=1,h=1,c=4,r=5,C=1,q=2,z=1;"));
    assert!(!output.contains("\x1b_Ga=t,"));
    assert!(!output.contains("\x1b_Ga=p,"));
}

#[test]
fn upload_is_reduced_to_the_measured_destination_pixels() {
    let image = RgbaImage::new(80, 40, [10, 20, 30, 255].repeat(80 * 40)).expect("image");
    let scene = ImageScene::from_placements(vec![ImagePlacement::new(image, Rect::new(0, 0, 4, 1))]);
    let viewport = TerminalViewport::with_pixels(Size::new(8, 4), TerminalPixelSize::new(80, 80));
    let mut state = KittyState::default();
    let update = state
        .prepare_with_viewport(&scene, Some(viewport), &white)
        .expect("update");
    let mut output = Vec::new();

    write_update(&mut output, &update).expect("written");

    let output = String::from_utf8(output).expect("ASCII");
    assert!(output.contains("s=64,v=32"));
}

#[test]
fn target_sizing_never_upscales_and_requires_pixel_metrics() {
    let small = RgbaImage::new(20, 10, vec![255; 20 * 10 * 4]).expect("small");
    let large = RgbaImage::new(80, 40, vec![255; 80 * 40 * 4]).expect("large");
    let destination = Rect::new(0, 0, 4, 1);
    let measured = Some(TerminalViewport::with_pixels(
        Size::new(8, 4),
        TerminalPixelSize::new(80, 80),
    ));

    assert_eq!(
        transfer_size(&ImagePlacement::new(small, destination), measured),
        TransferSize {
            width: 20,
            height: 10
        }
    );
    assert_eq!(
        transfer_size(&ImagePlacement::new(large, destination), None),
        TransferSize {
            width: 80,
            height: 40
        }
    );
}

#[test]
fn movement_and_bucketed_resizes_reuse_the_encoded_image() {
    let image = RgbaImage::new(80, 40, [10, 20, 30, 255].repeat(80 * 40)).expect("image");
    let viewport = TerminalViewport::with_pixels(Size::new(8, 4), TerminalPixelSize::new(80, 80));
    let first_scene =
        ImageScene::from_placements(vec![ImagePlacement::new(image.clone(), Rect::new(0, 0, 4, 1))]);
    let mut state = KittyState::default();
    let first_update = state
        .prepare_with_viewport(&first_scene, Some(viewport), &white)
        .expect("first");
    let first_encoded = Arc::clone(&first_update.placements[0].encoded);
    drop(first_update);
    let second_scene =
        ImageScene::from_placements(vec![ImagePlacement::new(image, Rect::new(1, 1, 5, 1))]);

    let second_update = state
        .prepare_with_viewport(&second_scene, Some(viewport), &white)
        .expect("second");

    assert!(Arc::ptr_eq(&first_encoded, &second_update.placements[0].encoded));
}

#[test]
fn returning_to_an_image_reuses_its_cached_encoding() {
    let first_image = RgbaImage::new(2, 2, [1, 2, 3, 255].repeat(4)).expect("first");
    let second_image = RgbaImage::new(2, 2, [4, 5, 6, 255].repeat(4)).expect("second");
    let first_scene = ImageScene::from_placements(vec![ImagePlacement::new(
        first_image.clone(),
        Rect::new(0, 0, 1, 1),
    )]);
    let second_scene =
        ImageScene::from_placements(vec![ImagePlacement::new(second_image, Rect::new(0, 0, 1, 1))]);
    let mut state = KittyState::default();
    let first_update = state.prepare_with_viewport(&first_scene, None, &white).expect("first");
    let first_encoded = Arc::clone(&first_update.placements[0].encoded);
    state.confirm(&first_update);
    drop(first_update);
    let second_update = state.prepare_with_viewport(&second_scene, None, &white).expect("second");
    state.confirm(&second_update);
    drop(second_update);

    let returned = state.prepare_with_viewport(&first_scene, None, &white).expect("returned");

    assert!(Arc::ptr_eq(&first_encoded, &returned.placements[0].encoded));
}

#[test]
fn prepared_budget_rejection_does_not_evict_an_accepted_image() {
    let first = RgbaImage::new(32, 32, pseudo_random_bytes(32 * 32 * 4)).expect("first");
    let second = RgbaImage::new(32, 32, pseudo_random_bytes(32 * 32 * 4)).expect("second");
    let scene = ImageScene::from_placements(vec![
        ImagePlacement::new(first.clone(), Rect::new(0, 0, 1, 1)),
        ImagePlacement::new(second, Rect::new(1, 0, 1, 1)),
    ]);
    let mut state = KittyState::default();

    let update = state
        .prepare_with_budget(&scene, None, 6_000, &white)
        .expect("update");

    assert_eq!(update.placements.len(), 1);
    assert_eq!(update.placements[0].placement.image().id(), first.id());
}

#[test]
fn uses_image_ids_for_separate_placements() {
    let image = RgbaImage::new(1, 1, vec![1, 2, 3, 4]).expect("image");
    let scene = ImageScene::from_placements(vec![
        ImagePlacement::new(image.clone(), Rect::new(0, 0, 1, 1)),
        ImagePlacement::new(image, Rect::new(1, 0, 1, 1)),
    ]);
    let mut state = KittyState::default();

    let output = output_of(&mut state, &scene);

    assert!(output.contains("\x1b_Ga=T,f=32,t=d,s=1,v=1,i=1,"));
    assert!(output.contains("\x1b_Ga=p,i=1,"));
    assert!(!output.contains(",I="));
}

#[test]
fn compresses_opaque_uploads_as_rgb() {
    let image = RgbaImage::new(32, 32, [10, 20, 30, 255].repeat(32 * 32)).expect("image");
    let scene = ImageScene::from_placements(vec![ImagePlacement::new(image, Rect::new(0, 0, 1, 1))]);
    let mut state = KittyState::default();

    let output = output_of(&mut state, &scene);

    assert!(output.contains("f=24,t=d,o=z,s=32,v=32"));
    let payload = output
        .split("z=1;")
        .nth(1)
        .and_then(|value| value.split("\x1b\\").next())
        .expect("compressed payload");
    let compressed = base64::engine::general_purpose::STANDARD
        .decode(payload)
        .expect("base64");
    let mut decoded = Vec::new();
    ZlibDecoder::new(compressed.as_slice())
        .read_to_end(&mut decoded)
        .expect("zlib");
    assert_eq!(decoded, [10, 20, 30].repeat(32 * 32));
}

fn assert_direct_transfer(image: RgbaImage, compressed: bool, single_command: bool) -> usize {
    let width = image.width().to_string();
    let height = image.height().to_string();
    let pixels = image.pixels().to_vec();
    let scene = ImageScene::from_placements(vec![
        ImagePlacement::new(image.clone(), Rect::new(2, 3, 4, 5)),
        ImagePlacement::new(image, Rect::new(6, 7, 4, 5)),
    ]);
    let mut state = KittyState::new(single_command);
    let output = output_of(&mut state, &scene);

    let suffix = format!(
        "\x1b[8;7H\x1b_Ga=p,i=1,x=0,y=0,w={width},h={height},c=4,r=5,C=1,q=2,z=2\x1b\\"
    );
    let mut remaining = output
        .strip_prefix("\x1b[4;3H")
        .expect("cursor move")
        .strip_suffix(&suffix)
        .expect("separate placement after completed upload");
    let mut payload = String::new();
    let mut commands = 0;
    while !remaining.is_empty() {
        let (command, rest) = remaining
            .strip_prefix("\x1b_G")
            .expect("graphics APC")
            .split_once("\x1b\\")
            .expect("terminated graphics APC");
        let (header, chunk) = command.split_once(';').expect("payload");
        assert!(single_command || chunk.len() <= 4_096);
        assert!(!chunk.is_empty());
        assert_eq!(chunk.len() % 4, 0);
        let mut metadata = HashMap::new();
        for field in header.split(',') {
            let (key, value) = field.split_once('=').expect("metadata");
            assert!(metadata.insert(key, value).is_none(), "duplicate key {key}");
        }
        let mut expected = HashMap::from([("q", "2")]);
        if commands > 0 || !rest.is_empty() {
            expected.insert("m", if rest.is_empty() { "0" } else { "1" });
        }
        if commands == 0 {
            expected.extend([
                ("a", "T"),
                ("f", "32"),
                ("t", "d"),
                ("s", width.as_str()),
                ("v", height.as_str()),
                ("i", "1"),
                ("x", "0"),
                ("y", "0"),
                ("w", width.as_str()),
                ("h", height.as_str()),
                ("c", "4"),
                ("r", "5"),
                ("C", "1"),
                ("z", "1"),
            ]);
            if compressed {
                expected.insert("o", "z");
            }
        }
        assert_eq!(metadata, expected);
        if !rest.is_empty() {
            assert!(!single_command);
            assert_eq!(chunk.len(), 4_096);
        }
        payload.push_str(chunk);
        commands += 1;
        remaining = rest;
    }
    let bytes = base64::engine::general_purpose::STANDARD
        .decode(payload)
        .expect("base64");
    let decoded = if compressed {
        let mut decoded = Vec::new();
        ZlibDecoder::new(bytes.as_slice())
            .read_to_end(&mut decoded)
            .expect("zlib");
        decoded
    } else {
        bytes
    };
    assert_eq!(decoded, pixels);
    commands
}

#[test]
fn leaves_incompressible_uploads_uncompressed() {
    for width in [1, 768, 769, 1_536, 1_537] {
        let image = RgbaImage::new(width, 1, pseudo_random_bytes(width as usize * 4)).expect("image");
        let commands = assert_direct_transfer(image, false, false);
        let encoded_len = (width as usize * 4).div_ceil(3) * 4;
        assert_eq!(commands, encoded_len.div_ceil(4_096));
    }
}

#[test]
fn kitty_direct_transfer_obeys_protocol_chunk_limit() {
    for (compressed, pixels) in [
        (false, pseudo_random_bytes(512 * 512 * 4)),
        (true, pseudo_random_bytes(8_192).repeat(128)),
    ] {
        let image = RgbaImage::new(512, 512, pixels).expect("image");
        let commands = assert_direct_transfer(image, compressed, false);
        assert!(commands > 2, "exercise first, continuation, and final commands");
    }
}

#[test]
fn xterm_js_workaround_keeps_one_direct_payload() {
    for (compressed, pixels) in [
        (false, pseudo_random_bytes(512 * 512 * 4)),
        (true, pseudo_random_bytes(8_192).repeat(128)),
    ] {
        let image = RgbaImage::new(512, 512, pixels).expect("image");
        assert_eq!(assert_direct_transfer(image, compressed, true), 1);
    }
}

#[test]
fn placement_z_indexes_preserve_scene_order() {
    let image = RgbaImage::new(1, 1, vec![0; 4]).expect("image");
    let scene = ImageScene::from_placements(vec![
        ImagePlacement::new(image.clone(), Rect::new(0, 0, 1, 1)),
        ImagePlacement::new(image, Rect::new(1, 0, 1, 1)),
    ]);
    let mut state = KittyState::default();

    let output = output_of(&mut state, &scene);

    let first = output.find("q=2,z=1").expect("first placement");
    let second = output.find("q=2,z=2").expect("second placement");
    assert!(first < second);
}

#[test]
fn oversized_kitty_sources_remain_fallback_only() {
    let image = RgbaImage::new(MAX_IMAGE_DIMENSION + 1, 1, vec![0; 40_004]).expect("image");
    let scene = ImageScene::from_placements(vec![ImagePlacement::new(image, Rect::new(0, 0, 1, 1))]);
    let mut state = KittyState::default();
    let update = state.prepare_with_viewport(&scene, None, &white).expect("update");
    let mut output = Vec::new();

    write_update(&mut output, &update).expect("written");

    assert!(!update.has_output());
    assert!(output.is_empty());
}

#[test]
fn uncertain_updates_retain_a_cleanup_superset() {
    let first = RgbaImage::new(1, 1, vec![0; 4]).expect("first");
    let second = RgbaImage::new(1, 1, vec![1; 4]).expect("second");
    let mut state = KittyState::default();
    let first_scene =
        ImageScene::from_placements(vec![ImagePlacement::new(first, Rect::new(0, 0, 1, 1))]);
    let first_update = state.prepare_with_viewport(&first_scene, None, &white).expect("first");
    state.confirm(&first_update);
    let second_scene =
        ImageScene::from_placements(vec![ImagePlacement::new(second, Rect::new(0, 0, 1, 1))]);

    let _uncertain = state.prepare_with_viewport(&second_scene, None, &white).expect("second");

    assert_eq!(state.cleanup_ids(), [1, 2]);
}

#[test]
fn confirmed_cleanup_forgets_every_wire_id() {
    let image = RgbaImage::new(1, 1, vec![0; 4]).expect("image");
    let scene = ImageScene::from_placements(vec![ImagePlacement::new(image, Rect::new(0, 0, 1, 1))]);
    let mut state = KittyState::default();
    let update = state.prepare_with_viewport(&scene, None, &white).expect("update");
    assert!(update.has_output());
    assert_eq!(state.cleanup_ids(), [1]);
    state.mark_stream_uncertain();
    assert!(state.stream_uncertain());
    state.confirm_cleanup();
    assert!(!state.stream_uncertain());
    assert!(state.cleanup_ids().is_empty());
}

#[test]
fn wire_ids_are_stable_per_image() {
    let first = RgbaImage::new(1, 1, vec![0; 4]).expect("first");
    let second = RgbaImage::new(1, 1, vec![1; 4]).expect("second");
    let mut state = KittyState::default();
    let id = state.wire_id(first.id());
    assert_eq!(id, 1);
    assert_eq!(state.wire_id(first.id()), 1);
    assert_eq!(state.wire_id(second.id()), 2);
}

#[test]
fn recovery_precedes_deletions_in_an_uncertain_update() {
    let image = RgbaImage::new(1, 1, vec![0; 4]).expect("image");
    let scene = ImageScene::from_placements(vec![ImagePlacement::new(image, Rect::new(0, 0, 1, 1))]);
    let mut state = KittyState::default();
    let first = state.prepare_with_viewport(&scene, None, &white).expect("first");
    drop(first);
    state.mark_stream_uncertain();
    let output = output_of(&mut state, &ImageScene::new());
    assert_eq!(output, "\x1b\\\x1b[?2026l\x1b_Ga=d,d=I,i=1,q=2\x1b\\");
}

#[test]
fn transfer_arithmetic_rounds_up() {
    assert_eq!(div_ceil(7, 2), 4);
    assert_eq!(div_ceil(8, 2), 4);
    assert_eq!(div_ceil(u64::MAX, 2), u64::MAX / 2);
    assert_eq!(bucket_up(0), 0);
    assert_eq!(bucket_up(1), 64);
    assert_eq!(bucket_up(64), 64);
    assert_eq!(bucket_up(65), 128);
    assert_eq!(bucket_up(u32::MAX), u32::MAX / 64 * 64);
}

#[test]
fn an_unbounded_cache_and_budget_still_admit_payloads() {
    let image = RgbaImage::new(1, 1, vec![1, 2, 3, 4]).expect("image");
    let size = TransferSize {
        width: 1,
        height: 1,
    };
    let mut cache = EncodingCache::new(usize::MAX);
    let encoded = cache.get_or_encode(&image, size, &white).expect("encoding");
    assert!(cache.contains(EncodingKey {
        image: image.id(),
        size,
    }));
    assert_eq!(cache.bytes(), encoded.payload.len());
    let again = cache.get_or_encode(&image, size, &white).expect("cached");
    assert!(Arc::ptr_eq(&encoded, &again));

    let scene = ImageScene::from_placements(vec![ImagePlacement::new(
        image.clone(),
        Rect::new(0, 0, 1, 1),
    )]);
    let mut state = KittyState::new(false);
    let update = state
        .prepare_with_budget(&scene, None, usize::MAX, &white)
        .expect("prepared update");
    assert_eq!(update.placements.len(), 1);
    assert!(update.placements[0].upload);
}
