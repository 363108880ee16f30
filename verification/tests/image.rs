use arborui::geometry::Rect;
use arborui::image::{ImageError, ImagePlacement, ImageSceneError, RgbaImage, MAX_IMAGE_BYTES};
use arborui::scene::ImageScene;

fn image(fill: u8) -> RgbaImage {
    RgbaImage::new(1, 1, vec![fill; 4]).expect("valid image")
}

#[test]
fn validates_rgba_dimensions_byte_length_and_limit() {
    assert_eq!(RgbaImage::new(0, 1, Vec::new()), Err(ImageError::Empty));
    assert_eq!(
        RgbaImage::new(2, 1, vec![0; 7]),
        Err(ImageError::LengthMismatch {
            expected: 8,
            actual: 7,
        })
    );
    assert_eq!(
        RgbaImage::new(u32::MAX, u32::MAX, Vec::new()),
        Err(ImageError::SizeOverflow)
    );
    assert_eq!(
        RgbaImage::new(4_097, 4_096, Vec::new()),
        Err(ImageError::TooLarge {
            bytes: 4_097 * 4_096 * 4,
            maximum: MAX_IMAGE_BYTES,
        })
    );
    assert!(RgbaImage::new(2, 1, vec![0; 8]).is_ok());
}

#[test]
fn clones_preserve_identity() -> Result<(), ImageError> {
    let image = RgbaImage::new(1, 1, vec![1, 2, 3, 4])?;

    assert_eq!(image.id(), image.clone().id());
    assert_ne!(image.id(), RgbaImage::new(1, 1, vec![1, 2, 3, 4])?.id());
    Ok(())
}

#[test]
fn image_errors_describe_themselves() {
    assert_eq!(ImageError::Empty.text(), "image dimensions must be nonzero");
    assert_eq!(
        ImageError::LengthMismatch {
            expected: 8,
            actual: 7
        }
        .text(),
        "image requires 8 RGBA bytes but received 7"
    );
    assert_eq!(
        ImageError::TooLarge {
            bytes: 100,
            maximum: 64
        }
        .text(),
        "image contains 100 bytes, exceeding the 64-byte limit"
    );
    assert_eq!(
        ImageSceneError::TooManyPlacements { maximum: 3 }.text(),
        "image scene exceeds the 3-placement limit"
    );
    assert_eq!(
        ImageSceneError::TooLarge {
            bytes: 12,
            maximum: 8
        }
        .text(),
        "image scene references 12 decoded bytes, exceeding the 8-byte limit"
    );
}

#[test]
fn partial_cell_clipping_defers_to_the_fallback() -> Result<(), ImageError> {
    let image = RgbaImage::new(100, 100, vec![0; 100 * 100 * 4])?;
    let placement = ImagePlacement::clipped(image, Rect::new(10, 5, 10, 5), Rect::new(12, 6, 5, 3));

    assert_eq!(placement, None);
    Ok(())
}

#[test]
fn repeated_placements_preserve_paint_order() {
    let first = image(0);
    let second = image(1);
    let mut scene = ImageScene::new();

    scene
        .push(ImagePlacement::new(first.clone(), Rect::new(0, 0, 1, 1)), 0)
        .expect("first placement");
    scene
        .push(ImagePlacement::new(second.clone(), Rect::new(0, 0, 1, 1)), 0)
        .expect("second placement");
    scene
        .push(ImagePlacement::new(first.clone(), Rect::new(0, 0, 1, 1)), 0)
        .expect("repeated placement");

    assert_eq!(
        scene
            .placements()
            .iter()
            .map(|placement| placement.image().id())
            .collect::<Vec<_>>(),
        [first.id(), second.id(), first.id()]
    );
}

#[test]
fn selective_repaint_rechecks_reactivated_source_bytes() {
    let first = image(0);
    let second = image(1);
    let replacement = image(2);
    let destination = Rect::new(0, 0, 1, 1);
    let mut scene = ImageScene::new();
    scene.push_with_limits(ImagePlacement::new(first.clone(), destination), 3, 8).expect("first");
    scene.push_with_limits(ImagePlacement::new(second.clone(), destination), 3, 8).expect("second");
    scene.mark_damaged(&[true], destination, 0);
    scene.push_with_limits(ImagePlacement::new(replacement, destination), 3, 8).expect("replace");
    scene.push_with_limits(ImagePlacement::new(first, destination), 3, 8).expect("replay");
    let before_rejection = scene.clone();

    assert_eq!(
        scene.push_with_limits(ImagePlacement::new(second, destination), 3, 8),
        Err(ImageSceneError::TooLarge {
            bytes: 12,
            maximum: 8,
        })
    );
    assert_eq!(scene.placements(), before_rejection.placements());
    assert_eq!(scene.stale_marks(), before_rejection.stale_marks());
    assert_eq!(scene.replay_marks(), before_rejection.replay_marks());
    scene.finish_repaint();
    assert_eq!(scene.placements().len(), 2);
}

#[test]
fn selective_replacement_excludes_stale_sources_but_counts_every_occurrence() {
    let row = Rect::new(0, 0, 1, 1);
    let clean = Rect::new(0, 1, 1, 1);
    let first = image(1);
    let second = image(2);
    let replacement = image(3);
    let mut scene = ImageScene::new();
    scene.push_with_limits(ImagePlacement::new(first, row), 3, 8).expect("first");
    scene.push_with_limits(ImagePlacement::new(second.clone(), clean), 3, 8).expect("second");
    scene.mark_damaged(&[true, false], Rect::new(0, 0, 1, 2), 0);
    scene.push_with_limits(ImagePlacement::new(replacement.clone(), row), 3, 8).expect("one");
    scene.push_with_limits(ImagePlacement::new(replacement.clone(), row), 3, 8).expect("two");
    let before_rejection = scene.clone();
    assert_eq!(
        scene.push_with_limits(ImagePlacement::new(replacement.clone(), row), 3, 8),
        Err(ImageSceneError::TooManyPlacements { maximum: 3 })
    );
    assert_eq!(scene.placements(), before_rejection.placements());
    assert_eq!(scene.stale_marks(), before_rejection.stale_marks());
    assert_eq!(scene.replay_marks(), before_rejection.replay_marks());
    scene.finish_repaint();
    assert_eq!(scene.placements().len(), 3);
    assert_eq!(
        scene
            .placements()
            .iter()
            .filter(|placement| placement.image() == &replacement)
            .count(),
        2
    );
    assert_eq!(
        scene
            .placements()
            .iter()
            .filter(|placement| placement.image() == &second)
            .count(),
        1
    );
}

#[test]
fn matching_stale_occurrence_checks_bytes_before_reactivation() {
    let rect = Rect::new(0, 0, 1, 1);
    let first = ImagePlacement::new(image(1), rect);
    let second = ImagePlacement::new(image(2), Rect::new(0, 0, 1, 2));
    let clean = ImagePlacement::new(image(4), Rect::new(0, 1, 1, 1));
    let replacement = ImagePlacement::new(image(3), rect);
    let mut scene = ImageScene::from_placements(vec![first, second.clone(), clean.clone()]);
    scene.mark_damaged(&[true, false], Rect::new(0, 0, 1, 2), 0);
    scene.push_with_limits(replacement.clone(), 3, 8).expect("replacement");
    assert_eq!(
        scene.push_with_limits(second.clone(), 3, 8),
        Err(ImageSceneError::TooLarge {
            bytes: 12,
            maximum: 8
        })
    );
    assert_eq!(
        scene.placements(),
        &[replacement.clone(), second.clone(), clean.clone()]
    );
    assert_eq!(scene.stale_marks(), [false, true, false]);
    assert_eq!(scene.replay_marks(), [true, false, false]);
    scene.push_with_limits(second.clone(), 3, 12).expect("reactivation");
    scene.finish_repaint();
    assert_eq!(scene.placements(), &[replacement, second, clean]);
}

#[test]
fn repeated_replacements_release_retired_sources_without_losing_partial_anchors() {
    let spanning = ImagePlacement::new(image(1), Rect::new(0, 0, 1, 3));
    let clean = ImagePlacement::new(image(2), Rect::new(0, 2, 1, 1));
    let mut scene = ImageScene::from_placements(vec![spanning.clone(), clean.clone()]);
    for _ in 0..32 {
        scene.mark_damaged(&[true, false, false], Rect::new(0, 0, 1, 3), 0);
        scene
            .push_with_limits(ImagePlacement::new(image(3), Rect::new(0, 0, 1, 1)), 3, 12)
            .expect("replacement");
        assert_eq!(scene.placements().len(), 3);
        assert_eq!(scene.scope_depth(), 1);
    }
    scene.push_with_limits(spanning.clone(), 3, 12).expect("spanning replay");
    scene.finish_repaint();
    assert_eq!(scene.placements()[1..], [spanning, clean]);
}

#[test]
fn split_row_removals_release_retired_sources() {
    let bounds = Rect::new(0, 0, 1, 4);
    let clean = ImagePlacement::new(image(1), Rect::new(0, 0, 1, 1));
    let mut scene = ImageScene::from_placements(vec![clean]);
    for _ in 0..16 {
        scene.mark_damaged(&[false, false, true, true], bounds, 0);
        scene
            .push_with_limits(ImagePlacement::new(image(2), Rect::new(0, 2, 1, 2)), 3, 12)
            .expect("spanning");
        scene
            .push_with_limits(ImagePlacement::new(image(3), Rect::new(0, 3, 1, 1)), 3, 12)
            .expect("overlapping");
        scene.mark_damaged(&[false, false, true, false], bounds, 0);
        scene.mark_damaged(&[false, false, false, true], bounds, 0);
        assert_eq!(scene.placements().len(), 1);
    }
}

#[test]
fn undamaged_rows_leave_depth_unchanged_and_lone_stale_placements_retire() {
    let placement = ImagePlacement::new(image(1), Rect::new(0, 0, 1, 1));
    let mut scene = ImageScene::from_placements(vec![placement.clone()]);
    assert_eq!(scene.mark_damaged(&[false, true], Rect::new(0, 0, 1, 2), 0), 0);
    assert_eq!(scene.stale_marks(), [false]);
    assert_eq!(scene.mark_damaged(&[true], Rect::new(5, 5, 1, 1), 0), 0);
    assert_eq!(scene.stale_marks(), [false]);
    // A stale placement that overlaps no live placement carries no ordering
    // information, so it leaves the scene at once.
    assert_eq!(scene.mark_damaged(&[true], Rect::new(0, 0, 1, 1), 0), 1);
    assert!(scene.is_empty());
    assert_eq!(scene.stale_marks(), Vec::<bool>::new());
    assert_eq!(scene.scope_depth(), 1);
    scene.finish_repaint();
    assert!(scene.is_empty());
    assert_eq!(scene.scope_depth(), 0);
}

#[test]
fn source_bytes_count_each_live_image_once() {
    let shared = image(1);
    let scene = ImageScene::from_placements(vec![
        ImagePlacement::new(shared.clone(), Rect::new(0, 0, 1, 1)),
        ImagePlacement::new(shared.clone(), Rect::new(1, 0, 1, 1)),
    ]);
    assert_eq!(
        scene.source_bytes_with(&ImagePlacement::new(shared, Rect::new(2, 0, 1, 1))),
        4
    );
    assert_eq!(
        scene.source_bytes_with(&ImagePlacement::new(image(2), Rect::new(2, 0, 1, 1))),
        8
    );
}

#[test]
fn replay_above_an_outer_replay_carries_pending_overlapping_successors() {
    let a = ImagePlacement::new(image(1), Rect::new(0, 0, 1, 2));
    let b = ImagePlacement::new(image(3), Rect::new(0, 1, 1, 1));
    let u = ImagePlacement::new(image(2), Rect::new(0, 1, 1, 2));
    let bounds = Rect::new(0, 0, 1, 3);
    let mut scene = ImageScene::from_placements(vec![a.clone(), b.clone(), u.clone()]);

    // The outer repaint replays `u` in place.
    assert_eq!(scene.mark_damaged(&[false, false, true], bounds, 0), 1);
    assert_eq!(scene.stale_marks(), [false, false, true]);
    scene.push(u.clone(), 1).expect("within limits");
    assert_eq!(scene.replay_marks(), [false, false, true]);

    // A nested repaint damages `a` only; `b` stays untouched.
    assert_eq!(scene.mark_damaged(&[true, false, false], bounds, 1), 2);
    assert_eq!(scene.stale_marks(), [true, false, false]);

    // Back in the outer scope, `a` must go above the replayed `u`, and the
    // untouched, not yet replayed `b` that overlaps it moves along.
    scene.push(a.clone(), 1).expect("within limits");
    assert_eq!(scene.scope_depth(), 1);
    assert_eq!(scene.placements(), [u, a, b]);
    assert_eq!(scene.stale_marks(), [false, false, false]);
    assert_eq!(scene.replay_marks(), [true, true, false]);
}
