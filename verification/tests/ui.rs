use arborui::ui::{
    input_text_geometry, saturating_i32, saturating_u16, Dimension, Key, NodeId, WidgetKind,
};

#[test]
fn caret_stays_in_place_while_it_fits() {
    assert_eq!(input_text_geometry(0, 40, || unreachable!()), (0, 0));
    assert_eq!(input_text_geometry(39, 40, || unreachable!()), (39, 0));
}

#[test]
fn caret_at_the_exact_edge_keeps_the_spare_cell_without_visible_suffix() {
    assert_eq!(input_text_geometry(40, 40, || false), (40, 0));
    assert_eq!(input_text_geometry(40, 40, || true), (39, -1));
}

#[test]
fn caret_past_the_edge_scrolls_the_spans() {
    assert_eq!(input_text_geometry(41, 40, || unreachable!()), (39, -2));
    assert_eq!(input_text_geometry(5, 0, || unreachable!()), (0, -5));
    assert_eq!(input_text_geometry(0, 0, || unreachable!()), (0, 0));
    assert_eq!(
        input_text_geometry(usize::MAX, 10, || unreachable!()),
        (9, 9 - i32::MAX)
    );
}

#[test]
fn saturating_conversions_clamp_at_the_maximum() {
    assert_eq!(saturating_u16(7), 7);
    assert_eq!(saturating_u16(70_000), u16::MAX);
    assert_eq!(saturating_i32(7), 7);
    assert_eq!(saturating_i32(usize::MAX), i32::MAX);
}

#[test]
fn keys_convert_from_integers_and_text() {
    assert_eq!(Key::from(7_u64), Key::Integer(7));
    assert_eq!(Key::from(7_u32), Key::Integer(7));
    assert_eq!(Key::from(7_usize), Key::Integer(7));
    assert_eq!(Key::from(String::from("row")), Key::String(String::from("row")));
    assert_eq!(Key::text("row"), Key::String(String::from("row")));
}

#[test]
fn dimensions_and_identities_are_plain_values() {
    assert_eq!(Dimension::cells(3), Dimension::Cells(3));
    assert_eq!(Dimension::percent(50), Dimension::Percent(50));
    assert_eq!(Dimension::default(), Dimension::Auto);
    assert_eq!(NodeId(4), NodeId(4));
    assert_ne!(WidgetKind::Custom("a"), WidgetKind::Custom("b"));
}
