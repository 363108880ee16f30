use arborui::sync_stream::synchronized;

const BEGIN: &[u8] = b"\x1b[?2026h";
const END: &[u8] = b"\x1b[?2026l";
const ST: &[u8] = b"\x1b\\";

#[test]
fn sync_parser_ignores_ends_inside_control_strings() {
    for string in [b"\x1b]0;".as_slice(), b"\x1b_G"] {
        assert!(synchronized(&[BEGIN, string, END, ST].concat()));
        assert!(!synchronized(&[BEGIN, string, END, ST, END, END].concat()));
    }
}

#[test]
fn sync_parser_tracks_plain_begin_and_end() {
    assert!(!synchronized(b""));
    assert!(synchronized(BEGIN));
    assert!(!synchronized(&[BEGIN, END].concat()));
    assert!(synchronized(&[BEGIN, END, BEGIN].concat()));
}
