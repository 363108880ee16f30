use arborui::geometry::Size;
use arborui::terminal::{
    color_capability_from, detect_kitty_graphics_from, detected_capabilities,
    kitty_graphics_enabled, kitty_single_command_from, reported_viewport, sanitized_title,
    state_changed,
    Capabilities, ColorCapability, KittyGraphicsMode, TerminalPixelSize, TerminalViewport, TestBackendError,
};

#[test]
fn kitty_single_command_workaround_requires_an_xterm_js_hint() {
    for program in [
        None,
        Some(""),
        Some("kitty"),
        Some("Ghostty"),
        Some("WezTerm"),
        Some("xterm"),
    ] {
        assert!(!kitty_single_command_from(program), "{program:?}");
    }
    for program in ["vscode", "VSCode", "xterm.js", "XTERM.JS"] {
        assert!(kitty_single_command_from(Some(program)), "{program}");
    }
}

#[test]
fn automatic_kitty_detection_recognizes_direct_and_rejects_indirect_sessions() {
    assert!(detect_kitty_graphics_from(Some("xterm-kitty"), None, false, false));
    assert!(detect_kitty_graphics_from(None, Some("Ghostty"), false, false));
    assert!(detect_kitty_graphics_from(
        Some("xterm-256color"),
        Some("vscode"),
        false,
        false,
    ));
    assert!(!detect_kitty_graphics_from(None, Some("Ghostty"), false, true));
    assert!(!detect_kitty_graphics_from(Some("xterm-kitty"), None, true, true));
    assert!(!detect_kitty_graphics_from(
        Some("tmux-256color"),
        Some("kitty"),
        false,
        false,
    ));
}

#[test]
fn reported_viewport_discards_missing_pixel_dimensions() {
    let cells = Size::new(80, 24);

    assert_eq!(
        reported_viewport(80, 24, 800, 600),
        Some(TerminalViewport::with_pixels(cells, TerminalPixelSize::new(800, 600)))
    );
    assert_eq!(
        reported_viewport(80, 24, 0, 0),
        Some(TerminalViewport::from_cells(cells))
    );
    assert_eq!(reported_viewport(0, 24, 800, 600), None);
}

#[test]
fn modes_are_reapplied_when_either_record_differs() {
    assert!(!state_changed(1, 1, 1));
    assert!(state_changed(1, 2, 1));
    assert!(state_changed(1, 1, 2));
    assert!(state_changed(true, false, false));
}

#[test]
fn test_backend_error_has_a_fixed_description() {
    assert_eq!(TestBackendError.message(), "test terminal output failure");
}

#[test]
fn terminal_titles_cannot_inject_control_sequences() {
    let output = sanitized_title("safe\x07\x1b]2;unsafe");
    assert!(
        !output.contains("\x07\x1b]2;unsafe"),
        "BEL and ESC from the requested title must not terminate its OSC sequence"
    );
    assert!(output.contains("safe]2;uns"));
    assert_eq!(output, "safe]2;unsafe");
}

#[test]
fn titles_keep_printable_and_non_ascii_characters() {
    assert_eq!(sanitized_title("héllo wörld ✓"), "héllo wörld ✓");
    assert_eq!(sanitized_title(""), "");
}

#[test]
fn titles_lose_c1_controls_and_delete_but_keep_their_neighbours() {
    assert_eq!(sanitized_title("a\u{7f}b\u{80}c\u{9f}d\u{a0}e\n\t"), "abcd\u{a0}e");
}

#[test]
fn color_depth_follows_colorterm_then_term() {
    assert_eq!(color_capability_from(Some("truecolor"), None), ColorCapability::TrueColor);
    assert_eq!(color_capability_from(Some("24BIT"), Some("xterm")), ColorCapability::TrueColor);
    assert_eq!(
        color_capability_from(Some("yes"), Some("xterm-256color")),
        ColorCapability::Ansi256
    );
    assert_eq!(color_capability_from(None, Some("xterm-256COLOR")), ColorCapability::Ansi16);
    assert_eq!(color_capability_from(None, None), ColorCapability::Ansi16);
}

#[test]
fn detected_capabilities_keep_conservative_defaults() {
    let detected = detected_capabilities(Some("truecolor"), None, true);
    assert_eq!(
        detected,
        Capabilities {
            color: ColorCapability::TrueColor,
            kitty_graphics: true,
            ..Capabilities::default()
        }
    );
}

#[test]
fn configured_capabilities_are_reported() {
    let capabilities = Capabilities {
        synchronized_updates: true,
        ..Capabilities::default()
    };
    assert_eq!(capabilities.supported_subset(), capabilities);
}

#[test]
fn unsupported_hyperlink_capability_remains_disabled() {
    let configured = Capabilities {
        hyperlinks: true,
        ..Capabilities::default()
    }
    .supported_subset();
    assert!(!configured.hyperlinks);
}

#[test]
fn kitty_graphics_mode_overrides_detection() {
    for detected in [false, true] {
        assert!(!kitty_graphics_enabled(KittyGraphicsMode::Disabled, detected));
        assert!(kitty_graphics_enabled(KittyGraphicsMode::Enabled, detected));
        assert_eq!(kitty_graphics_enabled(KittyGraphicsMode::Auto, detected), detected);
    }
}
