use vstd::prelude::*;

use crate::geometry::Size;
use vstd::std_specs::cmp::PartialEqSpec;
use vstd::string::StringSliceAdditionalSpecFns;

verus! {

/// Width policy selected for a terminal's grapheme measurement.
#[derive(Clone, Copy, Debug, Default, PartialEq, Eq, Structural, Hash)]
pub enum WidthPolicy {
    /// Unicode East Asian Width with emoji presentation.
    #[default]
    Unicode,
    /// Ambiguous-width characters occupy two cells.
    Cjk,
    /// Legacy `wcwidth` widths.
    WcWidth,
}

/// Terminal color depth.
#[derive(Clone, Copy, Debug, Default, PartialEq, Eq, Structural, Hash)]
pub enum ColorCapability {
    /// The standard 16 ANSI colors.
    #[default]
    Ansi16,
    /// The indexed 256-color palette.
    Ansi256,
    /// 24-bit red, green, and blue colors.
    TrueColor,
}

/// Keyboard protocol capability.
#[derive(Clone, Copy, Debug, Default, PartialEq, Eq, Structural, Hash)]
pub enum KeyboardCapability {
    /// Legacy terminal key sequences only.
    #[default]
    Legacy,
    /// Kitty progressive keyboard enhancement is supported.
    Enhanced,
}

/// Mouse protocol capability.
#[derive(Clone, Copy, Debug, Default, PartialEq, Eq, Structural, Hash)]
pub enum MouseCapability {
    /// Mouse reporting is unavailable.
    Unavailable,
    /// SGR mouse reporting is available.
    #[default]
    Sgr,
}

/// Terminal features detected or configured by a backend.
#[derive(Clone, Copy, Debug, PartialEq, Eq, Structural, Hash)]
pub struct Capabilities {
    pub color: ColorCapability,
    pub keyboard: KeyboardCapability,
    pub mouse: MouseCapability,
    pub synchronized_updates: bool,
    pub bracketed_paste: bool,
    pub focus_reporting: bool,
    pub hyperlinks: bool,
    pub explicit_width: bool,
    pub kitty_graphics: bool,
    pub width_policy: WidthPolicy,
}

impl Capabilities {
    /// The conservative capabilities assumed when nothing is detected.
    pub open spec fn default_spec() -> Self {
        Capabilities {
            color: ColorCapability::Ansi16,
            keyboard: KeyboardCapability::Legacy,
            mouse: MouseCapability::Sgr,
            synchronized_updates: false,
            bracketed_paste: true,
            focus_reporting: true,
            hyperlinks: false,
            explicit_width: false,
            kitty_graphics: false,
            width_policy: WidthPolicy::Unicode,
        }
    }

    /// Returns the conservative default capabilities.
    pub fn conservative() -> (r: Self)
        ensures
            r == Self::default_spec(),
    {
        Capabilities {
            color: ColorCapability::Ansi16,
            keyboard: KeyboardCapability::Legacy,
            mouse: MouseCapability::Sgr,
            synchronized_updates: false,
            bracketed_paste: true,
            focus_reporting: true,
            hyperlinks: false,
            explicit_width: false,
            kitty_graphics: false,
            width_policy: WidthPolicy::Unicode,
        }
    }

    /// Applies configured capabilities, keeping unsupported output features
    /// (hyperlinks) disabled even when requested.
    pub fn supported_subset(self) -> (r: Self)
        ensures
            r == (Capabilities { hyperlinks: false, ..self }),
    {
        Capabilities { hyperlinks: false, ..self }
    }
}

impl Default for Capabilities {
    fn default() -> (r: Self)
        ensures
            r == Self::default_spec(),
    {
        Self::conservative()
    }
}

/// Policy for enabling Kitty graphics output.
#[derive(Clone, Copy, Debug, Default, PartialEq, Eq, Structural, Hash)]
pub enum KittyGraphicsMode {
    /// Enable only for conservatively recognized direct terminal sessions.
    #[default]
    Auto,
    /// Never emit Kitty graphics commands.
    Disabled,
    /// Emit Kitty graphics commands without probing the terminal.
    Enabled,
}

/// Whether Kitty graphics are emitted under `mode`, where `detected` is the
/// result of automatic environment detection.
pub fn kitty_graphics_enabled(mode: KittyGraphicsMode, detected: bool) -> (r: bool)
    ensures
        r == match mode {
            KittyGraphicsMode::Auto => detected,
            KittyGraphicsMode::Disabled => false,
            KittyGraphicsMode::Enabled => true,
        },
{
    match mode {
        KittyGraphicsMode::Auto => detected,
        KittyGraphicsMode::Disabled => false,
        KittyGraphicsMode::Enabled => true,
    }
}

/// Pixel dimensions of a terminal's drawable cell grid.
#[derive(Clone, Copy, Debug, PartialEq, Eq, Structural, Hash)]
pub struct TerminalPixelSize {
    pub width: u16,
    pub height: u16,
}

impl TerminalPixelSize {
    /// Creates terminal pixel dimensions.
    pub fn new(width: u16, height: u16) -> (r: Self)
        ensures
            r.width == width && r.height == height,
    {
        TerminalPixelSize { width, height }
    }
}

/// Current terminal dimensions in cells and, when available, pixels.
#[derive(Clone, Copy, Debug, PartialEq, Eq, Structural, Hash)]
pub struct TerminalViewport {
    pub cells: Size,
    pub pixels: Option<TerminalPixelSize>,
}

impl TerminalViewport {
    /// Creates a viewport without reported pixel dimensions.
    pub fn from_cells(cells: Size) -> (r: Self)
        ensures
            r == (TerminalViewport { cells, pixels: None }),
    {
        TerminalViewport { cells, pixels: None }
    }

    /// Creates a viewport with reported pixel dimensions.
    pub fn with_pixels(cells: Size, pixels: TerminalPixelSize) -> (r: Self)
        ensures
            r == (TerminalViewport { cells, pixels: Some(pixels) }),
    {
        TerminalViewport { cells, pixels: Some(pixels) }
    }
}

/// Interprets a terminal window-size report: no viewport for an empty cell
/// grid, and pixel dimensions only when both are nonzero.
pub fn reported_viewport(columns: u16, rows: u16, width: u16, height: u16) -> (r: Option<
    TerminalViewport,
>)
    ensures
        (columns == 0 || rows == 0) ==> r is None,
        (columns != 0 && rows != 0 && (width == 0 || height == 0)) ==> r == Some(
            TerminalViewport { cells: Size { width: columns, height: rows }, pixels: None },
        ),
        (columns != 0 && rows != 0 && width != 0 && height != 0) ==> r == Some(
            TerminalViewport {
                cells: Size { width: columns, height: rows },
                pixels: Some(TerminalPixelSize { width, height }),
            },
        ),
{
    let cells = Size::new(columns, rows);
    if cells.is_empty() {
        return None;
    }
    if width == 0 || height == 0 {
        return Some(TerminalViewport::from_cells(cells));
    }
    Some(TerminalViewport::with_pixels(cells, TerminalPixelSize::new(width, height)))
}

/// Result of attempting to deliver a complete frame patch.
#[derive(Clone, Copy, Debug, PartialEq, Eq, Structural, Hash)]
pub enum WriteOutcome {
    /// The backend accepted the complete patch in order.
    Applied,
    /// The backend applied no bytes and asks the caller to retry or discard.
    Deferred,
    /// Some output may have been applied; the renderer must force a repaint.
    StateUnknown,
}

/// In-memory terminal output failure.
#[derive(Clone, Copy, Debug, PartialEq, Eq, Structural)]
pub struct TestBackendError;

impl TestBackendError {
    /// Human-readable description of the failure.
    pub fn message(&self) -> (r: &'static str)
        ensures
            r@ == "test terminal output failure"@,
    {
        "test terminal output failure"
    }
}

/// Whether a terminal mode must be (re)applied: the desired value differs
/// from either the active or the last confirmed value.
pub fn state_changed<T: PartialEq>(desired: T, active: T, confirmed: T) -> (r: bool)
    ensures
        T::obeys_eq_spec() ==> r == (!desired.eq_spec(&active) || !desired.eq_spec(&confirmed)),
{
    desired != active || desired != confirmed
}

// ---------------------------------------------------------------------------
// Window titles.
// ---------------------------------------------------------------------------

/// Whether `c` is in the Unicode general category of control codes (Cc):
/// U+0000 to U+001F and U+007F to U+009F.
pub open spec fn is_control(c: char) -> bool {
    (c as u32) <= 0x1f || (0x7f <= (c as u32) && (c as u32) <= 0x9f)
}

/// The title with every control character left out.
pub open spec fn sanitized(title: Seq<char>) -> Seq<char> {
    title.filter(|c: char| !is_control(c))
}

/// Returns whether `c` is a control character.
fn control_char(c: char) -> (r: bool)
    ensures
        r == is_control(c),
{
    let code = c as u32;
    code <= 0x1f || (0x7f <= code && code <= 0x9f)
}

/// Calls `String::push`, which std documents as appending the character to
/// the end of the string.
#[verifier::external_body]
fn push_char(s: &mut String, c: char)
    ensures
        final(s)@ == old(s)@.push(c),
{
    s.push(c);
}

/// Removes control characters from a window title, so that a title cannot
/// carry terminal control sequences.
pub fn sanitized_title(title: &str) -> (r: String)
    ensures
        r@ == sanitized(title@),
{
    let mut out = String::new();
    proof {
        broadcast use vstd::string::axiom_spec_iter;
    }
    for c in it: title.chars()
        invariant
            it.seq() == title@,
            out@ == sanitized(it.seq().take(it.index())),
    {
        proof {
            let prefix = it.seq().take(it.index());
            assert(it.seq().take(it.index() + 1) == prefix.push(c));
            prefix.lemma_filter_push(c, |c: char| !is_control(c));
        }
        if !control_char(c) {
            push_char(&mut out, c);
        }
    }
    assert(title@.take(title@.len() as int) == title@);
    out
}

/// A sanitized title holds no control character, and it keeps every other
/// character of the title.
pub proof fn lemma_sanitized_title_has_no_controls(title: Seq<char>)
    ensures
        forall|i: int| 0 <= i < sanitized(title).len() ==> !is_control(#[trigger] sanitized(title)[i]),
        forall|i: int| 0 <= i < title.len() && !is_control(title[i]) ==> sanitized(title).contains(
            #[trigger] title[i],
        ),
        sanitized(title).len() <= title.len(),
{
    broadcast use vstd::seq_lib::group_filter_ensures;

}

// ---------------------------------------------------------------------------
// Environment-hint interpretation for Kitty graphics.
// ---------------------------------------------------------------------------

/// ASCII lowercase of one byte.
pub open spec fn ascii_lower(b: u8) -> u8 {
    if 65 <= b <= 90 { (b + 32) as u8 } else { b }
}

/// Bytewise ASCII lowercase of a byte string.
pub open spec fn lower_seq(s: Seq<u8>) -> Seq<u8> {
    Seq::new(s.len(), |i: int| ascii_lower(s[i]))
}

/// Whether `s` begins with `prefix`.
pub open spec fn has_prefix(s: Seq<u8>, prefix: Seq<u8>) -> bool {
    prefix.len() <= s.len() && s.subrange(0, prefix.len() as int) == prefix
}

/// Whether `needle` occurs contiguously in `s`.
pub open spec fn has_infix(s: Seq<u8>, needle: Seq<u8>) -> bool {
    exists|i: int| 0 <= i <= s.len() - needle.len() && #[trigger] s.subrange(i, i + needle.len()) == needle
}

/// Whether two byte strings are equal ignoring ASCII case.
pub open spec fn eq_ignore_ascii_case(a: Seq<u8>, b: Seq<u8>) -> bool {
    lower_seq(a) == lower_seq(b)
}

/// Whether `TERM` names a terminal multiplexer.
pub open spec fn names_multiplexer(term: Seq<u8>) -> bool {
    has_prefix(lower_seq(term), ascii("tmux"@)) || has_prefix(
        lower_seq(term),
        ascii("screen"@),
    )
}

/// Whether a `TERM` or `TERM_PROGRAM` value names a terminal known to
/// implement direct Kitty graphics.
pub open spec fn names_kitty_terminal(value: Seq<u8>) -> bool {
    ||| has_infix(lower_seq(value), ascii("kitty"@))
    ||| has_infix(lower_seq(value), ascii("ghostty"@))
    ||| has_infix(lower_seq(value), ascii("wezterm"@))
    ||| has_infix(lower_seq(value), ascii("vscode"@))
}

fn ascii_lower_exec(b: u8) -> (r: u8)
    ensures
        r == ascii_lower(b),
{
    if 65 <= b && b <= 90 {
        b + 32
    } else {
        b
    }
}

/// ASCII-lowercases a byte string.
fn lowercase(s: &[u8]) -> (r: Vec<u8>)
    ensures
        r@ == lower_seq(s@),
{
    let mut out: Vec<u8> = Vec::new();
    let mut i: usize = 0;
    while i < s.len()
        invariant
            i <= s@.len(),
            out@ == lower_seq(s@.subrange(0, i as int)),
        decreases s@.len() - i,
    {
        out.push(ascii_lower_exec(s[i]));
        i = i + 1;
        assert(out@ =~= lower_seq(s@.subrange(0, i as int)));
    }
    assert(s@.subrange(0, s@.len() as int) =~= s@);
    out
}

/// Whether `s[at..]` begins with `needle`.
fn matches_at(s: &[u8], at: usize, needle: &[u8]) -> (r: bool)
    requires
        at + needle@.len() <= s@.len(),
    ensures
        r == (s@.subrange(at as int, at + needle@.len()) == needle@),
{
    let mut j: usize = 0;
    while j < needle.len()
        invariant
            at + needle@.len() <= s@.len(),
            s@.len() == s.len(),
            j <= needle@.len(),
            forall|k: int| 0 <= k < j ==> s@[at + k] == needle@[k],
        decreases needle@.len() - j,
    {
        if s[at + j] != needle[j] {
            assert(s@.subrange(at as int, at + needle@.len())[j as int] != needle@[j as int]);
            return false;
        }
        j = j + 1;
    }
    assert(s@.subrange(at as int, at + needle@.len()) =~= needle@);
    true
}

/// Whether `s` begins with `prefix`.
fn starts_with(s: &[u8], prefix: &[u8]) -> (r: bool)
    ensures
        r == has_prefix(s@, prefix@),
{
    if prefix.len() > s.len() {
        return false;
    }
    matches_at(s, 0, prefix)
}

/// Whether `needle` occurs contiguously in `s`.
fn contains_bytes(s: &[u8], needle: &[u8]) -> (r: bool)
    ensures
        r == has_infix(s@, needle@),
{
    if needle.len() > s.len() {
        assert forall|i: int| 0 <= i <= s@.len() - needle@.len() implies #[trigger] s@.subrange(
            i,
            i + needle@.len(),
        ) != needle@ by {}
        return false;
    }
    let last = s.len() - needle.len();
    let mut i: usize = 0;
    loop
        invariant
            last == s@.len() - needle@.len(),
            i <= last,
            forall|k: int| 0 <= k < i ==> #[trigger] s@.subrange(k, k + needle@.len()) != needle@,
        decreases last - i,
    {
        if matches_at(s, i, needle) {
            return true;
        }
        if i == last {
            return false;
        }
        i = i + 1;
    }
}

/// Bytes of an ASCII literal.
fn literal(s: &str) -> (r: Vec<u8>)
    requires
        s.is_ascii(),
    ensures
        r@ == s@.map_values(|c: char| c as u8),
{
    proof {
        vstd::string::is_ascii_spec_bytes(s);
    }
    let b = s.as_bytes();
    let mut out: Vec<u8> = Vec::new();
    let mut i: usize = 0;
    while i < b.len()
        invariant
            b@ == Seq::new(s@.len(), |j: int| s@[j] as u8),
            i <= b@.len(),
            out@ == b@.subrange(0, i as int),
        decreases b@.len() - i,
    {
        out.push(b[i]);
        i = i + 1;
        assert(out@ =~= b@.subrange(0, i as int));
    }
    assert(out@ =~= s@.map_values(|c: char| c as u8));
    out
}

/// Byte string of an ASCII literal in a specification.
pub open spec fn ascii(s: Seq<char>) -> Seq<u8> {
    s.map_values(|c: char| c as u8)
}

/// Whether bytes `a` equal the ASCII literal `b`, ignoring ASCII case.
fn eq_ignore_case_literal(a: &[u8], b: &str) -> (r: bool)
    requires
        b.is_ascii(),
    ensures
        r == eq_ignore_ascii_case(a@, ascii(b@)),
{
    let lit = literal(b);
    if a.len() != lit.len() {
        assert(lower_seq(a@).len() != lower_seq(lit@).len());
        return false;
    }
    let la = lowercase(a);
    let lb = lowercase(lit.as_slice());
    let eq = matches_at(la.as_slice(), 0, lb.as_slice());
    assert(la@.subrange(0, lb@.len() as int) =~= la@);
    eq
}

/// Whether the lowercased bytes of `value` contain the ASCII literal `needle`.
fn lower_contains_literal(lowered: &[u8], needle: &str) -> (r: bool)
    requires
        needle.is_ascii(),
    ensures
        r == has_infix(lowered@, ascii(needle@)),
{
    let lit = literal(needle);
    contains_bytes(lowered, lit.as_slice())
}

/// Whether `TERM_PROGRAM` identifies an xterm.js host, whose Kitty graphics
/// implementation needs each image in a single command.
pub open spec fn single_command_host(term_program: Option<Seq<u8>>) -> bool {
    match term_program {
        Some(v) => eq_ignore_ascii_case(v, ascii("vscode"@)) || eq_ignore_ascii_case(
            v,
            ascii("xterm.js"@),
        ),
        None => false,
    }
}

/// Whether the `TERM_PROGRAM` hint requires the single-command workaround.
pub fn kitty_single_command_from(term_program: Option<&str>) -> (r: bool)
    ensures
        r == single_command_host(
            match term_program {
                Some(v) => Some(v.spec_bytes()),
                None => None,
            },
        ),
{
    match term_program {
        None => false,
        Some(value) => {
            let bytes = value.as_bytes();
            proof {
                reveal_strlit("vscode");
                reveal_strlit("xterm.js");
            }
            eq_ignore_case_literal(bytes, "vscode") || eq_ignore_case_literal(bytes, "xterm.js")
        },
    }
}

/// Whether automatic detection enables Kitty graphics: never through a
/// multiplexer or an indirect session, otherwise when a Kitty window is
/// reported or either hint names a recognized terminal.
pub open spec fn kitty_graphics_detected(
    term: Option<Seq<u8>>,
    term_program: Option<Seq<u8>>,
    kitty_window: bool,
    indirect: bool,
) -> bool {
    let multiplexer = match term {
        Some(t) => names_multiplexer(t),
        None => false,
    };
    let term_known = match term {
        Some(t) => names_kitty_terminal(t),
        None => false,
    };
    let program_known = match term_program {
        Some(p) => names_kitty_terminal(p),
        None => false,
    };
    !indirect && !multiplexer && (kitty_window || term_known || program_known)
}

fn names_kitty_terminal_exec(value: &[u8]) -> (r: bool)
    ensures
        r == names_kitty_terminal(value@),
{
    let lowered = lowercase(value);
    proof {
        reveal_strlit("kitty");
        reveal_strlit("ghostty");
        reveal_strlit("wezterm");
        reveal_strlit("vscode");
    }
    lower_contains_literal(lowered.as_slice(), "kitty") || lower_contains_literal(
        lowered.as_slice(),
        "ghostty",
    ) || lower_contains_literal(lowered.as_slice(), "wezterm") || lower_contains_literal(
        lowered.as_slice(),
        "vscode",
    )
}

/// Interprets environment hints for automatic Kitty graphics detection.
pub fn detect_kitty_graphics_from(
    term: Option<&str>,
    term_program: Option<&str>,
    kitty_window: bool,
    indirect: bool,
) -> (r: bool)
    ensures
        r == kitty_graphics_detected(
            match term {
                Some(v) => Some(v.spec_bytes()),
                None => None,
            },
            match term_program {
                Some(v) => Some(v.spec_bytes()),
                None => None,
            },
            kitty_window,
            indirect,
        ),
{
    let multiplexer = match term {
        Some(value) => {
            let lowered = lowercase(value.as_bytes());
            proof {
                reveal_strlit("tmux");
                reveal_strlit("screen");
            }
            let tmux = literal("tmux");
            let screen = literal("screen");
            starts_with(lowered.as_slice(), tmux.as_slice()) || starts_with(
                lowered.as_slice(),
                screen.as_slice(),
            )
        },
        None => false,
    };
    if indirect || multiplexer {
        return false;
    }
    let term_known = match term {
        Some(value) => names_kitty_terminal_exec(value.as_bytes()),
        None => false,
    };
    let program_known = match term_program {
        Some(value) => names_kitty_terminal_exec(value.as_bytes()),
        None => false,
    };
    kitty_window || term_known || program_known
}

/// Color depth implied by the `COLORTERM` and `TERM` hints: 24-bit when
/// `COLORTERM` is `truecolor` or `24bit` in any ASCII case, the 256-color
/// palette when `TERM` contains `256color`, and 16 colors otherwise.
pub open spec fn color_from_hints(colorterm: Option<Seq<u8>>, term: Option<Seq<u8>>) -> ColorCapability {
    let truecolor = match colorterm {
        Some(v) => eq_ignore_ascii_case(v, ascii("truecolor"@)) || eq_ignore_ascii_case(
            v,
            ascii("24bit"@),
        ),
        None => false,
    };
    let palette = match term {
        Some(t) => has_infix(t, ascii("256color"@)),
        None => false,
    };
    if truecolor {
        ColorCapability::TrueColor
    } else if palette {
        ColorCapability::Ansi256
    } else {
        ColorCapability::Ansi16
    }
}

/// Interprets the `COLORTERM` and `TERM` hints as a color depth.
pub fn color_capability_from(colorterm: Option<&str>, term: Option<&str>) -> (r: ColorCapability)
    ensures
        r == color_from_hints(
            match colorterm {
                Some(v) => Some(v.spec_bytes()),
                None => None,
            },
            match term {
                Some(v) => Some(v.spec_bytes()),
                None => None,
            },
        ),
{
    proof {
        reveal_strlit("truecolor");
        reveal_strlit("24bit");
        reveal_strlit("256color");
    }
    let truecolor = match colorterm {
        Some(value) => eq_ignore_case_literal(value.as_bytes(), "truecolor")
            || eq_ignore_case_literal(value.as_bytes(), "24bit"),
        None => false,
    };
    if truecolor {
        return ColorCapability::TrueColor;
    }
    let palette = match term {
        Some(value) => lower_contains_literal(value.as_bytes(), "256color"),
        None => false,
    };
    if palette {
        ColorCapability::Ansi256
    } else {
        ColorCapability::Ansi16
    }
}

/// Capabilities detected from environment hints: the hinted color depth and
/// Kitty graphics as detected, everything else conservative.
pub fn detected_capabilities(colorterm: Option<&str>, term: Option<&str>, kitty_graphics: bool) -> (r:
    Capabilities)
    ensures
        r == (Capabilities {
            color: color_from_hints(
                match colorterm {
                    Some(v) => Some(v.spec_bytes()),
                    None => None,
                },
                match term {
                    Some(v) => Some(v.spec_bytes()),
                    None => None,
                },
            ),
            kitty_graphics,
            ..Capabilities::default_spec()
        }),
{
    let color = color_capability_from(colorterm, term);
    Capabilities { color, kitty_graphics, ..Capabilities::conservative() }
}


/// A `COLORTERM` of `truecolor` or `24bit`, in any ASCII case, means 24-bit
/// color whatever `TERM` says; without such a hint the depth is never
/// 24-bit, and it is the 256-color palette exactly when `TERM` contains
/// `256color`.
pub proof fn lemma_truecolor_hint_decides_color_depth(colorterm: Option<Seq<u8>>, term: Option<Seq<u8>>)
    ensures
        (colorterm matches Some(c) && (lower_seq(c) == lower_seq(ascii("truecolor"@)) || lower_seq(c)
            == lower_seq(ascii("24bit"@)))) ==> color_from_hints(colorterm, term)
            == ColorCapability::TrueColor,
        !(colorterm matches Some(c) && (lower_seq(c) == lower_seq(ascii("truecolor"@)) || lower_seq(
            c,
        ) == lower_seq(ascii("24bit"@)))) ==> {
            &&& color_from_hints(colorterm, term) != ColorCapability::TrueColor
            &&& (color_from_hints(colorterm, term) == ColorCapability::Ansi256 <==> (term matches Some(
                t,
            ) && has_infix(t, ascii("256color"@))))
        },
{
}

/// In a direct session (not indirect, and `TERM` naming no multiplexer:
/// it starts with neither `tmux` nor `screen` in any ASCII case), a `TERM`
/// or `TERM_PROGRAM` value containing `kitty`, `ghostty`, `wezterm` or
/// `vscode` in any ASCII case enables automatic Kitty graphics, and an
/// indirect session never does.
pub proof fn lemma_direct_sessions_detect_known_terminals(
    term: Option<Seq<u8>>,
    term_program: Option<Seq<u8>>,
    kitty_window: bool,
    name: Seq<char>,
)
    requires
        name == "kitty"@ || name == "ghostty"@ || name == "wezterm"@ || name == "vscode"@,
        (term matches Some(t) && has_infix(lower_seq(t), ascii(name))) || (term_program matches Some(
            p,
        ) && has_infix(lower_seq(p), ascii(name))),
        term matches Some(t) ==> !has_prefix(lower_seq(t), ascii("tmux"@)) && !has_prefix(
            lower_seq(t),
            ascii("screen"@),
        ),
    ensures
        kitty_graphics_detected(term, term_program, kitty_window, false),
        !kitty_graphics_detected(term, term_program, kitty_window, true),
{
}

} // verus!
