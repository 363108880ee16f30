use vstd::prelude::*;

use crate::terminal::{
    sanitized, sanitized_title, Capabilities, KeyboardCapability, MouseCapability,
};

verus! {

/// Which screen buffer the terminal shows.
#[derive(Clone, Copy, Debug, PartialEq, Eq, Structural)]
pub enum ScreenMode {
    Main,
    Alternate,
}

/// Mouse reporting mode.
#[derive(Clone, Copy, Debug, PartialEq, Eq, Structural)]
pub enum MouseMode {
    Disabled,
    Capture,
}

/// Keyboard reporting protocol.
#[derive(Clone, Copy, Debug, PartialEq, Eq, Structural)]
pub enum KeyboardMode {
    Legacy,
    Enhanced,
}

/// Line wrapping at the right margin.
#[derive(Clone, Copy, Debug, PartialEq, Eq, Structural)]
pub enum AutowrapMode {
    Enabled,
    Disabled,
    Preserve,
}

/// The terminal modes a backend owns: what is desired, what was last
/// written, or what the terminal last confirmed.
#[derive(Debug)]
pub struct TerminalModes {
    pub raw_mode: bool,
    pub screen: ScreenMode,
    pub mouse: MouseMode,
    pub keyboard: KeyboardMode,
    pub bracketed_paste: bool,
    pub focus_reporting: bool,
    pub autowrap: AutowrapMode,
    pub title: Option<String>,
    pub synchronized_updates: bool,
}

/// One command of a terminal lifecycle plan, in the order it is written.
#[derive(Clone, Copy, Debug, PartialEq, Eq, Structural)]
pub enum LifecycleStep {
    /// Terminate a possibly truncated string command and flush.
    TerminateString,
    /// Repair a possibly truncated Kitty command and synchronized update.
    RecoverKittyStream,
    /// Delete every possibly owned Kitty image.
    DeleteKittyImages,
    EnableRawMode,
    DisableRawMode,
    EnterAlternateScreen,
    LeaveAlternateScreen,
    PopKeyboardFlags,
    PushKeyboardFlags,
    EnableMouseCapture,
    DisableMouseCapture,
    EnableFocusChange,
    DisableFocusChange,
    EnableBracketedPaste,
    DisableBracketedPaste,
    EnableLineWrap,
    DisableLineWrap,
    /// Set the window title to the plan's title.
    SetTitle,
    /// Move and shape the cursor as desired.
    ApplyCursor,
    /// Reset colors, attributes and the cursor shape, and show the cursor.
    ResetStyle,
    Flush,
}

/// The commands of a plan, the title its `SetTitle` step writes, and
/// whether enhanced keyboard flags are on the terminal's stack once every
/// step is written.
#[derive(Debug)]
pub struct LifecyclePlan {
    pub steps: Vec<LifecycleStep>,
    pub title: String,
    pub keyboard_pushed: bool,
}

/// The title as characters, if any.
pub open spec fn title_view(t: Option<String>) -> Option<Seq<char>> {
    match t {
        Some(s) => Some(s@),
        None => None,
    }
}

/// `step` when `c` holds, nothing otherwise.
#[verifier::opaque]
pub open spec fn step_if(c: bool, step: LifecycleStep) -> Seq<LifecycleStep> {
    if c {
        seq![step]
    } else {
        seq![]
    }
}

/// Whether a mode must be (re)written: the desired value differs from the
/// written or the confirmed one.
pub open spec fn changed<T>(desired: T, active: T, confirmed: T) -> bool {
    desired != active || desired != confirmed
}

/// The modes a backend applies for `desired`: raw mode stays on when it
/// was on before the backend started, and features the terminal lacks are
/// left off.
pub open spec fn effective_spec(desired: TerminalModes, caps: Capabilities, original_raw: bool) -> TerminalModes {
    TerminalModes {
        raw_mode: desired.raw_mode || original_raw,
        mouse: if caps.mouse == MouseCapability::Unavailable { MouseMode::Disabled } else { desired.mouse },
        keyboard: if caps.keyboard == KeyboardCapability::Legacy { KeyboardMode::Legacy } else { desired.keyboard },
        bracketed_paste: desired.bracketed_paste && caps.bracketed_paste,
        focus_reporting: desired.focus_reporting && caps.focus_reporting,
        synchronized_updates: desired.synchronized_updates && caps.synchronized_updates,
        ..desired
    }
}

fn copy_title(t: &Option<String>) -> (r: Option<String>)
    ensures
        title_view(r) == title_view(*t),
{
    match t {
        Some(s) => Some(s.clone()),
        None => None,
    }
}

fn titles_equal(a: &Option<String>, b: &Option<String>) -> (r: bool)
    ensures
        r == (title_view(*a) == title_view(*b)),
{
    match (a, b) {
        (Some(x), Some(y)) => *x == *y,
        (None, None) => true,
        _ => false,
    }
}

/// Returns the modes applied for `desired` under `caps`.
pub fn effective_modes(desired: &TerminalModes, caps: Capabilities, original_raw: bool) -> (r: TerminalModes)
    ensures
        r.raw_mode == effective_spec(*desired, caps, original_raw).raw_mode,
        r.screen == desired.screen,
        r.mouse == effective_spec(*desired, caps, original_raw).mouse,
        r.keyboard == effective_spec(*desired, caps, original_raw).keyboard,
        r.bracketed_paste == effective_spec(*desired, caps, original_raw).bracketed_paste,
        r.focus_reporting == effective_spec(*desired, caps, original_raw).focus_reporting,
        r.autowrap == desired.autowrap,
        title_view(r.title) == title_view(desired.title),
        r.synchronized_updates == effective_spec(*desired, caps, original_raw).synchronized_updates,
{
    let mouse_unavailable = match caps.mouse {
        MouseCapability::Unavailable => true,
        _ => false,
    };
    let legacy_keyboard = match caps.keyboard {
        KeyboardCapability::Legacy => true,
        _ => false,
    };
    TerminalModes {
        raw_mode: desired.raw_mode || original_raw,
        screen: desired.screen,
        mouse: if mouse_unavailable { MouseMode::Disabled } else { desired.mouse },
        keyboard: if legacy_keyboard { KeyboardMode::Legacy } else { desired.keyboard },
        bracketed_paste: desired.bracketed_paste && caps.bracketed_paste,
        focus_reporting: desired.focus_reporting && caps.focus_reporting,
        autowrap: desired.autowrap,
        title: copy_title(&desired.title),
        synchronized_updates: desired.synchronized_updates && caps.synchronized_updates,
    }
}


/// The step that writes mouse mode `m`.
pub open spec fn mouse_step(m: MouseMode) -> LifecycleStep {
    if m == MouseMode::Capture {
        LifecycleStep::EnableMouseCapture
    } else {
        LifecycleStep::DisableMouseCapture
    }
}

/// The step that writes focus reporting `on`.
pub open spec fn focus_step(on: bool) -> LifecycleStep {
    if on {
        LifecycleStep::EnableFocusChange
    } else {
        LifecycleStep::DisableFocusChange
    }
}

/// The step that writes bracketed paste `on`.
pub open spec fn paste_step(on: bool) -> LifecycleStep {
    if on {
        LifecycleStep::EnableBracketedPaste
    } else {
        LifecycleStep::DisableBracketedPaste
    }
}

/// The step that writes wrapping mode `w`; preserving counts as enabled.
pub open spec fn wrap_step(w: AutowrapMode) -> LifecycleStep {
    if w == AutowrapMode::Disabled {
        LifecycleStep::DisableLineWrap
    } else {
        LifecycleStep::EnableLineWrap
    }
}

/// Whether applying `desired` writes a new screen buffer.
pub open spec fn screen_changes(active: TerminalModes, confirmed: TerminalModes, desired: TerminalModes) -> bool {
    changed(desired.screen, active.screen, confirmed.screen)
}

/// Whether keyboard flags are still pushed once the screen step is written
/// (leaving or entering a screen pops them).
pub open spec fn pushed_after_screen(
    active: TerminalModes,
    confirmed: TerminalModes,
    desired: TerminalModes,
    keyboard_pushed: bool,
) -> bool {
    keyboard_pushed && !screen_changes(active, confirmed, desired)
}

/// Whether applying `desired` rewrites the keyboard protocol: it changed,
/// or enhanced flags are desired and not on the stack.
pub open spec fn keyboard_rewritten(
    active: TerminalModes,
    confirmed: TerminalModes,
    desired: TerminalModes,
    keyboard_pushed: bool,
) -> bool {
    changed(desired.keyboard, active.keyboard, confirmed.keyboard) || (desired.keyboard
        == KeyboardMode::Enhanced && !pushed_after_screen(active, confirmed, desired, keyboard_pushed))
}

/// `base` followed by the screen commands of applying `desired`: raw mode
/// on, popping keyboard flags before the screen changes, deleting owned
/// Kitty images before leaving the alternate screen, then leaving or
/// entering it.
pub open spec fn with_screen_steps(
    base: Seq<LifecycleStep>,
    active: TerminalModes,
    confirmed: TerminalModes,
    desired: TerminalModes,
    keyboard_pushed: bool,
    cleanup_kitty: bool,
) -> Seq<LifecycleStep> {
    let screen = screen_changes(active, confirmed, desired);
    let main = desired.screen == ScreenMode::Main;
    base + step_if(desired.raw_mode && !active.raw_mode, LifecycleStep::EnableRawMode) + step_if(
        screen && keyboard_pushed,
        LifecycleStep::PopKeyboardFlags,
    ) + step_if(screen && main && cleanup_kitty, LifecycleStep::DeleteKittyImages) + step_if(
        screen && main,
        LifecycleStep::LeaveAlternateScreen,
    ) + step_if(screen && !main, LifecycleStep::EnterAlternateScreen)
}

/// `base` followed by the mouse, focus and paste commands of applying
/// `desired`, each written when it changed.
pub open spec fn with_toggle_steps(
    base: Seq<LifecycleStep>,
    active: TerminalModes,
    confirmed: TerminalModes,
    desired: TerminalModes,
) -> Seq<LifecycleStep> {
    base + step_if(changed(desired.mouse, active.mouse, confirmed.mouse), mouse_step(desired.mouse))
        + step_if(
        changed(desired.focus_reporting, active.focus_reporting, confirmed.focus_reporting),
        focus_step(desired.focus_reporting),
    ) + step_if(
        changed(desired.bracketed_paste, active.bracketed_paste, confirmed.bracketed_paste),
        paste_step(desired.bracketed_paste),
    )
}

/// `base` followed by the keyboard protocol command of applying `desired`:
/// legacy keys pop pushed flags, enhanced keys push them when they are not
/// on the stack.
pub open spec fn with_keyboard_steps(
    base: Seq<LifecycleStep>,
    active: TerminalModes,
    confirmed: TerminalModes,
    desired: TerminalModes,
    keyboard_pushed: bool,
) -> Seq<LifecycleStep> {
    let pushed = pushed_after_screen(active, confirmed, desired, keyboard_pushed);
    let keyboard = keyboard_rewritten(active, confirmed, desired, keyboard_pushed);
    base + step_if(
        keyboard && desired.keyboard == KeyboardMode::Legacy && pushed,
        LifecycleStep::PopKeyboardFlags,
    ) + step_if(
        keyboard && desired.keyboard == KeyboardMode::Enhanced && !pushed,
        LifecycleStep::PushKeyboardFlags,
    )
}

/// `base` followed by the input mode commands of applying `desired`:
/// mouse, focus, paste, keyboard protocol and wrapping.
pub open spec fn with_mode_steps(
    base: Seq<LifecycleStep>,
    active: TerminalModes,
    confirmed: TerminalModes,
    desired: TerminalModes,
    keyboard_pushed: bool,
) -> Seq<LifecycleStep> {
    with_keyboard_steps(
        with_toggle_steps(base, active, confirmed, desired),
        active,
        confirmed,
        desired,
        keyboard_pushed,
    ) + step_if(changed(desired.autowrap, active.autowrap, confirmed.autowrap), wrap_step(desired.autowrap))
}

/// `base` followed by the closing commands of applying `desired`: the
/// title when it changed or was not confirmed, the cursor when it changed,
/// the flush, and raw mode off when it is no longer desired.
pub open spec fn with_closing_steps(
    base: Seq<LifecycleStep>,
    active: TerminalModes,
    confirmed: TerminalModes,
    desired: TerminalModes,
    title_unconfirmed: bool,
    cursor_changed: bool,
) -> Seq<LifecycleStep> {
    base + step_if(
        title_unconfirmed || changed(
            title_view(desired.title),
            title_view(active.title),
            title_view(confirmed.title),
        ),
        LifecycleStep::SetTitle,
    ) + step_if(cursor_changed, LifecycleStep::ApplyCursor) + step_if(true, LifecycleStep::Flush)
        + step_if(!desired.raw_mode && active.raw_mode, LifecycleStep::DisableRawMode)
}

/// The commands that bring the terminal from the written modes `active`
/// and the confirmed modes `confirmed` to the effective modes `desired`, in
/// the order they are written. A mode is written when the desired value
/// differs from either; `keyboard_pushed` tells whether enhanced keyboard
/// flags are on the terminal's stack, `cleanup_kitty` whether owned Kitty
/// images are deleted before leaving the alternate screen,
/// `title_unconfirmed` whether an earlier title write was not confirmed, and
/// `cursor_changed` whether the cursor differs. Raw mode is switched on
/// first and switched off only after everything was flushed.
pub open spec fn apply_steps(
    active: TerminalModes,
    confirmed: TerminalModes,
    desired: TerminalModes,
    keyboard_pushed: bool,
    cleanup_kitty: bool,
    title_unconfirmed: bool,
    cursor_changed: bool,
) -> Seq<LifecycleStep> {
    with_closing_steps(
        with_mode_steps(
            with_screen_steps(Seq::empty(), active, confirmed, desired, keyboard_pushed, cleanup_kitty),
            active,
            confirmed,
            desired,
            keyboard_pushed,
        ),
        active,
        confirmed,
        desired,
        title_unconfirmed,
        cursor_changed,
    )
}

/// Whether enhanced keyboard flags are on the stack after applying
/// `desired`: pushed when enhanced flags are desired, popped when legacy
/// keys are desired and the protocol is rewritten, unchanged otherwise.
pub open spec fn pushed_after_apply(
    active: TerminalModes,
    confirmed: TerminalModes,
    desired: TerminalModes,
    keyboard_pushed: bool,
) -> bool {
    if keyboard_rewritten(active, confirmed, desired, keyboard_pushed) {
        desired.keyboard == KeyboardMode::Enhanced
    } else {
        pushed_after_screen(active, confirmed, desired, keyboard_pushed)
    }
}

/// The title an apply plan writes: the desired title without control
/// characters, or the empty title.
pub open spec fn apply_title(desired: TerminalModes) -> Seq<char> {
    match desired.title {
        Some(t) => sanitized(t@),
        None => Seq::empty(),
    }
}

fn push_if(v: &mut Vec<LifecycleStep>, c: bool, step: LifecycleStep)
    ensures
        final(v)@ == old(v)@ + step_if(c, step),
{
    reveal(step_if);
    if c {
        v.push(step);
    }
    assert(final(v)@ =~= old(v)@ + step_if(c, step));
}

fn mouse_step_of(m: MouseMode) -> (r: LifecycleStep)
    ensures
        r == mouse_step(m),
{
    match m {
        MouseMode::Capture => LifecycleStep::EnableMouseCapture,
        MouseMode::Disabled => LifecycleStep::DisableMouseCapture,
    }
}

fn focus_step_of(on: bool) -> (r: LifecycleStep)
    ensures
        r == focus_step(on),
{
    if on {
        LifecycleStep::EnableFocusChange
    } else {
        LifecycleStep::DisableFocusChange
    }
}

fn paste_step_of(on: bool) -> (r: LifecycleStep)
    ensures
        r == paste_step(on),
{
    if on {
        LifecycleStep::EnableBracketedPaste
    } else {
        LifecycleStep::DisableBracketedPaste
    }
}

fn wrap_step_of(w: AutowrapMode) -> (r: LifecycleStep)
    ensures
        r == wrap_step(w),
{
    match w {
        AutowrapMode::Disabled => LifecycleStep::DisableLineWrap,
        _ => LifecycleStep::EnableLineWrap,
    }
}

fn push_screen_steps(
    steps: &mut Vec<LifecycleStep>,
    active: &TerminalModes,
    confirmed: &TerminalModes,
    desired: &TerminalModes,
    keyboard_pushed: bool,
    cleanup_kitty: bool,
)
    ensures
        final(steps)@ == with_screen_steps(
            old(steps)@,
            *active,
            *confirmed,
            *desired,
            keyboard_pushed,
            cleanup_kitty,
        ),
{
    let screen = desired.screen != active.screen || desired.screen != confirmed.screen;
    let main = desired.screen == ScreenMode::Main;
    push_if(steps, desired.raw_mode && !active.raw_mode, LifecycleStep::EnableRawMode);
    push_if(steps, screen && keyboard_pushed, LifecycleStep::PopKeyboardFlags);
    push_if(steps, screen && main && cleanup_kitty, LifecycleStep::DeleteKittyImages);
    push_if(steps, screen && main, LifecycleStep::LeaveAlternateScreen);
    push_if(steps, screen && !main, LifecycleStep::EnterAlternateScreen);
}

fn push_toggle_steps(
    steps: &mut Vec<LifecycleStep>,
    active: &TerminalModes,
    confirmed: &TerminalModes,
    desired: &TerminalModes,
)
    ensures
        final(steps)@ == with_toggle_steps(old(steps)@, *active, *confirmed, *desired),
{
    push_if(
        steps,
        desired.mouse != active.mouse || desired.mouse != confirmed.mouse,
        mouse_step_of(desired.mouse),
    );
    push_if(
        steps,
        desired.focus_reporting != active.focus_reporting || desired.focus_reporting
            != confirmed.focus_reporting,
        focus_step_of(desired.focus_reporting),
    );
    push_if(
        steps,
        desired.bracketed_paste != active.bracketed_paste || desired.bracketed_paste
            != confirmed.bracketed_paste,
        paste_step_of(desired.bracketed_paste),
    );
}

fn push_keyboard_steps(
    steps: &mut Vec<LifecycleStep>,
    active: &TerminalModes,
    confirmed: &TerminalModes,
    desired: &TerminalModes,
    keyboard_pushed: bool,
) -> (pushed_after: bool)
    ensures
        final(steps)@ == with_keyboard_steps(old(steps)@, *active, *confirmed, *desired, keyboard_pushed),
        pushed_after == pushed_after_apply(*active, *confirmed, *desired, keyboard_pushed),
{
    let ghost a = *active;
    let ghost c = *confirmed;
    let ghost d = *desired;
    let screen = desired.screen != active.screen || desired.screen != confirmed.screen;
    let pushed = keyboard_pushed && !screen;
    let keyboard = desired.keyboard != active.keyboard || desired.keyboard != confirmed.keyboard
        || (desired.keyboard == KeyboardMode::Enhanced && !pushed);
    assert(pushed == pushed_after_screen(a, c, d, keyboard_pushed));
    assert(keyboard == keyboard_rewritten(a, c, d, keyboard_pushed));
    let legacy = desired.keyboard == KeyboardMode::Legacy;
    let enhanced = desired.keyboard == KeyboardMode::Enhanced;
    push_if(steps, keyboard && legacy && pushed, LifecycleStep::PopKeyboardFlags);
    push_if(steps, keyboard && enhanced && !pushed, LifecycleStep::PushKeyboardFlags);
    if keyboard {
        enhanced
    } else {
        pushed
    }
}

fn push_mode_steps(
    steps: &mut Vec<LifecycleStep>,
    active: &TerminalModes,
    confirmed: &TerminalModes,
    desired: &TerminalModes,
    keyboard_pushed: bool,
) -> (pushed_after: bool)
    ensures
        final(steps)@ == with_mode_steps(old(steps)@, *active, *confirmed, *desired, keyboard_pushed),
        pushed_after == pushed_after_apply(*active, *confirmed, *desired, keyboard_pushed),
{
    push_toggle_steps(steps, active, confirmed, desired);
    let pushed = push_keyboard_steps(steps, active, confirmed, desired, keyboard_pushed);
    push_if(
        steps,
        desired.autowrap != active.autowrap || desired.autowrap != confirmed.autowrap,
        wrap_step_of(desired.autowrap),
    );
    pushed
}

fn push_closing_steps(
    steps: &mut Vec<LifecycleStep>,
    active: &TerminalModes,
    confirmed: &TerminalModes,
    desired: &TerminalModes,
    title_unconfirmed: bool,
    cursor_changed: bool,
)
    ensures
        final(steps)@ == with_closing_steps(
            old(steps)@,
            *active,
            *confirmed,
            *desired,
            title_unconfirmed,
            cursor_changed,
        ),
{
    let ghost a = *active;
    let ghost c = *confirmed;
    let ghost d = *desired;
    let title_changed = !titles_equal(&desired.title, &active.title) || !titles_equal(
        &desired.title,
        &confirmed.title,
    );
    assert(title_changed == changed(title_view(d.title), title_view(a.title), title_view(c.title)));
    push_if(steps, title_unconfirmed || title_changed, LifecycleStep::SetTitle);
    push_if(steps, cursor_changed, LifecycleStep::ApplyCursor);
    push_if(steps, true, LifecycleStep::Flush);
    push_if(steps, !desired.raw_mode && active.raw_mode, LifecycleStep::DisableRawMode);
}

/// Plans applying the effective modes `desired` (see [`apply_steps`]).
pub fn plan_apply(
    active: &TerminalModes,
    confirmed: &TerminalModes,
    desired: &TerminalModes,
    keyboard_pushed: bool,
    cleanup_kitty: bool,
    title_unconfirmed: bool,
    cursor_changed: bool,
) -> (r: LifecyclePlan)
    ensures
        r.steps@ == apply_steps(
            *active,
            *confirmed,
            *desired,
            keyboard_pushed,
            cleanup_kitty,
            title_unconfirmed,
            cursor_changed,
        ),
        r.title@ == apply_title(*desired),
        r.keyboard_pushed == pushed_after_apply(*active, *confirmed, *desired, keyboard_pushed),
{
    let mut steps: Vec<LifecycleStep> = Vec::new();
    push_screen_steps(&mut steps, active, confirmed, desired, keyboard_pushed, cleanup_kitty);
    let pushed = push_mode_steps(&mut steps, active, confirmed, desired, keyboard_pushed);
    push_closing_steps(&mut steps, active, confirmed, desired, title_unconfirmed, cursor_changed);
    let title = match &desired.title {
        Some(t) => sanitized_title(t.as_str()),
        None => String::new(),
    };
    LifecyclePlan { steps, title, keyboard_pushed: pushed }
}

/// Whether Kitty images must settle before modes are applied: the Kitty
/// stream may hold a truncated command, or the alternate screen is left
/// while images may still be shown on it.
pub open spec fn settle_needed(
    active: TerminalModes,
    confirmed: TerminalModes,
    desired: TerminalModes,
    kitty_stream_uncertain: bool,
    has_cleanup: bool,
) -> bool {
    kitty_stream_uncertain || (desired.screen == ScreenMode::Main && (active.screen
        == ScreenMode::Alternate || confirmed.screen == ScreenMode::Alternate) && has_cleanup)
}

/// Whether enhanced keyboard flags may be on the terminal's stack.
pub open spec fn keyboard_maybe_pushed(active: TerminalModes, confirmed: TerminalModes, keyboard_pushed: bool) -> bool {
    keyboard_pushed || active.keyboard == KeyboardMode::Enhanced || confirmed.keyboard
        == KeyboardMode::Enhanced
}

/// `base` followed by the commands written before modes are applied: a
/// possibly unterminated string command is terminated and flushed; when
/// `settle` holds, a truncated Kitty command is repaired, the alternate
/// screen is entered so that owned images can be deleted there, keyboard
/// flags that may be pushed are popped, and the screen desired is shown.
pub open spec fn with_prelude_steps(
    base: Seq<LifecycleStep>,
    lifecycle_uncertain: bool,
    settle: bool,
    recover_kitty: bool,
    has_cleanup: bool,
) -> Seq<LifecycleStep> {
    base + step_if(lifecycle_uncertain, LifecycleStep::TerminateString) + step_if(
        settle && recover_kitty,
        LifecycleStep::RecoverKittyStream,
    ) + step_if(settle, LifecycleStep::EnterAlternateScreen) + step_if(
        settle && has_cleanup,
        LifecycleStep::DeleteKittyImages,
    )
}

/// The commands written before modes are applied (see
/// [`with_prelude_steps`]), ending with popping keyboard flags that may be
/// pushed, leaving the alternate screen when the main one is desired, and a
/// flush.
pub open spec fn prelude_steps(
    active: TerminalModes,
    confirmed: TerminalModes,
    desired: TerminalModes,
    keyboard_pushed: bool,
    lifecycle_uncertain: bool,
    kitty_stream_uncertain: bool,
    has_cleanup: bool,
) -> Seq<LifecycleStep> {
    let settle = settle_needed(active, confirmed, desired, kitty_stream_uncertain, has_cleanup);
    with_prelude_steps(Seq::empty(), lifecycle_uncertain, settle, kitty_stream_uncertain, has_cleanup)
        + step_if(
        settle && keyboard_maybe_pushed(active, confirmed, keyboard_pushed),
        LifecycleStep::PopKeyboardFlags,
    ) + step_if(settle && desired.screen == ScreenMode::Main, LifecycleStep::LeaveAlternateScreen)
        + step_if(settle, LifecycleStep::Flush)
}

fn push_prelude_head(
    steps: &mut Vec<LifecycleStep>,
    lifecycle_uncertain: bool,
    settle: bool,
    recover_kitty: bool,
    has_cleanup: bool,
)
    ensures
        final(steps)@ == with_prelude_steps(
            old(steps)@,
            lifecycle_uncertain,
            settle,
            recover_kitty,
            has_cleanup,
        ),
{
    push_if(steps, lifecycle_uncertain, LifecycleStep::TerminateString);
    push_if(steps, settle && recover_kitty, LifecycleStep::RecoverKittyStream);
    push_if(steps, settle, LifecycleStep::EnterAlternateScreen);
    push_if(steps, settle && has_cleanup, LifecycleStep::DeleteKittyImages);
}

/// Plans the commands written before `desired` is applied (see
/// [`prelude_steps`]); once they are written no Kitty image is owned any
/// more when they settled, and no keyboard flags are pushed.
pub fn plan_prelude(
    active: &TerminalModes,
    confirmed: &TerminalModes,
    desired: &TerminalModes,
    keyboard_pushed: bool,
    lifecycle_uncertain: bool,
    kitty_stream_uncertain: bool,
    has_cleanup: bool,
) -> (r: LifecyclePlan)
    ensures
        r.steps@ == prelude_steps(
            *active,
            *confirmed,
            *desired,
            keyboard_pushed,
            lifecycle_uncertain,
            kitty_stream_uncertain,
            has_cleanup,
        ),
        r.title@ == Seq::<char>::empty(),
        r.keyboard_pushed == (keyboard_pushed && !settle_needed(
            *active,
            *confirmed,
            *desired,
            kitty_stream_uncertain,
            has_cleanup,
        )),
{
    let leaving_alternate = desired.screen == ScreenMode::Main && (active.screen
        == ScreenMode::Alternate || confirmed.screen == ScreenMode::Alternate);
    let settle = kitty_stream_uncertain || (leaving_alternate && has_cleanup);
    let maybe_pushed = keyboard_pushed || active.keyboard == KeyboardMode::Enhanced
        || confirmed.keyboard == KeyboardMode::Enhanced;
    let mut steps: Vec<LifecycleStep> = Vec::new();
    push_prelude_head(&mut steps, lifecycle_uncertain, settle, kitty_stream_uncertain, has_cleanup);
    push_if(&mut steps, settle && maybe_pushed, LifecycleStep::PopKeyboardFlags);
    push_if(
        &mut steps,
        settle && desired.screen == ScreenMode::Main,
        LifecycleStep::LeaveAlternateScreen,
    );
    push_if(&mut steps, settle, LifecycleStep::Flush);
    LifecyclePlan { steps, title: String::new(), keyboard_pushed: keyboard_pushed && !settle }
}

/// `base` followed by the first restoring commands: terminating a possibly
/// unterminated string command, repairing a truncated Kitty command and
/// entering the alternate screen to delete owned images there, deleting
/// them, and popping pushed keyboard flags.
pub open spec fn with_recovery_steps(
    base: Seq<LifecycleStep>,
    lifecycle_uncertain: bool,
    recover_kitty: bool,
    has_cleanup: bool,
    keyboard_pushed: bool,
) -> Seq<LifecycleStep> {
    base + step_if(lifecycle_uncertain, LifecycleStep::TerminateString) + step_if(
        recover_kitty,
        LifecycleStep::RecoverKittyStream,
    ) + step_if(recover_kitty, LifecycleStep::EnterAlternateScreen) + step_if(
        has_cleanup,
        LifecycleStep::DeleteKittyImages,
    ) + step_if(keyboard_pushed, LifecycleStep::PopKeyboardFlags)
}

/// `base` followed by the commands that switch off each mode the written
/// or the confirmed modes may have on: mouse capture, bracketed paste,
/// focus reporting, the alternate screen (also after a Kitty repair) and
/// disabled wrapping.
pub open spec fn with_release_steps(
    base: Seq<LifecycleStep>,
    active: TerminalModes,
    confirmed: TerminalModes,
    recover_kitty: bool,
) -> Seq<LifecycleStep> {
    base + step_if(
        active.mouse == MouseMode::Capture || confirmed.mouse == MouseMode::Capture,
        LifecycleStep::DisableMouseCapture,
    ) + step_if(
        active.bracketed_paste || confirmed.bracketed_paste,
        LifecycleStep::DisableBracketedPaste,
    ) + step_if(
        active.focus_reporting || confirmed.focus_reporting,
        LifecycleStep::DisableFocusChange,
    ) + step_if(
        recover_kitty || active.screen == ScreenMode::Alternate || confirmed.screen
            == ScreenMode::Alternate,
        LifecycleStep::LeaveAlternateScreen,
    ) + step_if(
        active.autowrap == AutowrapMode::Disabled || confirmed.autowrap == AutowrapMode::Disabled,
        LifecycleStep::EnableLineWrap,
    )
}

/// The commands that restore the terminal a backend changed, in the order
/// they are written (see [`with_recovery_steps`] and
/// [`with_release_steps`]), then clearing a title that may have been set,
/// resetting the style, a flush, and raw mode off when the backend switched
/// it on. The raw mode step is taken whether or not the writes before it
/// succeeded.
pub open spec fn restore_steps(
    active: TerminalModes,
    confirmed: TerminalModes,
    keyboard_pushed: bool,
    lifecycle_uncertain: bool,
    recover_kitty: bool,
    has_cleanup: bool,
    title_unconfirmed: bool,
    original_raw: bool,
) -> Seq<LifecycleStep> {
    with_release_steps(
        with_recovery_steps(Seq::empty(), lifecycle_uncertain, recover_kitty, has_cleanup, keyboard_pushed),
        active,
        confirmed,
        recover_kitty,
    ) + step_if(
        title_unconfirmed || active.title is Some || confirmed.title is Some,
        LifecycleStep::SetTitle,
    ) + step_if(true, LifecycleStep::ResetStyle) + step_if(true, LifecycleStep::Flush) + step_if(
        active.raw_mode && !original_raw,
        LifecycleStep::DisableRawMode,
    )
}

fn push_recovery_steps(
    steps: &mut Vec<LifecycleStep>,
    lifecycle_uncertain: bool,
    recover_kitty: bool,
    has_cleanup: bool,
    keyboard_pushed: bool,
)
    ensures
        final(steps)@ == with_recovery_steps(
            old(steps)@,
            lifecycle_uncertain,
            recover_kitty,
            has_cleanup,
            keyboard_pushed,
        ),
{
    push_if(steps, lifecycle_uncertain, LifecycleStep::TerminateString);
    push_if(steps, recover_kitty, LifecycleStep::RecoverKittyStream);
    push_if(steps, recover_kitty, LifecycleStep::EnterAlternateScreen);
    push_if(steps, has_cleanup, LifecycleStep::DeleteKittyImages);
    push_if(steps, keyboard_pushed, LifecycleStep::PopKeyboardFlags);
}

fn push_release_steps(
    steps: &mut Vec<LifecycleStep>,
    active: &TerminalModes,
    confirmed: &TerminalModes,
    recover_kitty: bool,
)
    ensures
        final(steps)@ == with_release_steps(old(steps)@, *active, *confirmed, recover_kitty),
{
    push_if(
        steps,
        active.mouse == MouseMode::Capture || confirmed.mouse == MouseMode::Capture,
        LifecycleStep::DisableMouseCapture,
    );
    push_if(
        steps,
        active.bracketed_paste || confirmed.bracketed_paste,
        LifecycleStep::DisableBracketedPaste,
    );
    push_if(
        steps,
        active.focus_reporting || confirmed.focus_reporting,
        LifecycleStep::DisableFocusChange,
    );
    push_if(
        steps,
        recover_kitty || active.screen == ScreenMode::Alternate || confirmed.screen
            == ScreenMode::Alternate,
        LifecycleStep::LeaveAlternateScreen,
    );
    push_if(
        steps,
        active.autowrap == AutowrapMode::Disabled || confirmed.autowrap == AutowrapMode::Disabled,
        LifecycleStep::EnableLineWrap,
    );
}

/// Plans restoring the terminal (see [`restore_steps`]); the title it
/// writes is empty and no keyboard flags stay pushed.
pub fn plan_restore(
    active: &TerminalModes,
    confirmed: &TerminalModes,
    keyboard_pushed: bool,
    lifecycle_uncertain: bool,
    recover_kitty: bool,
    has_cleanup: bool,
    title_unconfirmed: bool,
    original_raw: bool,
) -> (r: LifecyclePlan)
    ensures
        r.steps@ == restore_steps(
            *active,
            *confirmed,
            keyboard_pushed,
            lifecycle_uncertain,
            recover_kitty,
            has_cleanup,
            title_unconfirmed,
            original_raw,
        ),
        r.title@ == Seq::<char>::empty(),
        !r.keyboard_pushed,
{
    let mut steps: Vec<LifecycleStep> = Vec::new();
    push_recovery_steps(&mut steps, lifecycle_uncertain, recover_kitty, has_cleanup, keyboard_pushed);
    push_release_steps(&mut steps, active, confirmed, recover_kitty);
    push_if(
        &mut steps,
        title_unconfirmed || active.title.is_some() || confirmed.title.is_some(),
        LifecycleStep::SetTitle,
    );
    push_if(&mut steps, true, LifecycleStep::ResetStyle);
    push_if(&mut steps, true, LifecycleStep::Flush);
    push_if(&mut steps, active.raw_mode && !original_raw, LifecycleStep::DisableRawMode);
    LifecyclePlan { steps, title: String::new(), keyboard_pushed: false }
}

/// Applying the modes a terminal already shows and confirmed writes
/// nothing but a flush, and leaves the keyboard flags as they are, when the
/// flags on the stack match the keyboard protocol and the title and cursor
/// are settled.
pub proof fn lemma_reapplying_confirmed_modes_only_flushes(
    modes: TerminalModes,
    keyboard_pushed: bool,
    cleanup_kitty: bool,
)
    requires
        keyboard_pushed == (modes.keyboard == KeyboardMode::Enhanced),
    ensures
        apply_steps(modes, modes, modes, keyboard_pushed, cleanup_kitty, false, false)
            == seq![LifecycleStep::Flush],
        pushed_after_apply(modes, modes, modes, keyboard_pushed) == keyboard_pushed,
{
    reveal(step_if);
    assert(apply_steps(modes, modes, modes, keyboard_pushed, cleanup_kitty, false, false)
        =~= seq![LifecycleStep::Flush]);
}

/// What a backend tracks of a terminal between lifecycle plans: the modes
/// it wrote, the modes the terminal confirmed, whether enhanced keyboard
/// flags are pushed, whether a string command may be unterminated, and
/// whether a title write was not confirmed.
#[derive(Debug)]
pub struct Tracking {
    pub active: TerminalModes,
    pub confirmed: TerminalModes,
    pub keyboard_pushed: bool,
    pub lifecycle_uncertain: bool,
    pub title_unconfirmed: bool,
}

/// Whether two mode sets agree, titles compared by their characters.
pub open spec fn same_modes(a: TerminalModes, b: TerminalModes) -> bool {
    &&& a.raw_mode == b.raw_mode
    &&& a.screen == b.screen
    &&& a.mouse == b.mouse
    &&& a.keyboard == b.keyboard
    &&& a.bracketed_paste == b.bracketed_paste
    &&& a.focus_reporting == b.focus_reporting
    &&& a.autowrap == b.autowrap
    &&& title_view(a.title) == title_view(b.title)
    &&& a.synchronized_updates == b.synchronized_updates
}

fn copy_modes(m: &TerminalModes) -> (r: TerminalModes)
    ensures
        same_modes(r, *m),
{
    TerminalModes {
        raw_mode: m.raw_mode,
        screen: m.screen,
        mouse: m.mouse,
        keyboard: m.keyboard,
        bracketed_paste: m.bracketed_paste,
        focus_reporting: m.focus_reporting,
        autowrap: m.autowrap,
        title: copy_title(&m.title),
        synchronized_updates: m.synchronized_updates,
    }
}

fn writes_title(steps: &Vec<LifecycleStep>) -> (r: bool)
    ensures
        r == steps@.contains(LifecycleStep::SetTitle),
{
    let mut i: usize = 0;
    while i < steps.len()
        invariant
            i <= steps@.len(),
            forall|j: int| 0 <= j < i ==> steps@[j] != LifecycleStep::SetTitle,
        decreases steps@.len() - i,
    {
        if steps[i] == LifecycleStep::SetTitle {
            assert(steps@[i as int] == LifecycleStep::SetTitle);
            return true;
        }
        i = i + 1;
    }
    false
}

/// What is tracked after the plan `plan` for the effective modes `desired`
/// was written (it starts with the string command terminated). When
/// `completed`, every mode is written and confirmed, the keyboard flags are
/// as the plan leaves them, and nothing is uncertain. Otherwise the flush
/// failed after every command was queued: the modes count as written but
/// stay unconfirmed, raw mode stays as it was switched, and a queued title
/// leaves both the title and the string command uncertain.
pub fn apply_outcome(
    tracking: &Tracking,
    desired: &TerminalModes,
    plan: &LifecyclePlan,
    completed: bool,
) -> (r: Tracking)
    ensures
        r.keyboard_pushed == plan.keyboard_pushed,
        completed ==> {
            &&& same_modes(r.active, *desired)
            &&& same_modes(r.confirmed, *desired)
            &&& !r.lifecycle_uncertain
            &&& !r.title_unconfirmed
        },
        !completed ==> {
            &&& same_modes(
                r.active,
                TerminalModes { raw_mode: desired.raw_mode || tracking.active.raw_mode, ..*desired },
            )
            &&& same_modes(r.confirmed, tracking.confirmed)
            &&& r.lifecycle_uncertain == plan.steps@.contains(LifecycleStep::SetTitle)
            &&& r.title_unconfirmed == (tracking.title_unconfirmed || plan.steps@.contains(
                LifecycleStep::SetTitle,
            ))
        },
{
    if completed {
        Tracking {
            active: copy_modes(desired),
            confirmed: copy_modes(desired),
            keyboard_pushed: plan.keyboard_pushed,
            lifecycle_uncertain: false,
            title_unconfirmed: false,
        }
    } else {
        let title = writes_title(&plan.steps);
        let mut active = copy_modes(desired);
        active.raw_mode = desired.raw_mode || tracking.active.raw_mode;
        Tracking {
            active,
            confirmed: copy_modes(&tracking.confirmed),
            keyboard_pushed: plan.keyboard_pushed,
            lifecycle_uncertain: title,
            title_unconfirmed: tracking.title_unconfirmed || title,
        }
    }
}


/// Raw mode that was on before the backend started stays on in the
/// effective modes whatever is desired; otherwise raw mode is as desired.
/// The screen, wrapping and title are always as desired.
pub proof fn lemma_effective_modes_keep_preexisting_raw_mode(
    desired: TerminalModes,
    caps: Capabilities,
    original_raw: bool,
)
    ensures
        original_raw ==> effective_spec(desired, caps, original_raw).raw_mode,
        !original_raw ==> effective_spec(desired, caps, original_raw).raw_mode == desired.raw_mode,
        desired.raw_mode ==> effective_spec(desired, caps, original_raw).raw_mode,
        effective_spec(desired, caps, original_raw).screen == desired.screen,
        effective_spec(desired, caps, original_raw).autowrap == desired.autowrap,
        title_view(effective_spec(desired, caps, original_raw).title) == title_view(desired.title),
{
}

} // verus!
