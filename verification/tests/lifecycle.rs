use arborui::lifecycle::{
    apply_outcome, plan_apply, plan_prelude, plan_restore, AutowrapMode, KeyboardMode,
    LifecycleStep, MouseMode, ScreenMode, TerminalModes, Tracking,
};

fn baseline() -> TerminalModes {
    TerminalModes {
        raw_mode: false,
        screen: ScreenMode::Main,
        mouse: MouseMode::Disabled,
        keyboard: KeyboardMode::Legacy,
        bracketed_paste: false,
        focus_reporting: false,
        autowrap: AutowrapMode::Preserve,
        title: None,
        synchronized_updates: false,
    }
}

fn owned_modes() -> TerminalModes {
    TerminalModes {
        raw_mode: true,
        screen: ScreenMode::Alternate,
        mouse: MouseMode::Capture,
        keyboard: KeyboardMode::Legacy,
        bracketed_paste: true,
        focus_reporting: true,
        autowrap: AutowrapMode::Disabled,
        title: Some(String::from("arborui\u{7} test")),
        synchronized_updates: true,
    }
}

#[test]
fn applying_owned_modes_writes_each_changed_mode_in_order() {
    let plan = plan_apply(&baseline(), &baseline(), &owned_modes(), false, false, false, true);
    assert_eq!(
        plan.steps,
        vec![
            LifecycleStep::EnableRawMode,
            LifecycleStep::EnterAlternateScreen,
            LifecycleStep::EnableMouseCapture,
            LifecycleStep::EnableFocusChange,
            LifecycleStep::EnableBracketedPaste,
            LifecycleStep::DisableLineWrap,
            LifecycleStep::SetTitle,
            LifecycleStep::ApplyCursor,
            LifecycleStep::Flush,
        ]
    );
    assert_eq!(plan.title, "arborui test");
    assert!(!plan.keyboard_pushed);
}

#[test]
fn restoring_owned_modes_switches_each_one_off() {
    let owned = owned_modes();
    let plan = plan_restore(&owned, &owned, false, false, false, false, false, false);
    assert_eq!(
        plan.steps,
        vec![
            LifecycleStep::DisableMouseCapture,
            LifecycleStep::DisableBracketedPaste,
            LifecycleStep::DisableFocusChange,
            LifecycleStep::LeaveAlternateScreen,
            LifecycleStep::EnableLineWrap,
            LifecycleStep::SetTitle,
            LifecycleStep::ResetStyle,
            LifecycleStep::Flush,
            LifecycleStep::DisableRawMode,
        ]
    );
    assert_eq!(plan.title, "");
}

#[test]
fn restore_keeps_raw_mode_that_was_on_before() {
    let owned = owned_modes();
    let plan = plan_restore(&owned, &baseline(), true, true, true, true, true, true);
    assert_eq!(
        plan.steps,
        vec![
            LifecycleStep::TerminateString,
            LifecycleStep::RecoverKittyStream,
            LifecycleStep::EnterAlternateScreen,
            LifecycleStep::DeleteKittyImages,
            LifecycleStep::PopKeyboardFlags,
            LifecycleStep::DisableMouseCapture,
            LifecycleStep::DisableBracketedPaste,
            LifecycleStep::DisableFocusChange,
            LifecycleStep::LeaveAlternateScreen,
            LifecycleStep::EnableLineWrap,
            LifecycleStep::SetTitle,
            LifecycleStep::ResetStyle,
            LifecycleStep::Flush,
        ]
    );
}

#[test]
fn keyboard_flags_are_popped_before_leaving_the_alternate_screen() {
    let mut enhanced = baseline();
    enhanced.screen = ScreenMode::Alternate;
    enhanced.keyboard = KeyboardMode::Enhanced;
    let entered = plan_apply(&baseline(), &baseline(), &enhanced, false, false, false, false);
    assert_eq!(
        entered.steps,
        vec![
            LifecycleStep::EnterAlternateScreen,
            LifecycleStep::PushKeyboardFlags,
            LifecycleStep::Flush,
        ]
    );
    assert!(entered.keyboard_pushed);

    let left = plan_apply(&enhanced, &enhanced, &baseline(), true, true, false, false);
    assert_eq!(
        left.steps,
        vec![
            LifecycleStep::PopKeyboardFlags,
            LifecycleStep::DeleteKittyImages,
            LifecycleStep::LeaveAlternateScreen,
            LifecycleStep::Flush,
        ]
    );
    assert!(!left.keyboard_pushed);
}

#[test]
fn enhanced_keyboard_is_pushed_again_in_the_new_screen() {
    let mut alternate = baseline();
    alternate.screen = ScreenMode::Alternate;
    alternate.keyboard = KeyboardMode::Enhanced;
    let mut main = baseline();
    main.keyboard = KeyboardMode::Enhanced;
    let plan = plan_apply(&alternate, &alternate, &main, true, false, false, false);
    assert_eq!(
        plan.steps,
        vec![
            LifecycleStep::PopKeyboardFlags,
            LifecycleStep::LeaveAlternateScreen,
            LifecycleStep::PushKeyboardFlags,
            LifecycleStep::Flush,
        ]
    );
    assert!(plan.keyboard_pushed);
}

#[test]
fn reapplying_confirmed_modes_only_flushes() {
    let owned = owned_modes();
    let plan = plan_apply(&owned, &owned, &owned, false, true, false, false);
    assert_eq!(plan.steps, vec![LifecycleStep::Flush]);
}

#[test]
fn unconfirmed_modes_are_written_again() {
    let owned = owned_modes();
    let plan = plan_apply(&owned, &baseline(), &owned, false, false, true, false);
    assert_eq!(
        plan.steps,
        vec![
            LifecycleStep::EnterAlternateScreen,
            LifecycleStep::EnableMouseCapture,
            LifecycleStep::EnableFocusChange,
            LifecycleStep::EnableBracketedPaste,
            LifecycleStep::DisableLineWrap,
            LifecycleStep::SetTitle,
            LifecycleStep::Flush,
        ]
    );
}

#[test]
fn raw_mode_is_released_after_the_flush() {
    let mut raw = baseline();
    raw.raw_mode = true;
    let plan = plan_apply(&raw, &raw, &baseline(), false, false, false, false);
    assert_eq!(plan.steps, vec![LifecycleStep::Flush, LifecycleStep::DisableRawMode]);
}

#[test]
fn kitty_images_settle_before_leaving_the_alternate_screen() {
    let mut alternate = baseline();
    alternate.screen = ScreenMode::Alternate;
    let plan = plan_prelude(&alternate, &alternate, &baseline(), true, true, false, true);
    assert_eq!(
        plan.steps,
        vec![
            LifecycleStep::TerminateString,
            LifecycleStep::EnterAlternateScreen,
            LifecycleStep::DeleteKittyImages,
            LifecycleStep::PopKeyboardFlags,
            LifecycleStep::LeaveAlternateScreen,
            LifecycleStep::Flush,
        ]
    );
    assert!(!plan.keyboard_pushed);

    let staying = plan_prelude(&alternate, &alternate, &alternate, false, false, false, true);
    assert!(staying.steps.is_empty());
    let recovering = plan_prelude(&baseline(), &baseline(), &alternate, false, false, true, false);
    assert_eq!(
        recovering.steps,
        vec![
            LifecycleStep::RecoverKittyStream,
            LifecycleStep::EnterAlternateScreen,
            LifecycleStep::Flush,
        ]
    );
}

fn same(a: &TerminalModes, b: &TerminalModes) -> bool {
    a.raw_mode == b.raw_mode
        && a.screen == b.screen
        && a.mouse == b.mouse
        && a.keyboard == b.keyboard
        && a.bracketed_paste == b.bracketed_paste
        && a.focus_reporting == b.focus_reporting
        && a.autowrap == b.autowrap
        && a.title == b.title
        && a.synchronized_updates == b.synchronized_updates
}

#[test]
fn completed_apply_confirms_the_desired_modes() {
    let tracking = Tracking {
        active: baseline(),
        confirmed: baseline(),
        keyboard_pushed: false,
        lifecycle_uncertain: false,
        title_unconfirmed: true,
    };
    let mut desired = owned_modes();
    desired.keyboard = KeyboardMode::Enhanced;
    let plan = plan_apply(&tracking.active, &tracking.confirmed, &desired, false, false, true, false);
    let after = apply_outcome(&tracking, &desired, &plan, true);
    assert!(same(&after.active, &desired));
    assert!(same(&after.confirmed, &desired));
    assert!(after.keyboard_pushed);
    assert!(!after.lifecycle_uncertain);
    assert!(!after.title_unconfirmed);
}

#[test]
fn failed_flush_leaves_modes_unconfirmed_and_the_title_uncertain() {
    let tracking = Tracking {
        active: baseline(),
        confirmed: baseline(),
        keyboard_pushed: false,
        lifecycle_uncertain: false,
        title_unconfirmed: false,
    };
    let desired = owned_modes();
    let plan = plan_apply(&tracking.active, &tracking.confirmed, &desired, false, false, false, false);
    let after = apply_outcome(&tracking, &desired, &plan, false);
    assert!(same(&after.active, &desired));
    assert!(same(&after.confirmed, &baseline()));
    assert!(after.lifecycle_uncertain);
    assert!(after.title_unconfirmed);

    let mut untitled = owned_modes();
    untitled.title = None;
    untitled.raw_mode = false;
    let mut raw = baseline();
    raw.raw_mode = true;
    let tracking = Tracking {
        active: raw,
        confirmed: baseline(),
        keyboard_pushed: false,
        lifecycle_uncertain: false,
        title_unconfirmed: false,
    };
    let plan = plan_apply(&tracking.active, &tracking.confirmed, &untitled, false, false, false, false);
    let after = apply_outcome(&tracking, &untitled, &plan, false);
    assert!(after.active.raw_mode);
    assert!(!after.lifecycle_uncertain);
    assert!(!after.title_unconfirmed);
}
