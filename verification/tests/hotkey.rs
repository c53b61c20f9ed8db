use spotlight_win::hotkey::{
    hotkey_modifiers, hotkey_next, hotkey_start, is_hotkey_message, HotkeyStep, HOTKEY_ID,
    MOD_ALT, MOD_CONTROL, WM_HOTKEY,
};

#[test]
fn combinations_are_tried_in_order() {
    assert_eq!(hotkey_modifiers(0), MOD_CONTROL);
    assert_eq!(hotkey_modifiers(1), MOD_ALT);
    assert_eq!(hotkey_modifiers(2), 0x3);
    let mut step = hotkey_start();
    let mut tried = Vec::new();
    while let HotkeyStep::Try(i) = step {
        tried.push(i);
        step = hotkey_next(step, false);
    }
    assert_eq!(tried, vec![0, 1, 2]);
    assert_eq!(step, HotkeyStep::GiveUp);
}

#[test]
fn the_first_accepted_combination_ends_registration() {
    let step = hotkey_next(hotkey_start(), false);
    assert_eq!(step, HotkeyStep::Try(1));
    assert_eq!(hotkey_next(step, true), HotkeyStep::Listen);
    assert_eq!(hotkey_next(HotkeyStep::Listen, false), HotkeyStep::Listen);
}

#[test]
fn only_the_launchers_shortcut_message_counts() {
    assert!(is_hotkey_message(WM_HOTKEY, HOTKEY_ID as usize));
    assert!(is_hotkey_message(0x0312, 1));
    assert!(!is_hotkey_message(WM_HOTKEY, 2));
    assert!(!is_hotkey_message(0x0100, 1));
}
