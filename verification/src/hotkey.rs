//! The global shortcut: which key combinations are tried, in order, and which
//! messages of the window-message loop mean that it was pressed.
use vstd::prelude::*;

verus! {

/// Identifier under which the shortcut is registered.
pub const HOTKEY_ID: i32 = 1;

/// Virtual-key code of the space bar.
pub const VK_SPACE: u32 = 0x20;

/// Modifier flag of the Alt key.
pub const MOD_ALT: u32 = 0x1;

/// Modifier flag of the Ctrl key.
pub const MOD_CONTROL: u32 = 0x2;

/// Window message sent when a registered shortcut is pressed.
pub const WM_HOTKEY: u32 = 0x0312;

/// The modifiers tried with the space bar, in order: Ctrl, Alt, then both.
pub open spec fn modifier_order() -> Seq<u32> {
    seq![MOD_CONTROL, MOD_ALT, MOD_CONTROL | MOD_ALT]
}

/// A step of registering the shortcut.
#[derive(Clone, Copy, Debug, PartialEq, Eq, Structural)]
pub enum HotkeyStep {
    /// Register space with the `i`-th modifiers of `modifier_order`.
    Try(usize),
    /// Registered; wait for messages.
    Listen,
    /// Every combination was refused.
    GiveUp,
}

/// The step after `step`, given whether its registration succeeded.
pub open spec fn hotkey_next_spec(step: HotkeyStep, ok: bool) -> HotkeyStep {
    match step {
        HotkeyStep::Try(i) => if ok {
            HotkeyStep::Listen
        } else if i + 1 < 3 {
            HotkeyStep::Try((i + 1) as usize)
        } else {
            HotkeyStep::GiveUp
        },
        other => other,
    }
}

/// The first step: Ctrl+Space.
pub fn hotkey_start() -> (s: HotkeyStep)
    ensures
        s == HotkeyStep::Try(0),
{
    HotkeyStep::Try(0)
}

/// The modifiers that step `Try(i)` registers with the space bar.
pub fn hotkey_modifiers(i: usize) -> (m: u32)
    requires
        i < 3,
    ensures
        m == modifier_order()[i as int],
{
    if i == 0 {
        MOD_CONTROL
    } else if i == 1 {
        MOD_ALT
    } else {
        MOD_CONTROL | MOD_ALT
    }
}

/// The step after `step`, which succeeded when `ok` holds: a registered
/// combination ends the attempts; a refused one leads to the next, and after
/// the last to giving up.
pub fn hotkey_next(step: HotkeyStep, ok: bool) -> (n: HotkeyStep)
    requires
        step matches HotkeyStep::Try(i) ==> i < 3,
    ensures
        n == hotkey_next_spec(step, ok),
        n matches HotkeyStep::Try(i) ==> i < 3,
{
    match step {
        HotkeyStep::Try(i) => if ok {
            HotkeyStep::Listen
        } else if i + 1 < 3 {
            HotkeyStep::Try(i + 1)
        } else {
            HotkeyStep::GiveUp
        },
        other => other,
    }
}

/// Registration ends: from `Try(i)`, at most `3 - i` steps lead to
/// `Listen` or `GiveUp`, whatever each registration answers.
pub proof fn lemma_hotkey_ends(step: HotkeyStep, ok: bool)
    requires
        step matches HotkeyStep::Try(i) ==> i < 3,
    ensures
        step matches HotkeyStep::Try(i) ==> match hotkey_next_spec(step, ok) {
            HotkeyStep::Try(j) => j == i + 1 && j < 3,
            _ => true,
        },
        !(step is Try) ==> hotkey_next_spec(step, ok) == step,
{
}

/// Whether a message of the loop, with its `wParam`, is the launcher's
/// shortcut being pressed.
pub fn is_hotkey_message(message: u32, wparam: usize) -> (b: bool)
    ensures
        b == (message == WM_HOTKEY && wparam == HOTKEY_ID as usize),
{
    message == WM_HOTKEY && wparam == 1
}

} // verus!
