use spotlight_win::actions::{
    action_command, action_message, get_all_actions, plan_action, search_actions, ActionKind,
    ActionPlan,
};
use spotlight_win::results::SearchResultCategory;
use spotlight_win::score::Score;

#[test]
fn the_action_list() {
    let v = get_all_actions(false);
    let ids: Vec<&str> = v.iter().map(|a| a.id.as_str()).collect();
    assert_eq!(
        ids,
        vec![
            "sleep",
            "lock",
            "shutdown",
            "restart",
            "empty_recycle",
            "dark_mode",
            "volume_up",
            "volume_down",
            "volume_mute",
            "toggle_startup"
        ]
    );
    assert_eq!(v[0].name, "Sleep");
    assert_eq!(v[0].description, "Put computer to sleep");
    assert_eq!(v[0].icon, "moon");
    assert_eq!(v[4].name, "Empty Recycle Bin");
    assert_eq!(v[8].name, "Mute");
    assert_eq!(v[9].name, "Enable Startup");
    assert_eq!(v[9].description, "Run on Windows startup");
    assert_eq!(v[9].icon, "rocket");
    let on = get_all_actions(true);
    assert_eq!(on[9].name, "Disable Startup");
    assert_eq!(on[9].description, "Remove from startup");
}

#[test]
fn actions_matching_a_query_in_list_order() {
    let v = search_actions("vol", false).unwrap();
    let ids: Vec<&str> = v.iter().map(|r| r.id.as_str()).collect();
    assert_eq!(ids, vec!["action_volume_up", "action_volume_down"]);
    assert_eq!(v[0].name, "Volume Up");
    assert_eq!(v[0].path, "Increase system volume");
    assert_eq!(v[0].category, SearchResultCategory::Action);
    assert_eq!(v[0].icon, Some("volume-2".to_string()));
    assert_eq!(v[0].metadata, Some("volume_up".to_string()));
    // prefix of "volume up": 90 + 10 * 3 / 9
    assert_eq!(v[0].score, Score { whole: 93, frac: 3, den: 9 });
    assert_eq!(search_actions("qqq", false).unwrap().len(), 0);
}

#[test]
fn startup_action_is_found_by_its_current_label() {
    let v = search_actions("disable", true).unwrap();
    assert_eq!(v.len(), 1);
    assert_eq!(v[0].name, "Disable Startup");
    assert_eq!(search_actions("disable", false).unwrap().len(), 0);
}

#[test]
fn every_listed_action_can_be_run() {
    let kinds = [
        ActionKind::Sleep,
        ActionKind::Lock,
        ActionKind::Shutdown,
        ActionKind::Restart,
        ActionKind::EmptyRecycleBin,
        ActionKind::DarkMode,
        ActionKind::VolumeUp,
        ActionKind::VolumeDown,
        ActionKind::VolumeMute,
        ActionKind::ToggleStartup,
    ];
    for (a, k) in get_all_actions(true).iter().zip(kinds.iter()) {
        match plan_action(&a.id) {
            Ok(ActionPlan::Run(got)) => assert_eq!(got, *k),
            _ => panic!("{} is not runnable", a.id),
        }
    }
}

#[test]
fn open_ids_and_unknown_ids() {
    match plan_action("open:C:\\Windows\\notepad.exe") {
        Ok(ActionPlan::Open(p)) => assert_eq!(p, "C:\\Windows\\notepad.exe"),
        _ => panic!("not an open plan"),
    }
    match plan_action("open:") {
        Ok(ActionPlan::Open(p)) => assert_eq!(p, ""),
        _ => panic!("not an open plan"),
    }
    match plan_action("reboot") {
        Err(e) => assert_eq!(e, "Unknown action: reboot"),
        _ => panic!("accepted an unknown id"),
    }
    // ids are matched exactly
    assert!(plan_action("Lock").is_err());
}

#[test]
fn messages_of_completed_actions() {
    assert_eq!(action_message(&ActionPlan::Open("C:\\a".to_string()), false), "Opened: C:\\a");
    assert_eq!(action_message(&ActionPlan::Run(ActionKind::Lock), false), "Workstation locked");
    assert_eq!(action_message(&ActionPlan::Run(ActionKind::EmptyRecycleBin), false), "Recycle Bin emptied");
    assert_eq!(action_message(&ActionPlan::Run(ActionKind::ToggleStartup), true), "Added to startup");
    assert_eq!(action_message(&ActionPlan::Run(ActionKind::ToggleStartup), false), "Removed from startup");
}

#[test]
fn commands_that_actions_run() {
    let (prog, args) = action_command(ActionKind::Lock, true).unwrap();
    assert_eq!(prog, "rundll32.exe");
    assert_eq!(args, vec!["user32.dll,LockWorkStation"]);
    let (prog, args) = action_command(ActionKind::Restart, false).unwrap();
    assert_eq!(prog, "shutdown");
    assert_eq!(args, vec!["/r", "/t", "0"]);
    assert!(action_command(ActionKind::Sleep, true).is_none());
    assert!(action_command(ActionKind::ToggleStartup, true).is_none());
}

#[test]
fn dark_mode_switches_to_the_other_theme() {
    let key = "HKCU\\SOFTWARE\\Microsoft\\Windows\\CurrentVersion\\Themes\\Personalize";
    let (prog, args) = action_command(ActionKind::DarkMode, true).unwrap();
    assert_eq!(prog, "reg");
    assert_eq!(args, vec!["add", key, "/v", "AppsUseLightTheme", "/t", "REG_DWORD", "/d", "0", "/f"]);
    let (_, args) = action_command(ActionKind::DarkMode, false).unwrap();
    assert_eq!(args[7], "1");
}
