//! Quick actions: the fixed list, the search over it, and what running one
//! means.
use vstd::prelude::*;
use crate::score::Score;
use crate::text::{chars_of, chars_equal, concat, is_prefix, starts_with_chars, string_of};
use crate::results::{SearchResult, SearchResultCategory, ResultView, result_views};
use crate::rank::{marked_indices, keys_wf};
use crate::scoring::{all_scored, keys_for, positive_mask, score_names, string_views};

verus! {

/// A system action offered among the results.
#[derive(Clone, Debug)]
pub struct QuickAction {
    pub id: String,
    pub name: String,
    pub description: String,
    pub icon: String,
}

/// The texts of a quick action: id, name, description, icon.
pub open spec fn action_texts(a: QuickAction) -> (Seq<char>, Seq<char>, Seq<char>, Seq<char>) {
    (a.id@, a.name@, a.description@, a.icon@)
}

/// The label of the start-up action: it offers the opposite of the current state.
pub open spec fn startup_label(startup_enabled: bool) -> Seq<char> {
    if startup_enabled {
        "Disable"@ + " Startup"@
    } else {
        "Enable"@ + " Startup"@
    }
}

pub open spec fn startup_description(startup_enabled: bool) -> Seq<char> {
    if startup_enabled {
        "Remove from startup"@
    } else {
        "Run on Windows startup"@
    }
}

/// The quick actions, in the order they are listed.
pub open spec fn action_table(startup_enabled: bool) -> Seq<(Seq<char>, Seq<char>, Seq<char>, Seq<char>)> {
    seq![
        ("sleep"@, "Sleep"@, "Put computer to sleep"@, "moon"@),
        ("lock"@, "Lock"@, "Lock your computer"@, "lock"@),
        ("shutdown"@, "Shut Down"@, "Shut down your computer"@, "power"@),
        ("restart"@, "Restart"@, "Restart your computer"@, "refresh-cw"@),
        ("empty_recycle"@, "Empty Recycle Bin"@, "Delete all files in Recycle Bin"@, "trash-2"@),
        ("dark_mode"@, "Toggle Dark Mode"@, "Switch dark/light theme"@, "palette"@),
        ("volume_up"@, "Volume Up"@, "Increase system volume"@, "volume-2"@),
        ("volume_down"@, "Volume Down"@, "Decrease system volume"@, "volume-1"@),
        ("volume_mute"@, "Mute"@, "Toggle mute"@, "volume-x"@),
        (
            "toggle_startup"@,
            startup_label(startup_enabled),
            startup_description(startup_enabled),
            "rocket"@,
        ),
    ]
}

fn action(id: &str, name: &str, description: &str, icon: &str) -> (a: QuickAction)
    ensures
        action_texts(a) == (id@, name@, description@, icon@),
{
    QuickAction {
        id: String::from_str(id),
        name: String::from_str(name),
        description: String::from_str(description),
        icon: String::from_str(icon),
    }
}

/// The quick actions, given whether the launcher currently runs at start-up.
pub fn get_all_actions(startup_enabled: bool) -> (v: Vec<QuickAction>)
    ensures
        v@.map_values(|a: QuickAction| action_texts(a)) == action_table(startup_enabled),
{
    let startup_label = if startup_enabled {
        "Disable"
    } else {
        "Enable"
    };
    let startup_desc = if startup_enabled {
        "Remove from startup"
    } else {
        "Run on Windows startup"
    };
    let startup_name = concat(startup_label, " Startup");
    let mut v: Vec<QuickAction> = Vec::new();
    v.push(action("sleep", "Sleep", "Put computer to sleep", "moon"));
    v.push(action("lock", "Lock", "Lock your computer", "lock"));
    v.push(action("shutdown", "Shut Down", "Shut down your computer", "power"));
    v.push(action("restart", "Restart", "Restart your computer", "refresh-cw"));
    v.push(
        action("empty_recycle", "Empty Recycle Bin", "Delete all files in Recycle Bin", "trash-2"),
    );
    v.push(action("dark_mode", "Toggle Dark Mode", "Switch dark/light theme", "palette"));
    v.push(action("volume_up", "Volume Up", "Increase system volume", "volume-2"));
    v.push(action("volume_down", "Volume Down", "Decrease system volume", "volume-1"));
    v.push(action("volume_mute", "Mute", "Toggle mute", "volume-x"));
    v.push(action("toggle_startup", startup_name.as_str(), startup_desc, "rocket"));
    assert(v@.map_values(|a: QuickAction| action_texts(a)) =~= action_table(startup_enabled));
    v
}

/// The result that shows the quick action with texts `t` and score `score`.
pub open spec fn action_result_view(
    t: (Seq<char>, Seq<char>, Seq<char>, Seq<char>),
    score: Score,
) -> ResultView {
    ResultView {
        id: "action_"@ + t.0,
        name: t.1,
        path: t.2,
        category: SearchResultCategory::Action,
        icon: Some(t.3),
        score,
        metadata: Some(t.0),
    }
}

/// The names of the quick actions.
pub open spec fn action_names(startup_enabled: bool) -> Seq<Seq<char>> {
    action_table(startup_enabled).map_values(
        |t: (Seq<char>, Seq<char>, Seq<char>, Seq<char>)| t.1,
    )
}

/// The results that list the quick actions matching `query`.
pub open spec fn action_results_spec(query: Seq<char>, startup_enabled: bool) -> Seq<ResultView> {
    let keys = keys_for(query, action_names(startup_enabled));
    marked_indices(positive_mask(keys), keys.len() as int).map_values(
        |i: usize| action_result_view(action_table(startup_enabled)[i as int], keys[i as int].score),
    )
}

/// The quick actions whose names match `query` (score above zero), in list
/// order. `None` where some name cannot be scored.
pub fn search_actions(query: &str, startup_enabled: bool) -> (r: Option<Vec<SearchResult>>)
    ensures
        match r {
            None => !all_scored(query@, action_names(startup_enabled)),
            Some(v) => {
                &&& all_scored(query@, action_names(startup_enabled))
                &&& result_views(v@) == action_results_spec(query@, startup_enabled)
                &&& forall|k: int| 0 <= k < v@.len() ==> (#[trigger] v@[k]).score.wf()
            },
        },
{
    let actions = get_all_actions(startup_enabled);
    let ghost table = action_table(startup_enabled);
    assert(actions@.len() == table.len()) by {
        assert(actions@.map_values(|a: QuickAction| action_texts(a)).len() == table.len());
    }
    let mut names: Vec<String> = Vec::new();
    let mut i: usize = 0;
    while i < actions.len()
        invariant
            i <= actions@.len() == table.len(),
            table == action_table(startup_enabled),
            actions@.map_values(|a: QuickAction| action_texts(a)) == table,
            names@.len() == i,
            forall|j: int| 0 <= j < i ==> #[trigger] names@[j]@ == table[j].1,
        decreases actions@.len() - i,
    {
        let nm = actions[i].name.clone();
        assert(action_texts(actions@[i as int]) == table[i as int]);
        names.push(nm);
        i = i + 1;
    }
    assert(string_views(names@) =~= action_names(startup_enabled));
    let (keys, mask) = match score_names(query, &names) {
        Some(km) => km,
        None => {
            return None;
        },
    };
    let mut out: Vec<SearchResult> = Vec::new();
    let mut i: usize = 0;
    while i < actions.len()
        invariant
            i <= actions@.len() == table.len() == keys@.len() == mask@.len(),
            table == action_table(startup_enabled),
            actions@.map_values(|a: QuickAction| action_texts(a)) == table,
            mask@ == positive_mask(keys@),
            keys@ == keys_for(query@, action_names(startup_enabled)),
            keys_wf(keys@),
            forall|q: int| 0 <= q < out@.len() ==> (#[trigger] out@[q]).score.wf(),
            out@.len() == marked_indices(mask@, i as int).len(),
            forall|k: int|
                0 <= k < out@.len() ==> #[trigger] out@[k]@ == action_result_view(
                    table[marked_indices(mask@, i as int)[k] as int],
                    keys@[marked_indices(mask@, i as int)[k] as int].score,
                ),
        decreases actions@.len() - i,
    {
        let ghost before = marked_indices(mask@, i as int);
        if mask[i] {
            let a = &actions[i];
            assert(action_texts(actions@[i as int]) == table[i as int]);
            let res = SearchResult {
                id: concat("action_", a.id.as_str()),
                name: a.name.clone(),
                path: a.description.clone(),
                category: SearchResultCategory::Action,
                icon: Some(a.icon.clone()),
                score: keys[i].score,
                metadata: Some(a.id.clone()),
            };
            assert(res@ == action_result_view(table[i as int], keys@[i as int].score));
            let ghost old_out = out@;
            out.push(res);
            assert(marked_indices(mask@, i + 1) == before.push(i as usize));
            assert forall|k: int| 0 <= k < out@.len() implies #[trigger] out@[k]@
                == action_result_view(
                table[marked_indices(mask@, i + 1)[k] as int],
                keys@[marked_indices(mask@, i + 1)[k] as int].score,
            ) by {
                if k < old_out.len() {
                    assert(out@[k] == old_out[k]);
                    assert(marked_indices(mask@, i + 1)[k] == before[k]);
                }
            }
        } else {
            assert(marked_indices(mask@, i + 1) == before);
        }
        i = i + 1;
    }
    assert(result_views(out@) =~= action_results_spec(query@, startup_enabled));
    Some(out)
}

/// A quick action that runs on the system.
#[derive(Clone, Copy, Debug, PartialEq, Eq, Structural)]
pub enum ActionKind {
    Sleep,
    Lock,
    Shutdown,
    Restart,
    EmptyRecycleBin,
    DarkMode,
    VolumeUp,
    VolumeDown,
    VolumeMute,
    ToggleStartup,
}

/// The id under which each action is listed.
pub open spec fn kind_id(k: ActionKind) -> Seq<char> {
    match k {
        ActionKind::Sleep => "sleep"@,
        ActionKind::Lock => "lock"@,
        ActionKind::Shutdown => "shutdown"@,
        ActionKind::Restart => "restart"@,
        ActionKind::EmptyRecycleBin => "empty_recycle"@,
        ActionKind::DarkMode => "dark_mode"@,
        ActionKind::VolumeUp => "volume_up"@,
        ActionKind::VolumeDown => "volume_down"@,
        ActionKind::VolumeMute => "volume_mute"@,
        ActionKind::ToggleStartup => "toggle_startup"@,
    }
}

/// What running an action id comes to.
#[derive(Clone, Debug)]
pub enum ActionPlan {
    /// Open a file, folder or program with the system's default handler.
    Open(String),
    /// Run one of the quick actions.
    Run(ActionKind),
}

pub open spec fn open_prefix() -> Seq<char> {
    "open:"@
}

/// The kinds in the order of the action list.
pub open spec fn kinds() -> Seq<ActionKind> {
    seq![
        ActionKind::Sleep,
        ActionKind::Lock,
        ActionKind::Shutdown,
        ActionKind::Restart,
        ActionKind::EmptyRecycleBin,
        ActionKind::DarkMode,
        ActionKind::VolumeUp,
        ActionKind::VolumeDown,
        ActionKind::VolumeMute,
        ActionKind::ToggleStartup,
    ]
}

fn kind_list() -> (v: Vec<ActionKind>)
    ensures
        v@ == kinds(),
{
    let v = vec![
        ActionKind::Sleep,
        ActionKind::Lock,
        ActionKind::Shutdown,
        ActionKind::Restart,
        ActionKind::EmptyRecycleBin,
        ActionKind::DarkMode,
        ActionKind::VolumeUp,
        ActionKind::VolumeDown,
        ActionKind::VolumeMute,
        ActionKind::ToggleStartup,
    ];
    assert(v@ =~= kinds());
    v
}

fn kind_id_str(k: ActionKind) -> (s: &'static str)
    ensures
        s@ == kind_id(k),
{
    match k {
        ActionKind::Sleep => "sleep",
        ActionKind::Lock => "lock",
        ActionKind::Shutdown => "shutdown",
        ActionKind::Restart => "restart",
        ActionKind::EmptyRecycleBin => "empty_recycle",
        ActionKind::DarkMode => "dark_mode",
        ActionKind::VolumeUp => "volume_up",
        ActionKind::VolumeDown => "volume_down",
        ActionKind::VolumeMute => "volume_mute",
        ActionKind::ToggleStartup => "toggle_startup",
    }
}

/// `r` is what planning `action_id` comes to: `open:` followed by a path
/// opens that path; the id of a listed action runs it; any other id is refused
/// with `Unknown action: ` and the id.
pub open spec fn plan_outcome(action_id: Seq<char>, r: Result<ActionPlan, String>) -> bool {
    match r {
        Ok(ActionPlan::Open(p)) => is_prefix(open_prefix(), action_id) && p@ == action_id.skip(5),
        Ok(ActionPlan::Run(k)) => !is_prefix(open_prefix(), action_id) && action_id == kind_id(k),
        Err(e) => {
            &&& !is_prefix(open_prefix(), action_id)
            &&& forall|i: int| 0 <= i < kinds().len() ==> action_id != kind_id(#[trigger] kinds()[i])
            &&& e@ == "Unknown action: "@ + action_id
        },
    }
}

/// What to do for `action_id`: `open:` followed by a path opens that path;
/// the id of a listed action runs it; any other id is refused with
/// `Unknown action: ` and the id.
pub fn plan_action(action_id: &str) -> (r: Result<ActionPlan, String>)
    ensures
        plan_outcome(action_id@, r),
{
    let id = chars_of(action_id);
    let open = chars_of("open:");
    proof {
        reveal_strlit("open:");
    }
    if starts_with_chars(&id, &open) {
        let mut rest: Vec<char> = Vec::new();
        let mut i: usize = 5;
        while i < id.len()
            invariant
                5 <= i <= id@.len(),
                rest@ == id@.subrange(5, i as int),
            decreases id@.len() - i,
        {
            rest.push(id[i]);
            assert(rest@ =~= id@.subrange(5, i + 1));
            i = i + 1;
        }
        assert(id@.subrange(5, id@.len() as int) =~= id@.skip(5));
        return Ok(ActionPlan::Open(string_of(rest.as_slice())));
    }
    let ks = kind_list();
    let mut i: usize = 0;
    while i < ks.len()
        invariant
            ks@ == kinds(),
            id@ == action_id@,
            !is_prefix(open_prefix(), action_id@),
            i <= ks@.len(),
            forall|j: int| 0 <= j < i ==> action_id@ != kind_id(#[trigger] kinds()[j]),
        decreases ks@.len() - i,
    {
        let k = ks[i];
        let kid = chars_of(kind_id_str(k));
        if chars_equal(&id, &kid) {
            return Ok(ActionPlan::Run(k));
        }
        i = i + 1;
    }
    Err(concat("Unknown action: ", action_id))
}

/// Every listed quick action can be run from its id: planning the id of the
/// `i`-th action of the list runs the `i`-th kind of action.
pub proof fn law_listed_actions_run(startup_enabled: bool, i: int, r: Result<ActionPlan, String>)
    requires
        0 <= i < action_table(startup_enabled).len(),
        plan_outcome(action_table(startup_enabled)[i].0, r),
    ensures
        r matches Ok(ActionPlan::Run(k)) && k == kinds()[i],
{
    reveal_strlit("open:");
    reveal_strlit("sleep");
    reveal_strlit("lock");
    reveal_strlit("shutdown");
    reveal_strlit("restart");
    reveal_strlit("empty_recycle");
    reveal_strlit("dark_mode");
    reveal_strlit("volume_up");
    reveal_strlit("volume_down");
    reveal_strlit("volume_mute");
    reveal_strlit("toggle_startup");
    let id = action_table(startup_enabled)[i].0;
    assert(id == kind_id(kinds()[i]));
    assert(id[0] != 'o');
    assert(!is_prefix(open_prefix(), id)) by {
        if is_prefix(open_prefix(), id) {
            assert(id.take(5)[0] == open_prefix()[0]);
        }
    }
    if let Ok(ActionPlan::Run(k)) = r {
        assert(kind_id(k).len() == id.len());
        assert(kind_id(k)[0] == id[0]);
        assert(kind_id(k)[kind_id(k).len() - 1] == id[id.len() - 1]);
        assert(kind_id(k)[kind_id(k).len() - 2] == id[id.len() - 2]);
    }
}

/// Shutting down runs `shutdown /s /t 0`, which powers the machine off at
/// once; restarting runs `shutdown /r /t 0`. These two are the only actions
/// that run `shutdown`, and their commands differ: only the restart passes
/// `/r`, only the shut-down passes `/s`.
pub proof fn law_power_commands(light_theme: bool, k: ActionKind)
    ensures
        command_spec(ActionKind::Shutdown, light_theme) == Some(
            (
                seq!['s', 'h', 'u', 't', 'd', 'o', 'w', 'n'],
                seq![seq!['/', 's'], seq!['/', 't'], seq!['0']],
            ),
        ),
        command_spec(ActionKind::Restart, light_theme) == Some(
            (
                seq!['s', 'h', 'u', 't', 'd', 'o', 'w', 'n'],
                seq![seq!['/', 'r'], seq!['/', 't'], seq!['0']],
            ),
        ),
        command_spec(ActionKind::Shutdown, light_theme) != command_spec(ActionKind::Restart, light_theme),
        (command_spec(k, light_theme) matches Some((p, _)) && p == seq!['s', 'h', 'u', 't', 'd', 'o', 'w', 'n'])
            ==> (k == ActionKind::Shutdown || k == ActionKind::Restart),
{
    reveal_strlit("shutdown");
    reveal_strlit("/s");
    reveal_strlit("/r");
    reveal_strlit("/t");
    reveal_strlit("0");
    reveal_strlit("rundll32.exe");
    reveal_strlit("powershell");
    reveal_strlit("reg");
    assert("shutdown"@ =~= seq!['s', 'h', 'u', 't', 'd', 'o', 'w', 'n']);
    assert("/s"@ =~= seq!['/', 's']);
    assert("/r"@ =~= seq!['/', 'r']);
    assert("/t"@ =~= seq!['/', 't']);
    assert("0"@ =~= seq!['0']);
    assert(seq!["/s"@, "/t"@, "0"@] =~= seq![seq!['/', 's'], seq!['/', 't'], seq!['0']]);
    assert(seq!["/r"@, "/t"@, "0"@] =~= seq![seq!['/', 'r'], seq!['/', 't'], seq!['0']]);
    assert(seq!["/s"@, "/t"@, "0"@][0] != seq!["/r"@, "/t"@, "0"@][0]);
    if let Some((p, _)) = command_spec(k, light_theme) {
        if p == seq!['s', 'h', 'u', 't', 'd', 'o', 'w', 'n'] {
            assert(p[0] == 's');
            assert("rundll32.exe"@[0] == 'r');
            assert("powershell"@[0] == 'p');
            assert("reg"@[0] == 'r');
        }
    }
}

/// The report of a completed action; for the start-up toggle, `now_enabled`
/// is the state it set.
pub open spec fn action_message_spec(plan: ActionPlan, now_enabled: bool) -> Seq<char> {
    match plan {
        ActionPlan::Open(p) => "Opened: "@ + p@,
        ActionPlan::Run(k) => match k {
            ActionKind::Sleep => "Sleep initiated"@,
            ActionKind::Lock => "Workstation locked"@,
            ActionKind::Shutdown => "Shutdown initiated"@,
            ActionKind::Restart => "Restart initiated"@,
            ActionKind::EmptyRecycleBin => "Recycle Bin emptied"@,
            ActionKind::DarkMode => "Dark mode toggled"@,
            ActionKind::VolumeUp => "Volume increased"@,
            ActionKind::VolumeDown => "Volume decreased"@,
            ActionKind::VolumeMute => "Volume toggled"@,
            ActionKind::ToggleStartup => if now_enabled {
                "Added to startup"@
            } else {
                "Removed from startup"@
            },
        },
    }
}

/// The report of a completed action.
pub fn action_message(plan: &ActionPlan, now_enabled: bool) -> (m: String)
    ensures
        m@ == action_message_spec(*plan, now_enabled),
{
    match plan {
        ActionPlan::Open(p) => concat("Opened: ", p.as_str()),
        ActionPlan::Run(k) => String::from_str(
            match k {
                ActionKind::Sleep => "Sleep initiated",
                ActionKind::Lock => "Workstation locked",
                ActionKind::Shutdown => "Shutdown initiated",
                ActionKind::Restart => "Restart initiated",
                ActionKind::EmptyRecycleBin => "Recycle Bin emptied",
                ActionKind::DarkMode => "Dark mode toggled",
                ActionKind::VolumeUp => "Volume increased",
                ActionKind::VolumeDown => "Volume decreased",
                ActionKind::VolumeMute => "Volume toggled",
                ActionKind::ToggleStartup => if now_enabled {
                    "Added to startup"
                } else {
                    "Removed from startup"
                },
            },
        ),
    }
}

/// The value that the dark-mode toggle writes to `AppsUseLightTheme`: the
/// opposite of the current theme, `light_theme` telling whether it is light.
pub open spec fn theme_value(light_theme: bool) -> Seq<char> {
    if light_theme {
        "0"@
    } else {
        "1"@
    }
}

/// The program and arguments that an action runs without a window, where it
/// runs one (sleeping and the start-up toggle call the system directly);
/// `light_theme` tells whether the apps' theme is light now.
pub open spec fn command_spec(k: ActionKind, light_theme: bool) -> Option<(Seq<char>, Seq<Seq<char>>)> {
    match k {
        ActionKind::Lock => Some(("rundll32.exe"@, seq!["user32.dll,LockWorkStation"@])),
        ActionKind::Shutdown => Some(("shutdown"@, seq!["/s"@, "/t"@, "0"@])),
        ActionKind::Restart => Some(("shutdown"@, seq!["/r"@, "/t"@, "0"@])),
        ActionKind::EmptyRecycleBin => Some(
            (
                "powershell"@,
                seq![
                    "-NoProfile"@,
                    "-WindowStyle"@,
                    "Hidden"@,
                    "-Command"@,
                    "Clear-RecycleBin -Force -ErrorAction SilentlyContinue"@,
                ],
            ),
        ),
        ActionKind::DarkMode => Some(
            (
                "reg"@,
                seq![
                    "add"@,
                    "HKCU\\SOFTWARE\\Microsoft\\Windows\\CurrentVersion\\Themes\\Personalize"@,
                    "/v"@,
                    "AppsUseLightTheme"@,
                    "/t"@,
                    "REG_DWORD"@,
                    "/d"@,
                    theme_value(light_theme),
                    "/f"@,
                ],
            ),
        ),
        ActionKind::VolumeUp => Some(
            (
                "powershell"@,
                seq![
                    "-NoProfile"@,
                    "-WindowStyle"@,
                    "Hidden"@,
                    "-Command"@,
                    "$obj = New-Object -ComObject WScript.Shell; for($i=0;$i -lt 5;$i++){$obj.SendKeys([char]175)}"@,
                ],
            ),
        ),
        ActionKind::VolumeDown => Some(
            (
                "powershell"@,
                seq![
                    "-NoProfile"@,
                    "-WindowStyle"@,
                    "Hidden"@,
                    "-Command"@,
                    "$obj = New-Object -ComObject WScript.Shell; for($i=0;$i -lt 5;$i++){$obj.SendKeys([char]174)}"@,
                ],
            ),
        ),
        ActionKind::VolumeMute => Some(
            (
                "powershell"@,
                seq![
                    "-NoProfile"@,
                    "-WindowStyle"@,
                    "Hidden"@,
                    "-Command"@,
                    "$obj = New-Object -ComObject WScript.Shell; $obj.SendKeys([char]173)"@,
                ],
            ),
        ),
        ActionKind::Sleep => None,
        ActionKind::ToggleStartup => None,
    }
}

/// The command that runs action `k` without a window, if it runs one, given
/// whether the apps' theme is light now.
pub fn action_command(k: ActionKind, light_theme: bool) -> (r: Option<(&'static str, Vec<&'static str>)>)
    ensures
        match r {
            Some((p, args)) => command_spec(k, light_theme) == Some(
                (p@, args@.map_values(|a: &'static str| a@)),
            ),
            None => command_spec(k, light_theme) is None,
        },
{
    let theme: &'static str = if light_theme {
        "0"
    } else {
        "1"
    };
    let ps: &'static str = "powershell";
    let r: Option<(&'static str, Vec<&'static str>)> = match k {
        ActionKind::Lock => Some(("rundll32.exe", vec!["user32.dll,LockWorkStation"])),
        ActionKind::Shutdown => Some(("shutdown", vec!["/s", "/t", "0"])),
        ActionKind::Restart => Some(("shutdown", vec!["/r", "/t", "0"])),
        ActionKind::EmptyRecycleBin => Some(
            (
                ps,
                vec![
                    "-NoProfile",
                    "-WindowStyle",
                    "Hidden",
                    "-Command",
                    "Clear-RecycleBin -Force -ErrorAction SilentlyContinue",
                ],
            ),
        ),
        ActionKind::DarkMode => Some(
            (
                "reg",
                vec![
                    "add",
                    "HKCU\\SOFTWARE\\Microsoft\\Windows\\CurrentVersion\\Themes\\Personalize",
                    "/v",
                    "AppsUseLightTheme",
                    "/t",
                    "REG_DWORD",
                    "/d",
                    theme,
                    "/f",
                ],
            ),
        ),
        ActionKind::VolumeUp => Some(
            (
                ps,
                vec![
                    "-NoProfile",
                    "-WindowStyle",
                    "Hidden",
                    "-Command",
                    "$obj = New-Object -ComObject WScript.Shell; for($i=0;$i -lt 5;$i++){$obj.SendKeys([char]175)}",
                ],
            ),
        ),
        ActionKind::VolumeDown => Some(
            (
                ps,
                vec![
                    "-NoProfile",
                    "-WindowStyle",
                    "Hidden",
                    "-Command",
                    "$obj = New-Object -ComObject WScript.Shell; for($i=0;$i -lt 5;$i++){$obj.SendKeys([char]174)}",
                ],
            ),
        ),
        ActionKind::VolumeMute => Some(
            (
                ps,
                vec![
                    "-NoProfile",
                    "-WindowStyle",
                    "Hidden",
                    "-Command",
                    "$obj = New-Object -ComObject WScript.Shell; $obj.SendKeys([char]173)",
                ],
            ),
        ),
        ActionKind::Sleep => None,
        ActionKind::ToggleStartup => None,
    };
    proof {
        if let Some((p, args)) = &r {
            if let Some((sp, sargs)) = command_spec(k, light_theme) {
                assert(args@.map_values(|a: &'static str| a@) =~= sargs);
            }
        }
    }
    r
}

} // verus!
