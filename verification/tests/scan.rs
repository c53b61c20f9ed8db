use spotlight_win::apps::{AppEntry, AppType};
use spotlight_win::collect::{
    drive_roots, get_all_drive_letters, path_dirs, AppCollector, DirEntryInfo, FileCollector, Visit,
};
use spotlight_win::files::is_file_ext;

fn entry(stem: &str, path: &str, is_dir: bool) -> DirEntryInfo {
    DirEntryInfo::new(stem.to_string(), path.to_string(), is_dir)
}

fn names(apps: &[AppEntry]) -> Vec<String> {
    apps.iter().map(|a| a.name.clone()).collect()
}

#[test]
fn start_menu_shortcuts_are_added_once_per_lowercase_name() {
    let mut c = AppCollector::new();
    assert_eq!(c.visit_shortcut(&entry("Chrome", "C:\\sm\\Chrome.lnk", false), 1), Visit::Added);
    assert_eq!(c.visit_shortcut(&entry("CHROME", "C:\\sm2\\CHROME.lnk", false), 1), Visit::Skip);
    assert_eq!(c.visit_shortcut(&entry("readme", "C:\\sm\\readme.txt", false), 1), Visit::Skip);
    assert_eq!(c.visit_shortcut(&entry("tool", "C:\\sm\\tool.LNK", false), 1), Visit::Skip);
    assert_eq!(c.visit_shortcut(&entry("", "C:\\sm\\.lnk", false), 1), Visit::Skip);
    assert_eq!(c.visit_shortcut(&entry("noext", "C:\\sm\\noext", false), 1), Visit::Skip);
    let apps = c.into_apps();
    assert_eq!(names(&apps), vec!["Chrome"]);
    assert_eq!(apps[0].path, "C:\\sm\\Chrome.lnk");
    assert_eq!(apps[0].app_type, AppType::StartMenu);
}

#[test]
fn start_menu_folders_are_entered_up_to_depth_six() {
    let mut c = AppCollector::new();
    let dir = entry("Tools", "C:\\sm\\Tools", true);
    assert_eq!(c.visit_shortcut(&dir, 0), Visit::Descend);
    assert_eq!(c.visit_shortcut(&dir, 5), Visit::Descend);
    assert_eq!(c.visit_shortcut(&dir, 6), Visit::Skip);
    assert_eq!(c.into_apps().len(), 0);
}

#[test]
fn drive_scan_adds_programs_and_skips_system_folders() {
    let mut c = AppCollector::new();
    assert_eq!(c.visit_drive_entry(&entry("App", "D:\\App.exe", false), 1, 3), Visit::Added);
    assert_eq!(c.visit_drive_entry(&entry("Link", "D:\\Link.lnk", false), 1, 3), Visit::Added);
    assert_eq!(c.visit_drive_entry(&entry("lib", "D:\\lib.dll", false), 1, 3), Visit::Skip);
    assert_eq!(c.visit_drive_entry(&entry("Games", "D:\\Games", true), 1, 3), Visit::Descend);
    assert_eq!(c.visit_drive_entry(&entry("Games2", "D:\\Games2", true), 3, 3), Visit::Skip);
    assert_eq!(c.visit_drive_entry(&entry("OneDrive", "D:\\OneDrive", true), 0, 3), Visit::Skip);
    assert_eq!(c.visit_drive_entry(&entry("$Recycle.Bin", "D:\\$Recycle.Bin", true), 0, 3), Visit::Skip);
    // a folder named like an indexed program is skipped, as its key is taken
    assert_eq!(c.visit_drive_entry(&entry("app", "D:\\app", true), 0, 3), Visit::Skip);
    assert_eq!(c.visit_drive_entry(&entry("", "D:\\.exe", false), 0, 3), Visit::Skip);
    let apps = c.into_apps();
    assert_eq!(names(&apps), vec!["App", "Link"]);
    assert_eq!(apps[0].app_type, AppType::Drive);
}

#[test]
fn merge_keeps_the_first_of_each_name() {
    let mut c = AppCollector::new();
    c.visit_shortcut(&entry("Chrome", "C:\\sm\\Chrome.lnk", false), 0);
    let mut other = AppCollector::new();
    other.visit_drive_entry(&entry("chrome", "D:\\chrome.exe", false), 0, 3);
    other.visit_drive_entry(&entry("Paint", "D:\\paint.exe", false), 0, 3);
    other.visit_drive_entry(&entry("PAINT", "D:\\PAINT.exe", false), 0, 3);
    assert!(other.drive_only());
    assert!(!c.drive_only());
    c.merge(&other);
    let apps = c.into_apps();
    assert_eq!(names(&apps), vec!["Chrome", "Paint"]);
    assert_eq!(apps[0].path, "C:\\sm\\Chrome.lnk");
    assert_eq!(apps[1].path, "D:\\paint.exe");
}

#[test]
fn entries_read_their_extension_from_the_path() {
    assert_eq!(entry("a", "/x/a.LNK", false).extension, "LNK");
    assert_eq!(entry("a", "/x.d/a", false).extension, "");
    assert_eq!(entry(".bashrc", "/home/.bashrc", false).extension, "");
}

#[test]
fn file_scan_indexes_known_extensions_once_per_path() {
    let mut c = FileCollector::new();
    assert_eq!(c.visit_file_entry(&entry("report", "C:\\d\\report.pdf", false), 1, 4), Visit::Added);
    assert_eq!(c.visit_file_entry(&entry("report", "C:\\D\\REPORT.pdf", false), 1, 4), Visit::Skip);
    assert_eq!(c.visit_file_entry(&entry("data", "C:\\d\\data.bin", false), 1, 4), Visit::Skip);
    assert_eq!(c.visit_file_entry(&entry("Makefile", "C:\\d\\Makefile", false), 1, 4), Visit::Skip);
    assert_eq!(c.visit_file_entry(&entry("src", "C:\\d\\src", true), 1, 4), Visit::Descend);
    assert_eq!(c.visit_file_entry(&entry("src", "C:\\d\\src", true), 4, 4), Visit::Skip);
    assert_eq!(c.visit_file_entry(&entry("node_modules", "C:\\d\\node_modules", true), 0, 4), Visit::Skip);
    assert_eq!(c.visit_file_entry(&entry("AppData", "C:\\u\\AppData", true), 0, 4), Visit::Skip);
    let files = c.into_files();
    assert_eq!(files.len(), 1);
    assert_eq!(files[0].name, "report");
    assert_eq!(files[0].path, "C:\\d\\report.pdf");
}

#[test]
fn indexed_extensions() {
    assert!(is_file_ext("pdf"));
    assert!(is_file_ext("docx"));
    assert!(is_file_ext("rs"));
    assert!(!is_file_ext("PDF"));
    assert!(!is_file_ext("bin"));
    assert!(!is_file_ext(""));
}

#[test]
fn path_variable_is_split_and_trimmed() {
    assert_eq!(path_dirs("C:\\a; C:\\b ;;C:\\c"), vec!["C:\\a", "C:\\b", "", "C:\\c"]);
    assert_eq!(path_dirs(""), vec![""]);
}

#[test]
fn drive_roots_and_present_drives() {
    let roots = drive_roots();
    assert_eq!(roots.len(), 26);
    assert_eq!(roots[0], "A:\\");
    assert_eq!(roots[25], "Z:\\");
    let mut present = [false; 26];
    present[2] = true;
    present[3] = true;
    present[25] = true;
    assert_eq!(get_all_drive_letters(&present), vec!["C:\\", "D:\\", "Z:\\"]);
    assert_eq!(get_all_drive_letters(&[false; 26]).len(), 0);
}

#[test]
fn start_menu_entries_come_before_drive_entries() {
    let mut c = AppCollector::new();
    assert!(c.accepts_shortcuts());
    c.visit_shortcut(&entry("Mail", "C:\\sm\\Mail.lnk", false), 0);
    assert!(c.accepts_shortcuts());
    c.visit_drive_entry(&entry("Tool", "D:\\Tool.exe", false), 0, 3);
    // the first drive entry ends the start-menu phase
    assert!(!c.accepts_shortcuts());
    let apps = c.into_apps();
    assert_eq!(apps[0].app_type, AppType::StartMenu);
    assert_eq!(apps[1].app_type, AppType::Drive);
    let mut c = AppCollector::new();
    c.merge(&AppCollector::new());
    assert!(!c.accepts_shortcuts());
}
