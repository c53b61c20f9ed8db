//! The bookkeeping of the directory scans that build the application and file
//! indexes: which entries are added, which directories are entered, and the
//! rule that no two indexed entries share a key.
//!
//! The scans themselves read the file system; they hand each directory entry
//! to a collector here and enter a directory when told to.
use vstd::prelude::*;
use vstd::hash_set::StringHashSet;
use crate::text::{lowercase, to_lowercase, chars_of, chars_equal, trim, trim_chars, string_of, views};
use crate::apps::{AppEntry, AppType};
use crate::files::{FileEntry, is_file_ext, is_indexed_ext, path_extension, extension_may_be};

verus! {

/// What a scan sees of one directory entry.
#[derive(Clone, Debug)]
pub struct DirEntryInfo {
    /// The file stem (the name without its extension), or empty where it has
    /// none that is valid text.
    pub stem: String,
    /// The extension of the path as `Path::extension` reads it; empty where
    /// it has none that is valid text.
    pub extension: String,
    /// The full path, as text.
    pub path: String,
    pub is_dir: bool,
}

impl DirEntryInfo {
    /// The extension is one that `Path::extension` can read in the path.
    pub open spec fn ext_ok(&self) -> bool {
        extension_may_be(self.path@, self.extension@)
    }

    /// The entry at `path`, with file stem `stem`; its extension is read from
    /// the path.
    pub fn new(stem: String, path: String, is_dir: bool) -> (e: DirEntryInfo)
        ensures
            e.stem == stem,
            e.path == path,
            e.is_dir == is_dir,
            e.ext_ok(),
    {
        let extension = path_extension(path.as_str());
        DirEntryInfo { stem, extension, path, is_dir }
    }
}

/// What became of a visited entry.
#[derive(Clone, Copy, Debug, PartialEq, Eq, Structural)]
pub enum Visit {
    /// Ignored.
    Skip,
    /// A directory to scan, one level deeper.
    Descend,
    /// Added to the index.
    Added,
}

pub open spec fn ext_is(e: DirEntryInfo, ext: Seq<char>) -> bool {
    e.extension@ == ext
}

/// The next level, `depth + 1`, is still scanned.
pub open spec fn may_descend(depth: u32, max_depth: u32) -> bool {
    depth + 1 <= max_depth
}

fn equals_literal(s: &str, lit: &str) -> (b: bool)
    ensures
        b == (s@ == lit@),
{
    let a = chars_of(s);
    let c = chars_of(lit);
    chars_equal(&a, &c)
}

fn ext_equals(e: &DirEntryInfo, lit: &str) -> (b: bool)
    ensures
        b == ext_is(*e, lit@),
{
    equals_literal(e.extension.as_str(), lit)
}

fn one_of(s: &str, words: &[&'static str]) -> (b: bool)
    ensures
        b == exists|i: int| 0 <= i < words@.len() && (#[trigger] words@[i])@ == s@,
{
    let mut i: usize = 0;
    while i < words.len()
        invariant
            i <= words@.len(),
            forall|j: int| 0 <= j < i ==> (#[trigger] words@[j])@ != s@,
        decreases words@.len() - i,
    {
        if equals_literal(s, words[i]) {
            return true;
        }
        i = i + 1;
    }
    false
}

// ---------------------------------------------------------------------------
// Applications
// ---------------------------------------------------------------------------

/// Directories that the drive scan for applications does not enter.
pub open spec fn app_skip_dirs() -> Seq<&'static str> {
    seq![
        "$recycle.bin",
        "system volume information",
        "recovery",
        "perflogs",
        "msocache",
        "onedrive",
        "windows.old",
    ]
}

pub open spec fn in_list(words: Seq<&'static str>, s: Seq<char>) -> bool {
    exists|i: int| 0 <= i < words.len() && (#[trigger] words[i])@ == s
}

/// The key under which an application is indexed: its lowercase name.
pub open spec fn app_key(a: AppEntry) -> Seq<char> {
    lowercase(a.name@)
}

/// No two applications share a key.
pub open spec fn unique_app_keys(apps: Seq<AppEntry>) -> bool {
    forall|i: int, j: int|
        0 <= i < apps.len() && 0 <= j < apps.len() && i != j ==> app_key(#[trigger] apps[i])
            != app_key(#[trigger] apps[j])
}

/// The keys of `apps`.
pub open spec fn app_keys(apps: Seq<AppEntry>) -> Set<Seq<char>> {
    Set::new(|k: Seq<char>| exists|i: int| 0 <= i < apps.len() && app_key(#[trigger] apps[i]) == k)
}

/// The texts of an application entry.
pub open spec fn app_view(a: AppEntry) -> (Seq<char>, Seq<char>, AppType) {
    (a.name@, a.path@, a.app_type)
}

/// `after` is `before` with entries added at the end.
pub open spec fn extends<T>(before: Seq<T>, after: Seq<T>) -> bool {
    &&& before.len() <= after.len()
    &&& forall|i: int| 0 <= i < before.len() ==> #[trigger] after[i] == before[i]
}

/// Extending twice is extending.
pub proof fn lemma_extends_trans<T>(a: Seq<T>, b: Seq<T>, c: Seq<T>)
    requires
        extends(a, b),
        extends(b, c),
    ensures
        extends(a, c),
{
}

/// Over any run of visits, which only extends the list: the applications
/// collected before stay in place, and every one added has a key that none
/// collected before had, distinct from the keys of the others added.
pub proof fn law_walk_adds_new_apps(before: Seq<AppEntry>, after: Seq<AppEntry>)
    requires
        extends(before, after),
        unique_app_keys(after),
    ensures
        forall|i: int| 0 <= i < before.len() ==> after[i] == before[i],
        forall|i: int|
            before.len() <= i < after.len() ==> !app_keys(before).contains(app_key(#[trigger] after[i])),
        forall|i: int, j: int|
            before.len() <= i < j < after.len() ==> app_key(#[trigger] after[i]) != app_key(
                #[trigger] after[j],
            ),
{
    assert forall|i: int|
        before.len() <= i < after.len() implies !app_keys(before).contains(app_key(#[trigger] after[i])) by {
        if app_keys(before).contains(app_key(after[i])) {
            let j = choose|j: int| 0 <= j < before.len() && app_key(#[trigger] before[j]) == app_key(after[i]);
            assert(app_key(after[j]) == app_key(after[i]));
        }
    }
}

/// Over any run of file visits, which only extends the list: the files
/// collected before stay in place, and every one added has a key that none
/// collected before had, distinct from the keys of the others added.
pub proof fn law_walk_adds_new_files(before: Seq<FileEntry>, after: Seq<FileEntry>)
    requires
        extends(before, after),
        unique_file_keys(after),
    ensures
        forall|i: int| 0 <= i < before.len() ==> after[i] == before[i],
        forall|i: int|
            before.len() <= i < after.len() ==> !file_keys(before).contains(file_key(#[trigger] after[i])),
        forall|i: int, j: int|
            before.len() <= i < j < after.len() ==> file_key(#[trigger] after[i]) != file_key(
                #[trigger] after[j],
            ),
{
    assert forall|i: int|
        before.len() <= i < after.len() implies !file_keys(before).contains(file_key(#[trigger] after[i])) by {
        if file_keys(before).contains(file_key(after[i])) {
            let j = choose|j: int| 0 <= j < before.len() && file_key(#[trigger] before[j]) == file_key(after[i]);
            assert(file_key(after[j]) == file_key(after[i]));
        }
    }
}

/// An indexed application has a name, and a path whose extension is `lnk`
/// for a start-menu entry and `exe` or `lnk` for a drive entry.
pub open spec fn app_entry_ok(a: AppEntry) -> bool {
    &&& a.name@.len() > 0
    &&& a.app_type == AppType::StartMenu ==> extension_may_be(a.path@, "lnk"@)
    &&& a.app_type == AppType::Drive ==> (extension_may_be(a.path@, "exe"@) || extension_may_be(
        a.path@,
        "lnk"@,
    ))
}

/// Every start-menu entry of `apps` comes before every drive entry.
pub open spec fn start_menu_first(apps: Seq<AppEntry>) -> bool {
    forall|i: int, j: int|
        0 <= i < j < apps.len() && (#[trigger] apps[i]).app_type == AppType::Drive ==> (
        #[trigger] apps[j]).app_type == AppType::Drive
}

/// Collects applications so that none is indexed twice under one key. It
/// takes start-menu shortcuts first; the first drive entry or merge ends
/// that phase.
pub struct AppCollector {
    apps: Vec<AppEntry>,
    seen: StringHashSet,
    shortcuts_open: bool,
}

impl AppCollector {
    /// The applications collected so far.
    pub closed spec fn apps(&self) -> Seq<AppEntry> {
        self.apps@
    }

    /// The keys already taken.
    pub closed spec fn seen(&self) -> Set<Seq<char>> {
        self.seen@
    }

    /// Start-menu shortcuts are still taken.
    pub closed spec fn shortcuts_open(&self) -> bool {
        self.shortcuts_open
    }

    /// The taken keys are exactly those of the collected applications, and
    /// those are distinct; start-menu entries come first, and while
    /// shortcuts are taken there are only start-menu entries.
    pub open spec fn wf(&self) -> bool {
        &&& self.seen() == app_keys(self.apps())
        &&& unique_app_keys(self.apps())
        &&& start_menu_first(self.apps())
        &&& forall|i: int| 0 <= i < self.apps().len() ==> app_entry_ok(#[trigger] self.apps()[i])
        &&& self.shortcuts_open() ==> forall|i: int|
            0 <= i < self.apps().len() ==> (#[trigger] self.apps()[i]).app_type == AppType::StartMenu
    }

    /// A collector holding nothing, taking shortcuts.
    pub fn new() -> (c: AppCollector)
        ensures
            c.wf(),
            c.apps().len() == 0,
            c.shortcuts_open(),
    {
        let c = AppCollector { apps: Vec::new(), seen: StringHashSet::new(), shortcuts_open: true };
        assert(c.seen() =~= app_keys(c.apps()));
        c
    }

    /// Whether start-menu shortcuts are still taken.
    pub fn accepts_shortcuts(&self) -> (b: bool)
        ensures
            b == self.shortcuts_open(),
    {
        self.shortcuts_open
    }

    /// Ends the start-menu phase.
    fn close_shortcuts(&mut self)
        requires
            old(self).wf(),
        ensures
            final(self).wf(),
            final(self).apps() == old(self).apps(),
            final(self).seen() == old(self).seen(),
            !final(self).shortcuts_open(),
    {
        self.shortcuts_open = false;
    }

    /// Adds `a`, whose key `key` is not taken yet: a start-menu entry while
    /// shortcuts are taken, else a drive entry.
    fn add(&mut self, a: AppEntry, key: String)
        requires
            old(self).wf(),
            key@ == app_key(a),
            !old(self).seen().contains(key@),
            app_entry_ok(a),
            if old(self).shortcuts_open() {
                a.app_type == AppType::StartMenu
            } else {
                a.app_type == AppType::Drive
            },
        ensures
            final(self).wf(),
            final(self).apps() == old(self).apps().push(a),
            final(self).shortcuts_open() == old(self).shortcuts_open(),
    {
        proof {
            assert forall|i: int| 0 <= i < old(self).apps().len() implies app_key(
                #[trigger] old(self).apps()[i],
            ) != key@ by {
                assert(app_keys(old(self).apps()).contains(app_key(old(self).apps()[i])));
            }
        }
        self.seen.insert(key);
        self.apps.push(a);
        proof {
            let apps = self.apps();
            assert(apps[apps.len() - 1] == a);
            assert forall|k: Seq<char>| #[trigger] app_keys(apps).contains(k) == self.seen().contains(
                k,
            ) by {
                if self.seen().contains(k) {
                    if k == app_key(a) {
                        assert(app_key(apps[apps.len() - 1]) == k);
                    } else {
                        assert(app_keys(old(self).apps()).contains(k));
                        let i = choose|i: int|
                            0 <= i < old(self).apps().len() && app_key(
                                #[trigger] old(self).apps()[i],
                            ) == k;
                        assert(apps[i] == old(self).apps()[i]);
                    }
                }
                if app_keys(apps).contains(k) {
                    let i = choose|i: int| 0 <= i < apps.len() && app_key(#[trigger] apps[i]) == k;
                    if i < apps.len() - 1 {
                        assert(apps[i] == old(self).apps()[i]);
                        assert(app_keys(old(self).apps()).contains(k));
                    }
                }
            }
            assert(self.seen() =~= app_keys(apps));
            assert forall|i: int, j: int|
                0 <= i < apps.len() && 0 <= j < apps.len() && i != j implies app_key(
                #[trigger] apps[i],
            ) != app_key(#[trigger] apps[j]) by {
                if i < apps.len() - 1 {
                    assert(apps[i] == old(self).apps()[i]);
                }
                if j < apps.len() - 1 {
                    assert(apps[j] == old(self).apps()[j]);
                }
            }
            assert forall|i: int, j: int|
                0 <= i < j < apps.len() && (#[trigger] apps[i]).app_type == AppType::Drive implies (
                #[trigger] apps[j]).app_type == AppType::Drive by {
                assert(apps[i] == old(self).apps()[i]);
                if j < apps.len() - 1 {
                    assert(apps[j] == old(self).apps()[j]);
                }
            }
            assert forall|i: int|
                0 <= i < apps.len() && self.shortcuts_open() implies (#[trigger] apps[i]).app_type
                == AppType::StartMenu by {
                if i < apps.len() - 1 {
                    assert(apps[i] == old(self).apps()[i]);
                }
            }
            assert forall|i: int| 0 <= i < apps.len() implies app_entry_ok(#[trigger] apps[i]) by {
                if i < apps.len() - 1 {
                    assert(apps[i] == old(self).apps()[i]);
                }
            }
        }
    }

    /// A start-menu entry seen at `depth`: a directory is entered while the
    /// next level is at most 6; a `.lnk` shortcut with a non-empty name whose
    /// key is not taken is added; anything else is skipped.
    pub fn visit_shortcut(&mut self, e: &DirEntryInfo, depth: u32) -> (v: Visit)
        requires
            old(self).wf(),
            e.ext_ok(),
            old(self).shortcuts_open(),
        ensures
            final(self).wf(),
            final(self).shortcuts_open(),
            extends(old(self).apps(), final(self).apps()),
            ({
                let key = lowercase(e.stem@);
                if e.is_dir {
                    &&& v == (if may_descend(depth, 6) {
                        Visit::Descend
                    } else {
                        Visit::Skip
                    })
                    &&& final(self).apps() == old(self).apps()
                } else if ext_is(*e, "lnk"@) && e.stem@.len() > 0 && !old(self).seen().contains(key) {
                    &&& v == Visit::Added
                    &&& final(self).apps().len() == old(self).apps().len() + 1
                    &&& final(self).apps().drop_last() == old(self).apps()
                    &&& app_view(final(self).apps().last()) == (e.stem@, e.path@, AppType::StartMenu)
                } else {
                    &&& v == Visit::Skip
                    &&& final(self).apps() == old(self).apps()
                }
            }),
    {
        if e.is_dir {
            return if (depth as u64) + 1 <= 6 {
                Visit::Descend
            } else {
                Visit::Skip
            };
        }
        if !ext_equals(e, "lnk") {
            return Visit::Skip;
        }
        let key = to_lowercase(e.stem.as_str());
        if e.stem.as_str().is_empty() || self.seen.contains(key.as_str()) {
            return Visit::Skip;
        }
        let a = AppEntry { name: e.stem.clone(), path: e.path.clone(), app_type: AppType::StartMenu };
        self.add(a, key);
        proof {
            assert(self.apps().drop_last() =~= old(self).apps());
        }
        Visit::Added
    }

    /// An entry of a drive or `PATH` scan at `depth`: entries with an empty
    /// or taken key are skipped, directories included; a directory outside
    /// the skip list is entered while the next level is at most `max_depth`;
    /// an `.exe` or `.lnk` file is added; anything else is skipped.
    pub fn visit_drive_entry(&mut self, e: &DirEntryInfo, depth: u32, max_depth: u32) -> (v: Visit)
        requires
            old(self).wf(),
            e.ext_ok(),
        ensures
            final(self).wf(),
            !final(self).shortcuts_open(),
            extends(old(self).apps(), final(self).apps()),
            ({
                let key = lowercase(e.stem@);
                if key.len() == 0 || old(self).seen().contains(key) {
                    &&& v == Visit::Skip
                    &&& final(self).apps() == old(self).apps()
                } else if e.is_dir {
                    &&& v == (if !in_list(app_skip_dirs(), key) && may_descend(depth, max_depth) {
                        Visit::Descend
                    } else {
                        Visit::Skip
                    })
                    &&& final(self).apps() == old(self).apps()
                } else if ext_is(*e, "exe"@) || ext_is(*e, "lnk"@) {
                    &&& v == Visit::Added
                    &&& final(self).apps().len() == old(self).apps().len() + 1
                    &&& final(self).apps().drop_last() == old(self).apps()
                    &&& app_view(final(self).apps().last()) == (e.stem@, e.path@, AppType::Drive)
                } else {
                    &&& v == Visit::Skip
                    &&& final(self).apps() == old(self).apps()
                }
            }),
    {
        self.close_shortcuts();
        let key = to_lowercase(e.stem.as_str());
        if key.as_str().is_empty() || self.seen.contains(key.as_str()) {
            return Visit::Skip;
        }
        if e.is_dir {
            let skip: &[&'static str] = &[
                "$recycle.bin",
                "system volume information",
                "recovery",
                "perflogs",
                "msocache",
                "onedrive",
                "windows.old",
            ];
            assert(skip@ =~= app_skip_dirs());
            if one_of(key.as_str(), skip) {
                return Visit::Skip;
            }
            return if (depth as u64) + 1 <= max_depth as u64 {
                Visit::Descend
            } else {
                Visit::Skip
            };
        }
        if ext_equals(e, "exe") || ext_equals(e, "lnk") {
            let a = AppEntry { name: e.stem.clone(), path: e.path.clone(), app_type: AppType::Drive };
            self.add(a, key);
            proof {
                assert(self.apps().drop_last() =~= old(self).apps());
            }
            return Visit::Added;
        }
        Visit::Skip
    }

    /// Whether every collected application is a drive entry.
    pub fn drive_only(&self) -> (b: bool)
        ensures
            b == forall|i: int|
                0 <= i < self.apps().len() ==> (#[trigger] self.apps()[i]).app_type == AppType::Drive,
    {
        let mut i: usize = 0;
        while i < self.apps.len()
            invariant
                i <= self.apps@.len(),
                forall|j: int| 0 <= j < i ==> (#[trigger] self.apps@[j]).app_type == AppType::Drive,
            decreases self.apps@.len() - i,
        {
            if self.apps[i].app_type != AppType::Drive {
                return false;
            }
            i = i + 1;
        }
        true
    }

    /// Adds the drive entries collected by `other` in order, each unless its
    /// key is already taken (by an earlier one or by one of `other` itself).
    pub fn merge(&mut self, other: &AppCollector)
        requires
            old(self).wf(),
            other.wf(),
            forall|k: int|
                0 <= k < other.apps().len() ==> (#[trigger] other.apps()[k]).app_type == AppType::Drive,
        ensures
            final(self).wf(),
            !final(self).shortcuts_open(),
            extends(old(self).apps(), final(self).apps()),
            app_views(final(self).apps()) == merged(
                app_views(old(self).apps()),
                app_views(other.apps()),
                other.apps().len() as int,
            ),
    {
        self.close_shortcuts();
        let list = &other.apps;
        let mut i: usize = 0;
        while i < list.len()
            invariant
                self.wf(),
                !self.shortcuts_open(),
                forall|k: int| 0 <= k < list@.len() ==> (#[trigger] list@[k]).app_type == AppType::Drive,
                forall|k: int| 0 <= k < list@.len() ==> app_entry_ok(#[trigger] list@[k]),
                list@ == other.apps(),
                extends(old(self).apps(), self.apps()),
                i <= list@.len(),
                app_views(self.apps()) == merged(
                    app_views(old(self).apps()),
                    app_views(list@),
                    i as int,
                ),
            decreases list@.len() - i,
        {
            let a = &list[i];
            let key = to_lowercase(a.name.as_str());
            let ghost before = app_views(self.apps());
            let ghost prev = self.apps();
            proof {
                assert(app_views(list@)[i as int] == app_view(list@[i as int]));
                assert(self.seen().contains(key@) == exists|j: int|
                    0 <= j < before.len() && lowercase((#[trigger] before[j]).0) == lowercase(
                        app_views(list@)[i as int].0,
                    )) by {
                    if self.seen().contains(key@) {
                        let j = choose|j: int| 0 <= j < prev.len() && app_key(#[trigger] prev[j]) == key@;
                        assert(before[j] == app_view(prev[j]));
                    }
                    if exists|j: int|
                        0 <= j < before.len() && lowercase((#[trigger] before[j]).0) == lowercase(
                            app_views(list@)[i as int].0,
                        ) {
                        let j = choose|j: int|
                            0 <= j < before.len() && lowercase((#[trigger] before[j]).0) == lowercase(
                                app_views(list@)[i as int].0,
                            );
                        assert(before[j] == app_view(prev[j]));
                        assert(app_keys(prev).contains(app_key(prev[j])));
                    }
                }
            }
            if !self.seen.contains(key.as_str()) {
                let copy = AppEntry { name: a.name.clone(), path: a.path.clone(), app_type: a.app_type };
                self.add(copy, key);
                proof {
                    assert(app_views(self.apps()) =~= before.push(app_view(copy)));
                    lemma_extends_trans(old(self).apps(), prev, self.apps());
                }
            }
            i = i + 1;
        }
    }

    /// The collected applications.
    pub fn into_apps(self) -> (v: Vec<AppEntry>)
        requires
            self.wf(),
        ensures
            v@ == self.apps(),
            unique_app_keys(v@),
            start_menu_first(v@),
            forall|i: int| 0 <= i < v@.len() ==> app_entry_ok(#[trigger] v@[i]),
    {
        self.apps
    }
}

pub open spec fn app_views(apps: Seq<AppEntry>) -> Seq<(Seq<char>, Seq<char>, AppType)> {
    apps.map_values(|a: AppEntry| app_view(a))
}

/// `apps` followed by the first `n` entries of `other` whose lowercase names
/// are new.
pub open spec fn merged(
    apps: Seq<(Seq<char>, Seq<char>, AppType)>,
    other: Seq<(Seq<char>, Seq<char>, AppType)>,
    n: int,
) -> Seq<(Seq<char>, Seq<char>, AppType)>
    decreases n,
{
    if n <= 0 {
        apps
    } else {
        let before = merged(apps, other, n - 1);
        if exists|i: int| 0 <= i < before.len() && lowercase((#[trigger] before[i]).0) == lowercase(
            other[n - 1].0,
        ) {
            before
        } else {
            before.push(other[n - 1])
        }
    }
}

// ---------------------------------------------------------------------------
// Files
// ---------------------------------------------------------------------------

/// Directories that the file scan does not enter.
pub open spec fn file_skip_dirs() -> Seq<&'static str> {
    seq![
        "$recycle.bin",
        "system volume information",
        "recovery",
        "perflogs",
        "msocache",
        "appdata",
        ".git",
        "node_modules",
        "__pycache__",
        ".vscode",
        "target",
        "dist",
        "build",
        ".cache",
        ".npm",
        "windows",
        "program files",
        "program files (x86)",
    ]
}

/// The key under which a file is indexed: its lowercase path.
pub open spec fn file_key(f: FileEntry) -> Seq<char> {
    lowercase(f.path@)
}

pub open spec fn unique_file_keys(files: Seq<FileEntry>) -> bool {
    forall|i: int, j: int|
        0 <= i < files.len() && 0 <= j < files.len() && i != j ==> file_key(#[trigger] files[i])
            != file_key(#[trigger] files[j])
}

pub open spec fn file_keys(files: Seq<FileEntry>) -> Set<Seq<char>> {
    Set::new(
        |k: Seq<char>| exists|i: int| 0 <= i < files.len() && file_key(#[trigger] files[i]) == k,
    )
}

/// An indexed file has a name, and a path with an indexed extension.
pub open spec fn file_entry_ok(f: FileEntry) -> bool {
    &&& f.name@.len() > 0
    &&& exists|x: Seq<char>| #[trigger] is_indexed_ext(x) && extension_may_be(f.path@, x)
}

/// Collects files so that none is indexed twice under one key.
pub struct FileCollector {
    files: Vec<FileEntry>,
    seen: StringHashSet,
}

impl FileCollector {
    pub closed spec fn files(&self) -> Seq<FileEntry> {
        self.files@
    }

    pub closed spec fn seen(&self) -> Set<Seq<char>> {
        self.seen@
    }

    pub open spec fn wf(&self) -> bool {
        &&& self.seen() == file_keys(self.files())
        &&& unique_file_keys(self.files())
        &&& forall|i: int| 0 <= i < self.files().len() ==> file_entry_ok(#[trigger] self.files()[i])
    }

    /// A collector holding nothing.
    pub fn new() -> (c: FileCollector)
        ensures
            c.wf(),
            c.files().len() == 0,
    {
        let c = FileCollector { files: Vec::new(), seen: StringHashSet::new() };
        assert(c.seen() =~= file_keys(c.files()));
        c
    }

    fn add(&mut self, f: FileEntry, key: String)
        requires
            old(self).wf(),
            key@ == file_key(f),
            !old(self).seen().contains(key@),
            file_entry_ok(f),
        ensures
            final(self).wf(),
            final(self).files() == old(self).files().push(f),
    {
        proof {
            assert forall|i: int| 0 <= i < old(self).files().len() implies file_key(
                #[trigger] old(self).files()[i],
            ) != key@ by {
                assert(file_keys(old(self).files()).contains(file_key(old(self).files()[i])));
            }
        }
        self.seen.insert(key);
        self.files.push(f);
        proof {
            let files = self.files();
            assert(files[files.len() - 1] == f);
            assert forall|k: Seq<char>| #[trigger] file_keys(files).contains(k)
                == self.seen().contains(k) by {
                if self.seen().contains(k) {
                    if k == file_key(f) {
                        assert(file_key(files[files.len() - 1]) == k);
                    } else {
                        assert(file_keys(old(self).files()).contains(k));
                        let i = choose|i: int|
                            0 <= i < old(self).files().len() && file_key(
                                #[trigger] old(self).files()[i],
                            ) == k;
                        assert(files[i] == old(self).files()[i]);
                    }
                }
                if file_keys(files).contains(k) {
                    let i = choose|i: int| 0 <= i < files.len() && file_key(#[trigger] files[i]) == k;
                    if i < files.len() - 1 {
                        assert(files[i] == old(self).files()[i]);
                        assert(file_keys(old(self).files()).contains(k));
                    }
                }
            }
            assert(self.seen() =~= file_keys(files));
            assert forall|i: int, j: int|
                0 <= i < files.len() && 0 <= j < files.len() && i != j implies file_key(
                #[trigger] files[i],
            ) != file_key(#[trigger] files[j]) by {
                if i < files.len() - 1 {
                    assert(files[i] == old(self).files()[i]);
                }
                if j < files.len() - 1 {
                    assert(files[j] == old(self).files()[j]);
                }
            }
            assert forall|i: int| 0 <= i < files.len() implies file_entry_ok(#[trigger] files[i]) by {
                if i < files.len() - 1 {
                    assert(files[i] == old(self).files()[i]);
                }
            }
        }
    }

    /// An entry of a file scan at `depth`: a directory outside the skip list
    /// is entered while the next level is at most `max_depth`; a file with an
    /// indexed extension, a non-empty name and a path whose key is not taken
    /// is added; anything else is skipped.
    pub fn visit_file_entry(&mut self, e: &DirEntryInfo, depth: u32, max_depth: u32) -> (v: Visit)
        requires
            old(self).wf(),
            e.ext_ok(),
        ensures
            final(self).wf(),
            extends(old(self).files(), final(self).files()),
            ({
                if e.is_dir {
                    &&& v == (if !in_list(file_skip_dirs(), lowercase(e.stem@)) && may_descend(
                        depth,
                        max_depth,
                    ) {
                        Visit::Descend
                    } else {
                        Visit::Skip
                    })
                    &&& final(self).files() == old(self).files()
                } else if is_indexed_ext(e.extension@) && e.stem@.len() > 0 && !old(self).seen().contains(lowercase(e.path@)) {
                    &&& v == Visit::Added
                    &&& final(self).files().len() == old(self).files().len() + 1
                    &&& final(self).files().drop_last() == old(self).files()
                    &&& final(self).files().last().name@ == e.stem@
                    &&& final(self).files().last().path@ == e.path@
                } else {
                    &&& v == Visit::Skip
                    &&& final(self).files() == old(self).files()
                }
            }),
    {
        if e.is_dir {
            let name_lower = to_lowercase(e.stem.as_str());
            let skip: &[&'static str] = &[
                "$recycle.bin",
                "system volume information",
                "recovery",
                "perflogs",
                "msocache",
                "appdata",
                ".git",
                "node_modules",
                "__pycache__",
                ".vscode",
                "target",
                "dist",
                "build",
                ".cache",
                ".npm",
                "windows",
                "program files",
                "program files (x86)",
            ];
            assert(skip@ =~= file_skip_dirs());
            if one_of(name_lower.as_str(), skip) {
                return Visit::Skip;
            }
            return if (depth as u64) + 1 <= max_depth as u64 {
                Visit::Descend
            } else {
                Visit::Skip
            };
        }
        let indexed = is_file_ext(e.extension.as_str());
        if !indexed {
            return Visit::Skip;
        }
        let key = to_lowercase(e.path.as_str());
        if e.stem.as_str().is_empty() || self.seen.contains(key.as_str()) {
            return Visit::Skip;
        }
        let f = FileEntry { name: e.stem.clone(), path: e.path.clone() };
        assert(is_indexed_ext(e.extension@) && extension_may_be(f.path@, e.extension@));
        self.add(f, key);
        proof {
            assert(self.files().drop_last() =~= old(self).files());
        }
        Visit::Added
    }

    /// The collected files.
    pub fn into_files(self) -> (v: Vec<FileEntry>)
        requires
            self.wf(),
        ensures
            v@ == self.files(),
            unique_file_keys(v@),
            forall|i: int| 0 <= i < v@.len() ==> file_entry_ok(#[trigger] v@[i]),
    {
        self.files
    }
}

// ---------------------------------------------------------------------------
// Where the scans look
// ---------------------------------------------------------------------------

/// Splitting at `;`, as a state over a prefix.
pub open spec fn semi_split_state(s: Seq<char>) -> (Seq<Seq<char>>, Seq<char>)
    decreases s.len(),
{
    if s.len() == 0 {
        (seq![], seq![])
    } else {
        let (done, cur) = semi_split_state(s.drop_last());
        if s.last() == ';' {
            (done.push(cur), seq![])
        } else {
            (done, cur.push(s.last()))
        }
    }
}

/// The directories of a `PATH` value: its pieces between `;`, each trimmed.
pub open spec fn path_dirs_spec(path_var: Seq<char>) -> Seq<Seq<char>> {
    let pieces = semi_split_state(path_var).0.push(semi_split_state(path_var).1);
    pieces.map_values(|p: Seq<char>| trim(p))
}

/// The directories listed in a `PATH` value.
pub fn path_dirs(path_var: &str) -> (v: Vec<String>)
    ensures
        v@.map_values(|s: String| s@) == path_dirs_spec(path_var@),
{
    let s = chars_of(path_var);
    let mut done: Vec<Vec<char>> = Vec::new();
    let mut cur: Vec<char> = Vec::new();
    let mut i: usize = 0;
    while i < s.len()
        invariant
            i <= s@.len(),
            s@ == path_var@,
            (views(done@), cur@) == semi_split_state(s@.take(i as int)),
        decreases s@.len() - i,
    {
        let c = s[i];
        assert(s@.take(i + 1).drop_last() =~= s@.take(i as int));
        if c == ';' {
            let piece = cur;
            done.push(piece);
            cur = Vec::new();
            assert(views(done@) =~= semi_split_state(s@.take(i as int)).0.push(piece@));
        } else {
            cur.push(c);
        }
        i = i + 1;
    }
    assert(s@.take(s@.len() as int) =~= s@);
    let piece = cur;
    done.push(piece);
    let ghost pieces = views(done@);
    assert(pieces =~= semi_split_state(path_var@).0.push(semi_split_state(path_var@).1));
    let mut out: Vec<String> = Vec::new();
    let mut k: usize = 0;
    while k < done.len()
        invariant
            k <= done@.len(),
            pieces == views(done@),
            out@.len() == k,
            forall|j: int| 0 <= j < k ==> #[trigger] out@[j]@ == trim(pieces[j]),
        decreases done@.len() - k,
    {
        let t = trim_chars(&done[k]);
        out.push(string_of(t.as_slice()));
        k = k + 1;
    }
    assert(out@.map_values(|s: String| s@) =~= path_dirs_spec(path_var@));
    out
}

pub open spec fn drive_letters() -> Seq<char> {
    seq![
        'A', 'B', 'C', 'D', 'E', 'F', 'G', 'H', 'I', 'J', 'K', 'L', 'M', 'N', 'O', 'P', 'Q', 'R',
        'S', 'T', 'U', 'V', 'W', 'X', 'Y', 'Z',
    ]
}

/// The root directory of the `i`-th drive letter, counting `A:` as 0.
pub open spec fn drive_root(i: int) -> Seq<char> {
    seq![drive_letters()[i], ':', '\\']
}

/// The roots `A:\` to `Z:\`.
pub fn drive_roots() -> (v: Vec<String>)
    ensures
        v@.len() == 26,
        forall|i: int| 0 <= i < 26 ==> (#[trigger] v@[i])@ == drive_root(i),
{
    let letters = [
        'A', 'B', 'C', 'D', 'E', 'F', 'G', 'H', 'I', 'J', 'K', 'L', 'M', 'N', 'O', 'P', 'Q', 'R',
        'S', 'T', 'U', 'V', 'W', 'X', 'Y', 'Z',
    ];
    assert(letters@ =~= drive_letters());
    let mut v: Vec<String> = Vec::new();
    let mut i: usize = 0;
    while i < 26
        invariant
            i <= 26,
            v@.len() == i,
            letters@ == drive_letters(),
            forall|j: int| 0 <= j < i ==> (#[trigger] v@[j])@ == drive_root(j),
        decreases 26 - i,
    {
        let root = [letters[i], ':', '\\'];
        assert(root@ =~= drive_root(i as int));
        v.push(string_of(&root));
        i = i + 1;
    }
    v
}

/// The roots of the drives that exist: `present[i]` says whether drive
/// `drive_root(i)` exists.
pub fn get_all_drive_letters(present: &[bool]) -> (v: Vec<String>)
    requires
        present@.len() == 26,
    ensures
        v@.map_values(|s: String| s@) == Seq::new(26, |i: int| i).filter(|i: int| present@[i]).map_values(
            |i: int| drive_root(i),
        ),
{
    let roots = drive_roots();
    let mut v: Vec<String> = Vec::new();
    let mut i: usize = 0;
    let ghost idx = Seq::new(26, |i: int| i);
    while i < 26
        invariant
            i <= 26,
            roots@.len() == 26,
            present@.len() == 26,
            idx == Seq::new(26, |i: int| i),
            forall|j: int| 0 <= j < 26 ==> (#[trigger] roots@[j])@ == drive_root(j),
            v@.map_values(|s: String| s@) == idx.take(i as int).filter(|i: int| present@[i]).map_values(
                |i: int| drive_root(i),
            ),
        decreases 26 - i,
    {
        let ghost before = idx.take(i as int);
        let ghost pred = |i: int| present@[i];
        proof {
            reveal_with_fuel(Seq::<int>::filter, 1);
            assert(idx.take(i + 1).drop_last() =~= before);
            assert(idx.take(i + 1).last() == i as int);
            if present@[i as int] {
                assert(idx.take(i + 1).filter(pred) == before.filter(pred).push(i as int));
            } else {
                assert(idx.take(i + 1).filter(pred) == before.filter(pred));
            }
        }
        let ghost old_v = v@;
        if present[i] {
            let r = roots[i].clone();
            v.push(r);
            assert(v@.map_values(|s: String| s@) =~= old_v.map_values(|s: String| s@).push(
                drive_root(i as int),
            ));
        }
        assert(v@.map_values(|s: String| s@) =~= idx.take(i + 1).filter(pred).map_values(
            |i: int| drive_root(i),
        ));
        i = i + 1;
    }
    assert(idx.take(26) =~= idx);
    v
}

} // verus!
