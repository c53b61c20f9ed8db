//! Indexed files: which files are indexed, and the search over them.
use vstd::prelude::*;
use crate::score::Score;
use crate::text::{after_last, chars_of, chars_equal, concat, occurs_at};
use crate::results::{SearchResult, SearchResultCategory, ResultView, result_views};
use crate::rank::{top_marked, top_of, lemma_top_of, keys_wf, lemma_top_shape, precedes};
use crate::scoring::{all_scored, keys_for, positive_mask, score_names, string_views, best_first};

verus! {

/// A file that the search can list.
#[derive(Clone, Debug)]
pub struct FileEntry {
    pub name: String,
    pub path: String,
}

/// The extensions of the files that are indexed.
pub open spec fn file_exts() -> Seq<&'static str> {
    seq![
        "pdf", "doc", "docx", "xls", "xlsx", "ppt", "pptx", "txt", "rtf", "odt", "csv", "md",
        "jpg", "jpeg", "png", "gif", "bmp", "svg", "webp", "ico", "tiff", "raw",
        "mp3", "wav", "flac", "aac", "ogg", "wma", "m4a",
        "mp4", "mkv", "avi", "mov", "wmv", "flv", "webm", "m4v",
        "js", "ts", "tsx", "jsx", "py", "rs", "go", "java", "c", "cpp", "h", "cs", "html", "css",
        "json", "xml", "yaml", "yml", "toml",
        "zip", "rar", "7z", "tar", "gz",
        "iso", "img", "dll", "ini", "cfg", "log",
    ]
}

fn file_ext_list() -> (v: Vec<&'static str>)
    ensures
        v@ == file_exts(),
{
    let v = vec![
        "pdf", "doc", "docx", "xls", "xlsx", "ppt", "pptx", "txt", "rtf", "odt", "csv", "md",
        "jpg", "jpeg", "png", "gif", "bmp", "svg", "webp", "ico", "tiff", "raw",
        "mp3", "wav", "flac", "aac", "ogg", "wma", "m4a",
        "mp4", "mkv", "avi", "mov", "wmv", "flv", "webm", "m4v",
        "js", "ts", "tsx", "jsx", "py", "rs", "go", "java", "c", "cpp", "h", "cs", "html", "css",
        "json", "xml", "yaml", "yml", "toml",
        "zip", "rar", "7z", "tar", "gz",
        "iso", "img", "dll", "ini", "cfg", "log",
    ];
    assert(v@ =~= file_exts());
    v
}

/// `ext` is one of the indexed extensions (compared exactly, case included).
pub open spec fn is_indexed_ext(ext: Seq<char>) -> bool {
    exists|i: int| 0 <= i < file_exts().len() && (#[trigger] file_exts()[i])@ == ext
}

/// Whether files with extension `ext` are indexed.
pub fn is_file_ext(ext: &str) -> (b: bool)
    ensures
        b == is_indexed_ext(ext@),
{
    let exts = file_ext_list();
    let e = chars_of(ext);
    let mut i: usize = 0;
    while i < exts.len()
        invariant
            exts@ == file_exts(),
            e@ == ext@,
            i <= exts@.len(),
            forall|j: int| 0 <= j < i ==> (#[trigger] file_exts()[j])@ != ext@,
        decreases exts@.len() - i,
    {
        let c = chars_of(exts[i]);
        if chars_equal(&c, &e) {
            return true;
        }
        i = i + 1;
    }
    false
}

/// Documents: the extensions of this kind of file that are indexed.
pub open spec fn document_ext(ext: Seq<char>) -> bool {
    ext == "pdf"@
        || ext == "doc"@
        || ext == "docx"@
        || ext == "xls"@
        || ext == "xlsx"@
        || ext == "ppt"@
        || ext == "pptx"@
        || ext == "txt"@
        || ext == "rtf"@
        || ext == "odt"@
        || ext == "csv"@
        || ext == "md"@
}

/// Images: the extensions of this kind of file that are indexed.
pub open spec fn image_ext(ext: Seq<char>) -> bool {
    ext == "jpg"@
        || ext == "jpeg"@
        || ext == "png"@
        || ext == "gif"@
        || ext == "bmp"@
        || ext == "svg"@
        || ext == "webp"@
        || ext == "ico"@
        || ext == "tiff"@
        || ext == "raw"@
}

/// Audio: the extensions of this kind of file that are indexed.
pub open spec fn audio_ext(ext: Seq<char>) -> bool {
    ext == "mp3"@
        || ext == "wav"@
        || ext == "flac"@
        || ext == "aac"@
        || ext == "ogg"@
        || ext == "wma"@
        || ext == "m4a"@
}

/// Video: the extensions of this kind of file that are indexed.
pub open spec fn video_ext(ext: Seq<char>) -> bool {
    ext == "mp4"@
        || ext == "mkv"@
        || ext == "avi"@
        || ext == "mov"@
        || ext == "wmv"@
        || ext == "flv"@
        || ext == "webm"@
        || ext == "m4v"@
}

/// Source code and data: the extensions of this kind of file that are indexed.
pub open spec fn code_ext(ext: Seq<char>) -> bool {
    ext == "js"@
        || ext == "ts"@
        || ext == "tsx"@
        || ext == "jsx"@
        || ext == "py"@
        || ext == "rs"@
        || ext == "go"@
        || ext == "java"@
        || ext == "c"@
        || ext == "cpp"@
        || ext == "h"@
        || ext == "cs"@
        || ext == "html"@
        || ext == "css"@
        || ext == "json"@
        || ext == "xml"@
        || ext == "yaml"@
        || ext == "yml"@
        || ext == "toml"@
}

/// Archives: the extensions of this kind of file that are indexed.
pub open spec fn archive_ext(ext: Seq<char>) -> bool {
    ext == "zip"@
        || ext == "rar"@
        || ext == "7z"@
        || ext == "tar"@
        || ext == "gz"@
}

/// Disk images, libraries, settings and logs: the extensions of this kind of file that are indexed.
pub open spec fn other_ext(ext: Seq<char>) -> bool {
    ext == "iso"@
        || ext == "img"@
        || ext == "dll"@
        || ext == "ini"@
        || ext == "cfg"@
        || ext == "log"@
}

/// The files that are indexed are exactly those whose extension names a
/// document, an image, a sound, a video, source code or data, an archive, or
/// a disk image, library, settings file or log; among them `jpg`, `mp3` and
/// `pdf`. The comparison is exact: the extension must match one of them
/// character for character.
pub proof fn law_indexed_extensions(ext: Seq<char>)
    ensures
        is_indexed_ext(ext) <==> (document_ext(ext)
            || image_ext(ext)
            || audio_ext(ext)
            || video_ext(ext)
            || code_ext(ext)
            || archive_ext(ext)
            || other_ext(ext)),
        is_indexed_ext(seq!['j', 'p', 'g']),
        is_indexed_ext(seq!['m', 'p', '3']),
        is_indexed_ext(seq!['p', 'd', 'f']),
{
    let exts = file_exts();
    assert(exts[0]@ == "pdf"@);
    assert(exts[1]@ == "doc"@);
    assert(exts[2]@ == "docx"@);
    assert(exts[3]@ == "xls"@);
    assert(exts[4]@ == "xlsx"@);
    assert(exts[5]@ == "ppt"@);
    assert(exts[6]@ == "pptx"@);
    assert(exts[7]@ == "txt"@);
    assert(exts[8]@ == "rtf"@);
    assert(exts[9]@ == "odt"@);
    assert(exts[10]@ == "csv"@);
    assert(exts[11]@ == "md"@);
    assert(exts[12]@ == "jpg"@);
    assert(exts[13]@ == "jpeg"@);
    assert(exts[14]@ == "png"@);
    assert(exts[15]@ == "gif"@);
    assert(exts[16]@ == "bmp"@);
    assert(exts[17]@ == "svg"@);
    assert(exts[18]@ == "webp"@);
    assert(exts[19]@ == "ico"@);
    assert(exts[20]@ == "tiff"@);
    assert(exts[21]@ == "raw"@);
    assert(exts[22]@ == "mp3"@);
    assert(exts[23]@ == "wav"@);
    assert(exts[24]@ == "flac"@);
    assert(exts[25]@ == "aac"@);
    assert(exts[26]@ == "ogg"@);
    assert(exts[27]@ == "wma"@);
    assert(exts[28]@ == "m4a"@);
    assert(exts[29]@ == "mp4"@);
    assert(exts[30]@ == "mkv"@);
    assert(exts[31]@ == "avi"@);
    assert(exts[32]@ == "mov"@);
    assert(exts[33]@ == "wmv"@);
    assert(exts[34]@ == "flv"@);
    assert(exts[35]@ == "webm"@);
    assert(exts[36]@ == "m4v"@);
    assert(exts[37]@ == "js"@);
    assert(exts[38]@ == "ts"@);
    assert(exts[39]@ == "tsx"@);
    assert(exts[40]@ == "jsx"@);
    assert(exts[41]@ == "py"@);
    assert(exts[42]@ == "rs"@);
    assert(exts[43]@ == "go"@);
    assert(exts[44]@ == "java"@);
    assert(exts[45]@ == "c"@);
    assert(exts[46]@ == "cpp"@);
    assert(exts[47]@ == "h"@);
    assert(exts[48]@ == "cs"@);
    assert(exts[49]@ == "html"@);
    assert(exts[50]@ == "css"@);
    assert(exts[51]@ == "json"@);
    assert(exts[52]@ == "xml"@);
    assert(exts[53]@ == "yaml"@);
    assert(exts[54]@ == "yml"@);
    assert(exts[55]@ == "toml"@);
    assert(exts[56]@ == "zip"@);
    assert(exts[57]@ == "rar"@);
    assert(exts[58]@ == "7z"@);
    assert(exts[59]@ == "tar"@);
    assert(exts[60]@ == "gz"@);
    assert(exts[61]@ == "iso"@);
    assert(exts[62]@ == "img"@);
    assert(exts[63]@ == "dll"@);
    assert(exts[64]@ == "ini"@);
    assert(exts[65]@ == "cfg"@);
    assert(exts[66]@ == "log"@);
    assert(exts.len() == 67);
    if is_indexed_ext(ext) {
        let i = choose|i: int| 0 <= i < exts.len() && (#[trigger] exts[i])@ == ext;
        assert(
            i == 0 || i == 1 || i == 2 || i == 3 || i == 4 || i == 5 || i == 6 || i == 7
                || i == 8 || i == 9 || i == 10 || i == 11 || i == 12 || i == 13 || i == 14 || i == 15
                || i == 16 || i == 17 || i == 18 || i == 19 || i == 20 || i == 21 || i == 22 || i == 23
                || i == 24 || i == 25 || i == 26 || i == 27 || i == 28 || i == 29 || i == 30 || i == 31
                || i == 32 || i == 33 || i == 34 || i == 35 || i == 36 || i == 37 || i == 38 || i == 39
                || i == 40 || i == 41 || i == 42 || i == 43 || i == 44 || i == 45 || i == 46 || i == 47
                || i == 48 || i == 49 || i == 50 || i == 51 || i == 52 || i == 53 || i == 54 || i == 55
                || i == 56 || i == 57 || i == 58 || i == 59 || i == 60 || i == 61 || i == 62 || i == 63
                || i == 64 || i == 65 || i == 66
        );
    }
    reveal_strlit("jpg");
    reveal_strlit("mp3");
    reveal_strlit("pdf");
    assert(exts[12]@ =~= seq!['j', 'p', 'g']);
    assert(exts[22]@ =~= seq!['m', 'p', '3']);
    assert(exts[0]@ =~= seq!['p', 'd', 'f']);
}

/// `path` names its file the same way under Windows and Unix path rules: it
/// holds no `\`, does not start with `//`, and what follows its last `/` is
/// a plain file name (not empty, not `.` or `..`, without `:`).
pub open spec fn plain_path(path: Seq<char>) -> bool {
    let name = after_last(path, '/');
    &&& forall|i: int| 0 <= i < path.len() ==> path[i] != '\\'
    &&& !(path.len() >= 2 && path[0] == '/' && path[1] == '/')
    &&& name.len() > 0
    &&& name != seq!['.']
    &&& name != seq!['.', '.']
    &&& forall|i: int| 0 <= i < name.len() ==> name[i] != ':'
}

/// The extension of a file name: what follows its last `.`, or nothing where
/// it has no `.` or its only `.` starts it.
pub open spec fn name_extension(name: Seq<char>) -> Seq<char> {
    let rest = after_last(name, '.');
    if rest.len() + 1 >= name.len() {
        seq![]
    } else {
        rest
    }
}

/// `ext` can be what `Path::extension` reads in `path`, by the rules of every
/// platform: it holds no `.`; when not empty it stands in `path` right after a
/// `.`; and for a `plain_path` it is exactly the extension of the file name.
pub open spec fn extension_may_be(path: Seq<char>, ext: Seq<char>) -> bool {
    &&& forall|i: int| 0 <= i < ext.len() ==> ext[i] != '.'
    &&& ext.len() > 0 ==> exists|i: int| occurs_at(path, seq!['.'] + ext, i)
    &&& plain_path(path) ==> ext == name_extension(after_last(path, '/'))
}

/// Calls `Path::extension` on `path`: the part of the file name (the last
/// component of the path) after its last `.`, or the empty text where there
/// is none. Which characters separate components, and which start a drive
/// or network prefix, depends on the platform's path rules; so the contract
/// states the extension exactly for paths that name their file alike on
/// every platform (`plain_path`), and otherwise only that it holds no `.` and,
/// when not empty, stands in `path` right after a `.`.
#[verifier::external_body]
pub(crate) fn path_extension(path: &str) -> (ext: String)
    ensures
        extension_may_be(path@, ext@),
{
    std::path::Path::new(path).extension().and_then(|s| s.to_str()).unwrap_or("").to_string()
}

/// Most files that one query lists.
pub const MAX_FILE_RESULTS: usize = 10;

/// The names of `files`.
pub open spec fn file_names(files: Seq<FileEntry>) -> Seq<Seq<char>> {
    files.map_values(|f: FileEntry| f.name@)
}

pub open spec fn file_prefix() -> Seq<char> {
    seq!['f', 'i', 'l', 'e', ':']
}

/// `v` shows file `f` with score `score`; its metadata is `file:` followed by
/// the extension of the path: no `.` in it, and, when there is one, it
/// stands in the path right after a `.`; for a `plain_path`, exactly
/// `name_extension` of its file name.
pub open spec fn is_file_result(v: ResultView, f: FileEntry, score: Score) -> bool {
    &&& v.id == f.path@
    &&& v.name == f.name@
    &&& v.path == f.path@
    &&& v.category == SearchResultCategory::File
    &&& v.icon is None
    &&& v.score == score
    &&& v.metadata matches Some(m) && {
        &&& m.len() >= 5
        &&& m.take(5) == file_prefix()
        &&& extension_may_be(f.path@, m.skip(5))
    }
}

/// `views` are the results that list the files matching `query`: the first
/// `MAX_FILE_RESULTS` in ranking order of those scoring above zero.
pub open spec fn file_results_ok(query: Seq<char>, files: Seq<FileEntry>, views: Seq<ResultView>) -> bool {
    let keys = keys_for(query, file_names(files));
    let sel = top_of(keys, positive_mask(keys), MAX_FILE_RESULTS as nat);
    &&& views.len() == sel.len()
    &&& forall|k: int|
        0 <= k < sel.len() ==> is_file_result(
            #[trigger] views[k],
            files[sel[k] as int],
            keys[sel[k] as int].score,
        )
}

/// The files whose names match `query`: those scoring above zero, best first
/// (equal scores in list order), at most `MAX_FILE_RESULTS`. `None` where some
/// name cannot be scored (see `calculate_fuzzy_score`).
pub fn search_files(query: &str, files: &[FileEntry]) -> (r: Option<Vec<SearchResult>>)
    ensures
        match r {
            None => !all_scored(query@, file_names(files@)),
            Some(v) => {
                &&& all_scored(query@, file_names(files@))
                &&& file_results_ok(query@, files@, result_views(v@))
                &&& best_first(result_views(v@), MAX_FILE_RESULTS as nat)
                &&& forall|k: int| 0 <= k < v@.len() ==> (#[trigger] v@[k]).score.wf()
            },
        },
{
    let mut names: Vec<String> = Vec::new();
    let mut i: usize = 0;
    while i < files.len()
        invariant
            i <= files@.len(),
            names@.len() == i,
            forall|j: int| 0 <= j < i ==> #[trigger] names@[j]@ == files@[j].name@,
        decreases files@.len() - i,
    {
        let nm = files[i].name.clone();
        names.push(nm);
        i = i + 1;
    }
    assert(string_views(names@) =~= file_names(files@));
    let (keys, mask) = match score_names(query, &names) {
        Some(km) => km,
        None => {
            return None;
        },
    };
    let sel = top_marked(&keys, &mask, MAX_FILE_RESULTS);
    proof {
        lemma_top_of(keys@, mask@, MAX_FILE_RESULTS as nat, sel@);
    }
    let prefix = "file:";
    proof {
        reveal_strlit("file:");
    }
    let mut out: Vec<SearchResult> = Vec::new();
    let mut k: usize = 0;
    while k < sel.len()
        invariant
            k <= sel@.len(),
            prefix@ == file_prefix(),
            forall|q: int| 0 <= q < sel@.len() ==> #[trigger] sel@[q] < files@.len(),
            keys@.len() == files@.len(),
            keys_wf(keys@),
            forall|q: int| 0 <= q < k ==> (#[trigger] out@[q]).score.wf(),
            out@.len() == k,
            forall|q: int|
                0 <= q < k ==> is_file_result(
                    #[trigger] out@[q]@,
                    files@[sel@[q] as int],
                    keys@[sel@[q] as int].score,
                ),
        decreases sel@.len() - k,
    {
        let idx = sel[k];
        let f = &files[idx];
        let ext = path_extension(f.path.as_str());
        let meta = concat(prefix, ext.as_str());
        assert(meta@.take(5) =~= file_prefix());
        assert(meta@.skip(5) =~= ext@);
        let res = SearchResult {
            id: f.path.clone(),
            name: f.name.clone(),
            path: f.path.clone(),
            category: SearchResultCategory::File,
            icon: None,
            score: keys[idx].score,
            metadata: Some(meta),
        };
        out.push(res);
        k = k + 1;
    }
    assert(file_results_ok(query@, files@, result_views(out@))) by {
        assert forall|k: int| 0 <= k < sel@.len() implies is_file_result(
            #[trigger] result_views(out@)[k],
            files@[sel@[k] as int],
            keys@[sel@[k] as int].score,
        ) by {
            assert(result_views(out@)[k] == out@[k]@);
        }
    }
    proof {
        lemma_top_shape(keys@, mask@, MAX_FILE_RESULTS as nat, sel@);
        let ov = result_views(out@);
        assert forall|j: int, k: int| 0 <= j < k < ov.len() implies !(#[trigger] ov[j]).score.below(
            (#[trigger] ov[k]).score,
        ) by {
            assert(ov[j] == out@[j]@ && ov[k] == out@[k]@);
            assert(!precedes(keys@[sel@[k] as int], keys@[sel@[j] as int]));
        }
        assert forall|k: int| 0 <= k < ov.len() implies (#[trigger] ov[k]).score.positive() by {
            assert(ov[k] == out@[k]@);
            assert(mask@[sel@[k] as int]);
        }
    }
    Some(out)
}

} // verus!
