//! File selection: turning probed paths into the files a run will read,
//! and filtering directory-walk entries by name and type.
//!
//! Probing and walking touch the file system and stay with the caller;
//! what stands here is the decision logic they feed.

use vstd::prelude::*;

use crate::pattern::regex_match;
use crate::pattern::Pattern;
use vstd::string::StrSliceExecFns;
use vstd::string::StringExecFns;

verus! {

/// What probing one named path found.
pub enum PathProbe {
    /// The path could not be probed; carries the error's text.
    Missing { path: String, error: String },
    /// The path names something that is not a directory.
    FilePath { path: String },
    /// The path names a directory; `entries` is what walking it found,
    /// in walk order: the files under it, and the walk's failures.
    Directory { path: String, entries: Vec<WalkEntry> },
}

/// One outcome of walking a directory.
pub enum WalkEntry {
    Found(String),
    Failed(String),
}

/// One selected file, or one failure, in order.
pub enum FileResult {
    Named(String),
    Failed(String),
}

/// The mathematical image of a [`PathProbe`].
pub enum PathProbeView {
    Missing { path: Seq<char>, error: Seq<char> },
    FilePath { path: Seq<char> },
    Directory { path: Seq<char>, entries: Seq<WalkEntryView> },
}

/// The mathematical image of a [`WalkEntry`].
pub enum WalkEntryView {
    Found(Seq<char>),
    Failed(Seq<char>),
}

/// The mathematical image of a [`FileResult`].
pub enum FileResultView {
    Named(Seq<char>),
    Failed(Seq<char>),
}

impl View for WalkEntry {
    type V = WalkEntryView;

    open spec fn view(&self) -> WalkEntryView {
        match self {
            WalkEntry::Found(s) => WalkEntryView::Found(s@),
            WalkEntry::Failed(s) => WalkEntryView::Failed(s@),
        }
    }
}

impl View for PathProbe {
    type V = PathProbeView;

    open spec fn view(&self) -> PathProbeView {
        match self {
            PathProbe::Missing { path, error } => PathProbeView::Missing {
                path: path@,
                error: error@,
            },
            PathProbe::FilePath { path } => PathProbeView::FilePath { path: path@ },
            PathProbe::Directory { path, entries } => PathProbeView::Directory {
                path: path@,
                entries: entries@.map_values(|e: WalkEntry| e@),
            },
        }
    }
}

impl View for FileResult {
    type V = FileResultView;

    open spec fn view(&self) -> FileResultView {
        match self {
            FileResult::Named(s) => FileResultView::Named(s@),
            FileResult::Failed(s) => FileResultView::Failed(s@),
        }
    }
}

/// The path a probe was made for.
pub open spec fn spec_probe_path(p: PathProbeView) -> Seq<char> {
    match p {
        PathProbeView::Missing { path, .. } => path,
        PathProbeView::FilePath { path } => path,
        PathProbeView::Directory { path, .. } => path,
    }
}

/// The results a walked directory contributes, entry by entry: each
/// file found by name, each walk failure as `path: error` under the
/// directory's path.
pub open spec fn spec_walk_results(path: Seq<char>, entries: Seq<WalkEntryView>, i: int) -> Seq<
    FileResultView,
>
    decreases entries.len() - i,
{
    if i < 0 || i >= entries.len() {
        Seq::empty()
    } else {
        (match entries[i] {
            WalkEntryView::Found(f) => seq![FileResultView::Named(f)],
            WalkEntryView::Failed(e) => seq![FileResultView::Failed(path + ": "@ + e)],
        }) + spec_walk_results(path, entries, i + 1)
    }
}

/// The results one probed path contributes: `-` passes through; a
/// failed probe reports `path: error`; a plain file is named; a
/// directory is an error unless the run is recursive, in which case its
/// walk's results stand in.
pub open spec fn spec_probe_results(p: PathProbeView, recursive: bool) -> Seq<FileResultView> {
    if spec_probe_path(p) == "-"@ {
        seq![FileResultView::Named("-"@)]
    } else {
        match p {
            PathProbeView::Missing { path, error } => seq![
                FileResultView::Failed(path + ": "@ + error),
            ],
            PathProbeView::FilePath { path } => seq![FileResultView::Named(path)],
            PathProbeView::Directory { path, entries } => if recursive {
                spec_walk_results(path, entries, 0)
            } else {
                seq![FileResultView::Failed(path + " is a directory"@)]
            },
        }
    }
}

/// The results of the probed paths `i` onward, in order.
pub open spec fn spec_find_files_from(
    probes: Seq<PathProbeView>,
    recursive: bool,
    i: int,
) -> Seq<FileResultView>
    decreases probes.len() - i,
{
    if i < 0 || i >= probes.len() {
        Seq::empty()
    } else {
        spec_probe_results(probes[i], recursive) + spec_find_files_from(probes, recursive, i + 1)
    }
}

/// The images of a list of results.
pub open spec fn results_view(v: Seq<FileResult>) -> Seq<FileResultView> {
    v.map_values(|x: FileResult| x@)
}

/// The images of a list of probes.
pub open spec fn probes_view(v: Seq<PathProbe>) -> Seq<PathProbeView> {
    v.map_values(|x: PathProbe| x@)
}

/// Is `s` the stdin name `-`?
fn is_dash(s: &str) -> (r: bool)
    ensures
        r == (s@ == "-"@),
{
    proof {
        reveal_strlit("-");
    }
    let r = s.unicode_len() == 1 && s.get_char(0) == '-';
    proof {
        if r {
            assert(s@ =~= "-"@);
        }
    }
    r
}

/// Turn probed paths into the run's file list: `-` and plain files are
/// kept by name; failures are reported in place; directories fail
/// unless the run is recursive, in which case every file their walk
/// found is kept, in walk order. Failures never stop the run: every
/// later path still contributes.
pub fn find_files(probes: &Vec<PathProbe>, recursive: bool) -> (r: Vec<FileResult>)
    ensures
        results_view(r@) == spec_find_files_from(probes_view(probes@), recursive, 0),
{
    let ghost pv = probes_view(probes@);
    let n = probes.len();
    let mut out: Vec<FileResult> = Vec::new();
    let mut i: usize = 0;
    while i < n
        invariant
            0 <= i <= n,
            n == probes@.len(),
            pv == probes_view(probes@),
            pv.len() == n,
            results_view(out@) + spec_find_files_from(pv, recursive, i as int)
                == spec_find_files_from(pv, recursive, 0),
        decreases n - i,
    {
        let ghost pre = out@;
        let probe = &probes[i];
        proof {
            assert(pv[i as int] == probes@[i as int]@);
        }
        let path_ref: &String = match probe {
            PathProbe::Missing { path, .. } => path,
            PathProbe::FilePath { path } => path,
            PathProbe::Directory { path, .. } => path,
        };
        if is_dash(path_ref.as_str()) {
            out.push(FileResult::Named(String::from_str("-")));
        } else {
            match probe {
                PathProbe::Missing { path, error } => {
                    let msg = path.clone().concat(": ").concat(error.as_str());
                    out.push(FileResult::Failed(msg));
                },
                PathProbe::FilePath { path } => {
                    out.push(FileResult::Named(path.clone()));
                },
                PathProbe::Directory { path, entries } => {
                    if recursive {
                        let ghost ev = entries@.map_values(|x: WalkEntry| x@);
                        let m = entries.len();
                        let mut e: usize = 0;
                        while e < m
                            invariant
                                0 <= e <= m,
                                m == entries@.len(),
                                ev == entries@.map_values(|x: WalkEntry| x@),
                                ev.len() == m,
                                results_view(out@) + spec_walk_results(path@, ev, e as int)
                                    == results_view(pre) + spec_walk_results(path@, ev, 0),
                            decreases m - e,
                        {
                            let ghost mid = out@;
                            match &entries[e] {
                                WalkEntry::Found(f) => {
                                    out.push(FileResult::Named(f.clone()));
                                },
                                WalkEntry::Failed(err) => {
                                    let msg = path.clone().concat(": ").concat(err.as_str());
                                    out.push(FileResult::Failed(msg));
                                },
                            }
                            proof {
                                assert(ev[e as int] == entries@[e as int]@);
                                let item = match ev[e as int] {
                                    WalkEntryView::Found(f) => seq![FileResultView::Named(f)],
                                    WalkEntryView::Failed(x) => seq![
                                        FileResultView::Failed(path@ + ": "@ + x),
                                    ],
                                };
                                assert(results_view(out@) =~= results_view(mid) + item);
                                assert((results_view(mid) + item) + spec_walk_results(
                                    path@,
                                    ev,
                                    e + 1,
                                ) =~= results_view(mid) + (item + spec_walk_results(
                                    path@,
                                    ev,
                                    e + 1,
                                )));
                            }
                            e += 1;
                        }
                    } else {
                        let msg = path.clone().concat(" is a directory");
                        out.push(FileResult::Failed(msg));
                    }
                },
            }
        }
        proof {
            assert(results_view(out@) =~= results_view(pre) + spec_probe_results(
                pv[i as int],
                recursive,
            ));
            assert((results_view(pre) + spec_probe_results(pv[i as int], recursive))
                + spec_find_files_from(pv, recursive, i + 1) =~= results_view(pre) + (
            spec_probe_results(pv[i as int], recursive) + spec_find_files_from(
                pv,
                recursive,
                i + 1,
            )));
        }
        i += 1;
    }
    proof {
        assert(results_view(out@) =~= spec_find_files_from(pv, recursive, 0));
    }
    out
}

/// A kind of directory entry a search can ask for.
#[derive(Debug, Eq, PartialEq, Copy, Clone, Structural)]
pub enum EntryType {
    Dir,
    File,
    Link,
}

/// One walked entry, as plain values: its file name and its type flags.
pub struct EntryInfo {
    pub name: String,
    pub is_dir: bool,
    pub is_file: bool,
    pub is_link: bool,
}

/// Does the asked-for kind fit these type flags?
pub open spec fn spec_type_flag(t: EntryType, d: bool, f: bool, l: bool) -> bool {
    match t {
        EntryType::Dir => d,
        EntryType::File => f,
        EntryType::Link => l,
    }
}

/// No type filter, or some asked-for kind fits.
pub open spec fn spec_types_ok(types: Seq<EntryType>, d: bool, f: bool, l: bool) -> bool {
    types.len() == 0 || exists|i: int|
        0 <= i < types.len() && spec_type_flag(#[trigger] types[i], d, f, l)
}

/// No name filter, or some pattern matches the name.
pub open spec fn spec_names_ok(names: Seq<Pattern>, name: Seq<char>) -> bool {
    names.len() == 0 || exists|i: int|
        0 <= i < names.len() && regex_match(
            (#[trigger] names[i]).source_view(),
            names[i].insensitive_view(),
            name,
        )
}

/// Does a walked entry pass the search's name and type filters? An
/// empty filter list passes everything.
pub fn keep_entry(info: &EntryInfo, names: &Vec<Pattern>, types: &Vec<EntryType>) -> (r: bool)
    ensures
        r == (spec_names_ok(names@, info.name@) && spec_types_ok(
            types@,
            info.is_dir,
            info.is_file,
            info.is_link,
        )),
{
    let mut name_ok = names.len() == 0;
    let mut i: usize = 0;
    while i < names.len()
        invariant
            0 <= i <= names@.len(),
            name_ok == (names@.len() == 0 || exists|j: int|
                0 <= j < i && regex_match(
                    (#[trigger] names@[j]).source_view(),
                    names@[j].insensitive_view(),
                    info.name@,
                )),
        decreases names@.len() - i,
    {
        if names[i].is_match(info.name.as_str()) {
            name_ok = true;
            proof {
                assert(regex_match(
                    names@[i as int].source_view(),
                    names@[i as int].insensitive_view(),
                    info.name@,
                ));
            }
        }
        i += 1;
    }
    let mut type_ok = types.len() == 0;
    let mut t: usize = 0;
    while t < types.len()
        invariant
            0 <= t <= types@.len(),
            type_ok == (types@.len() == 0 || exists|j: int|
                0 <= j < t && spec_type_flag(
                    #[trigger] types@[j],
                    info.is_dir,
                    info.is_file,
                    info.is_link,
                )),
        decreases types@.len() - t,
    {
        let hit = match types[t] {
            EntryType::Dir => info.is_dir,
            EntryType::File => info.is_file,
            EntryType::Link => info.is_link,
        };
        if hit {
            type_ok = true;
            proof {
                assert(spec_type_flag(types@[t as int], info.is_dir, info.is_file, info.is_link));
            }
        }
        t += 1;
    }
    name_ok && type_ok
}

} // verus!
