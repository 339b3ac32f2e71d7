//! The scanner core: turns a root path and the filesystem entries walked
//! beneath it into a deterministic, grouped inventory, and installs the
//! resulting allow-list into the sandbox — or leaves the sandbox exactly
//! as it was when the scan was canceled.

use vstd::prelude::*;

use crate::errors::AppError;
use crate::ident::{hash_path, sha256_hex_of};
use crate::paths::{
    base_name_of, folder_of, is_env_file_name, is_ignored_dir, has_ignored_dir, path_under,
    spec_base_name, spec_folder_of, spec_has_ignored_dir, spec_is_env_name, spec_is_ignored_name,
    spec_path_under, str_eq, str_le, lex_le,
};
use crate::sandbox::SandboxState;

verus! {

/// One filesystem entry handed to the scanner by the walking caller:
/// its absolute path under the root, whether it is a regular file, its
/// size, its last-modified time in milliseconds (`0` when unavailable),
/// and its canonical (symlink-resolved) path.
pub struct FsEntry {
    pub path: String,
    pub is_file: bool,
    pub size: u64,
    pub modified_at: i64,
    pub canonical_path: String,
}

/// One discovered file, immutable once built.
#[derive(Clone, Debug)]
pub struct EnvFileRef {
    pub id: String,
    pub absolute_path: String,
    pub file_name: String,
    pub folder_path: String,
    pub size: u64,
    pub modified_at: i64,
}

/// One containing folder and the matching files directly within it,
/// ordered by file name.
#[derive(Clone, Debug)]
pub struct ProjectGroup {
    pub id: String,
    pub name: String,
    pub root_path: String,
    pub env_files: Vec<EnvFileRef>,
}

/// The outcome of a completed scan: the canonical root and the groups,
/// ordered by display name.
#[derive(Clone, Debug)]
pub struct ScanResult {
    pub root_path: String,
    pub groups: Vec<ProjectGroup>,
}

/// The model of an entry.
pub struct FsEntryModel {
    pub path: Seq<char>,
    pub is_file: bool,
    pub size: u64,
    pub modified_at: i64,
    pub canonical_path: Seq<char>,
}

/// The model of a discovered file.
pub struct FileRefModel {
    pub id: Seq<char>,
    pub absolute_path: Seq<char>,
    pub file_name: Seq<char>,
    pub folder_path: Seq<char>,
    pub size: u64,
    pub modified_at: i64,
}

/// The model of a group.
pub struct GroupModel {
    pub id: Seq<char>,
    pub name: Seq<char>,
    pub root_path: Seq<char>,
    pub env_files: Seq<FileRefModel>,
}

impl View for FsEntry {
    type V = FsEntryModel;

    open spec fn view(&self) -> FsEntryModel {
        FsEntryModel {
            path: self.path@,
            is_file: self.is_file,
            size: self.size,
            modified_at: self.modified_at,
            canonical_path: self.canonical_path@,
        }
    }
}

impl View for EnvFileRef {
    type V = FileRefModel;

    open spec fn view(&self) -> FileRefModel {
        FileRefModel {
            id: self.id@,
            absolute_path: self.absolute_path@,
            file_name: self.file_name@,
            folder_path: self.folder_path@,
            size: self.size,
            modified_at: self.modified_at,
        }
    }
}

/// The models of a sequence of files.
pub open spec fn file_views(v: Seq<EnvFileRef>) -> Seq<FileRefModel> {
    v.map_values(|f: EnvFileRef| f@)
}

/// The models of a sequence of groups.
pub open spec fn group_views(v: Seq<ProjectGroup>) -> Seq<GroupModel> {
    v.map_values(|g: ProjectGroup| g@)
}

/// The models of a sequence of entries.
pub open spec fn entry_views(v: Seq<FsEntry>) -> Seq<FsEntryModel> {
    v.map_values(|e: FsEntry| e@)
}

/// The character sequences of a sequence of strings.
pub open spec fn string_views(v: Seq<String>) -> Seq<Seq<char>> {
    v.map_values(|s: String| s@)
}

impl View for ProjectGroup {
    type V = GroupModel;

    open spec fn view(&self) -> GroupModel {
        GroupModel {
            id: self.id@,
            name: self.name@,
            root_path: self.root_path@,
            env_files: file_views(self.env_files@),
        }
    }
}

/// The part of path `p` below `root`.
pub open spec fn spec_rel_part(p: Seq<char>, root: Seq<char>) -> Seq<char> {
    if root.len() > 0 && root[root.len() - 1] == '/' {
        p.subrange(root.len() as int, p.len() as int)
    } else {
        p.subrange(root.len() as int + 1, p.len() as int)
    }
}

/// Whether a scan of `root` includes entry `e`: a regular file with a
/// matching name, at or under the root, with no ignored directory name
/// anywhere on its way down from the root (the root itself included).
pub open spec fn spec_included(root: Seq<char>, e: FsEntryModel) -> bool {
    &&& e.is_file
    &&& spec_is_env_name(spec_base_name(e.path))
    &&& spec_path_under(e.path, root)
    &&& (!(e.path =~= root) ==> {
        &&& !spec_is_ignored_name(spec_base_name(root))
        &&& !spec_has_ignored_dir(spec_rel_part(e.path, root))
    })
}

/// The display name of a folder: its base name, or the full path when the
/// base name is empty.
pub open spec fn spec_display_name(folder: Seq<char>) -> Seq<char> {
    if spec_base_name(folder).len() == 0 {
        folder
    } else {
        spec_base_name(folder)
    }
}

/// The file record an included entry turns into.
pub open spec fn spec_ref_of_path(path: Seq<char>, size: u64, modified_at: i64) -> FileRefModel {
    FileRefModel {
        id: sha256_hex_of(path),
        absolute_path: path,
        file_name: spec_base_name(path),
        folder_path: spec_folder_of(path),
        size: size,
        modified_at: modified_at,
    }
}

/// The file record of an entry.
pub open spec fn spec_ref_of(e: FsEntryModel) -> FileRefModel {
    spec_ref_of_path(e.path, e.size, e.modified_at)
}

/// The file records of the included entries, in entry order.
pub open spec fn spec_included_refs(root: Seq<char>, es: Seq<FsEntryModel>) -> Seq<FileRefModel>
    decreases es.len(),
{
    if es.len() == 0 {
        Seq::<FileRefModel>::empty()
    } else {
        let prev = spec_included_refs(root, es.drop_last());
        if spec_included(root, es.last()) {
            prev.push(spec_ref_of(es.last()))
        } else {
            prev
        }
    }
}

/// The canonical paths of the included entries, in entry order: what a
/// completed scan installs as the allow-list.
pub open spec fn spec_allowed_of(root: Seq<char>, es: Seq<FsEntryModel>) -> Seq<Seq<char>>
    decreases es.len(),
{
    if es.len() == 0 {
        Seq::<Seq<char>>::empty()
    } else {
        let prev = spec_allowed_of(root, es.drop_last());
        if spec_included(root, es.last()) {
            prev.push(es.last().canonical_path)
        } else {
            prev
        }
    }
}

/// The presentation order of two files: by folder display name, then by
/// folder path, then by file name.
pub open spec fn spec_key_le(a: FileRefModel, b: FileRefModel) -> bool {
    let da = spec_display_name(a.folder_path);
    let db = spec_display_name(b.folder_path);
    if da != db {
        lex_le(da, db)
    } else if a.folder_path != b.folder_path {
        lex_le(a.folder_path, b.folder_path)
    } else {
        lex_le(a.file_name, b.file_name)
    }
}

/// Insertion into a sorted file sequence, before the first file the new
/// one is not above.
pub open spec fn spec_insert_sorted(fs: Seq<FileRefModel>, f: FileRefModel) -> Seq<FileRefModel>
    decreases fs.len(),
{
    if fs.len() == 0 {
        seq![f]
    } else if spec_key_le(f, fs[0]) {
        seq![f] + fs
    } else {
        seq![fs[0]] + spec_insert_sorted(fs.drop_first(), f)
    }
}

/// The files in presentation order: insertion sort by `spec_key_le`.
pub open spec fn spec_sort_files(fs: Seq<FileRefModel>) -> Seq<FileRefModel>
    decreases fs.len(),
{
    if fs.len() == 0 {
        Seq::<FileRefModel>::empty()
    } else {
        spec_insert_sorted(spec_sort_files(fs.drop_first()), fs[0])
    }
}

/// The group a single file opens.
pub open spec fn spec_group_of(f: FileRefModel) -> GroupModel {
    GroupModel {
        id: sha256_hex_of(f.folder_path),
        name: spec_display_name(f.folder_path),
        root_path: f.folder_path,
        env_files: seq![f],
    }
}

/// One step of run grouping over folder-consecutive sorted files: a file
/// of the same folder joins the last group, any other opens a new one.
pub open spec fn spec_group_step(gs: Seq<GroupModel>, f: FileRefModel) -> Seq<GroupModel> {
    if gs.len() > 0 && gs.last().root_path == f.folder_path {
        gs.update(
            gs.len() - 1,
            GroupModel {
                id: gs.last().id,
                name: gs.last().name,
                root_path: gs.last().root_path,
                env_files: gs.last().env_files.push(f),
            },
        )
    } else {
        gs.push(spec_group_of(f))
    }
}

/// The groups of a sorted file sequence.
pub open spec fn spec_group_runs(fs: Seq<FileRefModel>) -> Seq<GroupModel>
    decreases fs.len(),
{
    if fs.len() == 0 {
        Seq::<GroupModel>::empty()
    } else {
        spec_group_step(spec_group_runs(fs.drop_last()), fs.last())
    }
}

/// The groups a scan of `root` over `es` yields: include, sort, group.
pub open spec fn spec_scan_groups(root: Seq<char>, es: Seq<FsEntryModel>) -> Seq<GroupModel> {
    spec_group_runs(spec_sort_files(spec_included_refs(root, es)))
}

/// Decides `spec_included` for an entry.
pub fn entry_included(root: &str, e: &FsEntry) -> (r: bool)
    ensures
        r == spec_included(root@, e@),
{
    if !e.is_file {
        return false;
    }
    let name = base_name_of(e.path.as_str());
    if !is_env_file_name(name.as_str()) {
        return false;
    }
    if !path_under(e.path.as_str(), root) {
        return false;
    }
    if str_eq(e.path.as_str(), root) {
        return true;
    }
    let rb = base_name_of(root);
    if is_ignored_dir(rb.as_str()) {
        return false;
    }
    let nr = root.unicode_len();
    let np = e.path.unicode_len();
    let rel = if nr > 0 && root.get_char(nr - 1) == '/' {
        e.path.as_str().substring_char(nr, np)
    } else {
        e.path.as_str().substring_char(nr + 1, np)
    };
    proof {
        assert(rel@ =~= spec_rel_part(e.path@, root@));
    }
    !has_ignored_dir(rel)
}

/// Builds the record of a discovered file from its path and metadata.
pub fn make_file_ref(path: &str, size: u64, modified_at: i64) -> (r: EnvFileRef)
    ensures
        r@ == spec_ref_of_path(path@, size, modified_at),
{
    let r = EnvFileRef {
        id: hash_path(path),
        absolute_path: String::from_str(path),
        file_name: base_name_of(path),
        folder_path: folder_of(path),
        size: size,
        modified_at: modified_at,
    };
    proof {
        assert(r@.file_name =~= spec_base_name(path@));
        assert(r@.folder_path =~= spec_folder_of(path@));
    }
    r
}

/// The display name of a folder path.
pub fn display_name_of(folder: &str) -> (r: String)
    ensures
        r@ == spec_display_name(folder@),
{
    let b = base_name_of(folder);
    if b.as_str().unicode_len() == 0 {
        String::from_str(folder)
    } else {
        b
    }
}

fn key_le_x(a: &EnvFileRef, b: &EnvFileRef) -> (r: bool)
    ensures
        r == spec_key_le(a@, b@),
{
    let da = display_name_of(a.folder_path.as_str());
    let db = display_name_of(b.folder_path.as_str());
    if !str_eq(da.as_str(), db.as_str()) {
        str_le(da.as_str(), db.as_str())
    } else if !str_eq(a.folder_path.as_str(), b.folder_path.as_str()) {
        str_le(a.folder_path.as_str(), b.folder_path.as_str())
    } else {
        str_le(a.file_name.as_str(), b.file_name.as_str())
    }
}

proof fn lemma_insert_at(v: Seq<FileRefModel>, f: FileRefModel, idx: int)
    requires
        0 <= idx <= v.len(),
        forall|j: int| 0 <= j < idx ==> !spec_key_le(f, #[trigger] v[j]),
        idx < v.len() ==> spec_key_le(f, v[idx]),
    ensures
        spec_insert_sorted(v, f) =~= v.subrange(0, idx) + seq![f] + v.subrange(idx, v.len() as int),
    decreases v.len(),
{
    if v.len() == 0 {
    } else if spec_key_le(f, v[0]) {
        assert(idx == 0);
    } else {
        assert(idx >= 1);
        lemma_insert_at(v.drop_first(), f, idx - 1);
        assert(v.drop_first().subrange(0, idx - 1) =~= v.subrange(1, idx));
        assert(v.drop_first().subrange(idx - 1, v.drop_first().len() as int) =~= v.subrange(
            idx,
            v.len() as int,
        ));
    }
}

fn insert_file_sorted(files: &mut Vec<EnvFileRef>, f: EnvFileRef)
    ensures
        file_views(final(files)@) == spec_insert_sorted(file_views(old(files)@), f@),
{
    let ghost fm = f@;
    let n = files.len();
    let mut idx: usize = 0;
    while idx < n
        invariant
            0 <= idx <= n,
            n == files@.len(),
            files@ == old(files)@,
            f@ == fm,
            forall|j: int| 0 <= j < idx ==> !spec_key_le(fm, #[trigger] file_views(files@)[j]),
        decreases n - idx,
    {
        if key_le_x(&f, &files[idx]) {
            proof {
                assert(file_views(files@)[idx as int] == files@[idx as int]@);
                lemma_insert_at(file_views(files@), fm, idx as int);
            }
            files.insert(idx, f);
            proof {
                assert(file_views(files@) =~= file_views(old(files)@).subrange(0, idx as int)
                    + seq![fm] + file_views(old(files)@).subrange(
                    idx as int,
                    old(files)@.len() as int,
                ));
            }
            return;
        }
        proof {
            assert(file_views(files@)[idx as int] == files@[idx as int]@);
        }
        idx = idx + 1;
    }
    proof {
        lemma_insert_at(file_views(files@), fm, idx as int);
    }
    files.insert(idx, f);
    proof {
        assert(file_views(files@) =~= file_views(old(files)@).subrange(0, idx as int) + seq![fm]
            + file_views(old(files)@).subrange(idx as int, old(files)@.len() as int));
    }
}

/// Sorts discovered files into presentation order.
fn sort_files(files: &mut Vec<EnvFileRef>)
    ensures
        file_views(final(files)@) == spec_sort_files(file_views(old(files)@)),
{
    let ghost orig = file_views(old(files)@);
    let mut out: Vec<EnvFileRef> = Vec::new();
    proof {
        assert(file_views(files@) =~= orig.subrange(0, files@.len() as int));
        assert(orig.subrange(orig.len() as int, orig.len() as int)
            =~= Seq::<FileRefModel>::empty());
    }
    while files.len() > 0
        invariant
            files@.len() <= orig.len(),
            file_views(files@) =~= orig.subrange(0, files@.len() as int),
            file_views(out@) == spec_sort_files(
                orig.subrange(files@.len() as int, orig.len() as int),
            ),
        decreases files@.len(),
    {
        let ghost pre = file_views(files@);
        let f = files.pop().unwrap();
        proof {
            assert(file_views(files@) =~= pre.drop_last());
            assert(pre.drop_last() =~= orig.subrange(0, files@.len() as int));
            assert(pre.last() == f@);
            let m = files@.len() as int;
            let fs = orig.subrange(m, orig.len() as int);
            assert(fs[0] == f@);
            assert(fs.drop_first() =~= orig.subrange(m + 1, orig.len() as int));
            assert(spec_sort_files(fs) == spec_insert_sorted(spec_sort_files(fs.drop_first()), fs[0]));
        }
        insert_file_sorted(&mut out, f);
    }
    proof {
        assert(orig.subrange(0, orig.len() as int) =~= orig);
    }
    *files = out;
}

/// Groups folder-consecutive sorted files into runs.
fn group_files(sorted: &mut Vec<EnvFileRef>) -> (r: Vec<ProjectGroup>)
    ensures
        group_views(r@) == spec_group_runs(file_views(old(sorted)@)),
{
    let ghost orig = file_views(old(sorted)@);
    let mut groups: Vec<ProjectGroup> = Vec::new();
    let ghost mut done = Seq::<FileRefModel>::empty();
    while sorted.len() > 0
        invariant
            done + file_views(sorted@) =~= orig,
            group_views(groups@) == spec_group_runs(done),
        decreases sorted@.len(),
    {
        let ghost pre = file_views(sorted@);
        let f = sorted.remove(0);
        proof {
            assert(file_views(sorted@) =~= pre.drop_first());
            assert(pre[0] == f@);
        }
        let ghost fm = f@;
        let mut joined = false;
        if groups.len() > 0 {
            let gi = groups.len() - 1;
            if str_eq(groups[gi].root_path.as_str(), f.folder_path.as_str()) {
                joined = true;
            }
        }
        let ghost gs0 = group_views(groups@);
        if joined {
            let mut g = groups.pop().unwrap();
            g.env_files.push(f);
            proof {
                assert(file_views(g.env_files@) =~= gs0.last().env_files.push(fm));
            }
            groups.push(g);
            proof {
                assert(group_views(groups@) =~= spec_group_step(gs0, fm));
            }
        } else {
            let name = display_name_of(f.folder_path.as_str());
            let id = hash_path(f.folder_path.as_str());
            let root_path = f.folder_path.clone();
            let mut files_one: Vec<EnvFileRef> = Vec::new();
            files_one.push(f);
            let g = ProjectGroup { id, name, root_path, env_files: files_one };
            proof {
                assert(g@.env_files =~= seq![fm]);
                assert(g@ == spec_group_of(fm));
            }
            groups.push(g);
            proof {
                assert(group_views(groups@) =~= spec_group_step(gs0, fm));
            }
        }
        proof {
            let done2 = done.push(fm);
            assert(done2.drop_last() =~= done);
            assert(done2.last() == fm);
            assert(spec_group_runs(done2) == spec_group_step(spec_group_runs(done), fm));
            assert(done2 + file_views(sorted@) =~= orig);
        }
        proof {
            done = done.push(fm);
        }
    }
    proof {
        assert(done =~= orig);
    }
    groups
}

/// Runs the pure part of a scan: selects the included entries, builds and
/// orders the groups, and — unless a cancellation was requested — installs
/// the new root and allow-list into the sandbox as one step. A canceled
/// scan returns `ScanCanceled` and leaves the sandbox exactly as it was.
pub fn scan_from_entries(sandbox: &mut SandboxState, root: &str, entries: &Vec<FsEntry>) -> (r:
    Result<ScanResult, AppError>)
    ensures
        old(sandbox).canceled ==> (r matches Err(e) && e is ScanCanceled && *final(sandbox)
            == *old(sandbox)),
        !old(sandbox).canceled ==> (r matches Ok(res) && {
            &&& res.root_path@ == root@
            &&& group_views(res.groups@) == spec_scan_groups(root@, entry_views(entries@))
            &&& final(sandbox).root matches Some(rt) && rt@ == root@
            &&& string_views(final(sandbox).allowed@) == spec_allowed_of(
                root@,
                entry_views(entries@),
            )
            &&& !final(sandbox).canceled
        }),
{
    if sandbox.is_cancel_requested() {
        return Err(AppError::ScanCanceled);
    }
    let n = entries.len();
    let mut files: Vec<EnvFileRef> = Vec::new();
    let mut allowed: Vec<String> = Vec::new();
    let mut i: usize = 0;
    while i < n
        invariant
            0 <= i <= n,
            n == entries@.len(),
            file_views(files@) == spec_included_refs(root@, entry_views(entries@).subrange(
                0,
                i as int,
            )),
            string_views(allowed@) == spec_allowed_of(root@, entry_views(entries@).subrange(
                0,
                i as int,
            )),
        decreases n - i,
    {
        let ghost evs = entry_views(entries@);
        let e = &entries[i];
        proof {
            assert(evs.subrange(0, i as int + 1).drop_last() =~= evs.subrange(0, i as int));
            assert(evs.subrange(0, i as int + 1).last() == e@);
        }
        let ghost fv0 = file_views(files@);
        let ghost av0 = string_views(allowed@);
        if entry_included(root, e) {
            let fr = make_file_ref(e.path.as_str(), e.size, e.modified_at);
            files.push(fr);
            allowed.push(e.canonical_path.clone());
            proof {
                assert(file_views(files@) =~= fv0.push(spec_ref_of(e@)));
                assert(string_views(allowed@) =~= av0.push(e@.canonical_path));
            }
        }
        proof {
            assert(file_views(files@) =~= spec_included_refs(root@, evs.subrange(0, i as int + 1)));
            assert(string_views(allowed@) =~= spec_allowed_of(root@, evs.subrange(0, i as int + 1)));
        }
        i = i + 1;
    }
    proof {
        assert(entry_views(entries@).subrange(0, entries@.len() as int) =~= entry_views(entries@));
    }
    sort_files(&mut files);
    let groups = group_files(&mut files);
    sandbox.install(String::from_str(root), allowed);
    Ok(ScanResult { root_path: String::from_str(root), groups })
}

/// Idempotent rescans: the groups and the allow-list of a scan are
/// functions of the root and the entries alone, so two scans over
/// identical entries yield identical outcomes, group for group, file for
/// file, identifier for identifier.
pub proof fn lemma_rescan_idempotent(
    root: Seq<char>,
    es: Seq<FsEntryModel>,
    g1: Seq<GroupModel>,
    g2: Seq<GroupModel>,
    a1: Seq<Seq<char>>,
    a2: Seq<Seq<char>>,
)
    requires
        g1 == spec_scan_groups(root, es),
        g2 == spec_scan_groups(root, es),
        a1 == spec_allowed_of(root, es),
        a2 == spec_allowed_of(root, es),
    ensures
        g1 == g2,
        a1 == a2,
{
}

proof fn lemma_drop_last_contains(s: Seq<FileRefModel>, f: FileRefModel)
    requires
        s.len() > 0,
        s.drop_last().contains(f),
    ensures
        s.contains(f),
{
    let i = choose|i: int| 0 <= i < s.drop_last().len() && s.drop_last()[i] == f;
    assert(s[i] == f);
}

proof fn lemma_included_refs_src(root: Seq<char>, es: Seq<FsEntryModel>, f: FileRefModel)
    requires
        spec_included_refs(root, es).contains(f),
    ensures
        exists|k: int|
            0 <= k < es.len() && spec_included(root, #[trigger] es[k]) && f == spec_ref_of(es[k]),
    decreases es.len(),
{
    if es.len() > 0 {
        let prev = spec_included_refs(root, es.drop_last());
        if spec_included(root, es.last()) {
            if f == spec_ref_of(es.last()) {
                assert(spec_included(root, es[es.len() - 1]) && f == spec_ref_of(
                    es[es.len() - 1],
                ));
            } else {
                let cur = prev.push(spec_ref_of(es.last()));
                let i = choose|i: int| 0 <= i < cur.len() && cur[i] == f;
                assert(i < prev.len() && prev[i] == f);
                lemma_included_refs_src(root, es.drop_last(), f);
                let k = choose|k: int|
                    0 <= k < es.drop_last().len() && spec_included(root, es.drop_last()[k]) && f
                        == spec_ref_of(es.drop_last()[k]);
                assert(es[k] == es.drop_last()[k]);
            }
        } else {
            lemma_included_refs_src(root, es.drop_last(), f);
            let k = choose|k: int|
                0 <= k < es.drop_last().len() && spec_included(root, es.drop_last()[k]) && f
                    == spec_ref_of(es.drop_last()[k]);
            assert(es[k] == es.drop_last()[k]);
        }
    }
}

proof fn lemma_insert_contains(fs: Seq<FileRefModel>, g: FileRefModel, f: FileRefModel)
    requires
        spec_insert_sorted(fs, g).contains(f),
    ensures
        fs.contains(f) || f == g,
    decreases fs.len(),
{
    let cur = spec_insert_sorted(fs, g);
    let i = choose|i: int| 0 <= i < cur.len() && cur[i] == f;
    if fs.len() == 0 {
        assert(f == g);
    } else if spec_key_le(g, fs[0]) {
        if i == 0 {
        } else {
            assert(fs[i - 1] == f);
        }
    } else {
        if i == 0 {
            assert(fs[0] == f);
        } else {
            let inner = spec_insert_sorted(fs.drop_first(), g);
            assert(inner[i - 1] == f);
            lemma_insert_contains(fs.drop_first(), g, f);
            if fs.drop_first().contains(f) {
                let j = choose|j: int| 0 <= j < fs.drop_first().len() && fs.drop_first()[j] == f;
                assert(fs[j + 1] == f);
            }
        }
    }
}

proof fn lemma_sort_contains(fs: Seq<FileRefModel>, f: FileRefModel)
    requires
        spec_sort_files(fs).contains(f),
    ensures
        fs.contains(f),
    decreases fs.len(),
{
    if fs.len() > 0 {
        lemma_insert_contains(spec_sort_files(fs.drop_first()), fs[0], f);
        if f == fs[0] {
            assert(fs[0] == f);
        } else {
            lemma_sort_contains(fs.drop_first(), f);
            let j = choose|j: int| 0 <= j < fs.drop_first().len() && fs.drop_first()[j] == f;
            assert(fs[j + 1] == f);
        }
    }
}

proof fn lemma_groups_contains(fs: Seq<FileRefModel>, gi: int, fi: int)
    requires
        0 <= gi < spec_group_runs(fs).len(),
        0 <= fi < spec_group_runs(fs)[gi].env_files.len(),
    ensures
        fs.contains(spec_group_runs(fs)[gi].env_files[fi]),
    decreases fs.len(),
{
    assert(fs.len() > 0);
    let gs = spec_group_runs(fs.drop_last());
    let f = fs.last();
    let cur = spec_group_runs(fs);
    if gs.len() > 0 && gs.last().root_path == f.folder_path {
        if gi == gs.len() - 1 {
            if fi < gs.last().env_files.len() {
                assert(cur[gi].env_files[fi] == gs[gi].env_files[fi]);
                lemma_groups_contains(fs.drop_last(), gi, fi);
                lemma_drop_last_contains(fs, cur[gi].env_files[fi]);
            } else {
                assert(cur[gi].env_files[fi] == f);
                assert(fs[fs.len() - 1] == f);
            }
        } else {
            assert(cur[gi] == gs[gi]);
            lemma_groups_contains(fs.drop_last(), gi, fi);
            lemma_drop_last_contains(fs, cur[gi].env_files[fi]);
        }
    } else {
        if gi == gs.len() {
            assert(cur[gi].env_files[fi] == f);
            assert(fs[fs.len() - 1] == f);
        } else {
            assert(cur[gi] == gs[gi]);
            lemma_groups_contains(fs.drop_last(), gi, fi);
            lemma_drop_last_contains(fs, cur[gi].env_files[fi]);
        }
    }
}

/// An entry lying beneath an ignored directory name is never included in
/// a scan.
pub proof fn lemma_ignored_entry_excluded(root: Seq<char>, e: FsEntryModel)
    requires
        !(e.path =~= root),
        spec_has_ignored_dir(spec_rel_part(e.path, root)),
    ensures
        !spec_included(root, e),
{
}

/// Pruning: every file of every group of a scan outcome arises from an
/// included entry. With `lemma_ignored_entry_excluded`, a file beneath an
/// ignored directory name can therefore never appear in any scan outcome.
pub proof fn lemma_scan_prunes(root: Seq<char>, es: Seq<FsEntryModel>, gi: int, fi: int)
    requires
        0 <= gi < spec_scan_groups(root, es).len(),
        0 <= fi < spec_scan_groups(root, es)[gi].env_files.len(),
    ensures
        exists|k: int|
            0 <= k < es.len() && spec_included(root, #[trigger] es[k]) && spec_scan_groups(
                root,
                es,
            )[gi].env_files[fi] == spec_ref_of(es[k]),
{
    let f = spec_scan_groups(root, es)[gi].env_files[fi];
    lemma_groups_contains(spec_sort_files(spec_included_refs(root, es)), gi, fi);
    lemma_sort_contains(spec_included_refs(root, es), f);
    lemma_included_refs_src(root, es, f);
}

proof fn lemma_allowed_of_src(root: Seq<char>, es: Seq<FsEntryModel>, p: Seq<char>)
    ensures
        spec_allowed_of(root, es).contains(p) <==> exists|k: int|
            0 <= k < es.len() && spec_included(root, #[trigger] es[k]) && es[k].canonical_path
                == p,
    decreases es.len(),
{
    if es.len() > 0 {
        lemma_allowed_of_src(root, es.drop_last(), p);
        let prev = spec_allowed_of(root, es.drop_last());
        let cur = spec_allowed_of(root, es);
        if cur.contains(p) {
            let i = choose|i: int| 0 <= i < cur.len() && cur[i] == p;
            if spec_included(root, es.last()) && i == prev.len() {
                assert(spec_included(root, es[es.len() - 1]) && es[es.len() - 1].canonical_path
                    == p);
            } else {
                assert(prev[i] == p);
                let k = choose|k: int|
                    0 <= k < es.drop_last().len() && spec_included(root, es.drop_last()[k])
                        && es.drop_last()[k].canonical_path == p;
                assert(es[k] == es.drop_last()[k]);
            }
        }
        if exists|k: int|
            0 <= k < es.len() && spec_included(root, #[trigger] es[k]) && es[k].canonical_path
                == p {
            let k = choose|k: int|
                0 <= k < es.len() && spec_included(root, #[trigger] es[k]) && es[k].canonical_path
                    == p;
            if k == es.len() - 1 {
                assert(cur.last() == p);
            } else {
                assert(es.drop_last()[k] == es[k]);
                assert(prev.contains(p));
                let i = choose|i: int| 0 <= i < prev.len() && prev[i] == p;
                if spec_included(root, es.last()) {
                    assert(cur[i] == p);
                } else {
                    assert(cur[i] == p);
                }
            }
        }
    }
}

/// Holds when a file sequence is in presentation order.
pub open spec fn spec_files_ordered(fs: Seq<FileRefModel>) -> bool {
    forall|i: int, j: int|
        0 <= i < j < fs.len() ==> spec_key_le(#[trigger] fs[i], #[trigger] fs[j])
}

proof fn lemma_key_le_total(a: FileRefModel, b: FileRefModel)
    ensures
        spec_key_le(a, b) || spec_key_le(b, a),
{
    crate::paths::lemma_lex_total(spec_display_name(a.folder_path), spec_display_name(
        b.folder_path,
    ));
    crate::paths::lemma_lex_total(a.folder_path, b.folder_path);
    crate::paths::lemma_lex_total(a.file_name, b.file_name);
}

proof fn lemma_key_le_trans(a: FileRefModel, b: FileRefModel, c: FileRefModel)
    requires
        spec_key_le(a, b),
        spec_key_le(b, c),
    ensures
        spec_key_le(a, c),
{
    let da = spec_display_name(a.folder_path);
    let db = spec_display_name(b.folder_path);
    let dc = spec_display_name(c.folder_path);
    if lex_le(da, db) && lex_le(db, dc) {
        crate::paths::lemma_lex_trans(da, db, dc);
    }
    if lex_le(da, db) && lex_le(db, da) {
        crate::paths::lemma_lex_antisym(da, db);
    }
    if lex_le(db, dc) && lex_le(dc, db) {
        crate::paths::lemma_lex_antisym(db, dc);
    }
    if lex_le(da, dc) && lex_le(dc, da) {
        crate::paths::lemma_lex_antisym(da, dc);
    }
    let fa = a.folder_path;
    let fb = b.folder_path;
    let fc = c.folder_path;
    if lex_le(fa, fb) && lex_le(fb, fc) {
        crate::paths::lemma_lex_trans(fa, fb, fc);
    }
    if lex_le(fa, fb) && lex_le(fb, fa) {
        crate::paths::lemma_lex_antisym(fa, fb);
    }
    if lex_le(fb, fc) && lex_le(fc, fb) {
        crate::paths::lemma_lex_antisym(fb, fc);
    }
    if lex_le(fa, fc) && lex_le(fc, fa) {
        crate::paths::lemma_lex_antisym(fa, fc);
    }
    if lex_le(a.file_name, b.file_name) && lex_le(b.file_name, c.file_name) {
        crate::paths::lemma_lex_trans(a.file_name, b.file_name, c.file_name);
    }
}

proof fn lemma_insert_keeps_order(fs: Seq<FileRefModel>, f: FileRefModel)
    requires
        spec_files_ordered(fs),
    ensures
        spec_files_ordered(spec_insert_sorted(fs, f)),
    decreases fs.len(),
{
    let cur = spec_insert_sorted(fs, f);
    if fs.len() == 0 {
    } else if spec_key_le(f, fs[0]) {
        assert forall|i: int, j: int| 0 <= i < j < cur.len() implies spec_key_le(
            #[trigger] cur[i],
            #[trigger] cur[j],
        ) by {
            if i == 0 {
                assert(cur[0] == f);
                assert(cur[j] == fs[j - 1]);
                if j > 1 {
                    lemma_key_le_trans(f, fs[0], fs[j - 1]);
                }
            } else {
                assert(cur[i] == fs[i - 1] && cur[j] == fs[j - 1]);
            }
        }
    } else {
        let d = fs.drop_first();
        assert forall|i: int, j: int| 0 <= i < j < d.len() implies spec_key_le(
            #[trigger] d[i],
            #[trigger] d[j],
        ) by {
            assert(d[i] == fs[i + 1] && d[j] == fs[j + 1]);
        }
        lemma_insert_keeps_order(d, f);
        let inner = spec_insert_sorted(d, f);
        lemma_key_le_total(f, fs[0]);
        assert forall|i: int, j: int| 0 <= i < j < cur.len() implies spec_key_le(
            #[trigger] cur[i],
            #[trigger] cur[j],
        ) by {
            if i == 0 {
                let x = cur[j];
                assert(x == inner[j - 1]);
                assert(inner.contains(x));
                lemma_insert_contains(d, f, x);
                if d.contains(x) {
                    let k = choose|k: int| 0 <= k < d.len() && d[k] == x;
                    assert(fs[k + 1] == x);
                    assert(spec_key_le(fs[0], fs[k + 1]));
                } else {
                    assert(x == f);
                }
            } else {
                assert(cur[i] == inner[i - 1] && cur[j] == inner[j - 1]);
            }
        }
    }
}

/// Deterministic presentation: the scan lays its files out in
/// presentation order — by folder display name, then folder path, then
/// file name — before grouping, so group order and the file order inside
/// each group follow from the entries alone.
pub proof fn lemma_scan_files_ordered(fs: Seq<FileRefModel>)
    ensures
        spec_files_ordered(spec_sort_files(fs)),
    decreases fs.len(),
{
    if fs.len() > 0 {
        lemma_scan_files_ordered(fs.drop_first());
        lemma_insert_keeps_order(spec_sort_files(fs.drop_first()), fs[0]);
    }
}

/// Presentation order between two groups: by display name, then by
/// folder path.
pub open spec fn spec_group_le(a: GroupModel, b: GroupModel) -> bool {
    if a.name != b.name {
        lex_le(a.name, b.name)
    } else {
        lex_le(a.root_path, b.root_path)
    }
}

/// Holds when a group sequence is in presentation order.
pub open spec fn spec_groups_ordered(gs: Seq<GroupModel>) -> bool {
    forall|i: int, j: int|
        0 <= i < j < gs.len() ==> spec_group_le(#[trigger] gs[i], #[trigger] gs[j])
}

/// Holds when a group is well formed: nonempty, every file directly in
/// its folder, and the files in lexicographic file-name order.
pub open spec fn spec_group_files_ok(g: GroupModel) -> bool {
    &&& g.env_files.len() > 0
    &&& forall|k: int|
        0 <= k < g.env_files.len() ==> (#[trigger] g.env_files[k]).folder_path == g.root_path
    &&& forall|k1: int, k2: int|
        0 <= k1 < k2 < g.env_files.len() ==> lex_le(
            (#[trigger] g.env_files[k1]).file_name,
            (#[trigger] g.env_files[k2]).file_name,
        )
}

proof fn lemma_lex_refl(a: Seq<char>)
    ensures
        lex_le(a, a),
    decreases a.len(),
{
    if a.len() > 0 {
        lemma_lex_refl(a.drop_first());
    }
}

proof fn lemma_group_le_trans(a: GroupModel, b: GroupModel, c: GroupModel)
    requires
        spec_group_le(a, b),
        spec_group_le(b, c),
    ensures
        spec_group_le(a, c),
{
    if lex_le(a.name, b.name) && lex_le(b.name, c.name) {
        crate::paths::lemma_lex_trans(a.name, b.name, c.name);
    }
    if lex_le(a.name, b.name) && lex_le(b.name, a.name) {
        crate::paths::lemma_lex_antisym(a.name, b.name);
    }
    if lex_le(b.name, c.name) && lex_le(c.name, b.name) {
        crate::paths::lemma_lex_antisym(b.name, c.name);
    }
    if lex_le(a.name, c.name) && lex_le(c.name, a.name) {
        crate::paths::lemma_lex_antisym(a.name, c.name);
    }
    if lex_le(a.root_path, b.root_path) && lex_le(b.root_path, c.root_path) {
        crate::paths::lemma_lex_trans(a.root_path, b.root_path, c.root_path);
    }
}

proof fn lemma_key_to_group_le(a: FileRefModel, b: FileRefModel)
    requires
        spec_key_le(a, b),
    ensures
        spec_group_le(spec_group_of(a), spec_group_of(b)),
{
    lemma_lex_refl(a.folder_path);
}

proof fn lemma_group_runs_ordered_aux(fs: Seq<FileRefModel>)
    requires
        spec_files_ordered(fs),
        fs.len() > 0,
    ensures
        spec_group_runs(fs).len() > 0,
        spec_groups_ordered(spec_group_runs(fs)),
        spec_group_runs(fs).last().root_path == fs.last().folder_path,
        spec_group_runs(fs).last().env_files.last() == fs.last(),
        forall|i: int|
            0 <= i < spec_group_runs(fs).len() ==> spec_group_le(
                #[trigger] spec_group_runs(fs)[i],
                spec_group_of(fs.last()),
            ),
        forall|i: int|
            0 <= i < spec_group_runs(fs).len() ==> spec_group_files_ok(
                #[trigger] spec_group_runs(fs)[i],
            ),
    decreases fs.len(),
{
    let f = fs.last();
    let cur = spec_group_runs(fs);
    if fs.len() == 1 {
        assert(fs.drop_last().len() == 0);
        assert(spec_group_runs(fs.drop_last()) == Seq::<GroupModel>::empty());
        assert(cur =~= seq![spec_group_of(f)]);
        lemma_lex_refl(f.folder_path);
        lemma_lex_refl(spec_group_of(f).name);
        assert(spec_group_of(f).env_files.len() == 1);
    } else {
        let d = fs.drop_last();
        let fp = d.last();
        assert forall|i: int, j: int| 0 <= i < j < d.len() implies spec_key_le(
            #[trigger] d[i],
            #[trigger] d[j],
        ) by {
            assert(d[i] == fs[i] && d[j] == fs[j]);
        }
        lemma_group_runs_ordered_aux(d);
        let gs = spec_group_runs(d);
        assert(spec_key_le(fp, f)) by {
            assert(fs[fs.len() - 2] == fp && fs[fs.len() - 1] == f);
        }
        lemma_key_to_group_le(fp, f);
        if gs.last().root_path == f.folder_path {
            // f joins the last group; every group key is unchanged.
            let old_last = gs.last();
            let new_last = GroupModel {
                id: old_last.id,
                name: old_last.name,
                root_path: old_last.root_path,
                env_files: old_last.env_files.push(f),
            };
            assert(cur =~= gs.update(gs.len() - 1, new_last));
            assert forall|i: int, j: int| 0 <= i < j < cur.len() implies spec_group_le(
                #[trigger] cur[i],
                #[trigger] cur[j],
            ) by {
                assert(spec_group_le(gs[i], gs[j]));
            }
            // The folders of fp and f coincide, so the presentation keys
            // of their groups do too.
            assert(fp.folder_path == f.folder_path);
            assert(spec_group_of(fp).name == spec_group_of(f).name);
            assert(spec_group_of(fp).root_path == spec_group_of(f).root_path);
            assert forall|i: int| 0 <= i < cur.len() implies spec_group_le(
                #[trigger] cur[i],
                spec_group_of(f),
            ) by {
                if i < cur.len() - 1 {
                    assert(cur[i] == gs[i]);
                }
            }
            assert forall|i: int| 0 <= i < cur.len() implies spec_group_files_ok(
                #[trigger] cur[i],
            ) by {
                if i < cur.len() - 1 {
                    assert(cur[i] == gs[i]);
                } else {
                    assert(spec_group_files_ok(old_last));
                    assert(new_last.env_files.last() == f);
                    // Name order extends to the appended file: the old
                    // last file is fp, whose key order against f within
                    // one folder is name order.
                    assert(old_last.env_files.last() == fp);
                    assert(lex_le(fp.file_name, f.file_name));
                    assert forall|k1: int, k2: int|
                        0 <= k1 < k2 < new_last.env_files.len() implies lex_le(
                        (#[trigger] new_last.env_files[k1]).file_name,
                        (#[trigger] new_last.env_files[k2]).file_name,
                    ) by {
                        if k2 < new_last.env_files.len() - 1 {
                            assert(lex_le(
                                old_last.env_files[k1].file_name,
                                old_last.env_files[k2].file_name,
                            ));
                        } else {
                            assert(new_last.env_files[k2] == f);
                            if k1 < old_last.env_files.len() - 1 {
                                assert(lex_le(
                                    old_last.env_files[k1].file_name,
                                    fp.file_name,
                                ));
                                crate::paths::lemma_lex_trans(
                                    old_last.env_files[k1].file_name,
                                    fp.file_name,
                                    f.file_name,
                                );
                            } else {
                                assert(new_last.env_files[k1] == fp);
                            }
                        }
                    }
                }
            }
        } else {
            // f opens a new group behind all the old ones.
            assert(cur =~= gs.push(spec_group_of(f)));
            assert forall|i: int, j: int| 0 <= i < j < cur.len() implies spec_group_le(
                #[trigger] cur[i],
                #[trigger] cur[j],
            ) by {
                if j < cur.len() - 1 {
                    assert(cur[i] == gs[i] && cur[j] == gs[j]);
                } else {
                    assert(cur[i] == gs[i]);
                    lemma_group_le_trans(gs[i], spec_group_of(fp), spec_group_of(f));
                }
            }
            lemma_lex_refl(spec_group_of(f).name);
            lemma_lex_refl(spec_group_of(f).root_path);
            assert forall|i: int| 0 <= i < cur.len() implies spec_group_le(
                #[trigger] cur[i],
                spec_group_of(f),
            ) by {
                if i < cur.len() - 1 {
                    assert(cur[i] == gs[i]);
                    lemma_group_le_trans(gs[i], spec_group_of(fp), spec_group_of(f));
                }
            }
            assert forall|i: int| 0 <= i < cur.len() implies spec_group_files_ok(
                #[trigger] cur[i],
            ) by {
                if i < cur.len() - 1 {
                    assert(cur[i] == gs[i]);
                } else {
                    assert(cur[i] == spec_group_of(f));
                    assert(spec_group_of(f).env_files.len() == 1);
                }
            }
        }
    }
}

/// Deterministic presentation of the whole outcome: the groups of a scan
/// stand in presentation order — display name, then folder path — and
/// each group is nonempty, holds only files of its own folder, and lists
/// them in file-name order.
pub proof fn lemma_scan_groups_ordered(root: Seq<char>, es: Seq<FsEntryModel>)
    ensures
        spec_groups_ordered(spec_scan_groups(root, es)),
        forall|i: int|
            0 <= i < spec_scan_groups(root, es).len() ==> spec_group_files_ok(
                #[trigger] spec_scan_groups(root, es)[i],
            ),
{
    let fs = spec_sort_files(spec_included_refs(root, es));
    lemma_scan_files_ordered(spec_included_refs(root, es));
    if fs.len() > 0 {
        lemma_group_runs_ordered_aux(fs);
    }
}

/// Sandbox narrowing: once a scan of `root` over `es` has installed its
/// outcome, the sandbox admits a canonical path exactly when it lies
/// under the root and is the canonical path of an included entry; a path
/// outside the root, or never surfaced by the scan, is refused.
pub proof fn lemma_sandbox_narrowing_after_scan(
    s: SandboxState,
    root: Seq<char>,
    es: Seq<FsEntryModel>,
    p: Seq<char>,
)
    requires
        s.root matches Some(rt) && rt@ == root,
        string_views(s.allowed@) == spec_allowed_of(root, es),
    ensures
        s.spec_allows(p) <==> (spec_path_under(p, root) && exists|k: int|
            0 <= k < es.len() && spec_included(root, #[trigger] es[k]) && es[k].canonical_path
                == p),
{
    lemma_allowed_of_src(root, es, p);
    let sv = string_views(s.allowed@);
    if s.spec_allowed_contains(p) {
        let i = choose|i: int| 0 <= i < s.allowed@.len() && s.allowed@[i]@ == p;
        assert(sv[i] == p);
        assert(sv.contains(p));
    }
    if sv.contains(p) {
        let i = choose|i: int| 0 <= i < sv.len() && sv[i] == p;
        assert(s.allowed@[i]@ == p);
        assert(s.spec_allowed_contains(p));
    }
}

} // verus!
