//! Decisions taken while unpacking an `.mflash` archive into a workspace and
//! packing a workspace back into an archive.
use vstd::prelude::*;
use vstd::slice::slice_to_vec;
use vstd::string::{StrSliceExecFns, StringExecFns};
use crate::pb::{copy_opt_text, opt_text};

verus! {

/// Directory under the home directory that holds the workspaces, one
/// subdirectory per workspace id.
pub const CACHE_DIR: &'static str = ".mflash_cache";

/// What to do with one entry of an archive being unpacked.
#[derive(Debug, Clone, Copy, PartialEq, Eq)]
pub enum UnpackAction {
    /// The entry's name would leave the workspace (such as `../../x`): it is
    /// passed over.
    Skip,
    /// The entry is a directory: create it under the workspace.
    CreateDir,
    /// The entry is a file: create its parent directories and write it.
    WriteFile,
}

/// The action for an archive entry: skipped where its name would leave the
/// workspace, else a directory to create or a file to write.
pub open spec fn unpack_decision(name_is_enclosed: bool, is_dir: bool) -> UnpackAction {
    if !name_is_enclosed {
        UnpackAction::Skip
    } else if is_dir {
        UnpackAction::CreateDir
    } else {
        UnpackAction::WriteFile
    }
}

/// What to do with an archive entry, given whether its name stays inside the
/// workspace and whether it is a directory. An entry whose name would leave
/// the workspace is never written.
pub fn unpack_action(name_is_enclosed: bool, is_dir: bool) -> (res: UnpackAction)
    ensures
        res == unpack_decision(name_is_enclosed, is_dir),
        !name_is_enclosed ==> res == UnpackAction::Skip,
        name_is_enclosed && is_dir ==> res == UnpackAction::CreateDir,
        name_is_enclosed && !is_dir ==> res == UnpackAction::WriteFile,
{
    if !name_is_enclosed {
        UnpackAction::Skip
    } else if is_dir {
        UnpackAction::CreateDir
    } else {
        UnpackAction::WriteFile
    }
}

/// `s` with every occurrence of the character `from` replaced by `to`.
pub open spec fn replaced(s: Seq<char>, from: char, to: Seq<char>) -> Seq<char>
    decreases s.len(),
{
    if s.len() == 0 {
        Seq::empty()
    } else {
        (if s[0] == from {
            to
        } else {
            seq![s[0]]
        }) + replaced(s.drop_first(), from, to)
    }
}

/// Replacing in two pieces is replacing in each.
pub proof fn lemma_replaced_concat(a: Seq<char>, b: Seq<char>, from: char, to: Seq<char>)
    ensures
        replaced(a + b, from, to) == replaced(a, from, to) + replaced(b, from, to),
    decreases a.len(),
{
    if a.len() > 0 {
        assert((a + b).drop_first() =~= a.drop_first() + b);
        lemma_replaced_concat(a.drop_first(), b, from, to);
        assert((a + b)[0] == a[0]);
    } else {
        assert(a + b =~= b);
    }
}

/// `s` with every `from` replaced by `to`.
fn replace_char(s: &str, from: char, to: &str) -> (res: String)
    ensures
        res@ == replaced(s@, from, to@),
{
    let n = s.unicode_len();
    let mut res = String::new();
    assert(s@.take(0) =~= Seq::<char>::empty());
    for i in 0..n
        invariant
            n == s@.len(),
            res@ == replaced(s@.take(i as int), from, to@),
    {
        let c = s.get_char(i);
        let ghost one = seq![c];
        proof {
            assert(s@.take(i + 1) =~= s@.take(i as int) + one);
            lemma_replaced_concat(s@.take(i as int), one, from, to@);
            assert(one.drop_first() =~= Seq::<char>::empty());
            assert(replaced(one.drop_first(), from, to@) =~= Seq::<char>::empty());
            assert(one[0] == c);
        }
        if c == from {
            res.append(to);
            assert(replaced(one, from, to@) =~= to@);
        } else {
            let piece = s.substring_char(i, i + 1);
            assert(piece@ =~= one);
            res.append(piece);
            assert(replaced(one, from, to@) =~= one);
        }
    }
    assert(s@.take(n as int) =~= s@);
    res
}

/// A relative path with its separators written as forward slashes, as ZIP
/// archives and the workspace database store them.
pub open spec fn forward_slashed(relative: Seq<char>) -> Seq<char> {
    replaced(relative, '\\', seq!['/'])
}

/// Writes the separators of a relative path as forward slashes.
pub fn forward_slashes(relative: &str) -> (res: String)
    ensures
        res@ == forward_slashed(relative@),
{
    let slash = "/";
    proof {
        reveal_strlit("/");
        assert(slash@ =~= seq!['/']);
    }
    replace_char(relative, '\\', slash)
}

/// A forward-slashed path holds no backslash, and a path without
/// backslashes is left as it is.
pub proof fn lemma_forward_slashed(relative: Seq<char>)
    ensures
        forall|i: int| 0 <= i < forward_slashed(relative).len() ==> #[trigger] forward_slashed(relative)[i] != '\\',
        forward_slashed(relative).len() == relative.len(),
        (forall|i: int| 0 <= i < relative.len() ==> #[trigger] relative[i] != '\\') ==> forward_slashed(relative)
            == relative,
    decreases relative.len(),
{
    if relative.len() > 0 {
        lemma_forward_slashed(relative.drop_first());
        let head: Seq<char> = if relative[0] == '\\' {
            seq!['/']
        } else {
            seq![relative[0]]
        };
        let tail = forward_slashed(relative.drop_first());
        assert(forward_slashed(relative) == head + tail);
        assert forall|i: int| 0 <= i < forward_slashed(relative).len() implies #[trigger] forward_slashed(
            relative,
        )[i] != '\\' by {
            if i > 0 {
                assert(forward_slashed(relative)[i] == tail[i - 1]);
            }
        }
        if forall|i: int| 0 <= i < relative.len() ==> #[trigger] relative[i] != '\\' {
            assert forall|i: int| 0 <= i < relative.drop_first().len() implies #[trigger] relative.drop_first()[i]
                != '\\' by {
                assert(relative.drop_first()[i] == relative[i + 1]);
            }
            assert(relative[0] != '\\');
            assert(relative =~= seq![relative[0]] + relative.drop_first());
        }
    }
}

/// What to do with one entry of a workspace being packed.
#[derive(Debug, Clone, PartialEq, Eq)]
pub enum PackAction {
    /// The workspace root itself, or an entry that is neither a file nor a
    /// directory: nothing is added.
    Skip,
    /// Add the file under this archive name.
    AddFile(String),
    /// Add the directory under this archive name.
    AddDirectory(String),
}

/// What to do with a workspace entry, given its path relative to the
/// workspace and whether it is a file or a directory: the root (empty path)
/// is passed over, files and directories are added under their path with
/// forward slashes.
pub fn pack_action(relative: &str, is_file: bool, is_dir: bool) -> (res: PackAction)
    ensures
        relative@.len() == 0 ==> res == PackAction::Skip,
        relative@.len() > 0 && is_file ==> (res matches PackAction::AddFile(name) && name@
            == forward_slashed(relative@)),
        relative@.len() > 0 && !is_file && is_dir ==> (res matches PackAction::AddDirectory(name) && name@
            == forward_slashed(relative@)),
        relative@.len() > 0 && !is_file && !is_dir ==> res == PackAction::Skip,
{
    if relative.is_empty() {
        return PackAction::Skip;
    }
    let name = forward_slashes(relative);
    if is_file {
        PackAction::AddFile(name)
    } else if is_dir {
        PackAction::AddDirectory(name)
    } else {
        PackAction::Skip
    }
}

/// A path separator, on either kind of system.
pub open spec fn is_separator(c: char) -> bool {
    c == '/' || c == '\\'
}

/// A `..` component of `p` starts at `i`: two dots with a separator or an
/// end of the path on either side.
pub open spec fn parent_component_at(p: Seq<char>, i: int) -> bool {
    &&& 0 <= i
    &&& i + 2 <= p.len()
    &&& p[i] == '.'
    &&& p[i + 1] == '.'
    &&& (i == 0 || is_separator(p[i - 1]))
    &&& (i + 2 == p.len() || is_separator(p[i + 2]))
}

/// A relative path that cannot lead out of the directory it is taken under:
/// it holds no NUL, does not start at a root, and has no `..` component.
pub open spec fn is_enclosed_path(p: Seq<char>) -> bool {
    &&& forall|i: int| 0 <= i < p.len() ==> p[i] != '\0'
    &&& p.len() > 0 ==> !is_separator(p[0])
    &&& forall|i: int| !parent_component_at(p, i)
}

/// An entry of an archive as read for unpacking: its name made safe to use
/// under the workspace (`None` where none can be made), whether it is a
/// directory, and its contents (`None` where they could not be read).
pub struct ArchiveEntry {
    pub enclosed_name: Option<String>,
    pub is_dir: bool,
    pub contents: Option<Vec<u8>>,
}

/// Optional bytes as a sequence.
pub open spec fn opt_bytes(o: Option<Vec<u8>>) -> Option<Seq<u8>> {
    match o {
        Some(b) => Some(b@),
        None => None,
    }
}

/// The entries of an archive as the archive itself fixes them: whether each
/// is a directory, and its contents where they can be read.
pub open spec fn archive_entry_views(entries: Seq<ArchiveEntry>) -> Seq<(bool, Option<Seq<u8>>)> {
    entries.map_values(|e: ArchiveEntry| (e.is_dir, opt_bytes(e.contents)))
}

/// What the `zip` crate reads from the bytes of an archive, entry by entry
/// in the order of its central directory: whether each entry is a directory,
/// and its decompressed contents (`None` where reading them fails). `None`
/// where the archive cannot be opened or an entry cannot be found.
pub uninterp spec fn archive_entries(archive: Seq<u8>) -> Option<Seq<(bool, Option<Seq<u8>>)>>;

/// An archive that can be opened and whose every entry can be read.
pub open spec fn readable_archive(archive: Seq<u8>) -> bool {
    match archive_entries(archive) {
        Some(es) => forall|i: int| 0 <= i < es.len() ==> (#[trigger] es[i]).1 is Some,
        None => false,
    }
}

/// Opens the archive with `zip::ZipArchive` and reads every entry with
/// `by_index`: `enclosed_name`, `is_dir` and its contents. Claimed: the
/// result follows `archive_entries`, and every enclosed name is a path that
/// stays under the directory, as `enclosed_name` documents (no NUL, not
/// absolute, no escaping `..`). Which names are enclosed, and how they are
/// spelt, is left unsaid: `zip` decides it by the rules of the system it
/// runs on.
#[verifier::external_body]
fn read_archive(archive: &[u8]) -> (res: Option<Vec<ArchiveEntry>>)
    ensures
        match res {
            Some(v) => archive_entries(archive@) == Some(archive_entry_views(v@)),
            None => archive_entries(archive@) is None,
        },
        res matches Some(v) ==> forall|i: int|
            0 <= i < v.len() ==> ((#[trigger] v@[i]).enclosed_name matches Some(p) ==> is_enclosed_path(p@)),
{
    let mut zip = zip::ZipArchive::new(std::io::Cursor::new(archive)).ok()?;
    let mut entries = Vec::new();
    for i in 0..zip.len() {
        let mut file = zip.by_index(i).ok()?;
        let mut contents = Vec::new();
        let read = std::io::Read::read_to_end(&mut file, &mut contents);
        entries.push(ArchiveEntry {
            enclosed_name: file.enclosed_name().map(|p| p.to_string_lossy().into_owned()),
            is_dir: file.is_dir(),
            contents: read.ok().map(|_| contents),
        });
    }
    Some(entries)
}

/// One step of unpacking an archive: what to do, under which path of the
/// workspace (none for a skipped entry), and the bytes of a file to write.
pub struct UnpackStep {
    pub action: UnpackAction,
    pub path: Option<String>,
    pub contents: Vec<u8>,
}

/// A step as plain values.
pub open spec fn step_view(s: UnpackStep) -> (UnpackAction, Option<Seq<char>>, Seq<u8>) {
    (s.action, opt_text(s.path), s.contents@)
}

/// The step for one archive entry: skipped where its name would leave the
/// workspace, a directory to create under its enclosed name, or a file to
/// write there with its contents; `None` where that file's contents could
/// not be read.
pub open spec fn entry_step(e: ArchiveEntry) -> Option<(UnpackAction, Option<Seq<char>>, Seq<u8>)> {
    match unpack_decision(e.enclosed_name is Some, e.is_dir) {
        UnpackAction::Skip => Some((UnpackAction::Skip, None, Seq::empty())),
        UnpackAction::CreateDir => Some((UnpackAction::CreateDir, opt_text(e.enclosed_name), Seq::empty())),
        UnpackAction::WriteFile => match e.contents {
            Some(c) => Some((UnpackAction::WriteFile, opt_text(e.enclosed_name), c@)),
            None => None,
        },
    }
}

/// The steps that unpack these entries, one per entry in order, or `None`
/// where a file to write could not be read.
pub fn plan_unpack(entries: &Vec<ArchiveEntry>) -> (res: Option<Vec<UnpackStep>>)
    ensures
        res is Some <==> forall|i: int| 0 <= i < entries.len() ==> (#[trigger] entry_step(entries@[i])) is Some,
        res matches Some(steps) ==> steps.len() == entries.len() && forall|i: int|
            0 <= i < steps.len() ==> Some(step_view(#[trigger] steps@[i])) == entry_step(entries@[i]),
{
    let mut steps: Vec<UnpackStep> = Vec::new();
    let n = entries.len();
    for i in 0..n
        invariant
            n == entries.len(),
            steps.len() == i,
            forall|j: int| 0 <= j < i ==> (#[trigger] entry_step(entries@[j])) is Some,
            forall|j: int| 0 <= j < i ==> Some(step_view(#[trigger] steps@[j])) == entry_step(entries@[j]),
    {
        let e = &entries[i];
        let action = unpack_action(e.enclosed_name.is_some(), e.is_dir);
        let step = match action {
            UnpackAction::Skip => UnpackStep { action, path: None, contents: Vec::new() },
            UnpackAction::CreateDir => UnpackStep {
                action,
                path: copy_opt_text(&e.enclosed_name),
                contents: Vec::new(),
            },
            UnpackAction::WriteFile => match &e.contents {
                Some(c) => UnpackStep {
                    action,
                    path: copy_opt_text(&e.enclosed_name),
                    contents: slice_to_vec(c.as_slice()),
                },
                None => {
                    return None;
                },
            },
        };
        assert(step_view(step) == entry_step(entries@[i as int])->0);
        steps.push(step);
    }
    Some(steps)
}

/// The steps that unpack an archive, given its bytes, or `None` where the
/// archive cannot be read or a file in it cannot be decompressed. Every
/// entry gets a step; an entry is skipped exactly when it has no path, and
/// every path is enclosed, so nothing is written outside the workspace.
pub fn unpack_plan(archive: &[u8]) -> (res: Option<Vec<UnpackStep>>)
    ensures
        archive_entries(archive@) is None ==> res is None,
        readable_archive(archive@) ==> res is Some,
        res matches Some(steps) ==> archive_entries(archive@) matches Some(es) && steps.len() == es.len()
            && forall|i: int| #![trigger steps@[i]] 0 <= i < steps.len() ==> {
            &&& (steps@[i].action == UnpackAction::Skip) == (steps@[i].path is None)
            &&& (steps@[i].path matches Some(p) ==> is_enclosed_path(p@))
            &&& steps@[i].action == UnpackAction::CreateDir ==> es[i].0
            &&& steps@[i].action == UnpackAction::WriteFile ==> !es[i].0 && es[i].1 == Some(steps@[i].contents@)
        },
{
    match read_archive(archive) {
        None => None,
        Some(entries) => {
            let res = plan_unpack(&entries);
            proof {
                let es = archive_entry_views(entries@);
                if forall|i: int| 0 <= i < es.len() ==> (#[trigger] es[i]).1 is Some {
                    assert forall|i: int| 0 <= i < entries.len() implies (#[trigger] entry_step(entries@[i])) is Some by {
                        assert(es[i] == (entries@[i].is_dir, opt_bytes(entries@[i].contents)));
                        assert(es[i].1 is Some);
                    }
                }
                if res is Some {
                    let steps = res->0;
                    assert forall|i: int| #![trigger steps@[i]] 0 <= i < steps.len() implies {
                        &&& (steps@[i].action == UnpackAction::Skip) == (steps@[i].path is None)
                        &&& (steps@[i].path matches Some(p) ==> is_enclosed_path(p@))
                        &&& steps@[i].action == UnpackAction::CreateDir ==> es[i].0
                        &&& steps@[i].action == UnpackAction::WriteFile ==> !es[i].0 && es[i].1 == Some(steps@[i].contents@)
                    } by {
                        assert(Some(step_view(steps@[i])) == entry_step(entries@[i]));
                        assert(es[i] == (entries@[i].is_dir, opt_bytes(entries@[i].contents)));
                    }
                }
            }
            res
        },
    }
}

/// Unix permissions given to every entry of a packed archive.
pub const ARCHIVE_MODE: u32 = 0o755;

/// An entry found while walking a workspace: its path relative to the
/// workspace, whether it is a file or a directory, and a file's contents.
pub struct WorkspaceEntry {
    pub relative: String,
    pub is_file: bool,
    pub is_dir: bool,
    pub contents: Vec<u8>,
}

/// Archive entries as plain values: a name, and a file's contents or `None`
/// for a directory.
pub open spec fn archive_items(items: Seq<(String, Option<Vec<u8>>)>) -> Seq<(Seq<char>, Option<Seq<u8>>)> {
    items.map_values(|it: (String, Option<Vec<u8>>)| (it.0@, opt_bytes(it.1)))
}

/// A name that reads back from an archive as a directory: one that ends in
/// a separator.
pub open spec fn ends_in_separator(name: Seq<char>) -> bool {
    name.len() > 0 && is_separator(name.last())
}

/// No file among the items has a name ending in a separator, which would
/// read back as a directory.
pub open spec fn file_names_unambiguous(items: Seq<(Seq<char>, Option<Seq<u8>>)>) -> bool {
    forall|i: int| 0 <= i < items.len() && (#[trigger] items[i]).1 is Some ==> !ends_in_separator(items[i].0)
}

/// How an archive item reads back: a directory with no contents, or a file
/// with its contents.
pub open spec fn read_back(item: (Seq<char>, Option<Seq<u8>>)) -> (bool, Option<Seq<u8>>) {
    match item.1 {
        Some(c) => (false, Some(c)),
        None => (true, Some(Seq::empty())),
    }
}

/// How the items of an archive read back, in order.
pub open spec fn read_back_items(items: Seq<(Seq<char>, Option<Seq<u8>>)>) -> Seq<(bool, Option<Seq<u8>>)> {
    items.map_values(|it: (Seq<char>, Option<Seq<u8>>)| read_back(it))
}

/// Writes a ZIP archive in memory with `zip::ZipWriter`: `start_file` and
/// the contents for a file, `add_directory` for a directory, every entry
/// Zstandard-compressed with the given permissions, then `finish`; `None`
/// where the writer refuses an entry (such as a name given twice). Claimed:
/// reading the archive back gives the items in order, each directory as a
/// directory with no contents and each file with its contents, provided no
/// file name ends in a separator (`is_dir` tells directories by a trailing
/// separator, and `add_directory` adds one). The bytes themselves are left
/// unsaid: the writer records the system it was built for in every entry.
#[verifier::external_body]
fn write_archive(items: &Vec<(String, Option<Vec<u8>>)>, mode: u32) -> (res: Option<Vec<u8>>)
    ensures
        res matches Some(b) ==> (file_names_unambiguous(archive_items(items@)) ==> archive_entries(b@) == Some(
            read_back_items(archive_items(items@)),
        )),
{
    let options = zip::write::SimpleFileOptions::default()
        .compression_method(zip::CompressionMethod::Zstd)
        .unix_permissions(mode);
    let mut zip = zip::ZipWriter::new(std::io::Cursor::new(Vec::new()));
    for (name, contents) in items {
        match contents {
            Some(data) => {
                zip.start_file(name.as_str(), options).ok()?;
                std::io::Write::write_all(&mut zip, data).ok()?;
            },
            None => zip.add_directory(name.as_str(), options).ok()?,
        }
    }
    zip.finish().ok().map(|cursor| cursor.into_inner())
}

/// The archive entries that a walk of the workspace gives, in order: the
/// root and entries that are neither files nor directories are passed over,
/// files and directories are named by their path with forward slashes.
pub open spec fn packed_items(entries: Seq<WorkspaceEntry>) -> Seq<(Seq<char>, Option<Seq<u8>>)>
    decreases entries.len(),
{
    if entries.len() == 0 {
        Seq::empty()
    } else {
        let prev = packed_items(entries.drop_last());
        let e = entries.last();
        if e.relative@.len() == 0 {
            prev
        } else if e.is_file {
            prev.push((forward_slashed(e.relative@), Some(e.contents@)))
        } else if e.is_dir {
            prev.push((forward_slashed(e.relative@), None))
        } else {
            prev
        }
    }
}

/// The archive items, in order, that a walk of the workspace gives.
pub fn pack_items(entries: &Vec<WorkspaceEntry>) -> (res: Vec<(String, Option<Vec<u8>>)>)
    ensures
        archive_items(res@) == packed_items(entries@),
{
    let mut items: Vec<(String, Option<Vec<u8>>)> = Vec::new();
    let n = entries.len();
    assert(entries@.take(0) =~= Seq::<WorkspaceEntry>::empty());
    assert(archive_items(items@) =~= Seq::empty());
    for i in 0..n
        invariant
            n == entries.len(),
            archive_items(items@) == packed_items(entries@.take(i as int)),
    {
        let e = &entries[i];
        assert(entries@.take(i + 1).drop_last() =~= entries@.take(i as int));
        assert(entries@.take(i + 1).last() == entries@[i as int]);
        let ghost before = items@;
        match pack_action(e.relative.as_str(), e.is_file, e.is_dir) {
            PackAction::AddFile(name) => {
                items.push((name, Some(slice_to_vec(e.contents.as_slice()))));
            },
            PackAction::AddDirectory(name) => {
                items.push((name, None));
            },
            PackAction::Skip => {},
        }
        assert(archive_items(items@) =~= packed_items(entries@.take(i + 1))) by {
            if items@.len() > before.len() {
                assert(items@ == before.push(items@.last()));
                assert(archive_items(items@) =~= archive_items(before).push(archive_items(items@).last()));
            } else {
                assert(items@ == before);
            }
        }
    }
    assert(entries@.take(n as int) =~= entries@);
    items
}

/// The bytes of the Zstandard-compressed archive that packs a walk of the
/// workspace (the items of `pack_items`, each with `ARCHIVE_MODE`), or
/// `None` where the ZIP writer refuses an entry. Read back, the archive
/// gives the packed directories and files in order, where no file name ends
/// in a separator.
pub fn pack_archive(entries: &Vec<WorkspaceEntry>) -> (res: Option<Vec<u8>>)
    ensures
        res matches Some(b) ==> (file_names_unambiguous(packed_items(entries@)) ==> archive_entries(b@) == Some(
            read_back_items(packed_items(entries@)),
        )),
{
    let items = pack_items(entries);
    write_archive(&items, ARCHIVE_MODE)
}

/// Unpacking what packing wrote: an archive that reads back as a packed
/// workspace can be unpacked in full (every entry can be read, so
/// `unpack_plan` gives a plan), and its entry `i` is a directory exactly
/// when a directory was packed at `i`, and otherwise holds the packed
/// file's bytes.
pub proof fn lemma_unpack_of_packed(entries: Seq<WorkspaceEntry>, archive: Seq<u8>)
    requires
        archive_entries(archive) == Some(read_back_items(packed_items(entries))),
    ensures
        readable_archive(archive),
        archive_entries(archive)->0.len() == packed_items(entries).len(),
        forall|i: int|
            #![trigger packed_items(entries)[i]]
            0 <= i < packed_items(entries).len() ==> {
                &&& archive_entries(archive)->0[i].0 == (packed_items(entries)[i].1 is None)
                &&& (packed_items(entries)[i].1 matches Some(c) ==> archive_entries(archive)->0[i].1 == Some(c))
            },
{
    let items = packed_items(entries);
    let es = read_back_items(items);
    assert forall|i: int| 0 <= i < es.len() implies (#[trigger] es[i]).1 is Some by {
        assert(es[i] == read_back(items[i]));
    }
    assert forall|i: int| #![trigger items[i]] 0 <= i < items.len() implies {
        &&& es[i].0 == (items[i].1 is None)
        &&& (items[i].1 matches Some(c) ==> es[i].1 == Some(c))
    } by {
        assert(es[i] == read_back(items[i]));
    }
}

/// A workspace entry that packing puts in the archive: not the root, and a
/// file or a directory.
pub open spec fn is_packed_entry(e: WorkspaceEntry) -> bool {
    e.relative@.len() > 0 && (e.is_file || e.is_dir)
}

/// The archive item for a workspace entry that is packed: its path with
/// forward slashes, and its bytes if it is a file.
pub open spec fn item_of_entry(e: WorkspaceEntry) -> (Seq<char>, Option<Seq<u8>>) {
    (forward_slashed(e.relative@), if e.is_file { Some(e.contents@) } else { None })
}

/// Packing keeps every file and directory of the walk, in the walk's order: there are as many
/// archive items as non-root files and directories, every file is there
/// under its forward-slashed path with all its bytes (empty ones too), and
/// every directory that is not a file is there as a directory.
pub proof fn lemma_packed_items(entries: Seq<WorkspaceEntry>)
    ensures
        packed_items(entries) == entries.filter(|e: WorkspaceEntry| is_packed_entry(e)).map_values(
            |e: WorkspaceEntry| item_of_entry(e),
        ),
        packed_items(entries).len() == entries.filter(|e: WorkspaceEntry| is_packed_entry(e)).len(),
        forall|i: int|
            #![trigger entries[i]]
            0 <= i < entries.len() && entries[i].relative@.len() > 0 && entries[i].is_file ==> packed_items(
                entries,
            ).contains((forward_slashed(entries[i].relative@), Some(entries[i].contents@))),
        forall|i: int|
            #![trigger entries[i]]
            0 <= i < entries.len() && entries[i].relative@.len() > 0 && !entries[i].is_file
                && entries[i].is_dir ==> packed_items(entries).contains(
                (forward_slashed(entries[i].relative@), None),
            ),
    decreases entries.len(),
{
    reveal(Seq::filter);
    if entries.len() > 0 {
        let before = entries.drop_last();
        let e = entries.last();
        lemma_packed_items(before);
        let prev = packed_items(before);
        let cur = packed_items(entries);
        let pred = |e: WorkspaceEntry| is_packed_entry(e);
        let f = |e: WorkspaceEntry| item_of_entry(e);
        if is_packed_entry(e) {
            assert(entries.filter(pred) == before.filter(pred).push(e));
            assert(before.filter(pred).push(e).map_values(f) =~= before.filter(pred).map_values(f).push(f(e)));
        } else {
            assert(entries.filter(pred) == before.filter(pred));
        }
        assert(forall|x| prev.contains(x) ==> cur.contains(x)) by {
            assert forall|x| prev.contains(x) implies cur.contains(x) by {
                let j = choose|j: int| 0 <= j < prev.len() && prev[j] == x;
                assert(cur[j] == x);
            }
        }
        assert forall|i: int| #![trigger entries[i]] 0 <= i < entries.len() && entries[i].relative@.len() > 0
            && entries[i].is_file implies cur.contains((forward_slashed(entries[i].relative@), Some(entries[i].contents@))) by {
            if i < entries.len() - 1 {
                assert(before[i] == entries[i]);
            } else {
                assert(cur[cur.len() - 1] == (forward_slashed(e.relative@), Some(e.contents@)));
            }
        }
        assert forall|i: int| #![trigger entries[i]] 0 <= i < entries.len() && entries[i].relative@.len() > 0
            && !entries[i].is_file && entries[i].is_dir implies cur.contains((forward_slashed(entries[i].relative@), None)) by {
            if i < entries.len() - 1 {
                assert(before[i] == entries[i]);
            } else {
                assert(cur[cur.len() - 1] == (forward_slashed(e.relative@), None::<Seq<u8>>));
            }
        }
    }
}

/// Unpacking an entry: it is skipped exactly when zip gives it no enclosed
/// name; otherwise a directory is created, and a file written with all its
/// bytes (empty ones too), under exactly that name. Only a file whose bytes
/// cannot be read stops the plan.
pub proof fn lemma_entry_step(e: ArchiveEntry)
    ensures
        entry_step(e) is None <==> (e.enclosed_name is Some && !e.is_dir && e.contents is None),
        entry_step(e) matches Some(st) ==> {
            &&& (st.0 == UnpackAction::Skip) == (e.enclosed_name is None)
            &&& (e.enclosed_name is None ==> st.1 is None)
            &&& (e.enclosed_name matches Some(p) ==> st.1 == Some(p@))
            &&& (e.enclosed_name is Some && e.is_dir ==> st.0 == UnpackAction::CreateDir)
            &&& (e.enclosed_name is Some && !e.is_dir ==> st.0 == UnpackAction::WriteFile && Some(st.2) == opt_bytes(e.contents))
        },
{
}

} // verus!
