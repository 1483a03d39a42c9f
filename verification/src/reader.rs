//! Reading an archive back into the filesystem operations that restore it.

use crate::container::archive_enclosed_name;
use crate::container::archive_entry_name;
use crate::container::archive_len;
use crate::container::archive_method;
use crate::container::archive_open;
use crate::container::archive_read;
use crate::container::archive_unix_mode;
use crate::container::container_message;
use crate::container::listed;
use crate::container::names_directory;
use crate::container::opens;
use crate::container::stored;
use crate::container::Listed;
use crate::container::MemoryArchive;
use crate::container::BACKSLASH;
use crate::error::ArchiveError;
use crate::error::ErrorView;
use crate::method::CompressionMethod;
use crate::path::SEPARATOR;
use crate::safety::is_enclosed;
use vstd::prelude::*;
use vstd::slice::slice_to_vec;
use vstd::utf8::encode_utf8;
use zip::result::ZipError;

verus! {

/// One entry as the container lists it.
#[derive(Debug, PartialEq, Eq)]
pub struct StoredEntry {
    /// The stored name.
    pub name: String,
    /// The name where it is safe to resolve below the extraction root.
    pub enclosed: Option<String>,
    /// Whether the entry marks a directory.
    pub is_dir: bool,
    /// The permission bits stored with the entry, if any.
    pub unix_mode: Option<u32>,
    /// The decoded payload of a file entry that is extracted; empty for
    /// every other entry.
    pub data: Vec<u8>,
}

/// The mathematical value of a `StoredEntry`; names as the bytes of their
/// UTF-8 encoding.
pub struct StoredView {
    pub name: Seq<u8>,
    pub enclosed: Option<Seq<u8>>,
    pub is_dir: bool,
    pub unix_mode: Option<u32>,
    pub data: Seq<u8>,
}

impl View for StoredEntry {
    type V = StoredView;

    open spec fn view(&self) -> StoredView {
        StoredView {
            name: encode_utf8(self.name@),
            enclosed: match self.enclosed {
                Some(name) => Some(encode_utf8(name@)),
                None => None,
            },
            is_dir: self.is_dir,
            unix_mode: self.unix_mode,
            data: self.data@,
        }
    }
}

impl StoredView {
    /// Whether the entry is as entries are read: it marks a directory
    /// exactly where its name does, and it has an enclosed name, the name
    /// itself, exactly where the name is safe to resolve.
    pub open spec fn well_formed(self) -> bool {
        &&& self.is_dir == names_directory(self.name)
        &&& self.enclosed == if is_enclosed(self.name) {
            Some(self.name)
        } else {
            None
        }
    }
}

/// The entry as it is read from what the archive holds. The enclosed name
/// and the directory mark follow from the name. The permission bits are
/// read where the entry is extracted, the payload where it is extracted as
/// a file.
pub open spec fn read_view(held: Listed) -> StoredView {
    let safe = is_enclosed(held.name);
    let is_dir = names_directory(held.name);
    StoredView {
        name: held.name,
        enclosed: if safe {
            Some(held.name)
        } else {
            None
        },
        is_dir,
        unix_mode: if safe {
            held.unix_mode
        } else {
            None
        },
        data: if safe && !is_dir {
            held.payload
        } else {
            Seq::empty()
        },
    }
}

/// Whether the payload of the entry is asked for: the entry is extracted as
/// a file. The payload of an entry that is skipped, and of a directory, is
/// not.
pub open spec fn payload_wanted(held: Listed) -> bool {
    is_enclosed(held.name) && !names_directory(held.name)
}

/// Whether the entry is one whose payload is wanted but not decoded here:
/// the container opens it, and it is stored under the method LZMA.
pub open spec fn unsupported(held: Listed) -> bool {
    held.opens && payload_wanted(held) && held.method == Some(CompressionMethod::Lzma)
}

/// Whether the entry can be read: the container opens it, and where its
/// payload is wanted, the method is one that is decoded here and the
/// container decodes the payload.
pub open spec fn readable(held: Listed) -> bool {
    held.opens && (payload_wanted(held) ==> held.method != Some(CompressionMethod::Lzma)
        && held.decodes)
}

/// The error that ends the reading at an entry which cannot be read:
/// `UnsupportedMethod` with the name of the entry where the method is not
/// decoded here, else `Container`.
pub open spec fn ends_with(held: Listed, error: ErrorView) -> bool {
    if unsupported(held) {
        error == ErrorView::UnsupportedMethod(held.name)
    } else {
        error is Container
    }
}

/// Whether `count` entries are read of what the archive holds: the reading
/// goes on to the first entry that cannot be read, or to the end.
pub open spec fn read_up_to(held: Seq<Listed>, count: int) -> bool {
    &&& 0 <= count <= held.len()
    &&& forall|k: int| 0 <= k < count ==> readable(#[trigger] held[k])
    &&& count < held.len() ==> !readable(held[count])
}

/// The entries as they are read from what the archive holds.
pub open spec fn read_views(held: Seq<Listed>) -> Seq<StoredView> {
    Seq::new(held.len(), |i: int| read_view(held[i]))
}

/// Where an entry is restored: the extraction root, if one was given, and
/// the path below it. Without a root the path is relative to the current
/// directory.
#[derive(Debug, PartialEq, Eq)]
pub struct OutputPath {
    pub root: Option<Vec<u8>>,
    pub relative: String,
}

/// The mathematical value of an `OutputPath`.
pub struct OutputView {
    pub root: Option<Seq<u8>>,
    pub relative: Seq<u8>,
}

/// The view of an optional extraction root.
pub open spec fn root_view(root: Option<Vec<u8>>) -> Option<Seq<u8>> {
    match root {
        Some(bytes) => Some(bytes@),
        None => None,
    }
}

impl View for OutputPath {
    type V = OutputView;

    open spec fn view(&self) -> OutputView {
        OutputView { root: root_view(self.root), relative: encode_utf8(self.relative@) }
    }
}

/// One filesystem operation of an extraction.
#[derive(Debug, PartialEq, Eq)]
pub enum ExtractStep {
    /// Create the directory and its missing ancestors; a directory that is
    /// there already is no error.
    CreateDirAll { path: OutputPath },
    /// Create the missing ancestors of the path.
    CreateParentDirs { path: OutputPath },
    /// Create the file, or empty the one that is there, and write to it the
    /// payload of the entry at index `entry`.
    WriteFile { path: OutputPath, entry: usize },
    /// Set the permission bits of the path, where the platform has them.
    SetPermissions { path: OutputPath, mode: u32 },
}

/// The mathematical value of an `ExtractStep`.
pub enum StepView {
    CreateDirAll { path: OutputView },
    CreateParentDirs { path: OutputView },
    WriteFile { path: OutputView, entry: int },
    SetPermissions { path: OutputView, mode: u32 },
}

impl View for ExtractStep {
    type V = StepView;

    open spec fn view(&self) -> StepView {
        match self {
            ExtractStep::CreateDirAll { path } => StepView::CreateDirAll { path: path@ },
            ExtractStep::CreateParentDirs { path } => StepView::CreateParentDirs { path: path@ },
            ExtractStep::WriteFile { path, entry } => StepView::WriteFile {
                path: path@,
                entry: *entry as int,
            },
            ExtractStep::SetPermissions { path, mode } => StepView::SetPermissions {
                path: path@,
                mode: *mode,
            },
        }
    }
}

impl StepView {
    /// The path that the step works on.
    pub open spec fn path(self) -> OutputView {
        match self {
            StepView::CreateDirAll { path } => path,
            StepView::CreateParentDirs { path } => path,
            StepView::WriteFile { path, .. } => path,
            StepView::SetPermissions { path, .. } => path,
        }
    }
}

/// The views of stored entries.
pub open spec fn stored_view(entries: Seq<StoredEntry>) -> Seq<StoredView> {
    Seq::new(entries.len(), |i: int| entries[i]@)
}

/// The views of extraction steps.
pub open spec fn steps_view(steps: Seq<ExtractStep>) -> Seq<StepView> {
    Seq::new(steps.len(), |i: int| steps[i]@)
}

/// What an extraction has to do: the entries read, the steps that restore
/// them, and the failure that ended the reading, if any.
#[derive(Debug, PartialEq, Eq)]
pub struct Extraction {
    /// The entries that were read, in storage order.
    pub entries: Vec<StoredEntry>,
    /// The steps, in the order in which they are to be performed. They
    /// restore the entries read; steps for entries behind a failure are
    /// not among them.
    pub steps: Vec<ExtractStep>,
    /// The failure that ended the reading. The steps are still to be
    /// performed before it is reported.
    pub failure: Option<ArchiveError>,
}

/// The path at which an entry is restored, or `UnsafeEntryName` where the
/// entry has no enclosed name.
pub open spec fn resolved(entry: StoredView, root: Option<Seq<u8>>) -> Result<OutputView, ErrorView> {
    match entry.enclosed {
        Some(relative) => Ok(OutputView { root, relative }),
        None => Err(ErrorView::UnsafeEntryName(entry.name)),
    }
}

/// The steps that restore one entry, which stands at `index` among the
/// entries read. An entry without an enclosed name is skipped. A directory
/// is created with its ancestors. For a file the missing ancestors are
/// created, then the file is written. Last, the permission bits are set
/// where the entry has some.
pub open spec fn entry_steps(index: int, entry: StoredView, root: Option<Seq<u8>>) -> Seq<StepView> {
    match resolved(entry, root) {
        Err(_) => Seq::empty(),
        Ok(path) => {
            let made = if entry.is_dir {
                seq![StepView::CreateDirAll { path }]
            } else {
                seq![StepView::CreateParentDirs { path }, StepView::WriteFile { path, entry: index }]
            };
            match entry.unix_mode {
                Some(mode) => made.push(StepView::SetPermissions { path, mode }),
                None => made,
            }
        },
    }
}

/// The steps that restore the entries, in storage order.
pub open spec fn extraction_steps(entries: Seq<StoredView>, root: Option<Seq<u8>>) -> Seq<StepView>
    decreases entries.len(),
{
    if entries.len() == 0 {
        Seq::empty()
    } else {
        extraction_steps(entries.drop_last(), root) + entry_steps(
            entries.len() - 1,
            entries.last(),
            root,
        )
    }
}

/// Whether a stored name marks a directory: it ends with `/` or `\`.
pub fn name_is_dir(name: &str) -> (is_dir: bool)
    ensures
        is_dir == names_directory(encode_utf8(name@)),
{
    let bytes = name.as_bytes();
    let len = bytes.len();
    if len == 0 {
        false
    } else {
        let last = bytes[len - 1];
        last == SEPARATOR || last == BACKSLASH
    }
}

/// A copy of an optional extraction root.
fn copy_root(root: &Option<Vec<u8>>) -> (copy: Option<Vec<u8>>)
    ensures
        root_view(copy) == root_view(*root),
{
    match root {
        Some(bytes) => Some(slice_to_vec(bytes.as_slice())),
        None => None,
    }
}

/// The path at which an entry is restored: its enclosed name below the
/// extraction root. An entry without an enclosed name has none, and is
/// reported by `UnsafeEntryName` with its stored name.
pub fn resolve_entry(entry: &StoredEntry, output_dir: &Option<Vec<u8>>) -> (path: Result<
    OutputPath,
    ArchiveError,
>)
    ensures
        match path {
            Ok(found) => resolved(entry@, root_view(*output_dir)) == Ok::<OutputView, ErrorView>(
                found@,
            ),
            Err(error) => resolved(entry@, root_view(*output_dir)) == Err::<OutputView, ErrorView>(
                error@,
            ),
        },
{
    match &entry.enclosed {
        Some(relative) => Ok(OutputPath { root: copy_root(output_dir), relative: relative.clone() }),
        None => Err(ArchiveError::UnsafeEntryName(entry.name.clone())),
    }
}

/// A copy of an output path.
fn copy_path(path: &OutputPath) -> (copy: OutputPath)
    ensures
        copy@ == path@,
{
    OutputPath { root: copy_root(&path.root), relative: path.relative.clone() }
}

/// Adds to `steps` the steps that restore `entry`, which stands at `index`
/// among the entries read.
pub fn plan_entry(
    index: usize,
    entry: &StoredEntry,
    output_dir: &Option<Vec<u8>>,
    steps: &mut Vec<ExtractStep>,
)
    ensures
        steps_view(final(steps)@) == steps_view(old(steps)@) + entry_steps(
            index as int,
            entry@,
            root_view(*output_dir),
        ),
{
    let ghost before = steps_view(steps@);
    let ghost root = root_view(*output_dir);
    match resolve_entry(entry, output_dir) {
        Err(_) => {
            proof {
                assert(steps_view(steps@) =~= before + Seq::<StepView>::empty());
            }
        },
        Ok(path) => {
            let ghost place = path@;
            if entry.is_dir {
                steps.push(ExtractStep::CreateDirAll { path: copy_path(&path) });
                proof {
                    assert(steps_view(steps@) =~= before + seq![
                        StepView::CreateDirAll { path: place },
                    ]);
                }
            } else {
                steps.push(ExtractStep::CreateParentDirs { path: copy_path(&path) });
                steps.push(ExtractStep::WriteFile { path: copy_path(&path), entry: index });
                proof {
                    assert(steps_view(steps@) =~= before + seq![
                        StepView::CreateParentDirs { path: place },
                        StepView::WriteFile { path: place, entry: index as int },
                    ]);
                }
            }
            let ghost made = steps_view(steps@);
            if let Some(mode) = entry.unix_mode {
                steps.push(ExtractStep::SetPermissions { path, mode });
                proof {
                    assert(steps_view(steps@) =~= made.push(
                        StepView::SetPermissions { path: place, mode },
                    ));
                    assert(steps_view(steps@) =~= before + entry_steps(index as int, entry@, root));
                }
            }
        },
    }
}

/// The steps that restore the entries, in storage order, below
/// `output_dir`, or below the current directory where none is given.
pub fn plan_extraction(entries: &Vec<StoredEntry>, output_dir: &Option<Vec<u8>>) -> (steps: Vec<
    ExtractStep,
>)
    ensures
        steps_view(steps@) == extraction_steps(stored_view(entries@), root_view(*output_dir)),
{
    let mut steps: Vec<ExtractStep> = Vec::new();
    let mut i: usize = 0;
    let ghost all = stored_view(entries@);
    let ghost root = root_view(*output_dir);
    proof {
        assert(all.take(0) =~= Seq::empty());
        assert(steps_view(steps@) =~= Seq::empty());
    }
    while i < entries.len()
        invariant
            i <= entries.len(),
            all == stored_view(entries@),
            root == root_view(*output_dir),
            steps_view(steps@) == extraction_steps(all.take(i as int), root),
        decreases entries.len() - i,
    {
        proof {
            assert(all.take(i + 1).drop_last() =~= all.take(i as int));
            assert(all.take(i + 1).last() == entries@[i as int]@);
        }
        plan_entry(i, &entries[i], output_dir, &mut steps);
        i += 1;
    }
    proof {
        assert(all.take(entries.len() as int) =~= all);
    }
    steps
}

/// Reads the entry at `index` out of the archive: its name, its enclosed
/// name, whether it marks a directory, and, where it is extracted, its
/// permission bits and, for a file, its payload. Succeeds exactly where the
/// entry can be read. The payload of a file under the method LZMA is not
/// asked for: the entry fails with `UnsupportedMethod`.
fn read_entry(archive: &mut MemoryArchive, index: usize) -> (entry: Result<
    StoredEntry,
    ArchiveError,
>)
    requires
        index < stored(*old(archive)).len(),
    ensures
        stored(*final(archive)) == stored(*old(archive)),
        entry is Ok <==> readable(stored(*old(archive))[index as int]),
        entry matches Ok(read) ==> read@ == read_view(stored(*old(archive))[index as int]),
        entry matches Err(error) ==> ends_with(stored(*old(archive))[index as int], error@),
{
    let name = match archive_entry_name(archive, index) {
        Some(name) => name,
        None => String::new(),
    };
    let is_dir = name_is_dir(name.as_str());
    let enclosed = match archive_enclosed_name(archive, index) {
        Ok(enclosed) => enclosed,
        Err(error) => {
            return Err(refused(error));
        },
    };
    if enclosed.is_none() {
        return Ok(StoredEntry { name, enclosed, is_dir, unix_mode: None, data: Vec::new() });
    }
    let data = if is_dir {
        Vec::new()
    } else {
        let method = match archive_method(archive, index) {
            Ok(method) => method,
            Err(error) => {
                return Err(refused(error));
            },
        };
        if let Some(CompressionMethod::Lzma) = method {
            return Err(ArchiveError::UnsupportedMethod(name));
        }
        match archive_read(archive, index) {
            Ok(data) => data,
            Err(error) => {
                return Err(refused(error));
            },
        }
    };
    let unix_mode = match archive_unix_mode(archive, index) {
        Ok(mode) => mode,
        Err(error) => {
            return Err(refused(error));
        },
    };
    Ok(StoredEntry { name, enclosed, is_dir, unix_mode, data })
}

/// The error for a refusal of the container.
fn refused(error: ZipError) -> (refusal: ArchiveError)
    ensures
        refusal@ is Container,
{
    ArchiveError::Container(container_message(&error))
}

/// Whether the entries and the steps are those of the extraction of the
/// archive in `bytes` below `root`: the entries are all that the archive
/// holds, as they are read, and the steps are those that restore them.
pub open spec fn extracts(
    bytes: Seq<u8>,
    root: Option<Seq<u8>>,
    entries: Seq<StoredView>,
    steps: Seq<StepView>,
) -> bool {
    &&& entries == read_views(listed(bytes))
    &&& steps == extraction_steps(entries, root)
}

/// Reads the archive held in `archive` and plans its extraction below
/// `output_dir`, or below the current directory where none is given.
///
/// The entries are read in storage order, and each is restored by the steps
/// of `entry_steps`: an entry whose name is not safe to resolve below the
/// root is skipped, a directory is created, a file is written, permission
/// bits are set where the entry has some. The extraction goes through
/// exactly where the container opens the archive and every entry can be
/// read: an entry that is skipped for its name ends nothing. Where the
/// container does not open the archive, nothing is read; where an entry
/// cannot be read, the reading ends at the first such entry. Either is
/// reported as `Container`, but a file under the method LZMA, which is
/// reported as `UnsupportedMethod` with its name. The entries read before
/// are the first that the archive holds, and the steps for them are still
/// planned.
pub fn extract_archive(archive: Vec<u8>, output_dir: Option<Vec<u8>>) -> (extraction: Extraction)
    ensures
        extraction.failure is None <==> opens(archive@) && extraction.entries@.len() == listed(
            archive@,
        ).len(),
        !opens(archive@) ==> extraction.entries@.len() == 0,
        opens(archive@) ==> read_up_to(listed(archive@), extraction.entries@.len() as int),
        steps_view(extraction.steps@) == extraction_steps(
            stored_view(extraction.entries@),
            root_view(output_dir),
        ),
        forall|i: int|
            0 <= i < extraction.entries@.len() ==> (#[trigger] extraction.entries@[i])@.well_formed(),
        extraction.entries@.len() <= listed(archive@).len(),
        stored_view(extraction.entries@) == read_views(listed(archive@)).take(
            extraction.entries@.len() as int,
        ),
        extraction.failure matches Some(error) ==> if opens(archive@) {
            ends_with(listed(archive@)[extraction.entries@.len() as int], error@)
        } else {
            error@ is Container
        },
        extraction.failure is None ==> extracts(
            archive@,
            root_view(output_dir),
            stored_view(extraction.entries@),
            steps_view(extraction.steps@),
        ),
{
    let ghost root = root_view(output_dir);
    let mut entries: Vec<StoredEntry> = Vec::new();
    let mut steps: Vec<ExtractStep> = Vec::new();
    proof {
        assert(steps_view(steps@) =~= Seq::empty());
        assert(stored_view(entries@) =~= Seq::empty());
    }
    let mut opened = match archive_open(archive) {
        Ok(opened) => opened,
        Err(error) => {
            let failure = Some(refused(error));
            proof {
                assert(stored_view(entries@) =~= read_views(listed(archive@)).take(0));
            }
            return Extraction { entries, steps, failure };
        },
    };
    let count = archive_len(&opened);
    let mut failure: Option<ArchiveError> = None;
    let mut i: usize = 0;
    while i < count
        invariant_except_break
            entries@.len() == i,
            failure is None,
        invariant
            i <= count,
            count == stored(opened).len(),
            stored(opened) == listed(archive@),
            opens(archive@),
            root == root_view(output_dir),
            forall|k: int| 0 <= k < entries@.len() ==> readable(#[trigger] stored(opened)[k]),
            steps_view(steps@) == extraction_steps(stored_view(entries@), root),
            forall|k: int| 0 <= k < entries@.len() ==> (#[trigger] entries@[k])@.well_formed(),
            forall|k: int|
                0 <= k < entries@.len() ==> (#[trigger] entries@[k])@ == read_view(stored(opened)[k]),
        ensures
            steps_view(steps@) == extraction_steps(stored_view(entries@), root),
            forall|k: int| 0 <= k < entries@.len() ==> (#[trigger] entries@[k])@.well_formed(),
            failure matches Some(error) ==> ends_with(
                stored(opened)[entries@.len() as int],
                error@,
            ),
            failure is None ==> stored_view(entries@) == read_views(listed(archive@)),
            failure is None <==> entries@.len() == count,
            read_up_to(stored(opened), entries@.len() as int),
            entries@.len() <= count,
            forall|k: int|
                0 <= k < entries@.len() ==> (#[trigger] entries@[k])@ == read_view(stored(opened)[k]),
        decreases count - i,
    {
        match read_entry(&mut opened, i) {
            Err(error) => {
                failure = Some(error);
                break;
            },
            Ok(entry) => {
                let ghost before = stored_view(entries@);
                plan_entry(i, &entry, &output_dir, &mut steps);
                entries.push(entry);
                proof {
                    let after = stored_view(entries@);
                    assert(after.drop_last() =~= before);
                }
            },
        }
        i += 1;
        proof {
            if i == count {
                assert(stored_view(entries@) =~= read_views(listed(archive@)));
            }
        }
    }
    proof {
        if failure is None {
            assert(stored_view(entries@) =~= read_views(listed(archive@)));
        }
        assert(stored_view(entries@) =~= read_views(listed(archive@)).take(entries@.len() as int));
    }
    Extraction { entries, steps, failure }
}

/// An entry whose name is not safe to resolve below the root is skipped:
/// no step works on it.
pub proof fn unsafe_entry_is_skipped(index: int, entry: StoredView, root: Option<Seq<u8>>)
    requires
        entry.well_formed(),
        !is_enclosed(entry.name),
    ensures
        entry_steps(index, entry, root) == Seq::<StepView>::empty(),
{
}

/// An entry whose name is safe is restored, and every step for it works on
/// its name below the root.
pub proof fn safe_entry_is_restored(index: int, entry: StoredView, root: Option<Seq<u8>>)
    requires
        entry.well_formed(),
        is_enclosed(entry.name),
    ensures
        entry_steps(index, entry, root).len() > 0,
        forall|k: int|
            0 <= k < entry_steps(index, entry, root).len() ==> (#[trigger] entry_steps(
                index,
                entry,
                root,
            )[k]).path() == (OutputView { root, relative: entry.name }),
{
}

/// Every step of an extraction works below the extraction root, on a path
/// that is safe to resolve there, and a step that writes a file takes its
/// bytes from a file entry of that very name.
pub proof fn steps_stay_below_root(entries: Seq<StoredView>, root: Option<Seq<u8>>, k: int)
    requires
        forall|i: int| 0 <= i < entries.len() ==> (#[trigger] entries[i]).well_formed(),
        0 <= k < extraction_steps(entries, root).len(),
    ensures
        extraction_steps(entries, root)[k].path().root == root,
        is_enclosed(extraction_steps(entries, root)[k].path().relative),
        extraction_steps(entries, root)[k] matches StepView::WriteFile { path, entry } ==> 0
            <= entry < entries.len() && !entries[entry].is_dir && entries[entry].name
            == path.relative,
    decreases entries.len(),
{
    if entries.len() > 0 {
        let front = extraction_steps(entries.drop_last(), root);
        if k < front.len() {
            assert forall|i: int| 0 <= i < entries.drop_last().len() implies (
            #[trigger] entries.drop_last()[i]).well_formed() by {
                assert(entries.drop_last()[i] == entries[i]);
            }
            steps_stay_below_root(entries.drop_last(), root, k);
            let step = front[k];
            if let StepView::WriteFile { path, entry } = step {
                assert(entries.drop_last()[entry] == entries[entry]);
            }
        } else {
            assert(entries.last().well_formed());
        }
    }
}

/// The files that performing the steps leaves behind, whatever was there
/// before: at every path that a step writes, the payload that was written
/// there last. A write replaces what the file held.
pub open spec fn files_written(steps: Seq<StepView>, entries: Seq<StoredView>) -> Map<
    OutputView,
    Seq<u8>,
>
    decreases steps.len(),
{
    if steps.len() == 0 {
        Map::empty()
    } else {
        let before = files_written(steps.drop_last(), entries);
        match steps.last() {
            StepView::WriteFile { path, entry } => before.insert(path, entries[entry].data),
            _ => before,
        }
    }
}

/// Extracting the same archive below the same root again reads the same
/// entries, with the same payloads, and plans the same steps: the second
/// extraction leaves behind the files that the first one left, with the
/// same contents.
pub proof fn extraction_is_repeatable(
    bytes: Seq<u8>,
    root: Option<Seq<u8>>,
    first_entries: Seq<StoredView>,
    first_steps: Seq<StepView>,
    second_entries: Seq<StoredView>,
    second_steps: Seq<StepView>,
)
    requires
        extracts(bytes, root, first_entries, first_steps),
        extracts(bytes, root, second_entries, second_steps),
    ensures
        first_entries == second_entries,
        first_steps == second_steps,
        files_written(first_steps, first_entries) == files_written(second_steps, second_entries),
{
}

/// Performing the steps of an extraction twice in a row leaves behind the
/// files that performing them once leaves, with the same contents.
pub proof fn second_run_changes_nothing(steps: Seq<StepView>, entries: Seq<StoredView>)
    ensures
        files_written(steps + steps, entries) == files_written(steps, entries),
{
    let twice = files_written(steps + steps, entries);
    let once = files_written(steps, entries);
    assert forall|path: OutputView| #[trigger]
        twice.dom().contains(path) == once.dom().contains(path) by {
        files_written_at(steps, steps, entries, path);
    }
    assert(twice.dom() =~= once.dom());
    assert forall|path: OutputView| #[trigger] once.dom().contains(path) implies twice[path]
        == once[path] by {
        files_written_at(steps, steps, entries, path);
    }
    assert(twice =~= once);
}

/// What later steps write at a path decides what is left there; earlier
/// steps show only where the later ones write nothing.
proof fn files_written_at(
    first: Seq<StepView>,
    second: Seq<StepView>,
    entries: Seq<StoredView>,
    path: OutputView,
)
    ensures
        files_written(second, entries).dom().contains(path) ==> files_written(
            first + second,
            entries,
        ).dom().contains(path) && files_written(first + second, entries)[path] == files_written(
            second,
            entries,
        )[path],
        !files_written(second, entries).dom().contains(path) ==> (files_written(
            first + second,
            entries,
        ).dom().contains(path) == files_written(first, entries).dom().contains(path)),
    decreases second.len(),
{
    if second.len() == 0 {
        assert(first + second =~= first);
    } else {
        let init = second.drop_last();
        assert((first + second).drop_last() =~= first + init);
        assert((first + second).last() == second.last());
        files_written_at(first, init, entries, path);
    }
}

} // verus!
