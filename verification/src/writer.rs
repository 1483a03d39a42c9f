//! Writing an archive from a walked source tree or from a single file.

use crate::container::added_directory;
use crate::container::chosen;
use crate::container::container_message;
use crate::container::directory_name;
use crate::container::grown;
use crate::container::keeps;
use crate::container::listed;
use crate::container::opens;
use crate::container::plain_form;
use crate::container::sink_add_directory;
use crate::container::sink_finish;
use crate::container::sink_new;
use crate::container::sink_start_file;
use crate::container::started_file;
use crate::container::written;
use crate::container::ArchiveSink;
use crate::container::CodecOptions;
use crate::container::Handed;
use crate::container::MAX_NAME_LEN;
use crate::error::ArchiveError;
use crate::error::ErrorView;
use crate::options::held;
use crate::options::options_for;
use crate::options::password_view;
use crate::options::EntryOptions;
use crate::options::OptionsView;
use crate::path::components;
use crate::path::node_plan;
use crate::path::non_utf8_component_is_rejected;
use crate::path::plan_node;
use crate::path::relative_path;
use crate::path::root_gets_no_entry;
use crate::path::text_of;
use crate::path::under_root;
use crate::path::NodePlan;
use crate::path::PlanView;
use crate::stream::copy_chunks;
use crate::stream::stream_chunks;
use crate::stream::streamed;
use vstd::prelude::*;
use vstd::utf8::encode_utf8;
use vstd::utf8::valid_utf8;
use zip::result::ZipError;

verus! {

/// One node that the traversal of a source tree came upon.
#[derive(Debug, PartialEq, Eq)]
pub struct SourceNode {
    /// The components of its path, those of the traversal root first.
    pub path: Vec<Vec<u8>>,
    /// Whether it is a regular file. What is no regular file is archived as
    /// a directory.
    pub is_file: bool,
    /// For a regular file its bytes, or the message of the failure to read
    /// them. Not looked at for other nodes.
    pub content: Result<Vec<u8>, String>,
}

/// What is to be archived.
#[derive(Debug, PartialEq, Eq)]
pub enum Source {
    /// A single file: its path as it was given, and its bytes or the message
    /// of the failure to read them.
    File { path: Vec<u8>, content: Result<Vec<u8>, String> },
    /// A directory: the components of its path, and what the traversal
    /// yielded, in traversal order, the root itself included. A traversal
    /// step that failed is given by its message.
    Directory { root: Vec<Vec<u8>>, nodes: Vec<Result<SourceNode, String>> },
}

/// The mathematical value of a `SourceNode`.
pub struct NodeView {
    pub path: Seq<Seq<u8>>,
    pub is_file: bool,
    pub content: Result<Seq<u8>, Seq<char>>,
}

/// The mathematical value of a `Source`.
pub enum SourceView {
    File { path: Seq<u8>, content: Result<Seq<u8>, Seq<char>> },
    Directory { root: Seq<Seq<u8>>, nodes: Seq<Result<NodeView, Seq<char>>> },
}

/// The view of the content of a file.
pub open spec fn content_view(content: Result<Vec<u8>, String>) -> Result<Seq<u8>, Seq<char>> {
    match content {
        Ok(bytes) => Ok(bytes@),
        Err(message) => Err(message@),
    }
}

/// The view of one traversal step.
pub open spec fn step_view(step: Result<SourceNode, String>) -> Result<NodeView, Seq<char>> {
    match step {
        Ok(node) => Ok(node@),
        Err(message) => Err(message@),
    }
}

/// The view of a traversal.
pub open spec fn walk_view(nodes: Seq<Result<SourceNode, String>>) -> Seq<
    Result<NodeView, Seq<char>>,
> {
    Seq::new(nodes.len(), |i: int| step_view(nodes[i]))
}

impl View for SourceNode {
    type V = NodeView;

    open spec fn view(&self) -> NodeView {
        NodeView {
            path: components(&self.path),
            is_file: self.is_file,
            content: content_view(self.content),
        }
    }
}

impl View for Source {
    type V = SourceView;

    open spec fn view(&self) -> SourceView {
        match self {
            Source::File { path, content } => SourceView::File {
                path: path@,
                content: content_view(*content),
            },
            Source::Directory { root, nodes } => SourceView::Directory {
                root: components(root),
                nodes: walk_view(nodes@),
            },
        }
    }
}

/// One entry of an archive, as it is handed to the container.
#[derive(Debug, PartialEq, Eq)]
pub enum PlannedEntry {
    /// A file entry: its name and its payload.
    File { name: String, payload: Vec<u8> },
    /// A directory entry: its name. It has no payload.
    Directory { name: String },
}

/// The mathematical value of a `PlannedEntry`; names as the bytes of their
/// UTF-8 encoding.
pub enum EntryView {
    File { name: Seq<u8>, payload: Seq<u8> },
    Directory { name: Seq<u8> },
}

impl View for PlannedEntry {
    type V = EntryView;

    open spec fn view(&self) -> EntryView {
        match self {
            PlannedEntry::File { name, payload } => EntryView::File {
                name: encode_utf8(name@),
                payload: payload@,
            },
            PlannedEntry::Directory { name } => EntryView::Directory { name: encode_utf8(name@) },
        }
    }
}

/// The views of planned entries.
pub open spec fn entries_view(entries: Seq<PlannedEntry>) -> Seq<EntryView> {
    Seq::new(entries.len(), |i: int| entries[i]@)
}

/// The entry that one traversed node gives, if any: what `node_plan` decides
/// for its path, with the bytes of the file streamed into the payload. A
/// file that cannot be read is an error.
pub open spec fn node_entry(root: Seq<Seq<u8>>, node: NodeView, chunk: usize) -> Result<
    Option<EntryView>,
    ErrorView,
> {
    match node_plan(root, node.path, node.is_file) {
        Err(error) => Err(error),
        Ok(PlanView::Skip) => Ok(None),
        Ok(PlanView::Directory { name }) => Ok(Some(EntryView::Directory { name })),
        Ok(PlanView::File { name }) => match node.content {
            Err(message) => Err(ErrorView::Io(message)),
            Ok(bytes) => Ok(Some(EntryView::File { name, payload: streamed(bytes, chunk) })),
        },
    }
}

/// The entries that a traversal gives, in traversal order. The first step
/// that fails decides the error: a failed traversal step, or a node whose
/// entry cannot be made.
pub open spec fn tree_entries(
    root: Seq<Seq<u8>>,
    nodes: Seq<Result<NodeView, Seq<char>>>,
    chunk: usize,
) -> Result<Seq<EntryView>, ErrorView>
    decreases nodes.len(),
{
    if nodes.len() == 0 {
        Ok(Seq::empty())
    } else {
        match tree_entries(root, nodes.drop_last(), chunk) {
            Err(error) => Err(error),
            Ok(entries) => match nodes.last() {
                Err(message) => Err(ErrorView::Traversal(message)),
                Ok(node) => match node_entry(root, node, chunk) {
                    Err(error) => Err(error),
                    Ok(None) => Ok(entries),
                    Ok(Some(entry)) => Ok(entries.push(entry)),
                },
            },
        }
    }
}

/// The one entry that a single file gives: a file entry named by the path
/// as it was given. A file that cannot be read, a path that is not valid
/// UTF-8 and a name that the container cannot store are errors, looked for
/// in this order.
pub open spec fn file_entries(path: Seq<u8>, content: Result<Seq<u8>, Seq<char>>, chunk: usize) -> Result<
    Seq<EntryView>,
    ErrorView,
> {
    match content {
        Err(message) => Err(ErrorView::Io(message)),
        Ok(bytes) => if !valid_utf8(path) {
            Err(ErrorView::NonUtf8Path(path))
        } else if path.len() > MAX_NAME_LEN {
            Err(ErrorView::NameTooLong(path))
        } else {
            Ok(seq![EntryView::File { name: path, payload: streamed(bytes, chunk) }])
        },
    }
}

/// The entries of the archive of a source, or the error on which archiving
/// is given up before the container is asked for anything it could refuse.
pub open spec fn source_entries(source: SourceView, chunk: usize) -> Result<
    Seq<EntryView>,
    ErrorView,
> {
    match source {
        SourceView::File { path, content } => file_entries(path, content, chunk),
        SourceView::Directory { root, nodes } => tree_entries(root, nodes, chunk),
    }
}

/// The stored name and the payload under which the container holds an
/// entry: a directory under its name with the directory mark, without
/// payload.
pub open spec fn stored_form(entry: EntryView) -> (Seq<u8>, Seq<u8>) {
    match entry {
        EntryView::File { name, payload } => (name, payload),
        EntryView::Directory { name } => (directory_name(name), Seq::empty()),
    }
}

/// An entry as the container is handed it with the given options through a
/// buffer of `chunk` bytes: a file started with them and grown by what the
/// buffer carries of its payload, or a directory added with them.
pub open spec fn handed_entry(entry: EntryView, chunk: usize, settings: OptionsView) -> Handed {
    match entry {
        EntryView::File { name, payload } => grown(
            started_file(name, settings),
            streamed(payload, chunk),
        ),
        EntryView::Directory { name } => added_directory(name, settings),
    }
}

/// What the container holds after it has been handed the entries with the
/// given options through a buffer of `chunk` bytes.
pub open spec fn handed(entries: Seq<EntryView>, chunk: usize, settings: OptionsView) -> Seq<
    Handed,
> {
    Seq::new(entries.len(), |i: int| handed_entry(entries[i], chunk, settings))
}

/// Whether the container can store the name of the entry.
pub open spec fn storable(entry: EntryView) -> bool {
    match entry {
        EntryView::File { name, .. } => name.len() <= MAX_NAME_LEN,
        EntryView::Directory { name } => directory_name(name).len() <= MAX_NAME_LEN,
    }
}

/// Whether the container can store the names of all entries.
pub open spec fn all_storable(entries: Seq<EntryView>) -> bool {
    forall|i: int| 0 <= i < entries.len() ==> storable(#[trigger] entries[i])
}

/// The error for a refusal of the container.
fn refused(error: ZipError) -> (refusal: ArchiveError)
    ensures
        refusal@ is Container,
{
    ArchiveError::Container(container_message(&error))
}

/// Hands the sink a file entry: starts it with the options and streams
/// `data` to it through a buffer of `chunk` bytes.
fn write_file(
    sink: ArchiveSink,
    name: &str,
    data: &[u8],
    codec: &CodecOptions<'_>,
    chunk: usize,
) -> (next: Result<ArchiveSink, ZipError>)
    requires
        encode_utf8(name@).len() <= MAX_NAME_LEN,
    ensures
        next matches Ok(after) ==> written(after) == written(sink).push(
            grown(started_file(encode_utf8(name@), chosen(*codec)), streamed(data@, chunk)),
        ),
{
    let started = match sink_start_file(sink, name, codec) {
        Ok(started) => started,
        Err(error) => {
            return Err(error);
        },
    };
    proof {
        assert(written(started).drop_last() =~= written(sink));
    }
    copy_chunks(started, data, chunk)
}

/// Hands the sink one planned entry with the options: a file with its
/// payload, streamed through a buffer of `chunk` bytes, or a directory.
fn write_entry(
    sink: ArchiveSink,
    entry: &PlannedEntry,
    codec: &CodecOptions<'_>,
    chunk: usize,
) -> (next: Result<ArchiveSink, ZipError>)
    requires
        storable(entry@),
    ensures
        next matches Ok(after) ==> written(after) == written(sink).push(
            handed_entry(entry@, chunk, chosen(*codec)),
        ),
{
    match entry {
        PlannedEntry::Directory { name } => sink_add_directory(sink, name.as_str(), codec),
        PlannedEntry::File { name, payload } => write_file(
            sink,
            name.as_str(),
            payload.as_slice(),
            codec,
            chunk,
        ),
    }
}

/// Hands the sink the planned entries, in order, each with the options, and
/// gives up at the first that the container refuses.
fn write_plan(
    sink: ArchiveSink,
    plan: &Vec<PlannedEntry>,
    codec: &CodecOptions<'_>,
    chunk: usize,
) -> (next: Result<ArchiveSink, ZipError>)
    requires
        all_storable(entries_view(plan@)),
    ensures
        next matches Ok(after) ==> written(after) == written(sink) + handed(
            entries_view(plan@),
            chunk,
            chosen(*codec),
        ),
{
    let mut current = sink;
    let mut i: usize = 0;
    let ghost entries = entries_view(plan@);
    let ghost settings = chosen(*codec);
    proof {
        assert(written(sink) + handed(entries.take(0), chunk, settings) =~= written(sink));
    }
    while i < plan.len()
        invariant
            i <= plan.len(),
            entries == entries_view(plan@),
            settings == chosen(*codec),
            all_storable(entries),
            written(current) == written(sink) + handed(entries.take(i as int), chunk, settings),
        decreases plan.len() - i,
    {
        proof {
            assert(entries[i as int] == plan@[i as int]@);
        }
        match write_entry(current, &plan[i], codec, chunk) {
            Ok(after) => {
                current = after;
            },
            Err(error) => {
                return Err(error);
            },
        }
        proof {
            assert(handed(entries.take(i + 1), chunk, settings) =~= handed(
                entries.take(i as int),
                chunk,
                settings,
            ).push(handed_entry(entries[i as int], chunk, settings)));
            assert(written(current) =~= written(sink) + handed(
                entries.take(i + 1),
                chunk,
                settings,
            ));
        }
        i += 1;
    }
    proof {
        assert(entries.take(plan.len() as int) =~= entries);
    }
    Ok(current)
}

/// One traversal step more: the entries of the longer traversal are those
/// of the shorter one and then what the last step gives.
pub proof fn tree_entries_step(
    root: Seq<Seq<u8>>,
    nodes: Seq<Result<NodeView, Seq<char>>>,
    chunk: usize,
    count: int,
)
    requires
        0 <= count < nodes.len(),
    ensures
        tree_entries(root, nodes.take(count + 1), chunk) == match tree_entries(
            root,
            nodes.take(count),
            chunk,
        ) {
            Err(error) => Err(error),
            Ok(entries) => match nodes[count] {
                Err(message) => Err(ErrorView::Traversal(message)),
                Ok(node) => match node_entry(root, node, chunk) {
                    Err(error) => Err(error),
                    Ok(None) => Ok(entries),
                    Ok(Some(entry)) => Ok(entries.push(entry)),
                },
            },
        },
{
    assert(nodes.take(count + 1).drop_last() =~= nodes.take(count));
    assert(nodes.take(count + 1).last() == nodes[count]);
}

/// An error at some step is the error of every longer traversal.
pub proof fn tree_entries_rest(
    root: Seq<Seq<u8>>,
    nodes: Seq<Result<NodeView, Seq<char>>>,
    chunk: usize,
    count: int,
)
    requires
        0 <= count <= nodes.len(),
        tree_entries(root, nodes.take(count), chunk) is Err,
    ensures
        tree_entries(root, nodes, chunk) == tree_entries(root, nodes.take(count), chunk),
    decreases nodes.len() - count,
{
    if count == nodes.len() {
        assert(nodes.take(count) =~= nodes);
    } else {
        tree_entries_step(root, nodes, chunk, count);
        tree_entries_rest(root, nodes, chunk, count + 1);
    }
}

/// The container can store the name of the entry of a single file.
pub proof fn file_entries_are_storable(
    path: Seq<u8>,
    content: Result<Seq<u8>, Seq<char>>,
    chunk: usize,
)
    ensures
        file_entries(path, content, chunk) matches Ok(entries) ==> all_storable(entries),
{
}

/// The container can store the names of the entries of a traversal.
pub proof fn tree_entries_are_storable(
    root: Seq<Seq<u8>>,
    nodes: Seq<Result<NodeView, Seq<char>>>,
    chunk: usize,
)
    ensures
        tree_entries(root, nodes, chunk) matches Ok(entries) ==> all_storable(entries),
    decreases nodes.len(),
{
    if nodes.len() > 0 {
        tree_entries_are_storable(root, nodes.drop_last(), chunk);
    }
}

/// The container can store the names of the entries of a source.
pub proof fn source_entries_are_storable(source: SourceView, chunk: usize)
    ensures
        source_entries(source, chunk) matches Ok(entries) ==> all_storable(entries),
{
    match source {
        SourceView::File { path, content } => {
            file_entries_are_storable(path, content, chunk);
        },
        SourceView::Directory { root, nodes } => {
            tree_entries_are_storable(root, nodes, chunk);
        },
    }
}

/// What was streamed once passes through a buffer of the same size
/// unchanged.
pub proof fn streamed_once(data: Seq<u8>, chunk: usize)
    ensures
        streamed(streamed(data, chunk), chunk) == streamed(data, chunk),
{
}

/// The planned entries of a traversal are handed to the container with the
/// payloads they were planned with: the buffer carries all of each.
pub proof fn planned_payloads_pass(
    root: Seq<Seq<u8>>,
    nodes: Seq<Result<NodeView, Seq<char>>>,
    chunk: usize,
)
    ensures
        tree_entries(root, nodes, chunk) matches Ok(entries) ==> forall|i: int|
            0 <= i < entries.len() ==> ((#[trigger] entries[i]) matches EntryView::File {
                payload,
                ..
            } ==> streamed(payload, chunk) == payload),
    decreases nodes.len(),
{
    if nodes.len() > 0 {
        planned_payloads_pass(root, nodes.drop_last(), chunk);
    }
}

/// Hands the planned entries to a fresh container, in order, through a
/// buffer of `chunk` bytes, each with the options that the parameters ask
/// for: the method of code `method`, the permission bits of `mode` where
/// given, and AES-256 under `password` where given. Fails only where the
/// container refuses, with `Container`. The names of the entries must be
/// such as the container can store; those of a plan made by `plan_archive`
/// are.
pub fn hand_over(
    plan: &Vec<PlannedEntry>,
    method: u16,
    mode: Option<u32>,
    chunk: usize,
    password: Option<String>,
) -> (sink: Result<ArchiveSink, ArchiveError>)
    requires
        all_storable(entries_view(plan@)),
    ensures
        sink matches Err(error) ==> error@ is Container,
        sink matches Ok(filled) ==> written(filled) == handed(
            entries_view(plan@),
            chunk,
            held(options_for(method, mode, password_view(password))),
        ),
{
    let options = EntryOptions::new(method, mode, password);
    let codec = options.codec();
    let fresh = sink_new();
    proof {
        assert(written(fresh) + handed(entries_view(plan@), chunk, chosen(codec)) =~= handed(
            entries_view(plan@),
            chunk,
            chosen(codec),
        ));
    }
    match write_plan(fresh, plan, &codec, chunk) {
        Ok(filled) => Ok(filled),
        Err(error) => Err(refused(error)),
    }
}

/// Finishes the archive and hands out its bytes. Fails only where the
/// container refuses, with `Container`. Where the archive is of the plain
/// form and the container opens the bytes again, it finds the entries that
/// the sink was handed, in order, each under its stored name and with its
/// stored mode.
pub fn finish(sink: ArchiveSink) -> (archive: Result<Vec<u8>, ArchiveError>)
    ensures
        archive matches Err(error) ==> error@ is Container,
        archive matches Ok(bytes) ==> (plain_form(written(sink).len(), bytes@.len()) && opens(
            bytes@,
        ) ==> keeps(listed(bytes@), written(sink))),
{
    delivered(sink_finish(sink))
}

/// What archiving returns for the outcome of finishing the container: the
/// bytes of the archive as the container gave them, or `Container` with the
/// message of its refusal.
pub fn delivered(outcome: Result<Vec<u8>, ZipError>) -> (archive: Result<Vec<u8>, ArchiveError>)
    ensures
        match outcome {
            Ok(bytes) => archive == Ok::<Vec<u8>, ArchiveError>(bytes),
            Err(_) => archive matches Err(error) && error@ is Container,
        },
{
    match outcome {
        Ok(bytes) => Ok(bytes),
        Err(error) => Err(refused(error)),
    }
}

/// Archives a single file and returns the bytes of the archive.
///
/// The entry is planned first: a file entry named by `path` as it was
/// given, with the bytes of `content` streamed through a buffer of `chunk`
/// bytes. Where that fails, the archive fails with that very error: `Io`
/// where the file could not be read, `NonUtf8Path` where the path is not
/// valid UTF-8, `NameTooLong` where the container cannot store the name.
/// Else the entry is handed to the container as `hand_over` does, with the
/// method of code `method`, the permission bits of `mode` where given, and
/// AES-256 under `password` where given, and the only failure left is
/// `Container`, a refusal of the container. Where the archive is of the
/// plain form and the container opens its bytes again, it finds that entry,
/// under its name and with its mode.
pub fn compress_file(
    path: &Vec<u8>,
    content: &Result<Vec<u8>, String>,
    method: u16,
    mode: Option<u32>,
    chunk: usize,
    password: Option<String>,
) -> (archive: Result<Vec<u8>, ArchiveError>)
    ensures
        match file_entries(path@, content_view(*content), chunk) {
            Err(failure) => archive matches Err(error) && error@ == failure,
            Ok(entries) => match archive {
                Err(error) => error@ is Container,
                Ok(bytes) => plain_form(entries.len(), bytes@.len()) && opens(bytes@) ==> keeps(
                    listed(bytes@),
                    handed(entries, chunk, held(options_for(method, mode, password_view(password)))),
                ),
            },
        },
{
    let plan = match plan_file(path, content, chunk) {
        Ok(plan) => plan,
        Err(error) => {
            return Err(error);
        },
    };
    proof {
        file_entries_are_storable(path@, content_view(*content), chunk);
    }
    match hand_over(&plan, method, mode, chunk, password) {
        Ok(sink) => finish(sink),
        Err(error) => Err(error),
    }
}

/// Archives a source and returns the bytes of the archive.
///
/// The entries are planned first, as `plan_archive` does. For a directory
/// the nodes of the traversal are gone through in order: a regular file
/// becomes a file entry with its bytes streamed through a buffer of `chunk`
/// bytes, any other node a directory entry, and the root itself no entry.
/// Where a step of that fails, the archive fails with the error of the
/// first such step: a failed traversal step with `Traversal`, a path
/// outside the root with `OutsideRoot`, a relative path that is not valid
/// UTF-8 with `NonUtf8Path`, a name the container cannot store with
/// `NameTooLong`, an unreadable file with `Io`. Else the entries are handed
/// to the container as `hand_over` does, in order, each with the method of
/// code `method`, the permission bits of `mode` where given, and AES-256
/// under `password` where given, and the only failure left is `Container`,
/// a refusal of the container. Where the archive is of the plain form and
/// the container opens its bytes again, it finds those entries, in order,
/// each under its stored name and with its stored mode.
pub fn create_archive(
    src: &Source,
    method: u16,
    mode: Option<u32>,
    chunk: usize,
    password: Option<String>,
) -> (archive: Result<Vec<u8>, ArchiveError>)
    ensures
        match source_entries(src@, chunk) {
            Err(failure) => archive matches Err(error) && error@ == failure,
            Ok(entries) => match archive {
                Err(error) => error@ is Container,
                Ok(bytes) => plain_form(entries.len(), bytes@.len()) && opens(bytes@) ==> keeps(
                    listed(bytes@),
                    handed(entries, chunk, held(options_for(method, mode, password_view(password)))),
                ),
            },
        },
{
    let plan = match plan_archive(src, chunk) {
        Ok(plan) => plan,
        Err(error) => {
            return Err(error);
        },
    };
    proof {
        source_entries_are_storable(src@, chunk);
    }
    match hand_over(&plan, method, mode, chunk, password) {
        Ok(sink) => finish(sink),
        Err(error) => Err(error),
    }
}

/// The one entry of the archive of a single file, without a container.
fn plan_file(path: &Vec<u8>, content: &Result<Vec<u8>, String>, chunk: usize) -> (plan: Result<
    Vec<PlannedEntry>,
    ArchiveError,
>)
    ensures
        match plan {
            Ok(entries) => file_entries(path@, content_view(*content), chunk) == Ok::<
                Seq<EntryView>,
                ErrorView,
            >(entries_view(entries@)),
            Err(error) => file_entries(path@, content_view(*content), chunk) == Err::<
                Seq<EntryView>,
                ErrorView,
            >(error@),
        },
{
    let bytes = match content {
        Ok(bytes) => bytes,
        Err(message) => {
            return Err(ArchiveError::Io(message.clone()));
        },
    };
    let name = match text_of(path.as_slice()) {
        Some(name) => name,
        None => {
            return Err(ArchiveError::NonUtf8Path(path.clone()));
        },
    };
    if path.len() > MAX_NAME_LEN {
        return Err(ArchiveError::NameTooLong(name.to_owned()));
    }
    let mut payload: Vec<u8> = Vec::new();
    stream_chunks(bytes.as_slice(), chunk, &mut payload);
    let mut entries: Vec<PlannedEntry> = Vec::new();
    entries.push(PlannedEntry::File { name: name.to_owned(), payload });
    proof {
        assert(Seq::<u8>::empty() + streamed(bytes@, chunk) =~= streamed(bytes@, chunk));
        assert(entries_view(entries@) =~= seq![
            EntryView::File { name: path@, payload: streamed(bytes@, chunk) },
        ]);
    }
    Ok(entries)
}

/// The entries of the archive of a traversal, without a container.
fn plan_tree(root: &Vec<Vec<u8>>, nodes: &Vec<Result<SourceNode, String>>, chunk: usize) -> (plan:
    Result<Vec<PlannedEntry>, ArchiveError>)
    ensures
        match plan {
            Ok(entries) => tree_entries(components(root), walk_view(nodes@), chunk) == Ok::<
                Seq<EntryView>,
                ErrorView,
            >(entries_view(entries@)),
            Err(error) => tree_entries(components(root), walk_view(nodes@), chunk) == Err::<
                Seq<EntryView>,
                ErrorView,
            >(error@),
        },
{
    let mut entries: Vec<PlannedEntry> = Vec::new();
    let mut i: usize = 0;
    let ghost walk = walk_view(nodes@);
    proof {
        assert(walk.take(0) =~= Seq::empty());
        assert(entries_view(entries@) =~= Seq::empty());
    }
    while i < nodes.len()
        invariant
            i <= nodes.len(),
            walk == walk_view(nodes@),
            tree_entries(components(root), walk.take(i as int), chunk) == Ok::<
                Seq<EntryView>,
                ErrorView,
            >(entries_view(entries@)),
        decreases nodes.len() - i,
    {
        proof {
            tree_entries_step(components(root), walk, chunk, i as int);
            assert(walk[i as int] == step_view(nodes@[i as int]));
        }
        let ghost before = entries_view(entries@);
        match &nodes[i] {
            Err(message) => {
                let error = ArchiveError::Traversal(message.clone());
                proof {
                    tree_entries_rest(components(root), walk, chunk, i + 1);
                }
                return Err(error);
            },
            Ok(node) => match plan_node(root, &node.path, node.is_file) {
                Err(error) => {
                    proof {
                        tree_entries_rest(components(root), walk, chunk, i + 1);
                    }
                    return Err(error);
                },
                Ok(NodePlan::Skip) => {},
                Ok(NodePlan::Directory { name }) => {
                    entries.push(PlannedEntry::Directory { name });
                    proof {
                        assert(entries_view(entries@) =~= before.push(
                            EntryView::Directory { name: encode_utf8(name@) },
                        ));
                    }
                },
                Ok(NodePlan::File { name }) => match &node.content {
                    Err(message) => {
                        let error = ArchiveError::Io(message.clone());
                        proof {
                            tree_entries_rest(components(root), walk, chunk, i + 1);
                        }
                        return Err(error);
                    },
                    Ok(bytes) => {
                        let mut payload: Vec<u8> = Vec::new();
                        stream_chunks(bytes.as_slice(), chunk, &mut payload);
                        proof {
                            assert(Seq::<u8>::empty() + streamed(bytes@, chunk) =~= streamed(
                                bytes@,
                                chunk,
                            ));
                        }
                        let ghost entry = EntryView::File {
                            name: encode_utf8(name@),
                            payload: payload@,
                        };
                        entries.push(PlannedEntry::File { name, payload });
                        proof {
                            assert(entries_view(entries@) =~= before.push(entry));
                        }
                    },
                },
            },
        }
        i += 1;
    }
    proof {
        assert(walk.take(nodes.len() as int) =~= walk);
    }
    Ok(entries)
}

/// The entries that archiving a source hands to the container, in order,
/// without a container: the names, the kinds and the payloads.
pub fn plan_archive(src: &Source, chunk: usize) -> (plan: Result<Vec<PlannedEntry>, ArchiveError>)
    ensures
        match plan {
            Ok(entries) => source_entries(src@, chunk) == Ok::<Seq<EntryView>, ErrorView>(
                entries_view(entries@),
            ),
            Err(error) => source_entries(src@, chunk) == Err::<Seq<EntryView>, ErrorView>(error@),
        },
{
    match src {
        Source::File { path, content } => plan_file(path, content, chunk),
        Source::Directory { root, nodes } => plan_tree(root, nodes, chunk),
    }
}

/// The size of the buffer does not show in the archive: any two sizes
/// above zero give the same entries, with the same payloads.
pub proof fn chunk_size_invariance(source: SourceView, first: usize, second: usize)
    requires
        first > 0,
        second > 0,
    ensures
        source_entries(source, first) == source_entries(source, second),
{
    match source {
        SourceView::File { path, content } => {},
        SourceView::Directory { root, nodes } => {
            tree_chunk_size_invariance(root, nodes, first, second);
        },
    }
}

/// The size of the buffer does not show in the entries of a traversal.
pub proof fn tree_chunk_size_invariance(
    root: Seq<Seq<u8>>,
    nodes: Seq<Result<NodeView, Seq<char>>>,
    first: usize,
    second: usize,
)
    requires
        first > 0,
        second > 0,
    ensures
        tree_entries(root, nodes, first) == tree_entries(root, nodes, second),
    decreases nodes.len(),
{
    if nodes.len() > 0 {
        tree_chunk_size_invariance(root, nodes.drop_last(), first, second);
    }
}

/// With a buffer above zero bytes the payload of every file entry is the
/// content of its file, byte for byte.
pub proof fn payload_is_content(root: Seq<Seq<u8>>, node: NodeView, chunk: usize)
    requires
        chunk > 0,
    ensures
        node_entry(root, node, chunk) matches Ok(Some(EntryView::File { payload, .. }))
            ==> node.content == Ok::<Seq<u8>, Seq<char>>(payload),
{
}

/// No directory entry of an archive has the empty name: the root of the
/// traversal is never written.
pub proof fn no_unnamed_directory(
    root: Seq<Seq<u8>>,
    nodes: Seq<Result<NodeView, Seq<char>>>,
    chunk: usize,
)
    ensures
        tree_entries(root, nodes, chunk) matches Ok(entries) ==> forall|i: int|
            0 <= i < entries.len() ==> (#[trigger] entries[i] matches EntryView::Directory {
                name,
            } ==> name.len() > 0),
    decreases nodes.len(),
{
    if nodes.len() > 0 {
        no_unnamed_directory(root, nodes.drop_last(), chunk);
    }
}

/// A node whose path is the traversal root and which is no regular file
/// adds nothing to the archive.
pub proof fn root_adds_nothing(root: Seq<Seq<u8>>, content: Result<Seq<u8>, Seq<char>>, chunk: usize)
    ensures
        node_entry(root, NodeView { path: root, is_file: false, content }, chunk) == Ok::<
            Option<EntryView>,
            ErrorView,
        >(None),
{
    root_gets_no_entry(root);
}

/// Archiving fails with `NonUtf8Path` at the first node that has a
/// component below the root which is not valid UTF-8, where nothing failed
/// before that node: no entry is left out in silence.
pub proof fn non_utf8_path_fails_archive(
    root: Seq<Seq<u8>>,
    nodes: Seq<Result<NodeView, Seq<char>>>,
    chunk: usize,
    at: int,
    component: int,
)
    requires
        0 <= at < nodes.len(),
        tree_entries(root, nodes.take(at), chunk) is Ok,
        nodes[at] is Ok,
        under_root(root, nodes[at]->Ok_0.path),
        root.len() <= component < nodes[at]->Ok_0.path.len(),
        !valid_utf8(nodes[at]->Ok_0.path[component]),
    ensures
        tree_entries(root, nodes, chunk) == Err::<Seq<EntryView>, ErrorView>(
            ErrorView::NonUtf8Path(relative_path(root, nodes[at]->Ok_0.path)),
        ),
{
    non_utf8_component_is_rejected(root, nodes[at]->Ok_0.path, component);
    tree_entries_step(root, nodes, chunk, at);
    tree_entries_rest(root, nodes, chunk, at + 1);
}

} // verus!
