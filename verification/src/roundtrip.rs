//! Archiving a tree and extracting the archive restores the tree.
//!
//! The container is taken to keep faith: an archive holds the entries that
//! were handed over when it was written, in order, under their stored names
//! and with their payloads.

use crate::container::listed;
use crate::container::names_directory;
use crate::container::BACKSLASH;
use crate::container::Listed;
use crate::error::ErrorView;
use crate::path::join;
use crate::path::relative_path;
use crate::path::under_root;
use crate::reader::entry_steps;
use crate::reader::extraction_steps;
use crate::reader::extracts;
use crate::reader::read_view;
use crate::reader::read_views;
use crate::reader::OutputView;
use crate::reader::StepView;
use crate::reader::StoredView;
use crate::safety::is_enclosed;
use crate::safety::plain_directory_is_enclosed;
use crate::safety::plain_file_name_is_no_directory;
use crate::safety::plain_path;
use crate::safety::plain_path_is_enclosed;
use crate::writer::node_entry;
use crate::writer::stored_form;
use crate::writer::tree_entries;
use crate::writer::EntryView;
use crate::writer::NodeView;
use vstd::prelude::*;

verus! {

/// What a container that keeps faith holds for an entry it was handed: the
/// stored name and the payload. The permission bits are those that the
/// container chose to store. What else the container holds of the entry
/// does not show in what is read of it, and is set at will here.
pub open spec fn kept(entry: EntryView, unix_mode: Option<u32>) -> Listed {
    Listed {
        name: stored_form(entry).0,
        unix_mode,
        payload: stored_form(entry).1,
        opens: true,
        decodes: true,
        method: None,
    }
}

/// Whether the archive gives back the entries that the container was
/// handed: as many, in order, each under its stored name, with its payload,
/// and with the permission bits that the container chose to store.
pub open spec fn gives_back(
    held: Seq<Listed>,
    entries: Seq<EntryView>,
    modes: Seq<Option<u32>>,
) -> bool {
    &&& held.len() == entries.len()
    &&& modes.len() == entries.len()
    &&& forall|i: int|
        0 <= i < held.len() ==> (#[trigger] held[i]).name == stored_form(entries[i]).0
            && held[i].payload == stored_form(entries[i]).1 && held[i].unix_mode == modes[i]
}

/// What a container that keeps faith holds for the entries it was handed.
pub open spec fn all_kept(entries: Seq<EntryView>, modes: Seq<Option<u32>>) -> Seq<Listed> {
    Seq::new(entries.len(), |i: int| kept(entries[i], modes[i]))
}

/// The steps that restore an entry of the archive, which stands at `index`:
/// a directory is created at its name, a file is written at its name from
/// the payload at `index`, and the stored permission bits are set.
pub open spec fn restoring_steps(
    index: int,
    entry: EntryView,
    mode: Option<u32>,
    root: Option<Seq<u8>>,
) -> Seq<StepView> {
    let path = OutputView { root, relative: stored_form(entry).0 };
    let made = match entry {
        EntryView::Directory { .. } => seq![StepView::CreateDirAll { path }],
        EntryView::File { .. } => seq![
            StepView::CreateParentDirs { path },
            StepView::WriteFile { path, entry: index },
        ],
    };
    match mode {
        Some(bits) => made.push(StepView::SetPermissions { path, mode: bits }),
        None => made,
    }
}

/// The steps that restore all entries of an archive, in order.
pub open spec fn all_restoring_steps(
    entries: Seq<EntryView>,
    modes: Seq<Option<u32>>,
    root: Option<Seq<u8>>,
) -> Seq<StepView>
    decreases entries.len(),
{
    if entries.len() == 0 {
        Seq::empty()
    } else {
        all_restoring_steps(entries.drop_last(), modes.drop_last(), root) + restoring_steps(
            entries.len() - 1,
            entries.last(),
            modes.last(),
            root,
        )
    }
}

/// Whether an entry comes back from the container as what it was: its
/// stored name is safe to resolve, and marks a directory exactly where the
/// entry is one.
pub open spec fn comes_back(entry: EntryView) -> bool {
    &&& is_enclosed(stored_form(entry).0)
    &&& names_directory(stored_form(entry).0) == (entry is Directory)
}

/// Whether a traversed node can be restored from an archive: it lies under
/// the root, its components below the root are plain, and, where it is a
/// file, it lies below the root and its name does not end with a backslash,
/// which the container takes for the mark of a directory.
pub open spec fn restorable_node(root: Seq<Seq<u8>>, node: NodeView) -> bool {
    &&& under_root(root, node.path)
    &&& plain_path(node.path.skip(root.len() as int))
    &&& node.is_file ==> node.path.len() > root.len() && node.path.last().last() != BACKSLASH
}

/// Whether every node of a traversal can be restored from an archive.
pub open spec fn restorable(root: Seq<Seq<u8>>, nodes: Seq<Result<NodeView, Seq<char>>>) -> bool {
    forall|i: int|
        0 <= i < nodes.len() ==> ((#[trigger] nodes[i]) matches Ok(node) ==> restorable_node(
            root,
            node,
        ))
}

/// The entry of a restorable node is named by the path of the node below
/// the root, and comes back from the container as what it was.
pub proof fn node_comes_back(root: Seq<Seq<u8>>, node: NodeView, chunk: usize)
    requires
        restorable_node(root, node),
    ensures
        node_entry(root, node, chunk) matches Ok(Some(entry)) ==> comes_back(entry) && match entry {
            EntryView::File { name, .. } => name == relative_path(root, node.path),
            EntryView::Directory { name } => name == relative_path(root, node.path),
        },
{
    let below = node.path.skip(root.len() as int);
    if let Ok(Some(entry)) = node_entry(root, node, chunk) {
        plain_path_is_enclosed(below);
        match entry {
            EntryView::File { name, .. } => {
                assert(below.last() == node.path.last());
                plain_file_name_is_no_directory(below);
            },
            EntryView::Directory { name } => {
                if below.len() == 0 {
                    assert(join(below) =~= Seq::<u8>::empty());
                }
                plain_directory_is_enclosed(below);
            },
        }
    }
}

/// Every entry of the archive of a restorable traversal comes back from
/// the container as what it was.
pub proof fn tree_comes_back(
    root: Seq<Seq<u8>>,
    nodes: Seq<Result<NodeView, Seq<char>>>,
    chunk: usize,
)
    requires
        restorable(root, nodes),
    ensures
        tree_entries(root, nodes, chunk) matches Ok(entries) ==> forall|i: int|
            0 <= i < entries.len() ==> comes_back(#[trigger] entries[i]),
    decreases nodes.len(),
{
    if nodes.len() > 0 {
        let front = nodes.drop_last();
        assert forall|i: int| 0 <= i < front.len() implies ((#[trigger] front[i]) matches Ok(
            node,
        ) ==> restorable_node(root, node)) by {
            assert(front[i] == nodes[i]);
        }
        tree_comes_back(root, front, chunk);
        if let Ok(node) = nodes.last() {
            assert(nodes[nodes.len() - 1] == nodes.last());
            node_comes_back(root, node, chunk);
        }
    }
}

/// An entry that comes back as what it was is extracted by the steps that
/// restore it, and a file is read with the payload it was written with.
pub proof fn entry_is_restored(index: int, entry: EntryView, mode: Option<u32>, root: Option<Seq<u8>>)
    requires
        comes_back(entry),
    ensures
        entry_steps(index, read_view(kept(entry, mode)), root) == restoring_steps(
            index,
            entry,
            mode,
            root,
        ),
        entry matches EntryView::File { payload, .. } ==> read_view(kept(entry, mode)).data
            == payload,
{
}

/// Entries that come back as what they were are extracted by the steps
/// that restore them, entry by entry.
pub proof fn entries_are_restored(
    entries: Seq<EntryView>,
    modes: Seq<Option<u32>>,
    root: Option<Seq<u8>>,
)
    requires
        modes.len() == entries.len(),
        forall|i: int| 0 <= i < entries.len() ==> comes_back(#[trigger] entries[i]),
    ensures
        extraction_steps(read_views(all_kept(entries, modes)), root) == all_restoring_steps(
            entries,
            modes,
            root,
        ),
    decreases entries.len(),
{
    if entries.len() > 0 {
        let front = entries.drop_last();
        assert forall|i: int| 0 <= i < front.len() implies comes_back(#[trigger] front[i]) by {
            assert(front[i] == entries[i]);
        }
        entries_are_restored(front, modes.drop_last(), root);
        assert(read_views(all_kept(entries, modes)).drop_last() =~= read_views(
            all_kept(front, modes.drop_last()),
        ));
        entry_is_restored(entries.len() - 1, entries.last(), modes.last(), root);
    }
}

/// Whether the file entry read from an archive gives back the file of the
/// traversal step: the step is a regular file, the entry is named by its
/// path below the root, and the entry holds its content.
pub open spec fn restored_from(
    root: Seq<Seq<u8>>,
    step: Result<NodeView, Seq<char>>,
    entry: StoredView,
) -> bool {
    &&& step matches Ok(node)
    &&& node.is_file
    &&& entry.name == relative_path(root, node.path)
    &&& entry.enclosed == Some(entry.name)
    &&& node.content == Ok::<Seq<u8>, Seq<char>>(entry.data)
}

/// Every entry of the archive of a traversal is the entry of one of its
/// nodes: the proof gives the index of such a node.
pub proof fn entry_has_its_node(
    root: Seq<Seq<u8>>,
    nodes: Seq<Result<NodeView, Seq<char>>>,
    chunk: usize,
    index: int,
) -> (at: int)
    requires
        tree_entries(root, nodes, chunk) is Ok,
        0 <= index < tree_entries(root, nodes, chunk)->Ok_0.len(),
    ensures
        0 <= at < nodes.len(),
        nodes[at] is Ok,
        node_entry(root, nodes[at]->Ok_0, chunk) == Ok::<Option<EntryView>, ErrorView>(
            Some(tree_entries(root, nodes, chunk)->Ok_0[index]),
        ),
    decreases nodes.len(),
{
    let front = nodes.drop_last();
    let before = tree_entries(root, front, chunk)->Ok_0;
    if index < before.len() {
        let at = entry_has_its_node(root, front, chunk, index);
        assert(front[at] == nodes[at]);
        at
    } else {
        nodes.len() - 1
    }
}

/// No node is lost: every node of an archived traversal that gives an entry
/// has that entry in the archive. The proof gives the index of the entry.
pub proof fn node_has_its_entry(
    root: Seq<Seq<u8>>,
    nodes: Seq<Result<NodeView, Seq<char>>>,
    chunk: usize,
    at: int,
) -> (index: int)
    requires
        tree_entries(root, nodes, chunk) is Ok,
        0 <= at < nodes.len(),
        nodes[at] is Ok,
        node_entry(root, nodes[at]->Ok_0, chunk) matches Ok(Some(_)),
    ensures
        0 <= index < tree_entries(root, nodes, chunk)->Ok_0.len(),
        node_entry(root, nodes[at]->Ok_0, chunk) == Ok::<Option<EntryView>, ErrorView>(
            Some(tree_entries(root, nodes, chunk)->Ok_0[index]),
        ),
    decreases nodes.len(),
{
    let front = nodes.drop_last();
    let before = tree_entries(root, front, chunk)->Ok_0;
    if at == nodes.len() - 1 {
        before.len() as int
    } else {
        assert(front[at] == nodes[at]);
        let index = node_has_its_entry(root, front, chunk, at);
        index
    }
}

/// Every file and every directory below the root of an archived traversal
/// has its entry: a node that lies under the root has an entry in the
/// archive unless it is the root itself as a directory.
pub proof fn node_below_root_has_its_entry(
    root: Seq<Seq<u8>>,
    nodes: Seq<Result<NodeView, Seq<char>>>,
    chunk: usize,
    at: int,
) -> (index: int)
    requires
        tree_entries(root, nodes, chunk) is Ok,
        0 <= at < nodes.len(),
        nodes[at] is Ok,
        nodes[at]->Ok_0.is_file || relative_path(root, nodes[at]->Ok_0.path).len() > 0,
    ensures
        0 <= index < tree_entries(root, nodes, chunk)->Ok_0.len(),
        node_entry(root, nodes[at]->Ok_0, chunk) == Ok::<Option<EntryView>, ErrorView>(
            Some(tree_entries(root, nodes, chunk)->Ok_0[index]),
        ),
{
    node_entry_is_made(root, nodes, chunk, at);
    node_has_its_entry(root, nodes, chunk, at)
}

/// In a traversal that is archived, no node fails.
pub proof fn node_entry_is_made(
    root: Seq<Seq<u8>>,
    nodes: Seq<Result<NodeView, Seq<char>>>,
    chunk: usize,
    at: int,
)
    requires
        tree_entries(root, nodes, chunk) is Ok,
        0 <= at < nodes.len(),
    ensures
        nodes[at] is Ok,
        node_entry(root, nodes[at]->Ok_0, chunk) is Ok,
    decreases nodes.len(),
{
    let front = nodes.drop_last();
    if at < nodes.len() - 1 {
        assert(front[at] == nodes[at]);
        node_entry_is_made(root, front, chunk, at);
    }
}

/// Round trip. Where a restorable traversal is archived with a buffer
/// above zero bytes, the archive gives back what the container was handed,
/// and the archive is extracted, the extraction restores the tree. The steps
/// are those that restore the entries of the archive, in traversal order:
/// every directory below the root is created at its relative path, and
/// every file is written at its relative path. No entry is skipped. Every
/// file entry that is read belongs to a file of the traversal, is named by
/// the relative path of that file, and holds the content of that file. The
/// permission bits that are set are those which the container stored, not
/// those of the source.
pub proof fn tree_is_restored(
    root: Seq<Seq<u8>>,
    nodes: Seq<Result<NodeView, Seq<char>>>,
    chunk: usize,
    bytes: Seq<u8>,
    modes: Seq<Option<u32>>,
    out: Option<Seq<u8>>,
    read: Seq<StoredView>,
    steps: Seq<StepView>,
)
    requires
        restorable(root, nodes),
        chunk > 0,
        tree_entries(root, nodes, chunk) is Ok,
        gives_back(listed(bytes), tree_entries(root, nodes, chunk)->Ok_0, modes),
        extracts(bytes, out, read, steps),
    ensures
        steps == all_restoring_steps(tree_entries(root, nodes, chunk)->Ok_0, modes, out),
        read.len() == tree_entries(root, nodes, chunk)->Ok_0.len(),
        forall|i: int|
            0 <= i < read.len() && !(#[trigger] read[i]).is_dir ==> exists|at: int|
                0 <= at < nodes.len() && restored_from(root, #[trigger] nodes[at], read[i]),
{
    let entries = tree_entries(root, nodes, chunk)->Ok_0;
    assert(read_views(listed(bytes)) =~= read_views(all_kept(entries, modes)));
    tree_comes_back(root, nodes, chunk);
    entries_are_restored(entries, modes, out);
    assert forall|i: int| 0 <= i < read.len() && !(#[trigger] read[i]).is_dir implies exists|
        at: int,
    |
        0 <= at < nodes.len() && restored_from(root, #[trigger] nodes[at], read[i]) by {
        let at = entry_has_its_node(root, nodes, chunk, i);
        node_comes_back(root, nodes[at]->Ok_0, chunk);
        entry_is_restored(i, entries[i], modes[i], out);
        assert(read[i] == read_view(kept(entries[i], modes[i])));
        assert(restored_from(root, nodes[at], read[i]));
    }
}

} // verus!
