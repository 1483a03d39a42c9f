//! Mapping traversed paths to entry names.
//!
//! A path is held as the sequence of its components, each a byte string as
//! the operating system gives it. The name of an entry is the part of its
//! path below the traversal root, its components joined by `/`, as text.

use crate::container::directory_name;
use crate::container::BACKSLASH;
use crate::container::MAX_NAME_LEN;
use crate::error::ArchiveError;
use crate::error::ErrorView;
use vstd::prelude::*;
use vstd::utf8::encode_utf8;
use vstd::utf8::is_char_boundary_iff_not_is_continuation_byte;
use vstd::utf8::valid_utf8;
use vstd::utf8::valid_utf8_split;

verus! {

/// The byte that separates the components of an entry name: `/`.
pub const SEPARATOR: u8 = 0x2f;

/// What becomes of one traversed path.
#[derive(Debug, PartialEq, Eq)]
pub enum NodePlan {
    /// A file entry of this name.
    File { name: String },
    /// A directory entry of this name.
    Directory { name: String },
    /// No entry: the path is the traversal root itself.
    Skip,
}

/// The mathematical value of a `NodePlan`; names as the bytes of their
/// UTF-8 encoding.
pub enum PlanView {
    File { name: Seq<u8> },
    Directory { name: Seq<u8> },
    Skip,
}

impl View for NodePlan {
    type V = PlanView;

    open spec fn view(&self) -> PlanView {
        match self {
            NodePlan::File { name } => PlanView::File { name: encode_utf8(name@) },
            NodePlan::Directory { name } => PlanView::Directory { name: encode_utf8(name@) },
            NodePlan::Skip => PlanView::Skip,
        }
    }
}

/// The components of a path, each as a sequence of bytes.
pub open spec fn components(path: &Vec<Vec<u8>>) -> Seq<Seq<u8>> {
    Seq::new(path@.len(), |i: int| path@[i]@)
}

/// The components joined by the separator; no separator before the first
/// component or after the last.
pub open spec fn join(parts: Seq<Seq<u8>>) -> Seq<u8>
    decreases parts.len(),
{
    if parts.len() == 0 {
        Seq::empty()
    } else if parts.len() == 1 {
        parts[0]
    } else {
        join(parts.drop_last()) + seq![SEPARATOR] + parts.last()
    }
}

/// Whether `path` is `root` or lies below it: the components of `root` are
/// the first components of `path`.
pub open spec fn under_root(root: Seq<Seq<u8>>, path: Seq<Seq<u8>>) -> bool {
    root.len() <= path.len() && path.subrange(0, root.len() as int) == root
}

/// The path relative to the root: what is left of the components of `path`
/// after those of `root`, joined.
pub open spec fn relative_path(root: Seq<Seq<u8>>, path: Seq<Seq<u8>>) -> Seq<u8> {
    join(path.skip(root.len() as int))
}

/// What the name mapping gives for a path: the bytes of the entry name, or
/// the reason why the path has none.
pub open spec fn name_for(root: Seq<Seq<u8>>, path: Seq<Seq<u8>>) -> Result<Seq<u8>, ErrorView> {
    if !under_root(root, path) {
        Err(ErrorView::OutsideRoot(join(path)))
    } else if !valid_utf8(relative_path(root, path)) {
        Err(ErrorView::NonUtf8Path(relative_path(root, path)))
    } else {
        Ok(relative_path(root, path))
    }
}

/// `core::str::from_utf8`: the bytes as text where they are valid UTF-8, and
/// nothing where they are not. The text has exactly the given bytes.
#[verifier::external_body]
pub(crate) fn text_of(bytes: &[u8]) -> (text: Option<&str>)
    ensures
        text is Some <==> valid_utf8(bytes@),
        text matches Some(s) ==> encode_utf8(s@) == bytes@,
{
    core::str::from_utf8(bytes).ok()
}

/// Whether two byte strings are equal.
pub fn same_bytes(a: &Vec<u8>, b: &Vec<u8>) -> (same: bool)
    ensures
        same == (a@ == b@),
{
    if a.len() != b.len() {
        return false;
    }
    let mut i: usize = 0;
    while i < a.len()
        invariant
            a.len() == b.len(),
            i <= a.len(),
            a@.take(i as int) == b@.take(i as int),
        decreases a.len() - i,
    {
        if a[i] != b[i] {
            return false;
        }
        proof {
            assert(a@.take(i + 1) =~= a@.take(i as int).push(a@[i as int]));
            assert(b@.take(i + 1) =~= b@.take(i as int).push(b@[i as int]));
        }
        i += 1;
    }
    proof {
        assert(a@ =~= a@.take(a.len() as int));
        assert(b@ =~= b@.take(b.len() as int));
    }
    true
}

/// Whether `path` is `root` or lies below it.
pub fn is_under_root(root: &Vec<Vec<u8>>, path: &Vec<Vec<u8>>) -> (under: bool)
    ensures
        under == under_root(components(root), components(path)),
{
    if root.len() > path.len() {
        return false;
    }
    let mut i: usize = 0;
    while i < root.len()
        invariant
            root.len() <= path.len(),
            i <= root.len(),
            components(path).subrange(0, i as int) == components(root).subrange(0, i as int),
        decreases root.len() - i,
    {
        if !same_bytes(&root[i], &path[i]) {
            proof {
                let n = root.len() as int;
                assert(components(path).subrange(0, n)[i as int] == path@[i as int]@);
                assert(components(root)[i as int] == root@[i as int]@);
            }
            return false;
        }
        proof {
            let p = components(path);
            let r = components(root);
            assert(p.subrange(0, i + 1) =~= p.subrange(0, i as int).push(p[i as int]));
            assert(r.subrange(0, i + 1) =~= r.subrange(0, i as int).push(r[i as int]));
        }
        i += 1;
    }
    proof {
        assert(components(root) =~= components(root).subrange(0, root.len() as int));
    }
    true
}

/// Joining one component more: the separator stands between the components,
/// not before the first.
pub proof fn join_push(parts: Seq<Seq<u8>>, part: Seq<u8>)
    ensures
        join(parts.push(part)) == if parts.len() == 0 {
            part
        } else {
            join(parts) + seq![SEPARATOR] + part
        },
{
    assert(parts.push(part).drop_last() =~= parts);
}

/// The components of `path` from index `start` on, joined by the separator.
pub fn join_from(path: &Vec<Vec<u8>>, start: usize) -> (joined: Vec<u8>)
    requires
        start <= path.len(),
    ensures
        joined@ == join(components(path).skip(start as int)),
{
    let mut joined: Vec<u8> = Vec::new();
    let mut i: usize = start;
    while i < path.len()
        invariant
            start <= i <= path.len(),
            joined@ == join(components(path).subrange(start as int, i as int)),
        decreases path.len() - i,
    {
        let ghost done = components(path).subrange(start as int, i as int);
        let ghost before = joined@;
        if i > start {
            joined.push(SEPARATOR);
        }
        let ghost head = joined@;
        let part = &path[i];
        let mut j: usize = 0;
        while j < part.len()
            invariant
                j <= part.len(),
                joined@ == head + part@.take(j as int),
            decreases part.len() - j,
        {
            joined.push(part[j]);
            proof {
                assert(part@.take(j + 1) =~= part@.take(j as int).push(part@[j as int]));
                assert(joined@ =~= head + part@.take(j + 1));
            }
            j += 1;
        }
        proof {
            assert(part@.take(part.len() as int) =~= part@);
            join_push(done, part@);
            assert(components(path).subrange(start as int, i + 1) =~= done.push(part@));
            if i > start {
                assert(head =~= before + seq![SEPARATOR]);
            } else {
                assert(done.len() == 0);
                assert(head + part@ =~= part@);
            }
        }
        i += 1;
    }
    proof {
        assert(components(path).subrange(start as int, path.len() as int) =~= components(path).skip(
            start as int,
        ));
    }
    joined
}

/// The name of the entry for `path` under the traversal root `root`.
///
/// Fails with `OutsideRoot` where `path` does not lie under `root`, and with
/// `NonUtf8Path` where the relative path is not valid UTF-8; both errors
/// hold the offending bytes.
pub fn entry_name(root: &Vec<Vec<u8>>, path: &Vec<Vec<u8>>) -> (name: Result<String, ArchiveError>)
    ensures
        match name {
            Ok(text) => name_for(components(root), components(path)) == Ok::<
                Seq<u8>,
                ErrorView,
            >(encode_utf8(text@)),
            Err(error) => name_for(components(root), components(path)) == Err::<
                Seq<u8>,
                ErrorView,
            >(error@),
        },
{
    if !is_under_root(root, path) {
        let whole = join_from(path, 0);
        proof {
            assert(components(path).skip(0) =~= components(path));
        }
        return Err(ArchiveError::OutsideRoot(whole));
    }
    let relative = join_from(path, root.len());
    match text_of(relative.as_slice()) {
        Some(text) => Ok(text.to_owned()),
        None => Err(ArchiveError::NonUtf8Path(relative)),
    }
}

/// What becomes of a traversed path: a file gets a file entry under its
/// name, whatever the name; a directory gets a directory entry, but for the
/// traversal root, whose name is empty and which gets none. A name that the
/// container cannot store is an error.
pub open spec fn node_plan(root: Seq<Seq<u8>>, path: Seq<Seq<u8>>, is_file: bool) -> Result<
    PlanView,
    ErrorView,
> {
    match name_for(root, path) {
        Err(error) => Err(error),
        Ok(name) => if is_file {
            if name.len() > MAX_NAME_LEN {
                Err(ErrorView::NameTooLong(name))
            } else {
                Ok(PlanView::File { name })
            }
        } else if name.len() == 0 {
            Ok(PlanView::Skip)
        } else if directory_name(name).len() > MAX_NAME_LEN {
            Err(ErrorView::NameTooLong(name))
        } else {
            Ok(PlanView::Directory { name })
        },
    }
}

/// Decides what becomes of the traversed `path` under the traversal root
/// `root`, given whether it is a regular file.
pub fn plan_node(root: &Vec<Vec<u8>>, path: &Vec<Vec<u8>>, is_file: bool) -> (plan: Result<
    NodePlan,
    ArchiveError,
>)
    ensures
        match plan {
            Ok(entry) => node_plan(components(root), components(path), is_file) == Ok::<
                PlanView,
                ErrorView,
            >(entry@),
            Err(error) => node_plan(components(root), components(path), is_file) == Err::<
                PlanView,
                ErrorView,
            >(error@),
        },
{
    let name = match entry_name(root, path) {
        Ok(name) => name,
        Err(error) => {
            return Err(error);
        },
    };
    let bytes = name.as_str().as_bytes();
    let len = bytes.len();
    if is_file {
        if len > MAX_NAME_LEN {
            Err(ArchiveError::NameTooLong(name))
        } else {
            Ok(NodePlan::File { name })
        }
    } else if len == 0 {
        Ok(NodePlan::Skip)
    } else {
        let last = bytes[len - 1];
        let marked = last == SEPARATOR || last == BACKSLASH;
        if (marked && len > MAX_NAME_LEN) || (!marked && len >= MAX_NAME_LEN) {
            Err(ArchiveError::NameTooLong(name))
        } else {
            Ok(NodePlan::Directory { name })
        }
    }
}

/// Text on both sides of a separator: where two byte strings with a
/// separator between them are valid UTF-8 as a whole, each of the two is.
pub proof fn separator_splits_text(before: Seq<u8>, after: Seq<u8>)
    requires
        valid_utf8(before + seq![SEPARATOR] + after),
    ensures
        valid_utf8(before),
        valid_utf8(after),
{
    let whole = before + seq![SEPARATOR] + after;
    let at = before.len() as int;
    assert(whole[at] == SEPARATOR);
    is_char_boundary_iff_not_is_continuation_byte(whole, at);
    valid_utf8_split(whole, at);
    assert(whole.subrange(0, at) =~= before);
    let rest = whole.subrange(at, whole.len() as int);
    assert(rest[0] == SEPARATOR);
    assert(rest.subrange(1, rest.len() as int) =~= after);
}

/// A path with a component that is not valid UTF-8 is not valid UTF-8.
pub proof fn component_breaks_text(parts: Seq<Seq<u8>>, index: int)
    requires
        0 <= index < parts.len(),
        !valid_utf8(parts[index]),
    ensures
        !valid_utf8(join(parts)),
    decreases parts.len(),
{
    if parts.len() > 1 {
        if valid_utf8(join(parts)) {
            separator_splits_text(join(parts.drop_last()), parts.last());
            if index < parts.len() - 1 {
                component_breaks_text(parts.drop_last(), index);
            }
        }
    }
}

/// A path under the root with a component below the root that is not valid
/// UTF-8 has no entry name: the mapping fails with `NonUtf8Path`, which
/// holds the relative path.
pub proof fn non_utf8_component_is_rejected(root: Seq<Seq<u8>>, path: Seq<Seq<u8>>, index: int)
    requires
        under_root(root, path),
        root.len() <= index < path.len(),
        !valid_utf8(path[index]),
    ensures
        name_for(root, path) == Err::<Seq<u8>, ErrorView>(
            ErrorView::NonUtf8Path(relative_path(root, path)),
        ),
{
    component_breaks_text(path.skip(root.len() as int), index - root.len());
}

/// The traversal root itself has the empty name, and as a directory it gets
/// no entry.
pub proof fn root_gets_no_entry(root: Seq<Seq<u8>>)
    ensures
        name_for(root, root) == Ok::<Seq<u8>, ErrorView>(Seq::empty()),
        node_plan(root, root, false) == Ok::<PlanView, ErrorView>(PlanView::Skip),
{
    assert(root.subrange(0, root.len() as int) =~= root);
    assert(root.skip(root.len() as int) =~= Seq::empty());
    assert(join(Seq::<Seq<u8>>::empty()) =~= Seq::<u8>::empty());
}

} // verus!
