//! Which entry names are safe to resolve below an extraction root.
//!
//! A name is read as a path by the rules of Unix. It is safe where it holds
//! no NUL byte, is not absolute, and never climbs above the directory it
//! starts in: `a/../b` is safe, `a/../../b` is not.

use crate::container::directory_name;
use crate::container::names_directory;
use crate::container::BACKSLASH;
use crate::path::join;
use crate::path::SEPARATOR;
use vstd::prelude::*;
use vstd::utf8::encode_utf8;

verus! {

/// The byte `.`.
pub const DOT: u8 = 0x2e;

/// The index of the first separator in `name`, or the length of `name` where
/// it has none.
pub open spec fn first_separator(name: Seq<u8>) -> int
    decreases name.len(),
{
    if name.len() == 0 || name[0] == SEPARATOR {
        0
    } else {
        1 + first_separator(name.skip(1))
    }
}

/// The segments of a name: the byte strings between its separators.
pub open spec fn segments(name: Seq<u8>) -> Seq<Seq<u8>>
    decreases name.len(),
{
    let n = first_separator(name);
    if 0 <= n < name.len() {
        seq![name.take(n)] + segments(name.skip(n + 1))
    } else {
        seq![name]
    }
}

/// The depth below the starting directory after one more segment, or `None`
/// where the segment climbs above the starting directory. `..` climbs, an
/// empty segment and `.` stay, any other segment descends.
pub open spec fn descend(depth: nat, segment: Seq<u8>) -> Option<nat> {
    if segment == seq![DOT, DOT] {
        if depth == 0 {
            None
        } else {
            Some((depth - 1) as nat)
        }
    } else if segment.len() == 0 || segment == seq![DOT] {
        Some(depth)
    } else {
        Some(depth + 1)
    }
}

/// Whether walking the segments from `depth` never climbs above the
/// starting directory.
pub open spec fn stays_below(parts: Seq<Seq<u8>>, depth: nat) -> bool
    decreases parts.len(),
{
    if parts.len() == 0 {
        true
    } else {
        match descend(depth, parts[0]) {
            None => false,
            Some(next) => stays_below(parts.skip(1), next),
        }
    }
}

/// Whether a stored name is safe to resolve below a directory: it holds no
/// NUL byte, is not absolute, and at no point climbs above the directory it
/// starts in. Paths are read by the rules of Unix: `/` alone separates.
pub open spec fn is_enclosed(name: Seq<u8>) -> bool {
    &&& !name.contains(0u8)
    &&& !(name.len() > 0 && name[0] == SEPARATOR)
    &&& stays_below(segments(name), 0)
}

/// A component as a traversal yields it below its root: not empty, without
/// separator and NUL byte, and not the parent directory `..`.
pub open spec fn plain_component(part: Seq<u8>) -> bool {
    &&& part.len() > 0
    &&& !part.contains(SEPARATOR)
    &&& !part.contains(0u8)
    &&& part != seq![DOT, DOT]
}

/// A path all of whose components are plain.
pub open spec fn plain_path(parts: Seq<Seq<u8>>) -> bool {
    forall|i: int| 0 <= i < parts.len() ==> plain_component(#[trigger] parts[i])
}

/// An absolute name is not safe.
pub proof fn absolute_name_is_unsafe(name: Seq<u8>)
    requires
        name.len() > 0,
        name[0] == SEPARATOR,
    ensures
        !is_enclosed(name),
{
}

/// The first separator of a name that begins with a byte string without
/// separator lies behind that byte string.
pub proof fn first_separator_after(head: Seq<u8>, tail: Seq<u8>)
    requires
        !head.contains(SEPARATOR),
    ensures
        first_separator(head + tail) == head.len() + first_separator(tail),
    decreases head.len(),
{
    if head.len() == 0 {
        assert(head + tail =~= tail);
    } else {
        assert(head.contains(head[0]));
        assert((head + tail)[0] == head[0]);
        assert((head + tail).skip(1) =~= head.skip(1) + tail);
        assert forall|i: int| 0 <= i < head.skip(1).len() implies head.skip(1)[i] != SEPARATOR by {
            assert(head.contains(head[i + 1]));
        }
        first_separator_after(head.skip(1), tail);
    }
}

/// A name without separator is its own single segment.
pub proof fn segments_single(part: Seq<u8>)
    requires
        !part.contains(SEPARATOR),
    ensures
        segments(part) == seq![part],
{
    first_separator_after(part, Seq::empty());
    assert(part + Seq::<u8>::empty() =~= part);
}

/// The segments of a name that begins with a byte string without separator
/// and a separator: that byte string, then the segments of the rest.
pub proof fn segments_cons(head: Seq<u8>, tail: Seq<u8>)
    requires
        !head.contains(SEPARATOR),
    ensures
        segments(head + seq![SEPARATOR] + tail) == seq![head] + segments(tail),
{
    let whole = head + seq![SEPARATOR] + tail;
    let rest = seq![SEPARATOR] + tail;
    assert(whole =~= head + rest);
    assert(rest[0] == SEPARATOR);
    first_separator_after(head, rest);
    let n = head.len() as int;
    assert(whole.take(n) =~= head);
    assert(whole.skip(n + 1) =~= tail);
}

/// Joining from the front: the first component, a separator, and the other
/// components joined.
pub proof fn join_first(parts: Seq<Seq<u8>>)
    requires
        parts.len() >= 2,
    ensures
        join(parts) == parts[0] + seq![SEPARATOR] + join(parts.skip(1)),
    decreases parts.len(),
{
    let init = parts.drop_last();
    let rest = parts.skip(1);
    assert(rest.drop_last() =~= init.skip(1));
    assert(rest.last() == parts.last());
    if parts.len() == 2 {
        assert(join(init) == parts[0]);
        assert(join(rest) == parts[1]);
    } else {
        join_first(init);
        assert(join(rest) == join(init.skip(1)) + seq![SEPARATOR] + parts.last());
        assert(join(parts) =~= parts[0] + seq![SEPARATOR] + join(rest));
    }
}

/// Components without separator are the segments of their join.
pub proof fn segments_of_join(parts: Seq<Seq<u8>>)
    requires
        parts.len() >= 1,
        forall|i: int| 0 <= i < parts.len() ==> !(#[trigger] parts[i]).contains(SEPARATOR),
    ensures
        segments(join(parts)) == parts,
    decreases parts.len(),
{
    if parts.len() == 1 {
        segments_single(parts[0]);
        assert(parts =~= seq![parts[0]]);
    } else {
        let rest = parts.skip(1);
        join_first(parts);
        segments_cons(parts[0], join(rest));
        assert forall|i: int| 0 <= i < rest.len() implies !(#[trigger] rest[i]).contains(
            SEPARATOR,
        ) by {
            assert(rest[i] == parts[i + 1]);
        }
        segments_of_join(rest);
        assert(parts =~= seq![parts[0]] + rest);
    }
}

/// Segments among which none is `..` never climb.
pub proof fn never_climbs(parts: Seq<Seq<u8>>, depth: nat)
    requires
        forall|i: int| 0 <= i < parts.len() ==> #[trigger] parts[i] != seq![DOT, DOT],
    ensures
        stays_below(parts, depth),
    decreases parts.len(),
{
    if parts.len() > 0 {
        let next = descend(depth, parts[0])->Some_0;
        assert forall|i: int| 0 <= i < parts.skip(1).len() implies #[trigger] parts.skip(1)[i]
            != seq![DOT, DOT] by {
            assert(parts.skip(1)[i] == parts[i + 1]);
        }
        never_climbs(parts.skip(1), next);
    }
}

/// A byte that is no separator and occurs in no component does not occur in
/// the join.
pub proof fn join_holds_no_other_byte(parts: Seq<Seq<u8>>, byte: u8)
    requires
        byte != SEPARATOR,
        forall|i: int| 0 <= i < parts.len() ==> !(#[trigger] parts[i]).contains(byte),
    ensures
        !join(parts).contains(byte),
    decreases parts.len(),
{
    if parts.len() > 1 {
        join_holds_no_other_byte(parts.drop_last(), byte);
        let front = join(parts.drop_last());
        let whole = join(parts);
        assert forall|k: int| 0 <= k < whole.len() implies whole[k] != byte by {
            if k < front.len() {
                assert(front.contains(front[k]));
            } else if k > front.len() {
                assert(parts.last().contains(parts.last()[k - front.len() - 1]));
            }
        }
    }
}

/// The join of components begins with the first component.
pub proof fn join_begins_with_first(parts: Seq<Seq<u8>>)
    requires
        parts.len() >= 1,
    ensures
        join(parts).len() >= parts[0].len(),
        join(parts).take(parts[0].len() as int) == parts[0],
    decreases parts.len(),
{
    if parts.len() == 1 {
        assert(join(parts).take(parts[0].len() as int) =~= parts[0]);
    } else {
        join_first(parts);
        assert(join(parts).take(parts[0].len() as int) =~= parts[0]);
    }
}

/// The join of components ends with the last component.
pub proof fn join_ends_with_last(parts: Seq<Seq<u8>>)
    requires
        parts.len() >= 1,
        parts.last().len() > 0,
    ensures
        join(parts).len() > 0,
        join(parts).last() == parts.last().last(),
{
}

/// A path of plain components is a safe name.
pub proof fn plain_path_is_enclosed(parts: Seq<Seq<u8>>)
    requires
        plain_path(parts),
    ensures
        is_enclosed(join(parts)),
{
    let name = join(parts);
    join_holds_no_other_byte(parts, 0u8);
    if parts.len() == 0 {
        assert(name =~= Seq::<u8>::empty());
        assert(segments(name) =~= seq![name]);
        never_climbs(segments(name), 0);
    } else {
        join_begins_with_first(parts);
        assert(name[0] == name.take(parts[0].len() as int)[0]);
        assert(parts[0].contains(parts[0][0]));
        segments_of_join(parts);
        never_climbs(parts, 0);
    }
    assert(!name.contains(0u8));
    assert(!(name.len() > 0 && name[0] == SEPARATOR));
    assert(stays_below(segments(name), 0));
}

/// A path of plain components is a safe name as a directory too, under the
/// name with the directory mark.
pub proof fn plain_directory_is_enclosed(parts: Seq<Seq<u8>>)
    requires
        plain_path(parts),
        parts.len() >= 1,
    ensures
        is_enclosed(directory_name(join(parts))),
{
    plain_path_is_enclosed(parts);
    let name = join(parts);
    if !names_directory(name) {
        let marked = parts.push(Seq::<u8>::empty());
        join_holds_no_other_byte(parts, 0u8);
        assert(marked.drop_last() =~= parts);
        assert(join(marked) =~= name.push(SEPARATOR));
        assert forall|i: int| 0 <= i < marked.len() implies !(#[trigger] marked[i]).contains(
            SEPARATOR,
        ) by {
            if i < parts.len() {
                assert(marked[i] == parts[i]);
            }
        }
        segments_of_join(marked);
        assert forall|i: int| 0 <= i < marked.len() implies #[trigger] marked[i] != seq![
            DOT,
            DOT,
        ] by {
            if i < parts.len() {
                assert(marked[i] == parts[i]);
            }
        }
        never_climbs(marked, 0);
        join_begins_with_first(parts);
        assert(name[0] == name.take(parts[0].len() as int)[0]);
        assert(parts[0].contains(parts[0][0]));
        assert(name.push(SEPARATOR)[0] == name[0]);
        let stored = name.push(SEPARATOR);
        assert forall|k: int| 0 <= k < stored.len() implies stored[k] != 0u8 by {
            if k < name.len() {
                assert(name.contains(name[k]));
            }
        }
    }
}

/// The name of a path of plain components marks a directory only where its
/// last component ends with a backslash.
pub proof fn plain_file_name_is_no_directory(parts: Seq<Seq<u8>>)
    requires
        plain_path(parts),
        parts.len() >= 1,
        parts.last().last() != BACKSLASH,
    ensures
        !names_directory(join(parts)),
{
    join_ends_with_last(parts);
    assert(parts.last().contains(parts.last().last()));
}

/// A name that begins with the parent directory is not safe: `..` alone,
/// or `..` and a separator and anything.
pub proof fn parent_first_is_unsafe(name: Seq<u8>)
    requires
        name.len() >= 2,
        name[0] == DOT,
        name[1] == DOT,
        name.len() > 2 ==> name[2] == SEPARATOR,
    ensures
        !is_enclosed(name),
{
    let head = seq![DOT, DOT];
    assert(!head.contains(SEPARATOR));
    if name.len() == 2 {
        assert(name =~= head);
        segments_single(head);
    } else {
        let tail = name.skip(3);
        assert(name =~= head + seq![SEPARATOR] + tail);
        segments_cons(head, tail);
    }
    assert(segments(name)[0] == head);
}

/// The segments of what is left of a name from the start of a segment on:
/// the segment, and, behind a separator, the segments of the rest.
proof fn segments_from(name: Seq<u8>, start: int, end: int)
    requires
        0 <= start <= end <= name.len(),
        forall|k: int| start <= k < end ==> name[k] != SEPARATOR,
        end < name.len() ==> name[end] == SEPARATOR,
    ensures
        segments(name.skip(start)) == if end < name.len() {
            seq![name.subrange(start, end)] + segments(name.skip(end + 1))
        } else {
            seq![name.subrange(start, end)]
        },
{
    let segment = name.subrange(start, end);
    if end < name.len() {
        assert(name.skip(start) =~= segment + seq![SEPARATOR] + name.skip(end + 1));
        segments_cons(segment, name.skip(end + 1));
    } else {
        assert(name.skip(start) =~= segment);
        segments_single(segment);
    }
}

/// Whether a name is safe to resolve below a directory: it holds no NUL
/// byte, is not absolute, and at no point climbs above the directory it
/// starts in. On extraction the container decides by this rule itself.
pub fn is_safe_name(name: &str) -> (safe: bool)
    ensures
        safe == is_enclosed(encode_utf8(name@)),
{
    let bytes = name.as_bytes();
    let len = bytes.len();
    let mut i: usize = 0;
    while i < len
        invariant
            i <= len,
            len == bytes@.len(),
            bytes@ == encode_utf8(name@),
            forall|k: int| 0 <= k < i ==> bytes@[k] != 0u8,
        decreases len - i,
    {
        if bytes[i] == 0 {
            proof {
                assert(bytes@.contains(bytes@[i as int]));
            }
            return false;
        }
        i += 1;
    }
    if len > 0 && bytes[0] == SEPARATOR {
        return false;
    }
    let mut start: usize = 0;
    let mut depth: usize = 0;
    proof {
        assert(bytes@.skip(0) =~= bytes@);
    }
    loop
        invariant
            len == bytes@.len(),
            bytes@ == encode_utf8(name@),
            start <= len,
            depth <= start,
            stays_below(segments(bytes@), 0) == stays_below(
                segments(bytes@.skip(start as int)),
                depth as nat,
            ),
            !bytes@.contains(0u8),
            !(bytes@.len() > 0 && bytes@[0] == SEPARATOR),
        decreases len - start,
    {
        let mut end: usize = start;
        while end < len && bytes[end] != SEPARATOR
            invariant
                len == bytes@.len(),
                start <= end <= len,
                forall|k: int| start <= k < end ==> bytes@[k] != SEPARATOR,
            decreases len - end,
        {
            end += 1;
        }
        let ghost segment = bytes@.subrange(start as int, end as int);
        let ghost before = depth as nat;
        proof {
            segments_from(bytes@, start as int, end as int);
        }
        let climbs = end - start == 2 && bytes[start] == DOT && bytes[start + 1] == DOT;
        let stays = end == start || (end - start == 1 && bytes[start] == DOT);
        proof {
            if climbs {
                assert(segment =~= seq![DOT, DOT]);
            } else {
                if segment.len() == 2 {
                    assert(segment[0] != DOT || segment[1] != DOT);
                }
                assert(segment != seq![DOT, DOT]);
            }
            if end - start == 1 {
                if bytes[start as int] == DOT {
                    assert(segment =~= seq![DOT]);
                } else {
                    assert(segment[0] != DOT);
                }
            }
        }
        if climbs {
            if depth == 0 {
                return false;
            }
            depth -= 1;
        } else if !stays {
            depth += 1;
        }
        proof {
            assert(descend(before, segment) == Some(depth as nat));
            let parts = segments(bytes@.skip(start as int));
            assert(parts[0] == segment);
            if end < len {
                assert(parts.skip(1) =~= segments(bytes@.skip(end + 1)));
            } else {
                assert(parts.skip(1) =~= Seq::<Seq<u8>>::empty());
                assert(stays_below(parts.skip(1), depth as nat));
            }
            assert(stays_below(parts, before) == stays_below(parts.skip(1), depth as nat));
        }
        if end == len {
            return true;
        }
        start = end + 1;
    }
}

} // verus!
