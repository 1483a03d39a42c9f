//! Copying the bytes of a source to a sink through a buffer of bounded size.

use crate::container::sink_write;
use crate::container::grown;
use crate::container::with_payload;
use crate::container::written;
use crate::container::ArchiveSink;
use crate::container::Handed;
use vstd::prelude::*;
use vstd::slice::slice_subrange;
use zip::result::ZipError;

verus! {

/// A readable source of bytes.
pub trait ChunkSource {
    /// The bytes that have not been read yet.
    spec fn remaining(&self) -> Seq<u8>;

    /// Reads into the front of `buffer` and returns how many bytes were
    /// read. A read may bring fewer bytes than the buffer has room for. It
    /// brings none only when the buffer has no room or the source is at its
    /// end. The rest of the buffer is left as it was.
    fn read(&mut self, buffer: &mut Vec<u8>) -> (count: usize)
        ensures
            count <= old(buffer)@.len(),
            count <= old(self).remaining().len(),
            count == 0 ==> old(buffer)@.len() == 0 || old(self).remaining().len() == 0,
            final(buffer)@ == old(self).remaining().take(count as int) + old(buffer)@.skip(
                count as int,
            ),
            final(self).remaining() == old(self).remaining().skip(count as int),
    ;
}

/// A readable source over bytes in memory. A read brings at most `burst`
/// bytes.
pub struct ByteSource<'a> {
    data: &'a [u8],
    position: usize,
    burst: usize,
}

/// What a copy with buffers of `chunk` bytes carries over from `data`: all
/// of it, in order. With buffers of no bytes every read reports the end of
/// the source, and nothing is carried over.
pub open spec fn streamed(data: Seq<u8>, chunk: usize) -> Seq<u8> {
    if chunk == 0 {
        Seq::empty()
    } else {
        data
    }
}

impl<'a> ByteSource<'a> {
    /// Whether the position lies within the data, and a read can bring
    /// something.
    #[verifier::type_invariant]
    spec fn well_formed(self) -> bool {
        self.position <= self.data@.len() && self.burst > 0
    }

    /// The most bytes that one read brings.
    pub closed spec fn burst(&self) -> usize {
        self.burst
    }

    /// A source from which all of `data` is still to be read, and whose
    /// reads bring as much as the buffer has room for.
    pub fn new(data: &'a [u8]) -> (source: ByteSource<'a>)
        ensures
            source.remaining() == data@,
            source.burst() == usize::MAX,
    {
        proof {
            assert(data@.skip(0) =~= data@);
        }
        ByteSource { data, position: 0, burst: usize::MAX }
    }

    /// A source from which all of `data` is still to be read, and whose
    /// reads are short: none brings more than `burst` bytes. A burst of no
    /// bytes is taken for one of a single byte, since a read that brings
    /// nothing means the end of the source.
    pub fn in_bursts(data: &'a [u8], burst: usize) -> (source: ByteSource<'a>)
        ensures
            source.remaining() == data@,
            source.burst() == if burst == 0 {
                1
            } else {
                burst
            },
    {
        proof {
            assert(data@.skip(0) =~= data@);
        }
        let burst = if burst == 0 {
            1
        } else {
            burst
        };
        ByteSource { data, position: 0, burst }
    }
}

/// The least of three numbers.
pub open spec fn least(a: int, b: int, c: int) -> int {
    if a <= b && a <= c {
        a
    } else if b <= c {
        b
    } else {
        c
    }
}

impl<'a> ChunkSource for ByteSource<'a> {
    closed spec fn remaining(&self) -> Seq<u8> {
        self.data@.skip(self.position as int)
    }

    /// Reads as many of the remaining bytes as the buffer has room for,
    /// but no more than one burst.
    fn read(&mut self, buffer: &mut Vec<u8>) -> (count: usize)
        ensures
            count == least(
                old(self).remaining().len() as int,
                old(buffer)@.len() as int,
                old(self).burst() as int,
            ),
            final(self).burst() == old(self).burst(),
    {
        proof {
            use_type_invariant(&*self);
        }
        let available = self.data.len() - self.position;
        let room = if available <= buffer.len() {
            available
        } else {
            buffer.len()
        };
        let count = if room <= self.burst {
            room
        } else {
            self.burst
        };
        let start = self.position;
        let mut i: usize = 0;
        while i < count
            invariant
                i <= count,
                count <= buffer.len(),
                start + count <= self.data@.len() <= usize::MAX,
                buffer.len() == old(buffer).len(),
                buffer@ == self.data@.subrange(start as int, start + i) + old(buffer)@.skip(
                    i as int,
                ),
            decreases count - i,
        {
            buffer.set(i, self.data[start + i]);
            proof {
                assert(buffer@ =~= self.data@.subrange(start as int, start + i + 1) + old(
                    buffer,
                )@.skip(i + 1));
            }
            i += 1;
        }
        self.position = start + count;
        proof {
            assert(old(self).remaining().take(count as int) =~= self.data@.subrange(
                start as int,
                start + count,
            ));
            assert(self.remaining() =~= old(self).remaining().skip(count as int));
        }
        count
    }
}

/// Copies what is left of `source` to `out` through a buffer of `chunk`
/// bytes: a read into the buffer, then a write of exactly the bytes read,
/// until a read brings nothing. Reads that bring less than the buffer holds
/// are taken as they come.
pub fn stream_from<S: ChunkSource>(source: &mut S, chunk: usize, out: &mut Vec<u8>)
    ensures
        final(out)@ == old(out)@ + streamed(old(source).remaining(), chunk),
        chunk > 0 ==> final(source).remaining().len() == 0,
{
    let mut buffer: Vec<u8> = vec![0u8; chunk];
    let ghost data = source.remaining();
    let ghost mut copied: Seq<u8> = Seq::empty();
    proof {
        assert(copied + source.remaining() =~= data);
        assert(out@ =~= old(out)@ + copied);
    }
    loop
        invariant
            buffer.len() == chunk,
            copied + source.remaining() == data,
            out@ == old(out)@ + copied,
            chunk == 0 ==> copied.len() == 0,
        ensures
            out@ == old(out)@ + streamed(data, chunk),
            chunk > 0 ==> source.remaining().len() == 0,
        decreases source.remaining().len(),
    {
        let ghost before = source.remaining();
        let count = source.read(&mut buffer);
        let bytes = slice_subrange(buffer.as_slice(), 0, count);
        let mut k: usize = 0;
        while k < count
            invariant
                k <= count,
                count == bytes.len(),
                out@ == old(out)@ + copied + bytes@.take(k as int),
            decreases count - k,
        {
            out.push(bytes[k]);
            proof {
                assert(bytes@.take(k + 1) =~= bytes@.take(k as int).push(bytes@[k as int]));
                assert(out@ =~= old(out)@ + copied + bytes@.take(k + 1));
            }
            k += 1;
        }
        proof {
            assert(bytes@ =~= before.take(count as int));
            assert(bytes@.take(count as int) =~= bytes@);
            assert(copied + before.take(count as int) + before.skip(count as int) =~= copied
                + before);
            copied = copied + before.take(count as int);
            assert(out@ =~= old(out)@ + copied);
        }
        if count == 0 {
            proof {
                if chunk != 0 {
                    assert(source.remaining().len() == 0);
                    assert(copied =~= data);
                } else {
                    assert(copied =~= Seq::<u8>::empty());
                }
            }
            break;
        }
        buffer.clear();
        buffer.resize(chunk, 0u8);
    }
}

/// Copies `data` to `out` through a buffer of `chunk` bytes.
pub fn stream_chunks(data: &[u8], chunk: usize, out: &mut Vec<u8>)
    ensures
        final(out)@ == old(out)@ + streamed(data@, chunk),
{
    let mut source = ByteSource::new(data);
    stream_from(&mut source, chunk, out);
}

/// Copies what is left of `source` to the entry that `sink` started last,
/// through a buffer of `chunk` bytes: a read into the buffer, then a write
/// of exactly the bytes read, until a read brings nothing. Reads that bring
/// less than the buffer holds are taken as they come. Gives up at the first
/// write that the container refuses.
///
/// The source is read from its front and not otherwise changed: what is
/// left of it afterwards is an end of what was left before. After a copy
/// that went through nothing is left, but with a buffer of no bytes, which
/// reads nothing.
pub(crate) fn copy_from<S: ChunkSource>(sink: ArchiveSink, source: &mut S, chunk: usize) -> (next:
    Result<ArchiveSink, ZipError>)
    ensures
        next matches Ok(after) ==> written(after) == with_payload(
            written(sink),
            streamed(old(source).remaining(), chunk),
        ),
        final(source).remaining().is_suffix_of(old(source).remaining()),
        next is Ok ==> final(source).remaining() == if chunk == 0 {
            old(source).remaining()
        } else {
            Seq::empty()
        },
{
    let mut buffer: Vec<u8> = vec![0u8; chunk];
    let mut current = sink;
    let ghost data = source.remaining();
    let ghost mut copied: Seq<u8> = Seq::empty();
    proof {
        with_payload_nothing(written(sink));
        assert(copied + source.remaining() =~= data);
    }
    loop
        invariant
            buffer.len() == chunk,
            data == old(source).remaining(),
            copied + source.remaining() == data,
            written(current) == with_payload(written(sink), copied),
            chunk == 0 ==> copied.len() == 0,
        ensures
            written(current) == with_payload(written(sink), streamed(data, chunk)),
            copied + source.remaining() == data,
            copied == streamed(data, chunk),
        decreases source.remaining().len(),
    {
        let ghost before = source.remaining();
        let count = source.read(&mut buffer);
        let bytes = slice_subrange(buffer.as_slice(), 0, count);
        match sink_write(current, bytes) {
            Ok(after) => {
                current = after;
            },
            Err(error) => {
                proof {
                    let rest = source.remaining();
                    assert(copied + before.take(count as int) + rest =~= data);
                    assert(rest =~= data.subrange(data.len() - rest.len(), data.len() as int));
                }
                return Err(error);
            },
        }
        proof {
            assert(bytes@ =~= before.take(count as int));
            with_payload_twice(written(sink), copied, bytes@);
            assert(copied + before.take(count as int) + before.skip(count as int) =~= copied
                + before);
            copied = copied + bytes@;
        }
        if count == 0 {
            proof {
                if chunk != 0 {
                    assert(source.remaining().len() == 0);
                    assert(copied =~= data);
                } else {
                    assert(copied =~= Seq::<u8>::empty());
                }
            }
            break;
        }
        buffer.clear();
        buffer.resize(chunk, 0u8);
    }
    proof {
        let rest = source.remaining();
        assert(rest =~= data.subrange(data.len() - rest.len(), data.len() as int));
        if chunk == 0 {
            assert(Seq::<u8>::empty() + rest =~= rest);
        } else {
            assert(rest.len() == 0);
            assert(rest =~= Seq::<u8>::empty());
        }
    }
    Ok(current)
}

/// Copies `data` to the entry that `sink` started last, through a buffer of
/// `chunk` bytes.
pub(crate) fn copy_chunks(sink: ArchiveSink, data: &[u8], chunk: usize) -> (next: Result<
    ArchiveSink,
    ZipError,
>)
    ensures
        next matches Ok(after) ==> written(after) == with_payload(
            written(sink),
            streamed(data@, chunk),
        ),
{
    let mut source = ByteSource::new(data);
    copy_from(sink, &mut source, chunk)
}

/// Writing nothing leaves the entries as they are.
pub proof fn with_payload_nothing(entries: Seq<Handed>)
    ensures
        with_payload(entries, Seq::empty()) == entries,
{
    if entries.len() > 0 {
        assert(entries.last().payload + Seq::<u8>::empty() =~= entries.last().payload);
        assert(grown(entries.last(), Seq::empty()) == entries.last());
        assert(with_payload(entries, Seq::empty()) =~= entries);
    }
}

/// Two writes in a row add up to one write of both payloads.
pub proof fn with_payload_twice(entries: Seq<Handed>, first: Seq<u8>, second: Seq<u8>)
    ensures
        with_payload(with_payload(entries, first), second) == with_payload(entries, first + second),
{
    if entries.len() > 0 {
        let once = with_payload(entries, first);
        assert(once.drop_last() =~= entries.drop_last());
        assert((entries.last().payload + first) + second =~= entries.last().payload + (first
            + second));
        assert(grown(once.last(), second) == grown(entries.last(), first + second));
        assert(with_payload(once, second) =~= with_payload(entries, first + second));
    }
}

} // verus!
