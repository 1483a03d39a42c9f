//! The archive container and its codecs, as the `zip` crate provides them.
//!
//! Archives are held in memory: a sink collects the bytes of the archive that
//! is written, and an archive is read from the bytes handed over. Every
//! function of this module is a binding whose contract is taken from the
//! sources of `zip` and is not proved here. The contracts speak of five
//! models: `chosen`, the method, permission bits and encryption that options
//! hold; `written`, the entries that a sink has been handed; `opens`,
//! whether the container opens given bytes; `stored`, the entries that an
//! opened archive holds; and `listed`, the entries that the container reads
//! out of given bytes. Names are modelled by the bytes of their UTF-8
//! encoding.
//!
//! The contract of `archive_enclosed_name` is that of a target whose paths
//! follow the rules of Unix. Where `\` separates too, or paths have
//! prefixes, the container decides otherwise on names with `\` or `:`, and
//! the crate is not for such targets.

use crate::method::CompressionMethod;
use crate::options::OptionsView;
use crate::path::SEPARATOR;
use crate::safety::is_enclosed;
use std::io::Cursor;
use std::io::Read;
use std::io::Write;
use vstd::prelude::*;
use vstd::utf8::encode_utf8;
use zip::result::ZipError;
use zip::write::FileOptions;
use zip::ZipArchive;
use zip::ZipWriter;

verus! {

/// `std::io::Cursor`, the buffer that an archive in memory is read from.
#[verifier::external_type_specification]
#[verifier::external_body]
#[verifier::reject_recursive_types(T)]
pub struct ExCursor<T>(Cursor<T>);

/// `zip::ZipArchive`, an archive that has been opened for reading.
#[verifier::external_type_specification]
#[verifier::external_body]
#[verifier::reject_recursive_types(R)]
pub struct ExZipArchive<R>(ZipArchive<R>);

/// `zip::result::ZipError`, the failure of an operation of the container.
#[verifier::external_type_specification]
#[verifier::external_body]
pub struct ExZipError(ZipError);

/// A `zip::ZipWriter` that writes an archive into memory.
#[verifier::external_body]
pub struct ArchiveSink {
    inner: ZipWriter<Cursor<Vec<u8>>>,
}

/// The `zip::write::FileOptions` with which an entry is started.
#[verifier::external_body]
pub struct CodecOptions<'k> {
    inner: FileOptions<'k, ()>,
}

/// An archive that is read from memory.
pub type MemoryArchive = ZipArchive<Cursor<Vec<u8>>>;

/// The key length of the AES encryption of an entry.
#[derive(Clone, Copy, Debug, PartialEq, Eq, Structural)]
pub enum KeyLength {
    Aes128,
    Aes192,
    Aes256,
}

/// The longest entry name, in bytes, that the container format can hold.
pub const MAX_NAME_LEN: usize = 65535;

/// The backslash, which the container also takes for the end of a directory
/// name.
pub const BACKSLASH: u8 = 0x5c;

/// The mode bits that mark a regular file.
pub const FILE_TYPE: u32 = 0o100000;

/// The mode bits that mark a directory.
pub const DIRECTORY_TYPE: u32 = 0o40000;

/// The permission bits of a file entry that is started without any.
pub const FILE_PERMISSIONS: u32 = 0o644;

/// The permission bits of a directory entry that is added without any.
pub const DIRECTORY_PERMISSIONS: u32 = 0o755;

/// The bits of a mode that the options of an entry keep.
pub const PERMISSION_MASK: u32 = 0o777;

/// One entry as a sink has been handed it: its stored name, the payload
/// written to it so far, and what it was started with: the compression
/// method, the encryption, and the mode that is stored with it.
pub struct Handed {
    pub name: Seq<u8>,
    pub payload: Seq<u8>,
    pub method: CompressionMethod,
    pub encryption: Option<(KeyLength, Seq<char>)>,
    pub mode: u32,
}

/// The method, the permission bits and the encryption that the options
/// hold.
pub uninterp spec fn chosen(options: CodecOptions<'_>) -> OptionsView;

/// The entries that the sink has been handed, in order.
pub uninterp spec fn written(sink: ArchiveSink) -> Seq<Handed>;

/// One entry as an archive holds it: its stored name, the permission bits
/// stored with it, if any, and its decoded payload; whether the container
/// opens the entry, and whether it decodes the payload of the opened entry;
/// and the method under which the payload is stored, where it is one of the
/// methods that have a code of their own here.
pub struct Listed {
    pub name: Seq<u8>,
    pub unix_mode: Option<u32>,
    pub payload: Seq<u8>,
    pub opens: bool,
    pub decodes: bool,
    pub method: Option<CompressionMethod>,
}

/// Whether the container opens the given bytes as an archive.
pub uninterp spec fn opens(bytes: Seq<u8>) -> bool;

/// The entries that the archive holds, in storage order.
pub uninterp spec fn stored(archive: MemoryArchive) -> Seq<Listed>;

/// The entries that the container reads out of the given bytes, in storage
/// order.
pub uninterp spec fn listed(bytes: Seq<u8>) -> Seq<Listed>;

/// The mode that is stored with a file entry: the permission bits of its
/// options, or those of a file without any, and the mark of a file.
pub open spec fn file_mode(unix_mode: Option<u32>) -> u32 {
    match unix_mode {
        Some(bits) => bits | FILE_TYPE,
        None => FILE_PERMISSIONS | FILE_TYPE,
    }
}

/// The mode that is stored with a directory entry: the permission bits of
/// its options, or those of a directory without any, and the mark of a
/// directory.
pub open spec fn directory_mode(unix_mode: Option<u32>) -> u32 {
    match unix_mode {
        Some(bits) => bits | DIRECTORY_TYPE,
        None => DIRECTORY_PERMISSIONS | DIRECTORY_TYPE,
    }
}

/// A file entry as it is started: under the given name, without payload,
/// with the method and the encryption of the options.
pub open spec fn started_file(name: Seq<u8>, settings: OptionsView) -> Handed {
    Handed {
        name,
        payload: Seq::empty(),
        method: settings.method,
        encryption: settings.encryption,
        mode: file_mode(settings.unix_mode),
    }
}

/// A directory entry as it is added: under the name with the directory
/// mark, without payload, stored as it is and never encrypted, whatever the
/// options say.
pub open spec fn added_directory(name: Seq<u8>, settings: OptionsView) -> Handed {
    Handed {
        name: directory_name(name),
        payload: Seq::empty(),
        method: CompressionMethod::Stored,
        encryption: None,
        mode: directory_mode(settings.unix_mode),
    }
}

/// Whether a stored name marks a directory: it ends with `/` or `\`.
pub open spec fn names_directory(name: Seq<u8>) -> bool {
    name.len() > 0 && (name.last() == SEPARATOR || name.last() == BACKSLASH)
}

/// The name under which a directory is stored: the name itself where it
/// already marks a directory, else the name followed by `/`.
pub open spec fn directory_name(name: Seq<u8>) -> Seq<u8> {
    if names_directory(name) {
        name
    } else {
        name.push(SEPARATOR)
    }
}

/// The number of entries from which on the container writes records of the
/// 64-bit form of the format, or an entry count that is read as a hint at
/// them.
pub const ENTRY_LIMIT: usize = 65535;

/// The size in bytes from which on the container writes records of the
/// 64-bit form of the format.
pub const SIZE_LIMIT: u64 = 0xFFFF_FFFF;

/// Whether an archive of so many entries and so many bytes is of the plain
/// form of the format, without records of the 64-bit form and without
/// anything that is read as a hint at them.
pub open spec fn plain_form(entries: nat, size: nat) -> bool {
    entries < ENTRY_LIMIT && size < SIZE_LIMIT
}

/// Whether an archive holds the entries that a sink was handed: as many,
/// in the same order, each under its stored name and with its stored mode.
pub open spec fn keeps(held: Seq<Listed>, handed: Seq<Handed>) -> bool {
    &&& held.len() == handed.len()
    &&& forall|i: int|
        0 <= i < held.len() ==> (#[trigger] held[i]).name == handed[i].name && held[i].unix_mode
            == Some(handed[i].mode)
}

/// The entry after `bytes` have been written to it.
pub open spec fn grown(entry: Handed, bytes: Seq<u8>) -> Handed {
    Handed {
        name: entry.name,
        payload: entry.payload + bytes,
        method: entry.method,
        encryption: entry.encryption,
        mode: entry.mode,
    }
}

/// The entries after `bytes` have been written to the entry started last.
pub open spec fn with_payload(entries: Seq<Handed>, bytes: Seq<u8>) -> Seq<Handed> {
    if entries.len() == 0 {
        entries
    } else {
        entries.drop_last().push(grown(entries.last(), bytes))
    }
}

/// `ZipWriter::new` on an empty buffer: a sink that has been handed nothing.
#[verifier::external_body]
pub(crate) fn sink_new() -> (sink: ArchiveSink)
    ensures
        written(sink) == Seq::<Handed>::empty(),
{
    ArchiveSink { inner: ZipWriter::new(Cursor::new(Vec::new())) }
}

/// `FileOptions::default`: the options from which those of an entry are
/// built. They hold no permission bits and no encryption.
#[verifier::external_body]
pub(crate) fn options_default() -> (options: CodecOptions<'static>)
    ensures
        chosen(options).unix_mode is None,
        chosen(options).encryption is None,
{
    CodecOptions { inner: FileOptions::default() }
}

/// `FileOptions::compression_method`: the same options with the given
/// method.
#[verifier::external_body]
pub(crate) fn options_method<'k>(options: CodecOptions<'k>, method: CompressionMethod) -> (next:
    CodecOptions<'k>)
    ensures
        chosen(next) == (OptionsView {
            method,
            unix_mode: chosen(options).unix_mode,
            encryption: chosen(options).encryption,
        }),
{
    CodecOptions {
        inner: options.inner.compression_method(
            match method {
                CompressionMethod::Stored => zip::CompressionMethod::Stored,
                CompressionMethod::Deflated => zip::CompressionMethod::Deflated,
                CompressionMethod::Deflate64 => zip::CompressionMethod::Deflate64,
                CompressionMethod::Bzip2 => zip::CompressionMethod::Bzip2,
                CompressionMethod::Aes => zip::CompressionMethod::Aes,
                CompressionMethod::Zstd => zip::CompressionMethod::Zstd,
                CompressionMethod::Lzma => zip::CompressionMethod::Lzma,
            },
        ),
    }
}

/// `FileOptions::unix_permissions`: the same options with the permission
/// bits of the given mode; its higher bits are dropped.
#[verifier::external_body]
pub(crate) fn options_permissions<'k>(options: CodecOptions<'k>, mode: u32) -> (next: CodecOptions<
    'k,
>)
    ensures
        chosen(next) == (OptionsView {
            method: chosen(options).method,
            unix_mode: Some(mode & PERMISSION_MASK),
            encryption: chosen(options).encryption,
        }),
{
    CodecOptions { inner: options.inner.unix_permissions(mode) }
}

/// `FileOptions::with_aes_encryption`: the same options with AES encryption
/// of the given key length under the given password.
#[verifier::external_body]
pub(crate) fn options_encryption<'k>(
    options: CodecOptions<'k>,
    key: KeyLength,
    password: &'k str,
) -> (next: CodecOptions<'k>)
    ensures
        chosen(next) == (OptionsView {
            method: chosen(options).method,
            unix_mode: chosen(options).unix_mode,
            encryption: Some((key, password@)),
        }),
{
    let mode = match key {
        KeyLength::Aes128 => zip::AesMode::Aes128,
        KeyLength::Aes192 => zip::AesMode::Aes192,
        KeyLength::Aes256 => zip::AesMode::Aes256,
    };
    CodecOptions { inner: options.inner.with_aes_encryption(mode, password) }
}

/// `ZipWriter::start_file`: on success the sink holds one entry more, of the
/// given name, with nothing written to it yet, with the method and the
/// encryption of the options, and with their permission bits, or those of a
/// file without any, under the mark of a file. The sink is given up on
/// failure. Longer names are left out: on them the call panics.
#[verifier::external_body]
pub(crate) fn sink_start_file(sink: ArchiveSink, name: &str, options: &CodecOptions<'_>) -> (next:
    Result<ArchiveSink, ZipError>)
    requires
        encode_utf8(name@).len() <= MAX_NAME_LEN,
    ensures
        next matches Ok(after) ==> written(after) == written(sink).push(
            started_file(encode_utf8(name@), chosen(*options)),
        ),
{
    let mut sink = sink;
    match sink.inner.start_file(name, options.inner) {
        Ok(()) => Ok(sink),
        Err(error) => Err(error),
    }
}

/// `ZipWriter::add_directory`: on success the sink holds one entry more,
/// without payload, under the given name followed by `/` unless the name
/// ends with `/` or `\` already. It is stored as it is and not encrypted,
/// whatever the options say, with their permission bits, or those of a
/// directory without any, under the mark of a directory. The sink is given
/// up on failure. Names that would be stored longer than the format allows
/// are left out: on them the call panics.
#[verifier::external_body]
pub(crate) fn sink_add_directory(sink: ArchiveSink, name: &str, options: &CodecOptions<'_>) -> (next:
    Result<ArchiveSink, ZipError>)
    requires
        directory_name(encode_utf8(name@)).len() <= MAX_NAME_LEN,
    ensures
        next matches Ok(after) ==> written(after) == written(sink).push(
            added_directory(encode_utf8(name@), chosen(*options)),
        ),
{
    let mut sink = sink;
    match sink.inner.add_directory(name, options.inner) {
        Ok(()) => Ok(sink),
        Err(error) => Err(error),
    }
}

/// `Write::write_all` of `ZipWriter`: on success all of `bytes` has been
/// added, in order, to the payload of the entry started last. The sink is
/// given up on failure.
#[verifier::external_body]
pub(crate) fn sink_write(sink: ArchiveSink, bytes: &[u8]) -> (next: Result<ArchiveSink, ZipError>)
    ensures
        next matches Ok(after) ==> written(after) == with_payload(written(sink), bytes@),
{
    let mut sink = sink;
    match sink.inner.write_all(bytes) {
        Ok(()) => Ok(sink),
        Err(error) => Err(ZipError::Io(error)),
    }
}

/// `ZipWriter::finish`: the bytes of the finished archive. They depend on
/// the clock and, for encrypted entries, on random salts. What holds of
/// them whenever they are: where the archive is of the plain form and the
/// container opens the bytes again, it finds the entries that the sink was
/// handed, as many and in the same order, each under its stored name and
/// with its stored mode. Nothing is stated of larger archives: there the
/// container looks for records of the 64-bit form, which the end of the
/// last name can be taken for.
#[verifier::external_body]
pub(crate) fn sink_finish(sink: ArchiveSink) -> (archive: Result<Vec<u8>, ZipError>)
    ensures
        archive matches Ok(bytes) ==> (plain_form(written(sink).len(), bytes@.len()) && opens(
            bytes@,
        ) ==> keeps(listed(bytes@), written(sink))),
{
    match sink.inner.finish() {
        Ok(buffer) => Ok(buffer.into_inner()),
        Err(error) => Err(error),
    }
}

/// The `Display` text of a `ZipError`.
#[verifier::external_body]
pub(crate) fn container_message(error: &ZipError) -> (message: String) {
    error.to_string()
}

/// `ZipArchive::new` on the given bytes: succeeds exactly where the
/// container opens the bytes, and then gives an archive that holds the
/// entries which the container reads out of them. The bytes are in memory,
/// so the outcome depends on them alone.
#[verifier::external_body]
pub(crate) fn archive_open(bytes: Vec<u8>) -> (archive: Result<MemoryArchive, ZipError>)
    ensures
        archive is Ok <==> opens(bytes@),
        archive matches Ok(opened) ==> stored(opened) == listed(bytes@),
{
    ZipArchive::new(Cursor::new(bytes))
}

/// `ZipArchive::len`: the number of entries that the archive holds.
#[verifier::external_body]
pub(crate) fn archive_len(archive: &MemoryArchive) -> (len: usize)
    ensures
        len == stored(*archive).len(),
{
    archive.len()
}

/// `ZipArchive::name_for_index`: the name of the entry at `index`, and
/// nothing where the archive has no such entry.
#[verifier::external_body]
pub(crate) fn archive_entry_name(archive: &MemoryArchive, index: usize) -> (name: Option<String>)
    ensures
        name is Some <==> index < stored(*archive).len(),
        name matches Some(text) ==> encode_utf8(text@) == stored(*archive)[index as int].name,
{
    match archive.name_for_index(index) {
        Some(text) => Some(text.to_owned()),
        None => None,
    }
}

/// `ZipFile::enclosed_name` of the entry at `index`: the name itself where
/// it is safe to resolve below a directory, nothing where it is not. The
/// rule is stated for targets whose paths follow the rules of Unix. Fails
/// exactly where `ZipArchive::by_index` fails: where the container does not
/// open the entry. The archive holds what it did before.
#[verifier::external_body]
pub(crate) fn archive_enclosed_name(archive: &mut MemoryArchive, index: usize) -> (name: Result<
    Option<String>,
    ZipError,
>)
    ensures
        stored(*final(archive)) == stored(*old(archive)),
        index < stored(*old(archive)).len() ==> (name is Ok <==> stored(
            *old(archive),
        )[index as int].opens),
        index < stored(*old(archive)).len() ==> (name matches Ok(Some(text)) ==> is_enclosed(
            stored(*old(archive))[index as int].name,
        ) && encode_utf8(text@) == stored(*old(archive))[index as int].name),
        index < stored(*old(archive)).len() ==> (name matches Ok(None) ==> !is_enclosed(
            stored(*old(archive))[index as int].name,
        )),
{
    match archive.by_index(index) {
        Ok(file) => match file.enclosed_name() {
            Some(path) => Ok(path.into_os_string().into_string().ok()),
            None => Ok(None),
        },
        Err(error) => Err(error),
    }
}

/// `ZipFile::unix_mode` of the entry at `index`: the permission bits stored
/// with the entry, if any. Fails exactly where `ZipArchive::by_index` fails:
/// where the container does not open the entry. The archive holds what it
/// did before.
#[verifier::external_body]
pub(crate) fn archive_unix_mode(archive: &mut MemoryArchive, index: usize) -> (mode: Result<
    Option<u32>,
    ZipError,
>)
    ensures
        stored(*final(archive)) == stored(*old(archive)),
        index < stored(*old(archive)).len() ==> (mode is Ok <==> stored(
            *old(archive),
        )[index as int].opens),
        index < stored(*old(archive)).len() ==> (mode matches Ok(bits) ==> bits == stored(
            *old(archive),
        )[index as int].unix_mode),
{
    match archive.by_index(index) {
        Ok(file) => Ok(file.unix_mode()),
        Err(error) => Err(error),
    }
}

/// `ZipFile::compression` of the entry at `index`: the method under which
/// its payload is stored, or nothing where that is none of the methods
/// which have a code of their own here. Fails exactly where
/// `ZipArchive::by_index` fails: where the container does not open the
/// entry. The archive holds what it did before.
#[verifier::external_body]
pub(crate) fn archive_method(archive: &mut MemoryArchive, index: usize) -> (method: Result<
    Option<CompressionMethod>,
    ZipError,
>)
    ensures
        stored(*final(archive)) == stored(*old(archive)),
        index < stored(*old(archive)).len() ==> (method is Ok <==> stored(
            *old(archive),
        )[index as int].opens),
        index < stored(*old(archive)).len() ==> (method matches Ok(found) ==> found == stored(
            *old(archive),
        )[index as int].method),
{
    match archive.by_index(index) {
        Ok(file) => Ok(
            match file.compression() {
                zip::CompressionMethod::Stored => Some(CompressionMethod::Stored),
                zip::CompressionMethod::Deflated => Some(CompressionMethod::Deflated),
                zip::CompressionMethod::Deflate64 => Some(CompressionMethod::Deflate64),
                zip::CompressionMethod::Bzip2 => Some(CompressionMethod::Bzip2),
                zip::CompressionMethod::Aes => Some(CompressionMethod::Aes),
                zip::CompressionMethod::Zstd => Some(CompressionMethod::Zstd),
                zip::CompressionMethod::Lzma => Some(CompressionMethod::Lzma),
                _ => None,
            },
        ),
        Err(error) => Err(error),
    }
}

/// `Read::read_to_end` on the entry at `index`: its decoded payload. Fails
/// exactly where `ZipArchive::by_index` or the decoding fails: where the
/// container does not open the entry, or does not decode its payload. The
/// archive holds what it did before. Entries of method LZMA are left out:
/// the container's reader for them hands its input to the decoder again and
/// again without marking it read, and it is not established that the call
/// returns.
#[verifier::external_body]
pub(crate) fn archive_read(archive: &mut MemoryArchive, index: usize) -> (payload: Result<
    Vec<u8>,
    ZipError,
>)
    requires
        index < stored(*old(archive)).len(),
        stored(*old(archive))[index as int].method != Some(CompressionMethod::Lzma),
    ensures
        stored(*final(archive)) == stored(*old(archive)),
        index < stored(*old(archive)).len() ==> (payload is Ok <==> stored(
            *old(archive),
        )[index as int].opens && stored(*old(archive))[index as int].decodes),
        index < stored(*old(archive)).len() ==> (payload matches Ok(bytes) ==> bytes@ == stored(
            *old(archive),
        )[index as int].payload),
{
    let mut payload = Vec::new();
    match archive.by_index(index) {
        Ok(mut file) => match file.read_to_end(&mut payload) {
            Ok(_) => Ok(payload),
            Err(error) => Err(ZipError::Io(error)),
        },
        Err(error) => Err(error),
    }
}

} // verus!
