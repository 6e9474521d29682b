//! Reading and writing archives in memory, through the `zip` crate.

use vstd::prelude::*;
use vstd::utf8::encode_utf8;

verus! {

/// A cursor over bytes in memory.
#[verifier::external_type_specification]
#[verifier::external_body]
#[verifier::reject_recursive_types(T)]
pub struct ExCursor<T>(std::io::Cursor<T>);

/// An archive opened for reading.
#[verifier::external_type_specification]
#[verifier::external_body]
#[verifier::reject_recursive_types(R)]
pub struct ExZipArchive<R>(zip::ZipArchive<R>);

/// The bytes that an archive was opened from.
pub uninterp spec fn archive_source(archive: zip::ZipArchive<std::io::Cursor<Vec<u8>>>) -> Seq<u8>;

/// What `zip::ZipArchive::new` says of bytes that it does not take for an archive.
pub uninterp spec fn zip_refusal(bytes: Seq<u8>) -> Option<Seq<char>>;

/// What `zip::ZipArchive::len` counts: the entries of an archive.
pub uninterp spec fn zip_len(bytes: Seq<u8>) -> usize;

/// What `zip::ZipArchive::by_index` finds: what an archive says of an entry, or what it says of one
/// that it cannot open.
pub uninterp spec fn zip_entry(bytes: Seq<u8>, index: usize) -> Result<HeaderView, Seq<char>>;

/// What reading an entry up to a limit gives: its first bytes, or why it cannot be read.
pub uninterp spec fn zip_data(bytes: Seq<u8>, index: usize, limit: u64) -> Result<
    Seq<u8>,
    Seq<char>,
>;

/// How the contents of an entry are kept.
#[derive(Clone, Copy, Debug, PartialEq, Eq, Structural)]
pub enum Compression {
    /// As they are.
    Stored,
    /// Compressed by Deflate.
    Deflated,
    /// In another way.
    Other,
}

/// What an archive says of one of its entries.
#[derive(Debug)]
pub struct EntryHeader {
    /// The name of the entry: a path inside the archive.
    pub name: String,
    /// Whether the entry is a file, and neither a directory nor a link.
    pub is_file: bool,
    /// The size that the archive claims for the contents.
    pub size: u64,
    pub compression: Compression,
}

/// What an archive says of one of its entries, in terms of sequences.
#[verifier::ext_equal]
pub struct HeaderView {
    pub name: Seq<char>,
    pub is_file: bool,
    pub size: u64,
    pub compression: Compression,
}

impl View for EntryHeader {
    type V = HeaderView;

    open spec fn view(&self) -> HeaderView {
        HeaderView {
            name: self.name@,
            is_file: self.is_file,
            size: self.size,
            compression: self.compression,
        }
    }
}

/// Opens an archive with `zip::ZipArchive::new`.
///
/// Whether the bytes are an archive, and the message where they are not, depend on them alone.
#[verifier::external_body]
pub(crate) fn open_archive(bytes: Vec<u8>) -> (opened: Result<
    zip::ZipArchive<std::io::Cursor<Vec<u8>>>,
    String,
>)
    ensures
        match opened {
            Ok(archive) => zip_refusal(bytes@) is None && archive_source(archive) == bytes@,
            Err(text) => zip_refusal(bytes@) == Some(text@),
        },
{
    match zip::ZipArchive::new(std::io::Cursor::new(bytes)) {
        Ok(archive) => Ok(archive),
        Err(error) => Err(format!("{:#}", anyhow::Error::new(error))),
    }
}

/// Counts the entries of an archive with `zip::ZipArchive::len`.
#[verifier::external_body]
fn entry_count(archive: &zip::ZipArchive<std::io::Cursor<Vec<u8>>>) -> (count: usize)
    ensures
        count == zip_len(archive_source(*archive)),
{
    archive.len()
}

/// Looks at an entry with `zip::ZipArchive::by_index`, and asks it for its name, its kind, its size
/// and its compression.
///
/// The call moves the reader, and leaves the bytes of the archive as they are.
#[verifier::external_body]
pub(crate) fn entry_header(
    archive: &mut zip::ZipArchive<std::io::Cursor<Vec<u8>>>,
    index: usize,
) -> (header: Result<EntryHeader, String>)
    ensures
        archive_source(*final(archive)) == archive_source(*old(archive)),
        match header {
            Ok(header) => zip_entry(archive_source(*old(archive)), index) == Ok::<
                HeaderView,
                Seq<char>,
            >(header@),
            Err(text) => zip_entry(archive_source(*old(archive)), index) == Err::<
                HeaderView,
                Seq<char>,
            >(text@),
        },
{
    match archive.by_index(index) {
        Ok(entry) => Ok(
            EntryHeader {
                name: entry.name().to_owned(),
                is_file: entry.is_file(),
                size: entry.size(),
                compression: match entry.compression() {
                    zip::CompressionMethod::Stored => Compression::Stored,
                    zip::CompressionMethod::Deflated => Compression::Deflated,
                    _ => Compression::Other,
                },
            },
        ),
        Err(error) => Err(format!("{:#}", anyhow::Error::new(error))),
    }
}

/// What is said of an entry, in terms of sequences, or why it cannot be opened.
pub open spec fn header_view(header: Result<EntryHeader, String>) -> Result<HeaderView, Seq<char>> {
    match header {
        Ok(header) => Ok(header@),
        Err(cause) => Err(cause@),
    }
}

/// What is said of each entry of a list.
pub open spec fn header_views(headers: Seq<Result<EntryHeader, String>>) -> Seq<
    Result<HeaderView, Seq<char>>,
> {
    headers.map_values(|header: Result<EntryHeader, String>| header_view(header))
}

/// What an archive says of each of its entries, in the order in which it lists them.
pub open spec fn archive_headers(bytes: Seq<u8>) -> Seq<
    Result<HeaderView, Seq<char>>,
> {
    Seq::new(zip_len(bytes) as nat, |i: int| zip_entry(bytes, i as usize))
}

/// Looks at every entry of an archive.
pub(crate) fn read_headers(archive: &mut zip::ZipArchive<std::io::Cursor<Vec<u8>>>) -> (headers: Vec<
    Result<EntryHeader, String>,
>)
    ensures
        archive_source(*final(archive)) == archive_source(*old(archive)),
        header_views(headers@) == archive_headers(archive_source(*old(archive))),
{
    let count = entry_count(archive);
    let mut headers: Vec<Result<EntryHeader, String>> = Vec::new();
    let mut index: usize = 0;
    while index < count
        invariant
            index <= count,
            count == zip_len(archive_source(*old(archive))),
            archive_source(*archive) == archive_source(*old(archive)),
            headers@.len() == index,
            forall|i: int|
                0 <= i < index ==> header_view(#[trigger] headers@[i]) == zip_entry(
                    archive_source(*old(archive)),
                    i as usize,
                ),
        decreases count - index,
    {
        headers.push(entry_header(archive, index));
        index = index + 1;
    }
    assert(header_views(headers@) =~= archive_headers(archive_source(*old(archive))));
    headers
}

/// Reads the first bytes of an entry: `zip::ZipArchive::by_index`, then `std::io::Read` on the
/// entry up to the limit.
///
/// At most as many bytes come back as the limit allows.
#[verifier::external_body]
pub(crate) fn read_entry(
    archive: &mut zip::ZipArchive<std::io::Cursor<Vec<u8>>>,
    index: usize,
    limit: u64,
) -> (data: Result<Vec<u8>, String>)
    ensures
        archive_source(*final(archive)) == archive_source(*old(archive)),
        match data {
            Ok(data) => data@.len() <= limit && zip_data(
                archive_source(*old(archive)),
                index,
                limit,
            ) == Ok::<Seq<u8>, Seq<char>>(data@),
            Err(text) => zip_data(archive_source(*old(archive)), index, limit) == Err::<
                Seq<u8>,
                Seq<char>,
            >(text@),
        },
{
    let mut data = Vec::new();
    match archive.by_index(index) {
        Ok(entry) => {
            let mut start = std::io::Read::take(entry, limit);
            match std::io::Read::read_to_end(&mut start, &mut data) {
                Ok(_) => Ok(data),
                Err(error) => Err(format!("{:#}", anyhow::Error::new(error))),
            }
        },
        Err(error) => Err(format!("{:#}", anyhow::Error::new(error))),
    }
}

/// An archive being written in memory.
#[verifier::external_body]
pub struct ArchiveWriter {
    inner: zip::ZipWriter<std::io::Cursor<Vec<u8>>>,
}

/// An entry of an archive: its name, its contents, and how they are kept.
#[verifier::ext_equal]
pub struct EntryView {
    pub name: Seq<char>,
    pub data: Seq<u8>,
    pub compression: Compression,
}

/// The entries that an archive under way holds so far.
pub uninterp spec fn pending_entries(writer: ArchiveWriter) -> Seq<EntryView>;

/// Whether an archive under way can take entries: it can until adding one fails.
pub uninterp spec fn is_writable(writer: ArchiveWriter) -> bool;

/// Why an entry cannot be added after the given ones, where it cannot.
pub uninterp spec fn append_refusal(entries: Seq<EntryView>, entry: EntryView) -> Option<Seq<char>>;

/// Why an archive with the given entries cannot be completed, where it cannot.
pub uninterp spec fn finish_refusal(entries: Seq<EntryView>) -> Option<Seq<char>>;

/// Whether one of the entries has the given name.
pub open spec fn has_entry(entries: Seq<EntryView>, name: Seq<char>) -> bool {
    exists|i: int| 0 <= i < entries.len() && (#[trigger] entries[i]).name == name
}

/// Whether an entry of this name is a file: a name that ends with a slash or a backslash is that
/// of a directory.
pub open spec fn is_file_entry(name: Seq<char>) -> bool {
    name.len() == 0 || (name.last() != '/' && name.last() != '\\')
}

/// Whether the name of an entry has room in 16 bits, and the size of its contents in 32.
pub open spec fn is_small_entry(name: Seq<char>, data: Seq<u8>) -> bool {
    encode_utf8(name).len() <= 0xffff && data.len() <= 0xffff_ffff
}

/// Whether all entries are kept as they are.
pub open spec fn all_stored(entries: Seq<EntryView>) -> bool {
    forall|i: int| 0 <= i < entries.len() ==> (#[trigger] entries[i]).compression is Stored
}

/// Where the directory of an archive of stored entries starts: before it stand, for each entry, a
/// header of 30 bytes, the name and the contents.
pub open spec fn directory_start(entries: Seq<EntryView>) -> nat
    decreases entries.len(),
{
    if entries.len() == 0 {
        0
    } else {
        directory_start(entries.drop_last()) + 30 + encode_utf8(entries.last().name).len()
            + entries.last().data.len()
    }
}

/// How long the directory of an archive of stored entries is: for each entry a header of 46 bytes
/// and the name.
pub open spec fn directory_size(entries: Seq<EntryView>) -> nat
    decreases entries.len(),
{
    if entries.len() == 0 {
        0
    } else {
        directory_size(entries.drop_last()) + 46 + encode_utf8(entries.last().name).len()
    }
}

/// Whether an archive ends with 64-bit records: a count has no room in 16 bits, or a size in 32.
pub open spec fn has_large_records(entries: Seq<EntryView>) -> bool {
    entries.len() > 0xffff || directory_start(entries) > 0xffff_ffff || directory_size(entries)
        > 0xffff_ffff
}

/// Whether an archive makes its reader look for 64-bit records: a count or a size is the largest
/// that has room.
pub open spec fn hints_at_large_records(entries: Seq<EntryView>) -> bool {
    entries.len() == 0xffff || directory_start(entries) == 0xffff_ffff || directory_size(entries)
        == 0xffff_ffff
}

/// Whether the last entry of the directory may end like a 64-bit record: 20 bytes before its end
/// stands the mark `PK\u{6}\u{7}`, in the name or in the place of the entry, which is written right
/// before the name.
pub open spec fn ends_like_large_record(entries: Seq<EntryView>) -> bool {
    let name = entries.last().name;
    name.contains('\u{7}') || (encode_utf8(name).len() == 16 && directory_start(entries.drop_last())
        == 0x0706_4b50)
}

/// Whether an archive without 64-bit records can be taken for one that has them.
pub open spec fn is_ambiguous(entries: Seq<EntryView>) -> bool {
    !has_large_records(entries) && hints_at_large_records(entries) && ends_like_large_record(
        entries,
    )
}

/// Whether bytes are an archive that holds exactly these entries, in this order.
pub open spec fn archive_holds(bytes: Seq<u8>, entries: Seq<EntryView>) -> bool {
    &&& zip_refusal(bytes) is None
    &&& zip_len(bytes) == entries.len()
    &&& forall|i: usize|
        i < entries.len() ==> #[trigger] zip_entry(bytes, i) == Ok::<HeaderView, Seq<char>>(
            HeaderView {
                name: entries[i as int].name,
                is_file: is_file_entry(entries[i as int].name),
                size: entries[i as int].data.len() as u64,
                compression: entries[i as int].compression,
            },
        )
    &&& forall|i: usize, limit: u64|
        i < entries.len() && entries[i as int].data.len() <= limit ==> #[trigger] zip_data(
            bytes,
            i,
            limit,
        ) == Ok::<Seq<u8>, Seq<char>>(entries[i as int].data)
}

/// Starts an archive without entries with `zip::ZipWriter::new`.
#[verifier::external_body]
pub(crate) fn start_archive() -> (writer: ArchiveWriter)
    ensures
        pending_entries(writer) == Seq::<EntryView>::empty(),
        is_writable(writer),
{
    ArchiveWriter { inner: zip::ZipWriter::new(std::io::Cursor::new(Vec::new())) }
}

/// Adds an entry, kept in the given way: `zip::ZipWriter::start_file`, then
/// `std::io::Write::write_all` on the writer.
///
/// A name that is there already is refused. Where all entries are stored, any other name of up to
/// 65535 bytes is accepted, with contents that have room in 32 bits, and nothing else is.
#[verifier::external_body]
pub(crate) fn append_entry(
    writer: &mut ArchiveWriter,
    name: &str,
    data: &[u8],
    compression: Compression,
) -> (added: Result<(), String>)
    requires
        is_writable(*old(writer)),
        compression != Compression::Other,
    ensures
        match added {
            Ok(()) => {
                &&& append_refusal(
                    pending_entries(*old(writer)),
                    EntryView { name: name@, data: data@, compression },
                ) is None
                &&& is_writable(*final(writer))
                &&& pending_entries(*final(writer)) == pending_entries(*old(writer)).push(
                    EntryView { name: name@, data: data@, compression },
                )
            },
            Err(text) => append_refusal(
                pending_entries(*old(writer)),
                EntryView { name: name@, data: data@, compression },
            ) == Some(text@),
        },
        has_entry(pending_entries(*old(writer)), name@) ==> added is Err,
        all_stored(pending_entries(*old(writer))) && compression is Stored ==> (added is Ok
            <==> !has_entry(pending_entries(*old(writer)), name@) && is_small_entry(name@, data@)),
{
    let method = match compression {
        Compression::Stored => zip::CompressionMethod::Stored,
        _ => zip::CompressionMethod::Deflated,
    };
    let options = zip::write::SimpleFileOptions::default().compression_method(method);
    match writer.inner.start_file(name, options) {
        Ok(()) => match std::io::Write::write_all(&mut writer.inner, data) {
            Ok(()) => Ok(()),
            Err(error) => Err(format!("{:#}", anyhow::Error::new(error))),
        },
        Err(error) => Err(format!("{:#}", anyhow::Error::new(error))),
    }
}

/// Completes an archive with `zip::ZipWriter::finish`.
///
/// An archive of stored entries is never refused. What was written can be read back: unless the
/// archive is ambiguous, the bytes are an archive of exactly the entries that were added. The times
/// that the archive records for its entries are left unsaid, and so are the bytes themselves.
#[verifier::external_body]
pub(crate) fn finish_archive(writer: ArchiveWriter) -> (finished: Result<Vec<u8>, String>)
    requires
        is_writable(writer),
    ensures
        match finished {
            Ok(bytes) => {
                &&& finish_refusal(pending_entries(writer)) is None
                &&& all_stored(pending_entries(writer)) && !is_ambiguous(pending_entries(writer))
                    ==> archive_holds(bytes@, pending_entries(writer))
            },
            Err(text) => finish_refusal(pending_entries(writer)) == Some(text@),
        },
        all_stored(pending_entries(writer)) ==> finished is Ok,
{
    match writer.inner.finish() {
        Ok(cursor) => Ok(cursor.into_inner()),
        Err(error) => Err(format!("{:#}", anyhow::Error::new(error))),
    }
}

/// An archive says something of each of its entries, at the place of that entry.
pub proof fn law_archive_headers(bytes: Seq<u8>, i: int)
    requires
        0 <= i < zip_len(bytes),
    ensures
        archive_headers(bytes).len() == zip_len(bytes),
        archive_headers(bytes)[i] == zip_entry(bytes, i as usize),
{
}

/// What is said of an entry holds its name, its kind, its size and its compression as they are, and
/// stands at the place of the entry.
pub proof fn law_header_views(headers: Seq<Result<EntryHeader, String>>, i: int)
    requires
        0 <= i < headers.len(),
    ensures
        header_views(headers).len() == headers.len(),
        headers[i] matches Ok(header) ==> (header_views(headers)[i] matches Ok(view) && view.name
            == header.name@ && view.is_file == header.is_file && view.size == header.size
            && view.compression == header.compression),
        headers[i] matches Err(cause) ==> header_views(headers)[i] == Err::<HeaderView, Seq<char>>(
            cause@,
        ),
{
}

/// An archive that holds entries can be opened, has as many entries, and gives each of them back at its
/// place: its name, its kind, its size, how it is kept, and its contents byte for byte.
pub proof fn law_archive_holds(bytes: Seq<u8>, entries: Seq<EntryView>, i: int, limit: u64)
    requires
        archive_holds(bytes, entries),
        0 <= i < entries.len(),
    ensures
        zip_refusal(bytes) is None,
        zip_len(bytes) == entries.len(),
        zip_entry(bytes, i as usize) matches Ok(header) && header.name == entries[i].name
            && header.size == entries[i].data.len() as u64 && header.compression
            == entries[i].compression && (header.is_file <==> !(entries[i].name.len() > 0 && (
        entries[i].name.last() == '/' || entries[i].name.last() == '\\'))),
        entries[i].data.len() <= limit ==> zip_data(bytes, i as usize, limit) == Ok::<
            Seq<u8>,
            Seq<char>,
        >(entries[i].data),
{
}

/// An archive can be ambiguous only where a count or a size is exactly the largest that has room: it
/// has 65535 entries, or its directory starts or ends at a distance of 4294967295 bytes.
pub proof fn law_ambiguous(entries: Seq<EntryView>)
    requires
        is_ambiguous(entries),
    ensures
        entries.len() == 65535 || directory_start(entries) == 4294967295 || directory_size(entries)
            == 4294967295,
        entries.last().name.contains('\u{7}') || encode_utf8(entries.last().name).len() == 16,
{
}

/// Another entry moves the directory of an archive by 30 bytes, its name and its contents, and makes
/// the directory longer by 46 bytes and its name.
pub proof fn law_directory_grows(entries: Seq<EntryView>, entry: EntryView)
    ensures
        directory_start(entries.push(entry)) == directory_start(entries) + 30 + encode_utf8(
            entry.name,
        ).len() + entry.data.len(),
        directory_size(entries.push(entry)) == directory_size(entries) + 46 + encode_utf8(
            entry.name,
        ).len(),
        directory_start(Seq::empty()) == 0,
        directory_size(Seq::empty()) == 0,
{
    assert(entries.push(entry).drop_last() =~= entries);
}

/// A name is taken if and only if an entry has it; entries are all stored if and only if each is; and
/// an entry is small if and only if its name has at most 65535 bytes and its contents 4294967295.
pub proof fn law_entries(entries: Seq<EntryView>, name: Seq<char>, data: Seq<u8>)
    ensures
        has_entry(entries, name) <==> exists|i: int|
            0 <= i < entries.len() && (#[trigger] entries[i]).name == name,
        all_stored(entries) <==> forall|i: int|
            0 <= i < entries.len() ==> (#[trigger] entries[i]).compression == Compression::Stored,
        is_small_entry(name, data) <==> encode_utf8(name).len() <= 65535 && data.len()
            <= 4294967295,
{
}

} // verus!
