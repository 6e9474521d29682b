//! Pages from files: which files are pages, and what is read from pictures and archives.

use crate::archive::{
    archive_headers, archive_source, entry_header, header_view, header_views, open_archive,
    read_entry, read_headers, zip_data, zip_entry, zip_refusal, EntryHeader, HeaderView,
};
use crate::error::{caused, Error};
use crate::images::{dimensions, guess_mime, guessed_mime, read_dimensions};
use crate::natural::{
    is_natural_order, keyed, lemma_natural_order, natural_order, numbered_upwards, sort_names,
    sort_paths, stands_before,
};
use crate::paths::{
    file_name, file_name_of, has_any_extension, names_any_extension, names_extension, texts,
    PathStyle,
};
use crate::text::{concat3, concat4, decimal, decimal_text};
use crate::views::{
    bytes_result, lemma_failure_stays, optional_text, plain_result, text_result,
};
use vstd::prelude::*;
use vstd::seq_lib::lemma_seq_contains_after_push;

verus! {

/// The largest page that is taken out of an archive.
pub const MAX_ARCHIVE_ENTRY_BYTES: u64 = 512 * 1024 * 1024;

/// The most that the pages taken out of one archive may claim together.
pub const MAX_ARCHIVE_TOTAL_BYTES: u64 = 4 * 1024 * 1024 * 1024;

/// The extensions of pictures.
pub open spec fn image_extensions() -> Seq<Seq<char>> {
    seq!["png"@, "jpg"@, "jpeg"@, "webp"@]
}

/// The extensions of archives.
pub open spec fn archive_extensions() -> Seq<Seq<char>> {
    seq!["zip"@, "cbz"@]
}

/// Whether a path names a picture.
pub open spec fn is_image_path(style: PathStyle, path: Seq<char>) -> bool {
    names_any_extension(style, path, image_extensions())
}

/// Whether a path names an archive.
pub open spec fn is_archive_path(style: PathStyle, path: Seq<char>) -> bool {
    names_any_extension(style, path, archive_extensions())
}

/// Whether a path names a picture.
pub fn has_image_extension(style: PathStyle, path: &str) -> (r: bool)
    ensures
        r == is_image_path(style, path@),
{
    let wanted: [&str; 4] = ["png", "jpg", "jpeg", "webp"];
    assert(texts(wanted@) =~= image_extensions());
    has_any_extension(style, path, &wanted)
}

/// Whether a path names an archive.
pub fn has_archive_extension(style: PathStyle, path: &str) -> (r: bool)
    ensures
        r == is_archive_path(style, path@),
{
    let wanted: [&str; 2] = ["zip", "cbz"];
    assert(texts(wanted@) =~= archive_extensions());
    has_any_extension(style, path, &wanted)
}

/// A page that was read: a picture that nobody has decoded yet.
#[derive(Debug)]
pub struct ImportedPage {
    /// The name of the file that the page came from.
    pub name: String,
    /// The picture as it stood in the file.
    pub bytes: Vec<u8>,
    /// The MIME type of the picture.
    pub mime: String,
    pub width: u32,
    pub height: u32,
}

/// What a page that was read consists of.
#[verifier::ext_equal]
pub struct PageView {
    pub name: Seq<char>,
    pub bytes: Seq<u8>,
    pub mime: Seq<char>,
    pub width: u32,
    pub height: u32,
}

impl View for ImportedPage {
    type V = PageView;

    open spec fn view(&self) -> PageView {
        PageView {
            name: self.name@,
            bytes: self.bytes@,
            mime: self.mime@,
            width: self.width,
            height: self.height,
        }
    }
}

/// The pages of a list.
pub open spec fn page_views(pages: Seq<ImportedPage>) -> Seq<PageView> {
    pages.map_values(|page: ImportedPage| page@)
}

/// The page that a picture of this format and size makes, or why it makes none.
pub open spec fn identified_page(
    name: Seq<char>,
    bytes: Seq<u8>,
    source: Seq<char>,
    mime: Result<Seq<char>, Seq<char>>,
    size: Result<(u32, u32), Seq<char>>,
) -> Result<PageView, Seq<char>> {
    match mime {
        Err(cause) => Err(caused("failed to identify image format for "@ + source, cause)),
        Ok(mime) => match size {
            Err(cause) => Err(caused("failed to read image dimensions for "@ + source, cause)),
            Ok((width, height)) => Ok(PageView { name, bytes, mime, width, height }),
        },
    }
}

/// A page that was read, or the message of the error, in terms of sequences.
pub open spec fn page_result(result: Result<ImportedPage, Error>) -> Result<PageView, Seq<char>> {
    match result {
        Ok(page) => Ok(page@),
        Err(error) => Err(error@),
    }
}

/// Pages that were read, or the message of the error, in terms of sequences.
pub open spec fn pages_result(result: Result<Vec<ImportedPage>, Error>) -> Result<
    Seq<PageView>,
    Seq<char>,
> {
    match result {
        Ok(pages) => Ok(page_views(pages@)),
        Err(error) => Err(error@),
    }
}

/// Makes a page of a picture, given what its format and its size were found to be.
pub fn identify_page(
    name: String,
    bytes: Vec<u8>,
    source: &str,
    mime: Result<String, String>,
    size: Result<(u32, u32), String>,
) -> (page: Result<ImportedPage, Error>)
    ensures
        page_result(page) == identified_page(
            name@,
            bytes@,
            source@,
            text_result(mime),
            plain_result(size),
        ),
{
    match mime {
        Err(cause) => Err(
            Error::because_of("failed to identify image format for ", source, cause.as_str()),
        ),
        Ok(mime) => match size {
            Err(cause) => Err(
                Error::because_of("failed to read image dimensions for ", source, cause.as_str()),
            ),
            Ok((width, height)) => Ok(ImportedPage { name, bytes, mime, width, height }),
        },
    }
}

/// The page that a picture makes, or why it makes none.
pub open spec fn image_page(name: Seq<char>, bytes: Seq<u8>, source: Seq<char>) -> Result<
    PageView,
    Seq<char>,
> {
    identified_page(name, bytes, source, guessed_mime(bytes), read_dimensions(bytes))
}

/// Makes a page of a picture; `source` is where the picture came from, for the error.
pub fn load_image(name: String, bytes: Vec<u8>, source: &str) -> (page: Result<ImportedPage, Error>)
    ensures
        page_result(page) == image_page(name@, bytes@, source@),
{
    let mime = guess_mime(bytes.as_slice());
    let size = dimensions(bytes.as_slice());
    identify_page(name, bytes, source, mime, size)
}

/// The name of a page: the file that the path names.
pub open spec fn page_name_of(style: PathStyle, path: Seq<char>) -> Seq<char> {
    match file_name_of(style, path) {
        Some(name) => name,
        None => "page"@,
    }
}

/// The name of a page.
pub fn page_name(style: PathStyle, path: &str) -> (name: String)
    ensures
        name@ == page_name_of(style, path@),
{
    match file_name(style, path) {
        Some(name) => name,
        None => "page".to_owned(),
    }
}

/// What became of reading a file.
#[derive(Debug)]
pub enum FileContents {
    /// The file was read.
    Bytes(Vec<u8>),
    /// The file could not be opened.
    OpenFailed(String),
    /// The file was opened and could not be read.
    ReadFailed(String),
}

/// What became of reading a file, in terms of sequences.
pub enum ContentsView {
    Bytes(Seq<u8>),
    OpenFailed(Seq<char>),
    ReadFailed(Seq<char>),
}

impl View for FileContents {
    type V = ContentsView;

    open spec fn view(&self) -> ContentsView {
        match self {
            FileContents::Bytes(bytes) => ContentsView::Bytes(bytes@),
            FileContents::OpenFailed(cause) => ContentsView::OpenFailed(cause@),
            FileContents::ReadFailed(cause) => ContentsView::ReadFailed(cause@),
        }
    }
}

/// The page that a picture file makes.
pub open spec fn image_file_page(style: PathStyle, path: Seq<char>, contents: ContentsView) -> Result<
    PageView,
    Seq<char>,
> {
    match contents {
        ContentsView::OpenFailed(cause) => Err(caused("failed to read "@ + path, cause)),
        ContentsView::ReadFailed(cause) => Err(caused("failed to read "@ + path, cause)),
        ContentsView::Bytes(bytes) => image_page(page_name_of(style, path), bytes, path),
    }
}

/// Makes a page of a picture file.
pub fn load_image_file(style: PathStyle, path: &str, contents: FileContents) -> (page: Result<
    ImportedPage,
    Error,
>)
    ensures
        page_result(page) == image_file_page(style, path@, contents@),
{
    match contents {
        FileContents::OpenFailed(cause) => Err(
            Error::because_of("failed to read ", path, cause.as_str()),
        ),
        FileContents::ReadFailed(cause) => Err(
            Error::because_of("failed to read ", path, cause.as_str()),
        ),
        FileContents::Bytes(bytes) => load_image(page_name(style, path), bytes, path),
    }
}

/// What is said of an entry that cannot be looked at: with the path of the archive, which entry of
/// which archive it is; without, only the cause.
pub open spec fn inspection_failure(path: Option<Seq<char>>, index: nat, cause: Seq<char>) -> Seq<
    char,
> {
    match path {
        Some(path) => caused(
            "failed to inspect entry "@ + decimal_text(index) + " in "@ + path,
            cause,
        ),
        None => cause,
    }
}

/// Whether an entry is a picture: a file whose name, as a path of the system, has the extension of
/// one.
pub open spec fn is_picture(style: PathStyle, header: HeaderView) -> bool {
    header.is_file && is_image_path(style, header.name)
}

/// The pictures among the entries of an archive, each with its number and name.
pub open spec fn image_entries(
    style: PathStyle,
    path: Option<Seq<char>>,
    headers: Seq<Result<HeaderView, Seq<char>>>,
) -> Result<Seq<(usize, Seq<char>)>, Seq<char>>
    decreases headers.len(),
{
    if headers.len() == 0 {
        Ok(Seq::empty())
    } else {
        let index = (headers.len() - 1) as nat;
        match image_entries(style, path, headers.drop_last()) {
            Err(text) => Err(text),
            Ok(found) => match headers.last() {
                Err(cause) => Err(inspection_failure(path, index, cause)),
                Ok(header) => if is_picture(style, header) {
                    Ok(found.push((index as usize, header.name)))
                } else {
                    Ok(found)
                },
            },
        }
    }
}

/// Numbered names, or the message of the error, in terms of sequences.
pub open spec fn entries_result(result: Result<Vec<(usize, String)>, Error>) -> Result<
    Seq<(usize, Seq<char>)>,
    Seq<char>,
> {
    match result {
        Ok(entries) => Ok(keyed(entries@)),
        Err(error) => Err(error@),
    }
}

/// Picks the pictures among the entries of an archive, in the order in which it lists them.
pub fn select_images(
    style: PathStyle,
    path: Option<&str>,
    headers: &Vec<Result<EntryHeader, String>>,
) -> (found: Result<Vec<(usize, String)>, Error>)
    ensures
        entries_result(found) == image_entries(
            style,
            optional_text(path),
            header_views(headers@),
        ),
        found matches Ok(found) ==> numbered_upwards(found@),
{
    let ghost views = header_views(headers@);
    let ghost label = optional_text(path);
    let mut found: Vec<(usize, String)> = Vec::new();
    let mut index: usize = 0;
    assert(keyed(found@) =~= Seq::<(usize, Seq<char>)>::empty());
    while index < headers.len()
        invariant
            index <= headers@.len(),
            views == header_views(headers@),
            label == optional_text(path),
            image_entries(style, label, views.take(index as int)) == Ok::<
                Seq<(usize, Seq<char>)>,
                Seq<char>,
            >(keyed(found@)),
            numbered_upwards(found@),
            forall|i: int| 0 <= i < found@.len() ==> (#[trigger] found@[i]).0 < index,
        decreases headers@.len() - index,
    {
        assert(views.take(index + 1).drop_last() =~= views.take(index as int));
        assert(views.take(index + 1).last() == header_view(headers@[index as int]));
        match &headers[index] {
            Err(cause) => {
                proof {
                    lemma_failure_stays(
                        |headers: Seq<Result<HeaderView, Seq<char>>>|
                            image_entries(style, label, headers),
                        views,
                        index + 1,
                    );
                }
                return match path {
                    Some(path) => {
                        let context = concat4(
                            "failed to inspect entry ",
                            decimal(index).as_str(),
                            " in ",
                            path,
                        );
                        Err(Error::because(context.as_str(), cause.as_str()))
                    },
                    None => Err(Error::new(cause.as_str())),
                };
            },
            Ok(header) => {
                if header.is_file && has_image_extension(style, header.name.as_str()) {
                    let ghost before = found@;
                    found.push((index, header.name.clone()));
                    assert(keyed(found@) =~= keyed(before).push((index, header.name@)));
                }
            },
        }
        index = index + 1;
    }
    assert(views.take(index as int) =~= views);
    Ok(found)
}

/// The path of an archive counts for its pictures only in what is said of failures.
pub proof fn lemma_image_entries_of_any_path(
    style: PathStyle,
    a: Option<Seq<char>>,
    b: Option<Seq<char>>,
    headers: Seq<Result<HeaderView, Seq<char>>>,
)
    ensures
        image_entries(style, a, headers) is Ok ==> image_entries(style, a, headers)
            == image_entries(style, b, headers),
    decreases headers.len(),
{
    if headers.len() > 0 {
        lemma_image_entries_of_any_path(style, a, b, headers.drop_last());
    }
}

/// Whether an entry is a picture of this name.
pub open spec fn is_picture_of(
    style: PathStyle,
    header: Result<HeaderView, Seq<char>>,
    name: Seq<char>,
) -> bool {
    match header {
        Ok(header) => header.name == name && is_picture(style, header),
        Err(_) => false,
    }
}

/// The pictures of an archive are all its files with the extension of a picture, and nothing else.
pub proof fn law_image_entries(
    style: PathStyle,
    path: Option<Seq<char>>,
    headers: Seq<Result<HeaderView, Seq<char>>>,
    index: usize,
    name: Seq<char>,
)
    requires
        headers.len() <= usize::MAX,
    ensures
        image_entries(style, path, headers) matches Ok(found) ==> (found.contains((index, name))
            <==> index < headers.len() && is_picture_of(style, headers[index as int], name)),
    decreases headers.len(),
{
    broadcast use lemma_seq_contains_after_push;

    if headers.len() > 0 {
        let before = headers.drop_last();
        let last = headers.len() - 1;
        law_image_entries(style, path, before, index, name);
        if index < last {
            assert(before[index as int] == headers[index as int]);
        }
    }
}

/// Where a page of an archive came from.
pub open spec fn entry_label(name: Seq<char>, path: Seq<char>) -> Seq<char> {
    name + " in "@ + path
}

/// What the entries of an archive claim together once another one is taken, or why it is not.
pub open spec fn admitted_total(
    path: Seq<char>,
    label: Seq<char>,
    header: Result<HeaderView, Seq<char>>,
    total: int,
) -> Result<int, Seq<char>> {
    match header {
        Err(cause) => Err(caused("failed to open "@ + label, cause)),
        Ok(header) => if header.size > MAX_ARCHIVE_ENTRY_BYTES {
            Err(label + " exceeds the 512 MiB page limit"@)
        } else if total + header.size > MAX_ARCHIVE_TOTAL_BYTES {
            Err(path + " exceeds the 4 GiB import limit"@)
        } else {
            Ok(total + header.size)
        },
    }
}

/// The contents of an entry, unless they cannot be read or are too long.
pub open spec fn extracted_data(label: Seq<char>, data: Result<Seq<u8>, Seq<char>>) -> Result<
    Seq<u8>,
    Seq<char>,
> {
    match data {
        Err(cause) => Err(caused("failed to extract "@ + label, cause)),
        Ok(data) => if data.len() > MAX_ARCHIVE_ENTRY_BYTES {
            Err(label + " exceeds the 512 MiB page limit"@)
        } else {
            Ok(data)
        },
    }
}

/// Decides whether another entry is taken after entries that claim `total` bytes.
pub fn admit_entry(
    path: &str,
    label: &str,
    header: Result<EntryHeader, String>,
    total: u64,
) -> (sum: Result<u64, Error>)
    requires
        total <= MAX_ARCHIVE_TOTAL_BYTES,
    ensures
        match sum {
            Ok(sum) => sum <= MAX_ARCHIVE_TOTAL_BYTES && admitted_total(
                path@,
                label@,
                header_view(header),
                total as int,
            ) == Ok::<int, Seq<char>>(sum as int),
            Err(error) => admitted_total(path@, label@, header_view(header), total as int) == Err::<
                int,
                Seq<char>,
            >(error@),
        },
{
    let size: u64 = match header {
        Err(cause) => {
            return Err(Error::because_of("failed to open ", label, cause.as_str()));
        },
        Ok(header) => header.size,
    };
    if size > MAX_ARCHIVE_ENTRY_BYTES {
        return Err(Error::of(label, " exceeds the 512 MiB page limit"));
    }
    let sum: u64 = total + size;
    if sum > MAX_ARCHIVE_TOTAL_BYTES {
        return Err(Error::of(path, " exceeds the 4 GiB import limit"));
    }
    Ok(sum)
}

/// Decides whether the contents of an entry are taken.
pub fn accept_data(label: &str, data: Result<Vec<u8>, String>) -> (accepted: Result<Vec<u8>, Error>)
    ensures
        match accepted {
            Ok(accepted) => extracted_data(label@, bytes_result(data)) == Ok::<
                Seq<u8>,
                Seq<char>,
            >(accepted@),
            Err(error) => extracted_data(label@, bytes_result(data)) == Err::<Seq<u8>, Seq<char>>(
                error@,
            ),
        },
{
    match data {
        Err(cause) => Err(Error::because_of("failed to extract ", label, cause.as_str())),
        Ok(data) => if data.len() as u64 > MAX_ARCHIVE_ENTRY_BYTES {
            Err(Error::of(label, " exceeds the 512 MiB page limit"))
        } else {
            Ok(data)
        },
    }
}

/// The page that an entry makes after entries that claim `total` bytes, and what they all claim.
pub open spec fn entry_page(
    style: PathStyle,
    path: Seq<char>,
    bytes: Seq<u8>,
    entry: (usize, Seq<char>),
    total: int,
) -> Result<(PageView, int), Seq<char>> {
    let label = entry_label(entry.1, path);
    match admitted_total(path, label, zip_entry(bytes, entry.0), total) {
        Err(text) => Err(text),
        Ok(sum) => match extracted_data(
            label,
            zip_data(bytes, entry.0, (MAX_ARCHIVE_ENTRY_BYTES + 1) as u64),
        ) {
            Err(text) => Err(text),
            Ok(data) => match image_page(
                page_name_of(style, entry.1),
                data,
                label,
            ) {
                Err(text) => Err(text),
                Ok(page) => Ok((page, sum)),
            },
        },
    }
}

/// The pages that entries make, one after the other, or why the first that fails does.
pub open spec fn entry_pages(
    style: PathStyle,
    path: Seq<char>,
    bytes: Seq<u8>,
    entries: Seq<(usize, Seq<char>)>,
    total: int,
) -> Result<Seq<PageView>, Seq<char>>
    decreases entries.len(),
{
    if entries.len() == 0 {
        Ok(Seq::empty())
    } else {
        match entry_page(style, path, bytes, entries[0], total) {
            Err(text) => Err(text),
            Ok((page, total)) => match entry_pages(style, path, bytes, entries.drop_first(), total) {
                Err(text) => Err(text),
                Ok(rest) => Ok(seq![page] + rest),
            },
        }
    }
}

/// The pages of an archive in natural order of their names.
pub open spec fn archive_pages(
    style: PathStyle,
    path: Seq<char>,
    contents: ContentsView,
) -> Result<
    Seq<PageView>,
    Seq<char>,
> {
    match contents {
        ContentsView::OpenFailed(cause) => Err(caused("failed to open archive "@ + path, cause)),
        ContentsView::ReadFailed(cause) => Err(caused("failed to read archive "@ + path, cause)),
        ContentsView::Bytes(bytes) => match zip_refusal(bytes) {
            Some(cause) => Err(caused("failed to read archive "@ + path, cause)),
            None => match image_entries(style, Some(path), archive_headers(bytes)) {
                Err(text) => Err(text),
                Ok(entries) => entry_pages(style, path, bytes, natural_order(entries), 0),
            },
        },
    }
}

/// Opens the archive in a file.
pub(crate) fn open_file(path: &str, contents: FileContents) -> (opened: Result<
    zip::ZipArchive<std::io::Cursor<Vec<u8>>>,
    Error,
>)
    ensures
        match (opened, contents@) {
            (Ok(archive), ContentsView::Bytes(bytes)) => zip_refusal(bytes) is None
                && archive_source(archive) == bytes,
            (Ok(_), _) => false,
            (Err(error), ContentsView::Bytes(bytes)) => zip_refusal(bytes) matches Some(cause)
                && error@ == caused("failed to read archive "@ + path@, cause),
            (Err(error), ContentsView::OpenFailed(cause)) => error@ == caused(
                "failed to open archive "@ + path@,
                cause,
            ),
            (Err(error), ContentsView::ReadFailed(cause)) => error@ == caused(
                "failed to read archive "@ + path@,
                cause,
            ),
        },
{
    match contents {
        FileContents::OpenFailed(cause) => Err(
            Error::because_of("failed to open archive ", path, cause.as_str()),
        ),
        FileContents::ReadFailed(cause) => Err(
            Error::because_of("failed to read archive ", path, cause.as_str()),
        ),
        FileContents::Bytes(bytes) => match open_archive(bytes) {
            Err(cause) => Err(Error::because_of("failed to read archive ", path, cause.as_str())),
            Ok(archive) => Ok(archive),
        },
    }
}

/// Takes one page out of an archive.
fn load_entry(
    style: PathStyle,
    archive: &mut zip::ZipArchive<std::io::Cursor<Vec<u8>>>,
    path: &str,
    index: usize,
    name: &str,
    total: u64,
) -> (loaded: Result<(ImportedPage, u64), Error>)
    requires
        total <= MAX_ARCHIVE_TOTAL_BYTES,
    ensures
        archive_source(*final(archive)) == archive_source(*old(archive)),
        match loaded {
            Ok((page, sum)) => sum <= MAX_ARCHIVE_TOTAL_BYTES && entry_page(
                style,
                path@,
                archive_source(*old(archive)),
                (index, name@),
                total as int,
            ) == Ok::<(PageView, int), Seq<char>>((page@, sum as int)),
            Err(error) => entry_page(
                style,
                path@,
                archive_source(*old(archive)),
                (index, name@),
                total as int,
            ) == Err::<(PageView, int), Seq<char>>(error@),
        },
{
    let label = concat3(name, " in ", path);
    let sum = match admit_entry(path, label.as_str(), entry_header(archive, index), total) {
        Err(error) => {
            return Err(error);
        },
        Ok(sum) => sum,
    };
    let data = match accept_data(
        label.as_str(),
        read_entry(archive, index, MAX_ARCHIVE_ENTRY_BYTES + 1),
    ) {
        Err(error) => {
            return Err(error);
        },
        Ok(data) => data,
    };
    match load_image(
        page_name(style, name),
        data,
        label.as_str(),
    ) {
        Err(error) => Err(error),
        Ok(page) => Ok((page, sum)),
    }
}

/// Reads the pages of an archive: its pictures, in natural order of their names.
pub fn load_archive(style: PathStyle, path: &str, contents: FileContents) -> (pages: Result<
    Vec<ImportedPage>,
    Error,
>)
    ensures
        pages_result(pages) == archive_pages(style, path@, contents@),
        pages is Ok ==> (contents@ matches ContentsView::Bytes(bytes) && image_entries(
            style,
            Some(path@),
            archive_headers(bytes),
        ) matches Ok(entries) && is_natural_order(entries, natural_order(entries))),
{
    let mut archive = match open_file(path, contents) {
        Err(error) => {
            return Err(error);
        },
        Ok(archive) => archive,
    };
    let ghost bytes = archive_source(archive);
    let headers = read_headers(&mut archive);
    let mut entries = match select_images(style, Some(path), &headers) {
        Err(error) => {
            return Err(error);
        },
        Ok(entries) => entries,
    };
    sort_names(&mut entries);
    let ghost sorted = keyed(entries@);
    let mut pages: Vec<ImportedPage> = Vec::new();
    let mut total: u64 = 0;
    let mut i: usize = 0;
    assert(sorted.skip(0) =~= sorted);
    assert(page_views(pages@) =~= Seq::<PageView>::empty());
    assert(archive_pages(style, path@, contents@) == entry_pages(style, path@, bytes, sorted, 0));
    proof {
        let rest = entry_pages(style, path@, bytes, sorted, 0);
        if rest is Ok {
            assert(Seq::<PageView>::empty() + rest->Ok_0 =~= rest->Ok_0);
        }
    }
    while i < entries.len()
        invariant
            i <= entries@.len(),
            total <= MAX_ARCHIVE_TOTAL_BYTES,
            archive_source(archive) == bytes,
            sorted == keyed(entries@),
            contents@ matches ContentsView::Bytes(source) && source == bytes,
            image_entries(style, Some(path@), archive_headers(bytes)) matches Ok(found)
                && is_natural_order(found, natural_order(found)),
            archive_pages(style, path@, contents@) == entry_pages(style, path@, bytes, sorted, 0),
            match entry_pages(style, path@, bytes, sorted.skip(i as int), total as int) {
                Err(text) => entry_pages(style, path@, bytes, sorted, 0) == Err::<
                    Seq<PageView>,
                    Seq<char>,
                >(text),
                Ok(rest) => entry_pages(style, path@, bytes, sorted, 0) == Ok::<
                    Seq<PageView>,
                    Seq<char>,
                >(page_views(pages@) + rest),
            },
        decreases entries@.len() - i,
    {
        assert(sorted.skip(i as int)[0] == (entries@[i as int].0, entries@[i as int].1@));
        assert(sorted.skip(i as int).drop_first() =~= sorted.skip(i + 1));
        match load_entry(
            style,
            &mut archive,
            path,
            entries[i].0,
            entries[i].1.as_str(),
            total,
        ) {
            Err(error) => {
                return Err(error);
            },
            Ok((page, sum)) => {
                let ghost before = page_views(pages@);
                let ghost view = page@;
                pages.push(page);
                total = sum;
                proof {
                    assert(page_views(pages@) =~= before.push(view));
                    let rest = entry_pages(style, path@, bytes, sorted.skip(i + 1), sum as int);
                    if rest is Ok {
                        assert(before + (seq![view] + rest->Ok_0) =~= before.push(view)
                            + rest->Ok_0);
                    }
                }
            },
        }
        i = i + 1;
    }
    assert(page_views(pages@) + Seq::<PageView>::empty() =~= page_views(pages@));
    Ok(pages)
}

/// The pages of an archive follow its entries: one for each, named after it, none over the limit.
pub proof fn law_archive_pages_follow_entries(
    style: PathStyle,
    path: Seq<char>,
    bytes: Seq<u8>,
    entries: Seq<(usize, Seq<char>)>,
    total: int,
)
    ensures
        entry_pages(style, path, bytes, entries, total) matches Ok(pages) ==> {
            &&& pages.len() == entries.len()
            &&& forall|i: int|
                0 <= i < pages.len() ==> (#[trigger] pages[i]).name == page_name_of(
                    style,
                    entries[i].1,
                ) && pages[i].bytes.len() <= MAX_ARCHIVE_ENTRY_BYTES
        },
    decreases entries.len(),
{
    if entries.len() > 0 {
        if let Ok((page, sum)) = entry_page(style, path, bytes, entries[0], total) {
            law_archive_pages_follow_entries(style, path, bytes, entries.drop_first(), sum);
        }
    }
}

/// What the entries claim together, by what the archive says of each.
pub open spec fn claimed_bytes(bytes: Seq<u8>, entries: Seq<(usize, Seq<char>)>) -> int
    decreases entries.len(),
{
    if entries.len() == 0 {
        0
    } else {
        (match zip_entry(bytes, entries[0].0) {
            Ok(header) => header.size as int,
            Err(_) => 0,
        }) + claimed_bytes(bytes, entries.drop_first())
    }
}

/// An archive whose pages claim more than the import limit together is not imported.
pub proof fn law_import_limit(
    style: PathStyle,
    path: Seq<char>,
    bytes: Seq<u8>,
    entries: Seq<(usize, Seq<char>)>,
    total: int,
)
    requires
        0 <= total <= MAX_ARCHIVE_TOTAL_BYTES,
    ensures
        entry_pages(style, path, bytes, entries, total) is Ok ==> total + claimed_bytes(bytes, entries)
            <= MAX_ARCHIVE_TOTAL_BYTES,
    decreases entries.len(),
{
    if entries.len() > 0 {
        if let Ok((page, sum)) = entry_page(style, path, bytes, entries[0], total) {
            law_import_limit(style, path, bytes, entries.drop_first(), sum);
        }
    }
}

/// The pages of a file: those of an archive, or the one that a picture makes.
pub open spec fn file_pages(
    style: PathStyle,
    path: Seq<char>,
    contents: ContentsView,
) -> Result<
    Seq<PageView>,
    Seq<char>,
> {
    if is_archive_path(style, path) {
        archive_pages(style, path, contents)
    } else {
        match image_file_page(style, path, contents) {
            Err(text) => Err(text),
            Ok(page) => Ok(seq![page]),
        }
    }
}

/// Reads the pages of a file.
pub fn load_file(style: PathStyle, path: &str, contents: FileContents) -> (pages: Result<
    Vec<ImportedPage>,
    Error,
>)
    ensures
        pages_result(pages) == file_pages(style, path@, contents@),
{
    if has_archive_extension(style, path) {
        load_archive(style, path, contents)
    } else {
        match load_image_file(style, path, contents) {
            Err(error) => Err(error),
            Ok(page) => {
                let mut pages: Vec<ImportedPage> = Vec::new();
                let ghost view = page@;
                pages.push(page);
                assert(page_views(pages@) =~= seq![view]);
                Ok(pages)
            },
        }
    }
}

/// Something that was chosen for import, or found in a folder that was.
#[derive(Debug)]
pub enum ImportCandidate {
    /// A path that was chosen and is no folder.
    Given(String),
    /// An entry of a chosen folder, at any depth.
    Walked { path: String, is_file: bool },
    /// An entry of a chosen folder that could not be looked at.
    Unreadable,
}

/// The path that a candidate offers for import, if it does.
pub open spec fn offered_path(candidate: ImportCandidate) -> Option<Seq<char>> {
    match candidate {
        ImportCandidate::Given(path) => Some(path@),
        ImportCandidate::Walked { path, is_file } => if is_file {
            Some(path@)
        } else {
            None
        },
        ImportCandidate::Unreadable => None,
    }
}

/// Whether a path can be imported.
pub open spec fn is_import_path(style: PathStyle, path: Seq<char>) -> bool {
    is_image_path(style, path) || is_archive_path(style, path)
}

/// The files to import among candidates, each with its number.
pub open spec fn import_files(style: PathStyle, candidates: Seq<ImportCandidate>) -> Seq<
    (usize, Seq<char>),
>
    decreases candidates.len(),
{
    if candidates.len() == 0 {
        Seq::empty()
    } else {
        let found = import_files(style, candidates.drop_last());
        match offered_path(candidates.last()) {
            Some(path) => if is_import_path(style, path) {
                found.push(((candidates.len() - 1) as usize, path))
            } else {
                found
            },
            None => found,
        }
    }
}

/// Picks the files to import among candidates, in the order in which they come.
pub fn collect_import_files(style: PathStyle, candidates: Vec<ImportCandidate>) -> (files: Vec<
    (usize, String),
>)
    ensures
        keyed(files@) == import_files(style, candidates@),
        numbered_upwards(files@),
{
    let mut files: Vec<(usize, String)> = Vec::new();
    let mut index: usize = 0;
    assert(keyed(files@) =~= Seq::<(usize, Seq<char>)>::empty());
    while index < candidates.len()
        invariant
            index <= candidates@.len(),
            keyed(files@) == import_files(style, candidates@.take(index as int)),
            numbered_upwards(files@),
            forall|i: int| 0 <= i < files@.len() ==> (#[trigger] files@[i]).0 < index,
        decreases candidates@.len() - index,
    {
        assert(candidates@.take(index + 1).drop_last() =~= candidates@.take(index as int));
        let offered = match &candidates[index] {
            ImportCandidate::Given(path) => Some(path),
            ImportCandidate::Walked { path, is_file } => if *is_file {
                Some(path)
            } else {
                None
            },
            ImportCandidate::Unreadable => None,
        };
        if let Some(path) = offered {
            if has_image_extension(style, path.as_str()) || has_archive_extension(
                style,
                path.as_str(),
            ) {
                let ghost before = files@;
                files.push((index, path.clone()));
                assert(keyed(files@) =~= keyed(before).push((index, path@)));
            }
        }
        index = index + 1;
    }
    assert(candidates@.take(index as int) =~= candidates@);
    files
}

/// The files to import are all files with the extension of a picture or an archive, and nothing
/// else.
pub proof fn law_import_files(
    style: PathStyle,
    candidates: Seq<ImportCandidate>,
    index: usize,
    path: Seq<char>,
)
    requires
        candidates.len() <= usize::MAX,
    ensures
        import_files(style, candidates).contains((index, path)) <==> (index < candidates.len()
            && offered_path(candidates[index as int]) == Some(path) && is_import_path(style, path)),
    decreases candidates.len(),
{
    broadcast use lemma_seq_contains_after_push;

    if candidates.len() > 0 {
        let before = candidates.drop_last();
        let last = candidates.len() - 1;
        law_import_files(style, before, index, path);
        if index < last {
            assert(before[index as int] == candidates[index as int]);
        }
    }
}

/// Picks the files to import among candidates, in natural order of their paths.
pub fn import_order(style: PathStyle, candidates: Vec<ImportCandidate>) -> (files: Vec<
    (usize, String),
>)
    ensures
        keyed(files@) == natural_order(import_files(style, candidates@)),
        is_natural_order(import_files(style, candidates@), keyed(files@)),
        files@.len() == import_files(style, candidates@).len(),
{
    let mut files = collect_import_files(style, candidates);
    sort_paths(&mut files);
    files
}

/// What became of reading each of some files, in terms of sequences.
pub open spec fn loaded_views(loaded: Seq<Result<Vec<ImportedPage>, Error>>) -> Seq<
    Result<Seq<PageView>, Seq<char>>,
> {
    loaded.map_values(|pages: Result<Vec<ImportedPage>, Error>| pages_result(pages))
}

/// The pages of some files, one file after the other, or why the first that fails does.
pub open spec fn joined_pages(loaded: Seq<Result<Seq<PageView>, Seq<char>>>) -> Result<
    Seq<PageView>,
    Seq<char>,
>
    decreases loaded.len(),
{
    if loaded.len() == 0 {
        Ok(Seq::empty())
    } else {
        match joined_pages(loaded.drop_last()) {
            Err(text) => Err(text),
            Ok(pages) => match loaded.last() {
                Err(text) => Err(text),
                Ok(more) => Ok(pages + more),
            },
        }
    }
}

/// The pages of a selection of files, or why there are none.
pub open spec fn selection_pages(loaded: Seq<Result<Seq<PageView>, Seq<char>>>) -> Result<
    Seq<PageView>,
    Seq<char>,
> {
    match joined_pages(loaded) {
        Err(text) => Err(text),
        Ok(pages) => if pages.len() == 0 {
            Err("no supported images were found in the selection"@)
        } else {
            Ok(pages)
        },
    }
}

/// How many pages the first files of a selection have together.
pub open spec fn pages_before(loaded: Seq<Result<Seq<PageView>, Seq<char>>>, count: int) -> int
    decreases count,
{
    if count <= 0 {
        0
    } else {
        pages_before(loaded, count - 1) + loaded[count - 1]->Ok_0.len()
    }
}

proof fn lemma_pages_before(
    loaded: Seq<Result<Seq<PageView>, Seq<char>>>,
    more: Seq<Result<Seq<PageView>, Seq<char>>>,
    few: int,
    many: int,
)
    requires
        0 <= few <= many <= loaded.len(),
    ensures
        0 <= pages_before(loaded, few) <= pages_before(loaded, many),
        pages_before(loaded + more, few) == pages_before(loaded, few),
    decreases many,
{
    if few < many {
        lemma_pages_before(loaded, more, few, many - 1);
    } else if few > 0 {
        lemma_pages_before(loaded, more, few - 1, few - 1);
    }
}

#[verifier::rlimit(60)]
proof fn lemma_joined_pages(loaded: Seq<Result<Seq<PageView>, Seq<char>>>)
    ensures
        match joined_pages(loaded) {
            Ok(pages) => {
                &&& forall|i: int| 0 <= i < loaded.len() ==> (#[trigger] loaded[i]) is Ok
                &&& pages.len() == pages_before(loaded, loaded.len() as int)
                &&& forall|i: int, k: int|
                    0 <= i < loaded.len() && 0 <= k < loaded[i]->Ok_0.len() ==> pages[pages_before(
                        loaded,
                        i,
                    ) + k] == #[trigger] loaded[i]->Ok_0[k]
            },
            Err(text) => exists|i: int|
                0 <= i < loaded.len() && (#[trigger] loaded[i]) == Err::<Seq<PageView>, Seq<char>>(
                    text,
                ) && forall|j: int| 0 <= j < i ==> (#[trigger] loaded[j]) is Ok,
        },
    decreases loaded.len(),
{
    if loaded.len() > 0 {
        let before = loaded.drop_last();
        let last = loaded.len() - 1;
        lemma_joined_pages(before);
        assert(before + seq![loaded.last()] =~= loaded);
        match joined_pages(before) {
            Err(text) => {
                let i = choose|i: int|
                    0 <= i < before.len() && (#[trigger] before[i]) == Err::<
                        Seq<PageView>,
                        Seq<char>,
                    >(text) && forall|j: int| 0 <= j < i ==> (#[trigger] before[j]) is Ok;
                assert(loaded[i] == before[i]);
                assert forall|j: int| 0 <= j < i implies (#[trigger] loaded[j]) is Ok by {
                    assert(loaded[j] == before[j]);
                }
            },
            Ok(pages) => {
                assert forall|i: int| 0 <= i < last implies (#[trigger] loaded[i]) is Ok by {
                    assert(loaded[i] == before[i]);
                }
                match loaded[last] {
                    Err(text) => {},
                    Ok(more) => {
                        lemma_pages_before(before, seq![loaded.last()], last, last);
                        assert forall|i: int, k: int|
                            0 <= i < loaded.len() && 0 <= k < loaded[i]->Ok_0.len() implies (pages
                            + more)[pages_before(loaded, i) + k] == #[trigger] loaded[i]->Ok_0[k] by {
                            if i < last {
                                lemma_pages_before(before, seq![loaded.last()], i, last);
                                lemma_pages_before(before, seq![loaded.last()], i + 1, last);
                                assert(before[i] == loaded[i]);
                                assert(pages[pages_before(before, i) + k] == before[i]->Ok_0[k]);
                            }
                        }
                    },
                }
            },
        }
    }
}

/// The pages of a selection stand in the order of its files, and those of one file keep their order:
/// a page stands behind as many pages as the files before its own have, and those before it in its
/// own. A selection has pages if and only if all its files were read and one of them has a page; and
/// of several files that were not read, the first counts.
pub proof fn law_selection_keeps_order(loaded: Seq<Result<Seq<PageView>, Seq<char>>>)
    ensures
        match selection_pages(loaded) {
            Ok(pages) => {
                &&& forall|i: int| 0 <= i < loaded.len() ==> (#[trigger] loaded[i]) is Ok
                &&& pages.len() > 0
                &&& pages.len() == pages_before(loaded, loaded.len() as int)
                &&& forall|i: int, k: int|
                    0 <= i < loaded.len() && 0 <= k < loaded[i]->Ok_0.len() ==> pages[pages_before(
                        loaded,
                        i,
                    ) + k] == #[trigger] loaded[i]->Ok_0[k]
            },
            Err(text) => if forall|i: int| 0 <= i < loaded.len() ==> (#[trigger] loaded[i]) is Ok {
                &&& pages_before(loaded, loaded.len() as int) == 0
                &&& text == "no supported images were found in the selection"@
            } else {
                exists|i: int|
                    0 <= i < loaded.len() && (#[trigger] loaded[i]) == Err::<
                        Seq<PageView>,
                        Seq<char>,
                    >(text) && forall|j: int| 0 <= j < i ==> (#[trigger] loaded[j]) is Ok
            },
        },
{
    lemma_joined_pages(loaded);
}

/// Every page of a file of a selection stands before every page of a later file.
pub proof fn law_earlier_files_come_first(
    loaded: Seq<Result<Seq<PageView>, Seq<char>>>,
    i: int,
    k: int,
    j: int,
    m: int,
)
    requires
        selection_pages(loaded) is Ok,
        0 <= i < j < loaded.len(),
        0 <= k < loaded[i]->Ok_0.len(),
        0 <= m < loaded[j]->Ok_0.len(),
    ensures
        exists|x: int, y: int|
            0 <= x < y < selection_pages(loaded)->Ok_0.len() && #[trigger] selection_pages(
                loaded,
            )->Ok_0[x] == loaded[i]->Ok_0[k] && #[trigger] selection_pages(loaded)->Ok_0[y]
                == loaded[j]->Ok_0[m],
{
    law_selection_keeps_order(loaded);
    lemma_pages_before(loaded, Seq::empty(), i + 1, j);
    lemma_pages_before(loaded, Seq::empty(), i, i + 1);
    lemma_pages_before(loaded, Seq::empty(), j + 1, loaded.len() as int);
    let pages = selection_pages(loaded)->Ok_0;
    assert(pages[pages_before(loaded, i) + k] == loaded[i]->Ok_0[k]);
    assert(pages[pages_before(loaded, j) + m] == loaded[j]->Ok_0[m]);
}

/// Puts the pages of the files of a selection together, in the order of the files.
pub fn load_pages(loaded: Vec<Result<Vec<ImportedPage>, Error>>) -> (pages: Result<
    Vec<ImportedPage>,
    Error,
>)
    ensures
        pages_result(pages) == selection_pages(loaded_views(loaded@)),
{
    let ghost views = loaded_views(loaded@);
    let mut pages: Vec<ImportedPage> = Vec::new();
    assert(views.take(0) =~= Seq::empty());
    assert(page_views(pages@) =~= Seq::<PageView>::empty());
    for file in it: loaded
        invariant
            it.seq() == loaded@,
            views == loaded_views(loaded@),
            joined_pages(views.take(it.index())) == Ok::<Seq<PageView>, Seq<char>>(
                page_views(pages@),
            ),
    {
        let ghost index = it.index();
        assert(views.take(index + 1).drop_last() =~= views.take(index));
        assert(views.take(index + 1).last() == pages_result(file));
        match file {
            Err(error) => {
                proof {
                    lemma_failure_stays(
                        |loaded: Seq<Result<Seq<PageView>, Seq<char>>>| joined_pages(loaded),
                        views,
                        index + 1,
                    );
                }
                return Err(error);
            },
            Ok(mut more) => {
                let ghost before = pages@;
                let ghost added = more@;
                pages.append(&mut more);
                assert(page_views(pages@) =~= page_views(before) + page_views(added));
            },
        }
    }
    assert(views.take(views.len() as int) =~= views);
    if pages.len() == 0 {
        return Err(Error::new("no supported images were found in the selection"));
    }
    Ok(pages)
}

/// Where the pages of an import come from.
#[derive(Debug)]
pub enum PageImportSource {
    /// Files that the user picks.
    Files,
    /// A folder that the user picks.
    Folder,
    /// Paths that are known already, such as those of files dropped onto the window.
    Paths { paths: Vec<String> },
}

/// What an import does first.
#[derive(Debug)]
pub enum ImportAction {
    /// Ask the user for files.
    PickFiles,
    /// Ask the user for a folder.
    PickFolder,
    /// Load the pages from these paths.
    Load { paths: Vec<String> },
}

/// Starts an import, unless pages are being processed.
pub fn begin_import(source: PageImportSource, processing: bool) -> (action: Result<
    ImportAction,
    Error,
>)
    ensures
        match action {
            Err(error) => processing && error@
                == "pages cannot be imported while processing is running"@,
            Ok(ImportAction::PickFiles) => !processing && source is Files,
            Ok(ImportAction::PickFolder) => !processing && source is Folder,
            Ok(ImportAction::Load { paths }) => !processing && source == (PageImportSource::Paths {
                paths,
            }),
        },
{
    if processing {
        return Err(Error::new("pages cannot be imported while processing is running"));
    }
    match source {
        PageImportSource::Files => Ok(ImportAction::PickFiles),
        PageImportSource::Folder => Ok(ImportAction::PickFolder),
        PageImportSource::Paths { paths } => Ok(ImportAction::Load { paths }),
    }
}

/// Pictures are files with the extension png, jpg, jpeg or webp, archives those with zip or cbz, in
/// small or capital letters; both can be imported, and nothing else can.
pub proof fn law_import_extensions(style: PathStyle, path: Seq<char>)
    ensures
        is_image_path(style, path) <==> names_extension(style, path, "png"@) || names_extension(
            style,
            path,
            "jpg"@,
        ) || names_extension(style, path, "jpeg"@) || names_extension(style, path, "webp"@),
        is_archive_path(style, path) <==> names_extension(style, path, "zip"@) || names_extension(
            style,
            path,
            "cbz"@,
        ),
        is_import_path(style, path) <==> is_image_path(style, path) || is_archive_path(style, path),
{
    let pictures = image_extensions();
    let archives = archive_extensions();
    assert(pictures[0] == "png"@ && pictures[1] == "jpg"@);
    assert(pictures[2] == "jpeg"@ && pictures[3] == "webp"@);
    assert(archives[0] == "zip"@ && archives[1] == "cbz"@);
}

/// A page is named after the file that its path names, and has a name where there is none.
pub proof fn law_page_name(style: PathStyle, path: Seq<char>)
    ensures
        file_name_of(style, path) matches Some(name) ==> page_name_of(style, path) == name,
        file_name_of(style, path) is None ==> page_name_of(style, path) == "page"@,
{
}

/// A picture becomes a page if and only if its format is recognised and its size can be read; the
/// page then has the contents of the picture as they are, under the given name.
pub proof fn law_image_page(name: Seq<char>, bytes: Seq<u8>, source: Seq<char>)
    ensures
        image_page(name, bytes, source) is Ok <==> guessed_mime(bytes) is Ok && read_dimensions(bytes)
            is Ok,
        image_page(name, bytes, source) matches Ok(page) ==> {
            &&& page.name == name
            &&& page.bytes == bytes
            &&& guessed_mime(bytes) == Ok::<Seq<char>, Seq<char>>(page.mime)
            &&& read_dimensions(bytes) == Ok::<(u32, u32), Seq<char>>((page.width, page.height))
        },
        guessed_mime(bytes) matches Err(cause) ==> image_page(name, bytes, source) == Err::<
            PageView,
            Seq<char>,
        >("failed to identify image format for "@ + source + ": "@ + cause),
        guessed_mime(bytes) is Ok ==> (read_dimensions(bytes) matches Err(cause) ==> image_page(
            name,
            bytes,
            source,
        ) == Err::<PageView, Seq<char>>(
            "failed to read image dimensions for "@ + source + ": "@ + cause,
        )),
{
}

/// Whether an entry of an archive can be taken as a page: the archive knows it, it claims and has at
/// most 536870912 bytes, and those are a picture.
pub open spec fn is_loadable(bytes: Seq<u8>, index: usize) -> bool {
    &&& zip_entry(bytes, index) matches Ok(header) && header.size <= 536870912
    &&& zip_data(bytes, index, 536870913) matches Ok(data) && data.len() <= 536870912
        && guessed_mime(data) is Ok && read_dimensions(data) is Ok
}

/// Whether a page is what an entry of an archive holds: its contents byte for byte, their format and
/// size, under the file name of the entry.
pub open spec fn is_page_of(
    style: PathStyle,
    bytes: Seq<u8>,
    entry: (usize, Seq<char>),
    page: PageView,
) -> bool {
    &&& zip_data(bytes, entry.0, 536870913) == Ok::<Seq<u8>, Seq<char>>(page.bytes)
    &&& guessed_mime(page.bytes) == Ok::<Seq<char>, Seq<char>>(page.mime)
    &&& read_dimensions(page.bytes) == Ok::<(u32, u32), Seq<char>>((page.width, page.height))
    &&& file_name_of(style, entry.1) matches Some(name) ==> page.name == name
}

proof fn lemma_claims(bytes: Seq<u8>, entries: Seq<(usize, Seq<char>)>)
    ensures
        claimed_bytes(bytes, entries) >= 0,
    decreases entries.len(),
{
    if entries.len() > 0 {
        lemma_claims(bytes, entries.drop_first());
    }
}

/// The entries of an archive become pages if and only if each can be taken as one and they claim at
/// most 4294967296 bytes together; each then becomes the page that it holds, in the order of the
/// entries.
#[verifier::rlimit(60)]
pub proof fn law_entries_become_pages(
    style: PathStyle,
    path: Seq<char>,
    bytes: Seq<u8>,
    entries: Seq<(usize, Seq<char>)>,
    total: int,
)
    requires
        0 <= total <= 4294967296,
    ensures
        entry_pages(style, path, bytes, entries, total) is Ok <==> (forall|i: int|
            0 <= i < entries.len() ==> is_loadable(bytes, (#[trigger] entries[i]).0)) && total
            + claimed_bytes(bytes, entries) <= 4294967296,
        entry_pages(style, path, bytes, entries, total) matches Ok(pages) ==> pages.len()
            == entries.len() && forall|i: int|
            0 <= i < entries.len() ==> is_page_of(style, bytes, #[trigger] entries[i], pages[i]),
    decreases entries.len(),
{
    if entries.len() > 0 {
        let rest = entries.drop_first();
        lemma_claims(bytes, rest);
        let first = entry_page(style, path, bytes, entries[0], total);
        if let Ok((page, sum)) = first {
            law_entries_become_pages(style, path, bytes, rest, sum);
            assert(is_loadable(bytes, entries[0].0));
            assert forall|i: int| 0 <= i < rest.len() implies #[trigger] rest[i] == entries[i + 1] by {}
            if let Ok(pages) = entry_pages(style, path, bytes, entries, total) {
                assert forall|i: int| 0 <= i < entries.len() implies is_loadable(
                    bytes,
                    (#[trigger] entries[i]).0,
                ) && is_page_of(style, bytes, entries[i], pages[i]) by {
                    if i > 0 {
                        assert(rest[i - 1] == entries[i]);
                    }
                }
            } else if (forall|i: int|
                0 <= i < entries.len() ==> is_loadable(bytes, (#[trigger] entries[i]).0)) {
                assert forall|i: int| 0 <= i < rest.len() implies is_loadable(
                    bytes,
                    (#[trigger] rest[i]).0,
                ) by {
                    assert(rest[i] == entries[i + 1]);
                }
            }
        } else if is_loadable(bytes, entries[0].0) {
            assert(total + claimed_bytes(bytes, entries) > 4294967296);
        }
    }
}

/// The pages of an archive are its pictures in natural order: each page holds what the picture at its
/// place holds. There are pages if and only if each picture can be taken as one and they do not claim
/// too much together.
pub proof fn law_archive_pages_in_natural_order(
    style: PathStyle,
    path: Seq<char>,
    bytes: Seq<u8>,
    found: Seq<(usize, Seq<char>)>,
    sorted: Seq<(usize, Seq<char>)>,
)
    requires
        zip_refusal(bytes) is None,
        image_entries(style, Some(path), archive_headers(bytes)) == Ok::<
            Seq<(usize, Seq<char>)>,
            Seq<char>,
        >(found),
        sorted.to_multiset() == found.to_multiset(),
        forall|i: int, j: int|
            0 <= i < j < sorted.len() ==> stands_before(#[trigger] sorted[i], #[trigger] sorted[j]),
    ensures
        archive_pages(style, path, ContentsView::Bytes(bytes)) is Ok <==> (forall|i: int|
            0 <= i < sorted.len() ==> is_loadable(bytes, (#[trigger] sorted[i]).0))
            && claimed_bytes(bytes, sorted) <= 4294967296,
        archive_pages(style, path, ContentsView::Bytes(bytes)) matches Ok(pages) ==> pages.len()
            == found.len() && forall|i: int|
            0 <= i < pages.len() ==> is_page_of(style, bytes, #[trigger] sorted[i], pages[i]),
{
    lemma_natural_order(found, sorted);
    found.to_multiset_ensures();
    sorted.to_multiset_ensures();
    law_entries_become_pages(style, path, bytes, sorted, 0);
}

/// A file that is no archive gives one page, with all that the file holds; an archive gives its pages.
pub proof fn law_file_pages(style: PathStyle, path: Seq<char>, bytes: Seq<u8>)
    ensures
        is_archive_path(style, path) ==> file_pages(style, path, ContentsView::Bytes(bytes))
            == archive_pages(style, path, ContentsView::Bytes(bytes)),
        !is_archive_path(style, path) ==> match file_pages(
            style,
            path,
            ContentsView::Bytes(bytes),
        ) {
            Ok(pages) => pages.len() == 1 && pages[0].bytes == bytes && pages[0].name
                == page_name_of(style, path) && guessed_mime(bytes) == Ok::<Seq<char>, Seq<char>>(
                pages[0].mime,
            ) && read_dimensions(bytes) == Ok::<(u32, u32), Seq<char>>(
                (pages[0].width, pages[0].height),
            ),
            Err(_) => guessed_mime(bytes) is Err || read_dimensions(bytes) is Err,
        },
{
}

/// A page of an archive is taken if and only if it claims at most 536870912 bytes, and at most
/// 4294967296 together with those before it; and its contents if and only if they can be read and
/// have at most 536870912 bytes.
pub proof fn law_import_limits(
    path: Seq<char>,
    label: Seq<char>,
    header: Result<HeaderView, Seq<char>>,
    total: int,
    data: Result<Seq<u8>, Seq<char>>,
)
    ensures
        match admitted_total(path, label, header, total) {
            Ok(sum) => header matches Ok(header) && header.size <= 536870912 && sum == total
                + header.size && sum <= 4294967296,
            Err(text) => match header {
                Err(cause) => text == "failed to open "@ + label + ": "@ + cause,
                Ok(header) => if header.size > 536870912 {
                    text == label + " exceeds the 512 MiB page limit"@
                } else {
                    total + header.size > 4294967296 && text == path
                        + " exceeds the 4 GiB import limit"@
                },
            },
        },
        match extracted_data(label, data) {
            Ok(taken) => data == Ok::<Seq<u8>, Seq<char>>(taken) && taken.len() <= 536870912,
            Err(text) => match data {
                Err(cause) => text == "failed to extract "@ + label + ": "@ + cause,
                Ok(data) => data.len() > 536870912 && text == label
                    + " exceeds the 512 MiB page limit"@,
            },
        },
{
}

/// An entry of an archive is a picture if and only if it is a file and its name has the extension of
/// one; each picture is listed once, with its number and its name, in the order of the numbers.
#[verifier::rlimit(60)]
pub proof fn law_pictures_of_archive(
    style: PathStyle,
    path: Option<Seq<char>>,
    headers: Seq<Result<HeaderView, Seq<char>>>,
)
    requires
        headers.len() <= usize::MAX,
    ensures
        image_entries(style, path, headers) is Ok <==> forall|i: int|
            0 <= i < headers.len() ==> (#[trigger] headers[i]) is Ok,
        image_entries(style, path, headers) matches Ok(found) ==> {
            &&& numbered_upwards(found)
            &&& forall|k: int|
                0 <= k < found.len() ==> (#[trigger] found[k]).0 < headers.len() && (
                headers[found[k].0 as int] matches Ok(header) && header.is_file && header.name
                    == found[k].1 && is_image_path(style, header.name))
            &&& forall|i: int|
                0 <= i < headers.len() ==> ((#[trigger] headers[i]) matches Ok(header) ==> (
                header.is_file && is_image_path(style, header.name) ==> found.contains(
                    (i as usize, header.name),
                )))
        },
    decreases headers.len(),
{
    broadcast use lemma_seq_contains_after_push;

    if headers.len() > 0 {
        let before = headers.drop_last();
        let last = headers.len() - 1;
        law_pictures_of_archive(style, path, before);
        assert forall|i: int| 0 <= i < last implies #[trigger] headers[i] == before[i] by {}
        if image_entries(style, path, before) is Err {
            let i = choose|i: int| 0 <= i < before.len() && (#[trigger] before[i]) is Err;
            assert(headers[i] is Err);
        } else if let Ok(found) = image_entries(style, path, headers) {
            let earlier = image_entries(style, path, before)->Ok_0;
            assert forall|k: int| 0 <= k < found.len() implies (#[trigger] found[k]).0
                < headers.len() && (headers[found[k].0 as int] matches Ok(header) && header.is_file
                && header.name == found[k].1 && is_image_path(style, header.name)) by {
                if k < earlier.len() {
                    assert(found[k] == earlier[k]);
                }
            }
            assert forall|i: int, j: int| 0 <= i < j < found.len() implies (#[trigger] found[i]).0 < (
            #[trigger] found[j]).0 by {
                if j < earlier.len() {
                    assert(found[i] == earlier[i] && found[j] == earlier[j]);
                } else {
                    assert(found[i] == earlier[i]);
                }
            }
            assert forall|i: int|
                0 <= i < headers.len() && (#[trigger] headers[i]) is Ok && headers[i]->Ok_0.is_file
                    && is_image_path(style, headers[i]->Ok_0.name) implies found.contains(
                (i as usize, headers[i]->Ok_0.name),
            ) by {
                if i < last {
                    assert(before[i] == headers[i]);
                    assert(earlier.contains((i as usize, headers[i]->Ok_0.name)));
                }
            }
            assert forall|i: int| 0 <= i < headers.len() implies (#[trigger] headers[i]) is Ok by {
                if i < last {
                    assert(before[i] == headers[i]);
                }
            }
        }
    }
}

/// What an archive cannot be read for is told with its path, and an archive that can be read gives
/// pages or says of which entry it does not.
pub proof fn law_unreadable_archive(style: PathStyle, path: Seq<char>, contents: ContentsView)
    ensures
        match contents {
            ContentsView::OpenFailed(cause) => archive_pages(style, path, contents) == Err::<
                Seq<PageView>,
                Seq<char>,
            >("failed to open archive "@ + path + ": "@ + cause),
            ContentsView::ReadFailed(cause) => archive_pages(style, path, contents) == Err::<
                Seq<PageView>,
                Seq<char>,
            >("failed to read archive "@ + path + ": "@ + cause),
            ContentsView::Bytes(bytes) => zip_refusal(bytes) matches Some(cause) ==> archive_pages(
                style,
                path,
                contents,
            ) == Err::<Seq<PageView>, Seq<char>>(
                "failed to read archive "@ + path + ": "@ + cause,
            ),
        },
{
}

/// What was read keeps its place: the pages of a file, and the files of a selection.
pub proof fn law_loaded_views(
    pages: Seq<ImportedPage>,
    loaded: Seq<Result<Vec<ImportedPage>, Error>>,
    i: int,
)
    ensures
        page_views(pages).len() == pages.len(),
        0 <= i < pages.len() ==> page_views(pages)[i] == (PageView {
            name: pages[i].name@,
            bytes: pages[i].bytes@,
            mime: pages[i].mime@,
            width: pages[i].width,
            height: pages[i].height,
        }),
        loaded_views(loaded).len() == loaded.len(),
        0 <= i < loaded.len() ==> match loaded[i] {
            Ok(pages) => loaded_views(loaded)[i] == Ok::<Seq<PageView>, Seq<char>>(
                page_views(pages@),
            ),
            Err(error) => loaded_views(loaded)[i] == Err::<Seq<PageView>, Seq<char>>(
                error.message@,
            ),
        },
{
}

/// What an entry cannot be looked at for is told with its number and its archive, where that is known.
pub proof fn law_inspection_failure(path: Seq<char>, index: nat, cause: Seq<char>)
    ensures
        inspection_failure(Some(path), index, cause) == "failed to inspect entry "@ + decimal_text(
            index,
        ) + " in "@ + path + ": "@ + cause,
        inspection_failure(None, index, cause) == cause,
        entry_label(cause, path) == cause + " in "@ + path,
{
}

/// A file is offered for import where it was chosen, or found in a folder that was and is no folder
/// itself.
pub proof fn law_offered_path(given: String, walked: String, is_file: bool)
    ensures
        offered_path(ImportCandidate::Given(given)) == Some(given@),
        offered_path(ImportCandidate::Walked { path: walked, is_file }) == if is_file {
            Some(walked@)
        } else {
            None
        },
        offered_path(ImportCandidate::Unreadable) is None,
{
}

/// What the entries of an archive claim together is the sum of what each claims.
pub proof fn law_claimed_bytes(bytes: Seq<u8>, entry: (usize, Seq<char>), rest: Seq<
    (usize, Seq<char>),
>)
    ensures
        claimed_bytes(bytes, seq![entry] + rest) == claimed_bytes(bytes, rest) + match zip_entry(
            bytes,
            entry.0,
        ) {
            Ok(header) => header.size as int,
            Err(_) => 0,
        },
        claimed_bytes(bytes, Seq::empty()) == 0,
{
    assert((seq![entry] + rest).drop_first() =~= rest);
}

/// A file that could not be read gives no page, and is told of with its path and the cause.
pub proof fn law_unreadable_file(style: PathStyle, path: Seq<char>, cause: Seq<char>)
    ensures
        !is_archive_path(style, path) ==> file_pages(style, path, ContentsView::OpenFailed(cause))
            == Err::<Seq<PageView>, Seq<char>>("failed to read "@ + path + ": "@ + cause),
        !is_archive_path(style, path) ==> file_pages(style, path, ContentsView::ReadFailed(cause))
            == Err::<Seq<PageView>, Seq<char>>("failed to read "@ + path + ": "@ + cause),
        is_archive_path(style, path) ==> file_pages(style, path, ContentsView::OpenFailed(cause))
            == Err::<Seq<PageView>, Seq<char>>("failed to open archive "@ + path + ": "@ + cause),
{
}

/// What is handed in and what comes back is taken as it is: contents, pages and entries.
pub proof fn law_import_results(
    contents: FileContents,
    page: Result<ImportedPage, Error>,
    pages: Result<Vec<ImportedPage>, Error>,
    entries: Result<Vec<(usize, String)>, Error>,
)
    ensures
        match contents {
            FileContents::Bytes(bytes) => contents@ == ContentsView::Bytes(bytes@),
            FileContents::OpenFailed(cause) => contents@ == ContentsView::OpenFailed(cause@),
            FileContents::ReadFailed(cause) => contents@ == ContentsView::ReadFailed(cause@),
        },
        match page {
            Ok(found) => page_result(page) == Ok::<PageView, Seq<char>>(
                PageView {
                    name: found.name@,
                    bytes: found.bytes@,
                    mime: found.mime@,
                    width: found.width,
                    height: found.height,
                },
            ),
            Err(error) => page_result(page) == Err::<PageView, Seq<char>>(error.message@),
        },
        match pages {
            Ok(found) => pages_result(pages) == Ok::<Seq<PageView>, Seq<char>>(page_views(found@)),
            Err(error) => pages_result(pages) == Err::<Seq<PageView>, Seq<char>>(error.message@),
        },
        match entries {
            Ok(found) => entries_result(entries) == Ok::<Seq<(usize, Seq<char>)>, Seq<char>>(
                keyed(found@),
            ),
            Err(error) => entries_result(entries) == Err::<Seq<(usize, Seq<char>)>, Seq<char>>(
                error.message@,
            ),
        },
{
}

/// The pages of two selections, one after the other, are those of the first and then those of the
/// second; and a selection of one file has the pages of that file.
pub proof fn law_selections_add_up(
    a: Seq<Result<Seq<PageView>, Seq<char>>>,
    b: Seq<Result<Seq<PageView>, Seq<char>>>,
    pages: Seq<PageView>,
)
    ensures
        selection_pages(a) matches Ok(x) ==> (selection_pages(b) matches Ok(y) ==> selection_pages(
            a + b,
        ) == Ok::<Seq<PageView>, Seq<char>>(x + y)),
        pages.len() > 0 ==> selection_pages(seq![Ok::<Seq<PageView>, Seq<char>>(pages)]) == Ok::<
            Seq<PageView>,
            Seq<char>,
        >(pages),
        selection_pages(a + seq![Ok::<Seq<PageView>, Seq<char>>(Seq::empty())])
            == selection_pages(a),
{
    lemma_joined_pages_add_up(a, b);
    let one = seq![Ok::<Seq<PageView>, Seq<char>>(pages)];
    assert(one.drop_last() =~= Seq::empty());
    assert(joined_pages(one.drop_last()) == Ok::<Seq<PageView>, Seq<char>>(Seq::empty()));
    assert(Seq::<PageView>::empty() + pages =~= pages);
    let none = Ok::<Seq<PageView>, Seq<char>>(Seq::empty());
    assert((a + seq![none]).drop_last() =~= a);
    if let Ok(x) = joined_pages(a) {
        assert(x + Seq::<PageView>::empty() =~= x);
    }
}

proof fn lemma_joined_pages_add_up(
    a: Seq<Result<Seq<PageView>, Seq<char>>>,
    b: Seq<Result<Seq<PageView>, Seq<char>>>,
)
    ensures
        joined_pages(a) matches Ok(x) ==> (joined_pages(b) matches Ok(y) ==> joined_pages(a + b)
            == Ok::<Seq<PageView>, Seq<char>>(x + y)),
    decreases b.len(),
{
    if b.len() == 0 {
        assert(a + b =~= a);
        if let Ok(x) = joined_pages(a) {
            assert(x + Seq::<PageView>::empty() =~= x);
        }
    } else {
        lemma_joined_pages_add_up(a, b.drop_last());
        assert((a + b).drop_last() =~= a + b.drop_last());
        assert((a + b).last() == b.last());
        if joined_pages(a) is Ok && joined_pages(b) is Ok {
            let x = joined_pages(a)->Ok_0;
            let y = joined_pages(b.drop_last())->Ok_0;
            let z = b.last()->Ok_0;
            assert((x + y) + z =~= x + (y + z));
        }
    }
}

/// Of several entries of an archive that cannot be looked at, the first is told of.
pub proof fn law_first_unreadable_entry(
    style: PathStyle,
    path: Option<Seq<char>>,
    headers: Seq<Result<HeaderView, Seq<char>>>,
    first: int,
)
    requires
        0 <= first < headers.len(),
        headers[first] is Err,
        forall|i: int| 0 <= i < first ==> (#[trigger] headers[i]) is Ok,
    ensures
        image_entries(style, path, headers) == Err::<Seq<(usize, Seq<char>)>, Seq<char>>(
            inspection_failure(path, first as nat, headers[first]->Err_0),
        ),
    decreases headers.len(),
{
    let before = headers.drop_last();
    if first < headers.len() - 1 {
        assert(before[first] == headers[first]);
        assert forall|i: int| 0 <= i < first implies (#[trigger] before[i]) is Ok by {
            assert(before[i] == headers[i]);
        }
        law_first_unreadable_entry(style, path, before, first);
    } else {
        lemma_readable_entries(style, path, before);
        assert(headers.last() == headers[first]);
    }
}

proof fn lemma_readable_entries(
    style: PathStyle,
    path: Option<Seq<char>>,
    headers: Seq<Result<HeaderView, Seq<char>>>,
)
    requires
        forall|i: int| 0 <= i < headers.len() ==> (#[trigger] headers[i]) is Ok,
    ensures
        image_entries(style, path, headers) is Ok,
    decreases headers.len(),
{
    if headers.len() > 0 {
        let before = headers.drop_last();
        assert forall|i: int| 0 <= i < before.len() implies (#[trigger] before[i]) is Ok by {
            assert(before[i] == headers[i]);
        }
        lemma_readable_entries(style, path, before);
        assert(headers[headers.len() - 1] is Ok);
    }
}

/// An entry is refused for what the archive says of it before it is read, for what was read before it
/// is looked at as a picture, and then for what it is no picture for; the first entry that is refused
/// is told of.
pub proof fn law_first_refused_entry(
    style: PathStyle,
    path: Seq<char>,
    bytes: Seq<u8>,
    entry: (usize, Seq<char>),
    rest: Seq<(usize, Seq<char>)>,
    total: int,
)
    ensures
        ({
            let label = entry.1 + " in "@ + path;
            let result = entry_pages(style, path, bytes, seq![entry] + rest, total);
            match admitted_total(path, label, zip_entry(bytes, entry.0), total) {
                Err(text) => result == Err::<Seq<PageView>, Seq<char>>(text),
                Ok(sum) => match extracted_data(label, zip_data(bytes, entry.0, 536870913)) {
                    Err(text) => result == Err::<Seq<PageView>, Seq<char>>(text),
                    Ok(data) => match image_page(page_name_of(style, entry.1), data, label) {
                        Err(text) => result == Err::<Seq<PageView>, Seq<char>>(text),
                        Ok(page) => match entry_pages(style, path, bytes, rest, sum) {
                            Err(text) => result == Err::<Seq<PageView>, Seq<char>>(text),
                            Ok(pages) => result == Ok::<Seq<PageView>, Seq<char>>(
                                seq![page] + pages,
                            ),
                        },
                    },
                },
            }
        }),
        entry_pages(style, path, bytes, Seq::empty(), total) == Ok::<Seq<PageView>, Seq<char>>(
            Seq::empty(),
        ),
{
    assert((seq![entry] + rest).drop_first() =~= rest);
}

/// An archive with an entry that cannot be looked at is not imported, for that reason.
pub proof fn law_archive_with_unreadable_entry(style: PathStyle, path: Seq<char>, bytes: Seq<u8>)
    requires
        zip_refusal(bytes) is None,
    ensures
        image_entries(style, Some(path), archive_headers(bytes)) matches Err(text) ==> archive_pages(
            style,
            path,
            ContentsView::Bytes(bytes),
        ) == Err::<Seq<PageView>, Seq<char>>(text),
{
}

} // verus!
