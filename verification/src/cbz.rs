//! Comic book archives: how they are written, and that they can be read back.

use crate::archive::{
    all_stored, append_entry, append_refusal, archive_headers, archive_holds, directory_start,
    finish_archive, finish_refusal, has_entry, is_ambiguous, is_file_entry, is_small_entry,
    is_writable, pending_entries, start_archive, zip_data, zip_entry, ArchiveWriter, Compression,
    EntryView,
};
use crate::chapters::{
    comic_info_entry, comic_info_of, is_comic_info, is_jpeg_quality, COMIC_INFO_LIMIT,
};
use crate::error::{caused, Error};
use crate::export::{
    job_stem, law_page_stem_is_safe, law_project_stems_are_distinct, lemma_page_file_name,
    page_file_name, stem_of,
};
use crate::images::{
    composite_on_white, encode_rgb_jpeg, guessed_mime, is_jpeg_size, jpeg_encoding,
    pixels_over_white, read_dimensions, RgbaImage,
};
use crate::import::{
    archive_pages, entry_page, entry_pages, image_entries, image_extensions, is_image_path,
    ContentsView, PageView, MAX_ARCHIVE_ENTRY_BYTES, MAX_ARCHIVE_TOTAL_BYTES,
};
use crate::natural::{
    law_numbers_count_by_value, lemma_natural_order, natural_order, stands_before,
};
use crate::paths::{
    file_name_of, lemma_lone_file_name, names_extension, parent, parent_of, PathStyle,
};
use crate::text::{
    concat2, folded, is_control_char, leading_number, lemma_last_index_is, lemma_leading_digits,
    lemma_padded_text, padded_text, starts_with_number,
};
use crate::views::{data_result, optional_bytes};
use vstd::prelude::*;
use vstd::utf8::{encode_utf8, is_ascii_chars, is_ascii_chars_encode_utf8};

verus! {

/// The JPEG quality of the pages of a comic book archive unless another one is chosen.
pub const CBZ_JPEG_QUALITY: u8 = 95;

/// The JPEG of a picture, put on white first, or why there is none.
pub open spec fn jpeg_of(pixels: Seq<u8>, width: u32, height: u32, quality: u8) -> Result<
    Seq<u8>,
    Seq<char>,
> {
    if is_jpeg_quality(quality) {
        jpeg_encoding(pixels_over_white(pixels), width, height, quality)
    } else {
        Err("JPEG quality must be between 1 and 100"@)
    }
}

/// Whether bytes are recognised as a JPEG of a width and a height.
pub open spec fn is_jpeg_of(bytes: Seq<u8>, width: u32, height: u32) -> bool {
    &&& guessed_mime(bytes) == Ok::<Seq<char>, Seq<char>>("image/jpeg"@)
    &&& read_dimensions(bytes) == Ok::<(u32, u32), Seq<char>>((width, height))
}

/// The JPEG of a picture is what the encoder makes of the picture on white at exactly the quality
/// that was asked for, from 1 to 100; any other quality is refused.
pub proof fn law_jpeg_has_its_quality(pixels: Seq<u8>, width: u32, height: u32, quality: u8)
    ensures
        1 <= quality <= 100 ==> jpeg_of(pixels, width, height, quality) == jpeg_encoding(
            pixels_over_white(pixels),
            width,
            height,
            quality,
        ),
        quality == 0 || quality > 100 ==> jpeg_of(pixels, width, height, quality) == Err::<
            Seq<u8>,
            Seq<char>,
        >("JPEG quality must be between 1 and 100"@),
{
}

/// Bytes are a JPEG of a size if and only if they are recognised as JPEG and read with that size.
pub proof fn law_is_jpeg(bytes: Seq<u8>, width: u32, height: u32)
    ensures
        is_jpeg_of(bytes, width, height) <==> guessed_mime(bytes) == Ok::<Seq<char>, Seq<char>>(
            "image/jpeg"@,
        ) && read_dimensions(bytes) == Ok::<(u32, u32), Seq<char>>((width, height)),
{
}

/// Checks that a JPEG quality is one that the encoder knows.
pub fn check_quality(quality: u8) -> (checked: Result<(), Error>)
    ensures
        match checked {
            Ok(()) => is_jpeg_quality(quality),
            Err(error) => !is_jpeg_quality(quality) && error@
                == "JPEG quality must be between 1 and 100"@,
        },
{
    if quality < 1 || quality > 100 {
        Err(Error::new("JPEG quality must be between 1 and 100"))
    } else {
        Ok(())
    }
}

/// Puts a picture on white and encodes it as JPEG.
pub fn encode_jpeg(picture: RgbaImage, quality: u8) -> (encoded: Result<Vec<u8>, Error>)
    requires
        picture.well_formed(),
    ensures
        data_result(encoded) == jpeg_of(picture.pixels@, picture.width, picture.height, quality),
        encoded is Ok == (is_jpeg_quality(quality) && is_jpeg_size(picture.width, picture.height)),
        encoded matches Ok(bytes) ==> is_jpeg_of(bytes@, picture.width, picture.height),
        encoded matches Ok(bytes) ==> jpeg_encoding(
            pixels_over_white(picture.pixels@),
            picture.width,
            picture.height,
            quality,
        ) == Ok::<Seq<u8>, Seq<char>>(bytes@),
        1 <= quality <= 100 ==> (encoded matches Err(error) ==> jpeg_encoding(
            pixels_over_white(picture.pixels@),
            picture.width,
            picture.height,
            quality,
        ) == Err::<Seq<u8>, Seq<char>>(error@)),
{
    match check_quality(quality) {
        Err(error) => {
            return Err(error);
        },
        Ok(()) => {},
    }
    let flat = composite_on_white(picture);
    match encode_rgb_jpeg(&flat, quality) {
        Err(cause) => Err(Error { message: cause }),
        Ok(bytes) => Ok(bytes),
    }
}

/// The name of the entry that holds a page of a comic book archive.
pub open spec fn cbz_entry_name(stem: Seq<char>) -> Seq<char> {
    stem + ".jpg"@
}

/// Makes the entry that holds a page of a comic book archive.
pub fn encode_cbz_page(stem: &str, picture: RgbaImage, quality: u8) -> (entry: Result<
    (String, Vec<u8>),
    Error,
>)
    requires
        picture.well_formed(),
    ensures
        match entry {
            Ok((name, bytes)) => name@ == cbz_entry_name(stem@) && jpeg_of(
                picture.pixels@,
                picture.width,
                picture.height,
                quality,
            ) == Ok::<Seq<u8>, Seq<char>>(bytes@),
            Err(error) => jpeg_of(picture.pixels@, picture.width, picture.height, quality) == Err::<
                Seq<u8>,
                Seq<char>,
            >(error@),
        },
        entry is Ok == (is_jpeg_quality(quality) && is_jpeg_size(picture.width, picture.height)),
        entry matches Ok((_, bytes)) ==> is_jpeg_of(bytes@, picture.width, picture.height),
        entry matches Ok((name, bytes)) ==> name@ == stem@ + ".jpg"@ && jpeg_encoding(
            pixels_over_white(picture.pixels@),
            picture.width,
            picture.height,
            quality,
        ) == Ok::<Seq<u8>, Seq<char>>(bytes@),
{
    match encode_jpeg(picture, quality) {
        Err(error) => Err(error),
        Ok(bytes) => Ok((concat2(stem, ".jpg"), bytes)),
    }
}

/// Starts the export of an archive: gives the directory in which it is prepared.
pub fn begin_cbz(style: PathStyle, path: &str, quality: u8) -> (directory: Result<String, Error>)
    ensures
        match directory {
            Ok(directory) => is_jpeg_quality(quality) && parent_of(style, path@) == Some(directory@),
            Err(error) => if is_jpeg_quality(quality) {
                parent_of(style, path@) is None && error@ == path@ + " has no parent directory"@
            } else {
                error@ == "JPEG quality must be between 1 and 100"@
            },
        },
{
    match check_quality(quality) {
        Err(error) => {
            return Err(error);
        },
        Ok(()) => {},
    }
    match parent(style, path) {
        Some(directory) => Ok(directory),
        None => Err(Error::of(path, " has no parent directory")),
    }
}

/// A step of writing an archive to disk that failed, with its cause.
#[derive(Debug)]
pub enum PublishFailure {
    /// The directory could not be made.
    Directory(String),
    /// The file in which the archive is prepared could not be made.
    Temporary(String),
    /// That file could not be written.
    Write(String),
    /// That file could not be put in the place of the archive.
    Publish(String),
}

/// What is said of a step that failed.
pub open spec fn publish_failure(
    path: Seq<char>,
    directory: Seq<char>,
    failure: PublishFailure,
) -> Seq<char> {
    match failure {
        PublishFailure::Directory(cause) => cause@,
        PublishFailure::Temporary(cause) => caused(
            "failed to create a temporary archive in "@ + directory,
            cause@,
        ),
        PublishFailure::Write(cause) => cause@,
        PublishFailure::Publish(cause) => caused("failed to publish "@ + path, cause@),
    }
}

/// The error of a step that failed.
pub fn publish_error(path: &str, directory: &str, failure: PublishFailure) -> (error: Error)
    ensures
        error@ == publish_failure(path@, directory@, failure),
{
    match failure {
        PublishFailure::Directory(cause) => Error { message: cause },
        PublishFailure::Temporary(cause) => Error::because_of(
            "failed to create a temporary archive in ",
            directory,
            cause.as_str(),
        ),
        PublishFailure::Write(cause) => Error { message: cause },
        PublishFailure::Publish(cause) => Error::because_of(
            "failed to publish ",
            path,
            cause.as_str(),
        ),
    }
}

/// A comic book archive being written: pages first, then the metadata.
pub struct CbzWriter {
    state: WriterState,
}

enum WriterState {
    Open(ArchiveWriter),
    PageFailed(ArchiveWriter, Error),
    Broken(Error),
}

/// How far a comic book archive has come.
pub enum CbzState {
    /// It holds these entries and takes more.
    Open(Seq<EntryView>),
    /// It holds these entries; a page could not be prepared.
    PageFailed(Seq<EntryView>, Seq<char>),
    /// An entry could not be added.
    Broken(Seq<char>),
}

impl View for CbzWriter {
    type V = CbzState;

    closed spec fn view(&self) -> CbzState {
        match self.state {
            WriterState::Open(archive) => CbzState::Open(pending_entries(archive)),
            WriterState::PageFailed(archive, error) => CbzState::PageFailed(
                pending_entries(archive),
                error@,
            ),
            WriterState::Broken(error) => CbzState::Broken(error@),
        }
    }
}

/// A page that is ready for the archive, or why it could not be prepared, in terms of sequences.
pub open spec fn prepared_page(page: Result<(String, Vec<u8>), Error>) -> Result<
    (Seq<char>, Seq<u8>),
    Seq<char>,
> {
    match page {
        Ok((name, data)) => Ok((name@, data@)),
        Err(error) => Err(error@),
    }
}

/// An entry that is kept as it is.
pub open spec fn stored_entry(name: Seq<char>, data: Seq<u8>) -> EntryView {
    EntryView { name, data, compression: Compression::Stored }
}

/// How far a comic book archive has come after another page. Once something has failed, pages
/// change nothing.
pub open spec fn after_page(
    state: CbzState,
    page: Result<(Seq<char>, Seq<u8>), Seq<char>>,
) -> CbzState {
    match state {
        CbzState::Open(entries) => match page {
            Ok((name, data)) => match append_refusal(entries, stored_entry(name, data)) {
                Some(text) => CbzState::Broken(text),
                None => CbzState::Open(entries.push(stored_entry(name, data))),
            },
            Err(cause) => CbzState::PageFailed(
                entries,
                caused("failed to prepare CBZ pages"@, cause),
            ),
        },
        other => other,
    }
}

/// What the archive holds once it is complete, or why it is not. What the archive itself refuses
/// counts before a page that could not be prepared.
pub open spec fn cbz_outcome(state: CbzState, comic_info: Option<Seq<u8>>) -> Result<
    Seq<EntryView>,
    Seq<char>,
> {
    match state {
        CbzState::Broken(text) => Err(text),
        CbzState::Open(entries) => completed_entries(entries, comic_info),
        CbzState::PageFailed(entries, text) => match completed_entries(entries, comic_info) {
            Err(refusal) => Err(refusal),
            Ok(_) => Err(text),
        },
    }
}

/// The pages and the metadata of an archive, unless it cannot be completed with them.
pub open spec fn completed_entries(
    entries: Seq<EntryView>,
    comic_info: Option<Seq<u8>>,
) -> Result<Seq<EntryView>, Seq<char>> {
    let all = with_comic_info(entries, comic_info);
    let refusal = match comic_info {
        Some(info) => append_refusal(entries, stored_entry("ComicInfo.xml"@, info)),
        None => None,
    };
    match refusal {
        Some(text) => Err(text),
        None => match finish_refusal(all) {
            Some(text) => Err(text),
            None => Ok(all),
        },
    }
}

/// The pages of an archive, and after them the metadata, where there is any.
pub open spec fn with_comic_info(
    entries: Seq<EntryView>,
    comic_info: Option<Seq<u8>>,
) -> Seq<EntryView> {
    match comic_info {
        Some(info) => entries.push(stored_entry("ComicInfo.xml"@, info)),
        None => entries,
    }
}

proof fn lemma_comic_info_name_bytes()
    ensures
        encode_utf8("ComicInfo.xml"@).len() == 13,
{
    reveal_strlit("ComicInfo.xml");
    assert(is_ascii_chars("ComicInfo.xml"@));
    is_ascii_chars_encode_utf8("ComicInfo.xml"@);
}

/// Adds the metadata, where there is any, and completes an archive.
fn complete_archive(archive: ArchiveWriter, comic_info: Option<Vec<u8>>) -> (finished: Result<
    Vec<u8>,
    Error,
>)
    requires
        is_writable(archive),
        all_stored(pending_entries(archive)),
    ensures
        match finished {
            Ok(bytes) => {
                let all = with_comic_info(pending_entries(archive), optional_bytes(comic_info));
                &&& completed_entries(pending_entries(archive), optional_bytes(comic_info)) == Ok::<
                    Seq<EntryView>,
                    Seq<char>,
                >(all)
                &&& !is_ambiguous(all) ==> archive_holds(bytes@, all)
            },
            Err(error) => completed_entries(pending_entries(archive), optional_bytes(comic_info))
                == Err::<Seq<EntryView>, Seq<char>>(error@),
        },
        finished is Ok == is_completable(pending_entries(archive), optional_bytes(comic_info)),
{
    let mut archive = archive;
    if let Some(info) = comic_info {
        proof {
            lemma_comic_info_name_bytes();
        }
        match append_entry(
            &mut archive,
            "ComicInfo.xml",
            info.as_slice(),
            Compression::Stored,
        ) {
            Err(cause) => {
                return Err(Error { message: cause });
            },
            Ok(()) => {},
        }
    }
    match finish_archive(archive) {
        Err(cause) => Err(Error { message: cause }),
        Ok(bytes) => Ok(bytes),
    }
}

/// Whether an archive with these entries can be completed with this metadata.
pub open spec fn is_completable(
    entries: Seq<EntryView>,
    comic_info: Option<Seq<u8>>,
) -> bool {
    comic_info matches Some(info) ==> !has_entry(entries, "ComicInfo.xml"@) && info.len()
        <= 0xffff_ffff
}

impl CbzWriter {
    /// Whether the archive can be worked on.
    pub closed spec fn well_formed(&self) -> bool {
        match self.state {
            WriterState::Open(archive) => is_writable(archive) && all_stored(
                pending_entries(archive),
            ),
            WriterState::PageFailed(archive, _) => is_writable(archive) && all_stored(
                pending_entries(archive),
            ),
            WriterState::Broken(_) => true,
        }
    }

    /// Starts an archive without entries.
    pub fn new() -> (writer: CbzWriter)
        ensures
            writer.well_formed(),
            writer@ == CbzState::Open(Seq::empty()),
    {
        CbzWriter { state: WriterState::Open(start_archive()) }
    }

    /// Adds a page, or takes note that it could not be prepared.
    pub fn append_cbz_entry(self, page: Result<(String, Vec<u8>), Error>) -> (writer: CbzWriter)
        requires
            self.well_formed(),
        ensures
            writer.well_formed(),
            writer@ == after_page(self@, prepared_page(page)),
            match (self@, prepared_page(page)) {
                (CbzState::Open(entries), Ok((name, data))) => {
                    writer@ is Open == (!has_entry(entries, name) && is_small_entry(name, data))
                },
                _ => true,
            },
    {
        match self.state {
            WriterState::Open(archive) => match page {
                Err(error) => {
                    let failure = Error::because(
                        "failed to prepare CBZ pages",
                        error.message.as_str(),
                    );
                    CbzWriter { state: WriterState::PageFailed(archive, failure) }
                },
                Ok((name, data)) => {
                    let mut archive = archive;
                    match append_entry(
                        &mut archive,
                        name.as_str(),
                        data.as_slice(),
                        Compression::Stored,
                    ) {
                        Ok(()) => CbzWriter { state: WriterState::Open(archive) },
                        Err(cause) => CbzWriter {
                            state: WriterState::Broken(Error { message: cause }),
                        },
                    }
                },
            },
            WriterState::PageFailed(archive, error) => CbzWriter {
                state: WriterState::PageFailed(archive, error),
            },
            WriterState::Broken(error) => CbzWriter { state: WriterState::Broken(error) },
        }
    }

    /// Whether the archive still takes pages.
    pub fn is_open(&self) -> (open: bool)
        ensures
            open == (self@ is Open),
    {
        match &self.state {
            WriterState::Open(_) => true,
            _ => false,
        }
    }

    /// Adds the metadata, where there is any, and completes the archive.
    pub fn finish(self, comic_info: Option<Vec<u8>>) -> (finished: Result<Vec<u8>, Error>)
        requires
            self.well_formed(),
        ensures
            match finished {
                Ok(bytes) => cbz_outcome(self@, optional_bytes(comic_info)) matches Ok(all) && (
                !is_ambiguous(all) ==> archive_holds(bytes@, all)),
                Err(error) => cbz_outcome(self@, optional_bytes(comic_info)) == Err::<
                    Seq<EntryView>,
                    Seq<char>,
                >(error@),
            },
            finished is Ok == (self@ matches CbzState::Open(entries) && is_completable(
                entries,
                optional_bytes(comic_info),
            )),
    {
        match self.state {
            WriterState::Broken(error) => Err(error),
            WriterState::PageFailed(archive, error) => match complete_archive(archive, comic_info) {
                Err(refusal) => Err(refusal),
                Ok(_) => Err(error),
            },
            WriterState::Open(archive) => complete_archive(archive, comic_info),
        }
    }
}

/// The entries of the pages of a project, given their labels and their encoded pictures.
pub open spec fn cbz_pages(labels: Seq<Seq<char>>, pictures: Seq<Seq<u8>>) -> Seq<EntryView> {
    Seq::new(
        labels.len(),
        |i: int| stored_entry(cbz_entry_name(job_stem(labels[i], Some(i as nat))), pictures[i]),
    )
}

/// The name of the entry of a page holds no backslash, no control character, and no colon in second
/// place.
proof fn lemma_page_name_is_plain(label: Seq<char>, index: nat)
    ensures
        ({
            let name = cbz_entry_name(job_stem(label, Some(index)));
            &&& name.len() >= 5
            &&& name[1] != ':'
            &&& forall|i: int|
                0 <= i < name.len() ==> name[i] != '\\' && !is_control_char(#[trigger] name[i])
        }),
{
    reveal_strlit("_");
    reveal_strlit(".jpg");
    law_page_stem_is_safe(label);
    lemma_padded_text(index + 1, 4);
    let digits = padded_text(index + 1, 4);
    let stem = job_stem(label, Some(index));
    let name = cbz_entry_name(stem);
    assert(name[1] == digits[1]);
    assert forall|i: int| 0 <= i < name.len() implies name[i] != '\\' && !is_control_char(
        #[trigger] name[i],
    ) by {
        if i < digits.len() {
            assert(name[i] == digits[i]);
        } else if digits.len() < i < stem.len() {
            assert(name[i] == stem_of(label)[i - digits.len() - 1]);
        }
    }
}

proof fn lemma_cbz_entry_name(style: PathStyle, label: Seq<char>, index: nat)
    ensures
        ({
            let name = cbz_entry_name(job_stem(label, Some(index)));
            &&& file_name_of(style, name) == Some(name)
            &&& is_file_entry(name)
            &&& is_image_path(style, name)
            &&& !is_comic_info(style, name)
            &&& name != "ComicInfo.xml"@
        }),
{
    reveal_strlit(".jpg");
    reveal_strlit("jpg");
    reveal_strlit(".");
    reveal_strlit("ComicInfo.xml");
    let stem = job_stem(label, Some(index));
    let name = cbz_entry_name(stem);
    lemma_page_file_name(style, label, Some(index), "jpg"@);
    lemma_page_name_is_plain(label, index);
    assert(name =~= page_file_name(stem, "jpg"@));
    lemma_lone_file_name(style, name);
    lemma_last_index_is(name, '.', stem.len() as int);
    assert(name.skip(stem.len() as int + 1) =~= "jpg"@);
    assert(names_extension(style, name, image_extensions()[1]));
    assert(name.last() == 'g');
    if is_comic_info(style, name) {
        let at = name.len() - 1;
        assert(folded(name[at]) == folded("ComicInfo.xml"@[at]));
    }
}

proof fn lemma_comic_info_name(style: PathStyle)
    ensures
        is_comic_info(style, "ComicInfo.xml"@),
        is_file_entry("ComicInfo.xml"@),
        !is_image_path(style, "ComicInfo.xml"@),
{
    reveal_strlit("ComicInfo.xml");
    reveal_strlit("png");
    reveal_strlit("jpg");
    reveal_strlit("jpeg");
    reveal_strlit("webp");
    let name = "ComicInfo.xml"@;
    assert(!name.contains('/') && !name.contains('\\'));
    assert(name[0] != '.');
    lemma_lone_file_name(style, name);
    lemma_last_index_is(name, '.', 9);
    let found = name.skip(10);
    assert(found.len() == 3 && found[0] == 'x');
    assert forall|i: int| 0 <= i < image_extensions().len() implies !names_extension(
        style,
        name,
        #[trigger] image_extensions()[i],
    ) by {
        let extension = image_extensions()[i];
        if names_extension(style, name, extension) {
            assert(extension.len() == 3);
            assert(folded(found[0]) == folded(extension[0]));
        }
    }
}

/// Two pages of a project never share an entry of the archive, and no page takes the place of the
/// metadata.
pub proof fn law_cbz_entries_are_distinct(a: Seq<char>, i: nat, b: Seq<char>, j: nat)
    ensures
        i != j ==> cbz_entry_name(job_stem(a, Some(i))) != cbz_entry_name(job_stem(b, Some(j))),
        cbz_entry_name(job_stem(a, Some(i))) != "ComicInfo.xml"@,
{
    lemma_cbz_entry_name(PathStyle::Slashes, a, i);
    if i != j {
        law_project_stems_are_distinct(a, i, b, j);
        let (s, t) = (job_stem(a, Some(i)), job_stem(b, Some(j)));
        let (x, y) = (cbz_entry_name(s), cbz_entry_name(t));
        if x == y {
            assert(x.len() == s.len() + ".jpg"@.len());
            assert(y.len() == t.len() + ".jpg"@.len());
            assert(s =~= x.take(s.len() as int));
            assert(t =~= y.take(t.len() as int));
        }
    }
}

/// While a project is exported, the next page is never refused as a duplicate, and neither is the
/// metadata at the end.
pub proof fn law_cbz_takes_every_page(labels: Seq<Seq<char>>, pictures: Seq<Seq<u8>>, count: nat)
    requires
        count <= labels.len(),
        labels.len() == pictures.len(),
    ensures
        count < labels.len() ==> {
            let name = cbz_entry_name(job_stem(labels[count as int], Some(count)));
            !has_entry(cbz_pages(labels, pictures).take(count as int), name)
        },
        !has_entry(cbz_pages(labels, pictures), "ComicInfo.xml"@),
{
    let pages = cbz_pages(labels, pictures);
    if count < labels.len() {
        let name = cbz_entry_name(job_stem(labels[count as int], Some(count)));
        assert forall|i: int| 0 <= i < count implies (#[trigger] pages.take(count as int)[i]).name
            != name by {
            law_cbz_entries_are_distinct(labels[i], i as nat, labels[count as int], count);
        }
    }
    assert forall|i: int| 0 <= i < pages.len() implies (#[trigger] pages[i]).name
        != "ComicInfo.xml"@ by {
        law_cbz_entries_are_distinct(labels[i], i as nat, labels[i], i as nat);
    }
}

/// The archive of a project gives its metadata back: reading it finds what was written, and finds
/// none where none was.
pub proof fn law_comic_info_round_trip(
    style: PathStyle,
    bytes: Seq<u8>,
    labels: Seq<Seq<char>>,
    pictures: Seq<Seq<u8>>,
    comic_info: Option<Seq<u8>>,
)
    requires
        archive_holds(bytes, with_comic_info(cbz_pages(labels, pictures), comic_info)),
        comic_info matches Some(info) ==> info.len() <= COMIC_INFO_LIMIT,
    ensures
        comic_info_of(style, bytes) == Ok::<Option<Seq<u8>>, Seq<char>>(comic_info),
{
    lemma_comic_info_name(style);
    lemma_comic_info_after_pages(style, bytes, labels, pictures, comic_info, 0);
    let headers = archive_headers(bytes);
    let all = with_comic_info(cbz_pages(labels, pictures), comic_info);
    let count = labels.len();
    match comic_info {
        Some(info) => {
            assert(all[count as int] == stored_entry("ComicInfo.xml"@, info));
            assert(headers[count as int] == zip_entry(bytes, count as usize));
            assert(comic_info_entry(style, headers, count) == Ok::<Option<nat>, Seq<char>>(Some(count)));
            assert(zip_data(bytes, count as usize, (COMIC_INFO_LIMIT + 1) as u64) == Ok::<
                Seq<u8>,
                Seq<char>,
            >(info));
        },
        None => {
            assert(comic_info_entry(style, headers, count) == Ok::<Option<nat>, Seq<char>>(None));
        },
    }
}

proof fn lemma_comic_info_after_pages(
    style: PathStyle,
    bytes: Seq<u8>,
    labels: Seq<Seq<char>>,
    pictures: Seq<Seq<u8>>,
    comic_info: Option<Seq<u8>>,
    from: nat,
)
    requires
        archive_holds(bytes, with_comic_info(cbz_pages(labels, pictures), comic_info)),
        from <= labels.len(),
    ensures
        comic_info_entry(style, archive_headers(bytes), from) == comic_info_entry(
            style,
            archive_headers(bytes),
            labels.len(),
        ),
    decreases labels.len() - from,
{
    if from < labels.len() {
        let all = with_comic_info(cbz_pages(labels, pictures), comic_info);
        lemma_cbz_entry_name(style, labels[from as int], from);
        assert(all[from as int] == cbz_pages(labels, pictures)[from as int]);
        assert(archive_headers(bytes)[from as int] == zip_entry(bytes, from as usize));
        lemma_comic_info_after_pages(style, bytes, labels, pictures, comic_info, from + 1);
    }
}

/// How far a comic book archive has come after some pages.
pub open spec fn after_pages(
    state: CbzState,
    pages: Seq<Result<(Seq<char>, Seq<u8>), Seq<char>>>,
) -> CbzState
    decreases pages.len(),
{
    if pages.len() == 0 {
        state
    } else {
        after_page(after_pages(state, pages.drop_last()), pages.last())
    }
}

/// The pages of a project as they are prepared for its archive, in their order.
pub open spec fn prepared_pages(labels: Seq<Seq<char>>, pictures: Seq<Seq<u8>>) -> Seq<
    Result<(Seq<char>, Seq<u8>), Seq<char>>,
> {
    Seq::new(
        labels.len(),
        |i: int|
            Ok::<(Seq<char>, Seq<u8>), Seq<char>>(
                (cbz_entry_name(job_stem(labels[i], Some(i as nat))), pictures[i]),
            ),
    )
}

proof fn lemma_written_pages(labels: Seq<Seq<char>>, pictures: Seq<Seq<u8>>, count: nat)
    requires
        count <= labels.len(),
    ensures
        match after_pages(
            CbzState::Open(Seq::empty()),
            prepared_pages(labels, pictures).take(count as int),
        ) {
            CbzState::Open(entries) => entries == cbz_pages(labels, pictures).take(count as int),
            CbzState::PageFailed(_, _) => false,
            CbzState::Broken(_) => true,
        },
    decreases count,
{
    let prepared = prepared_pages(labels, pictures);
    let pages = cbz_pages(labels, pictures);
    if count == 0 {
        assert(prepared.take(0) =~= Seq::empty());
        assert(pages.take(0) =~= Seq::empty());
    } else {
        lemma_written_pages(labels, pictures, (count - 1) as nat);
        assert(prepared.take(count as int).drop_last() =~= prepared.take(count - 1));
        assert(prepared.take(count as int).last() == prepared[count - 1]);
        assert(pages.take(count as int) =~= pages.take(count - 1).push(pages[count - 1]));
    }
}

/// An archive that is written page by page and completed holds one entry for each page of the
/// project, in the order of the pages, and after them the metadata where there is any; all of them
/// stored as they are.
pub proof fn law_written_archive(
    labels: Seq<Seq<char>>,
    pictures: Seq<Seq<u8>>,
    comic_info: Option<Seq<u8>>,
)
    ensures
        cbz_outcome(
            after_pages(CbzState::Open(Seq::empty()), prepared_pages(labels, pictures)),
            comic_info,
        ) matches Ok(all) ==> all == with_comic_info(cbz_pages(labels, pictures), comic_info)
            && all_stored(all),
{
    lemma_written_pages(labels, pictures, labels.len());
    let prepared = prepared_pages(labels, pictures);
    let pages = cbz_pages(labels, pictures);
    assert(prepared.take(labels.len() as int) =~= prepared);
    assert(pages.take(labels.len() as int) =~= pages);
}

/// The archive of a project is taken for what it is: it is not ambiguous where it ends with the
/// metadata, nor where it ends with a page, unless the name of that page has 16 bytes and the page
/// starts at one certain place.
pub proof fn law_project_is_unambiguous(
    labels: Seq<Seq<char>>,
    pictures: Seq<Seq<u8>>,
    comic_info: Option<Seq<u8>>,
)
    ensures
        ({
            let pages = cbz_pages(labels, pictures);
            is_ambiguous(with_comic_info(pages, comic_info)) ==> {
                &&& comic_info is None
                &&& encode_utf8(pages.last().name).len() == 16
                &&& directory_start(pages.drop_last()) == 0x0706_4b50
            }
        }),
{
    reveal_strlit("ComicInfo.xml");
    lemma_comic_info_name_bytes();
    assert(!"ComicInfo.xml"@.contains('\u{7}'));
    if labels.len() > 0 {
        lemma_page_name_is_plain(labels.last(), (labels.len() - 1) as nat);
    }
}

/// An archive that is written page by page and completed holds, at the place of each page, an entry
/// that is named by the number of the page, counted from one, and its stem, and holds the picture of
/// that page; and at the end the metadata, where there is any. Nothing is compressed.
pub proof fn law_written_entries(
    labels: Seq<Seq<char>>,
    pictures: Seq<Seq<u8>>,
    comic_info: Option<Seq<u8>>,
    all: Seq<EntryView>,
)
    requires
        cbz_outcome(
            after_pages(CbzState::Open(Seq::empty()), prepared_pages(labels, pictures)),
            comic_info,
        ) == Ok::<Seq<EntryView>, Seq<char>>(all),
    ensures
        all.len() == labels.len() + if comic_info is Some {
            1nat
        } else {
            0nat
        },
        forall|i: int|
            0 <= i < labels.len() ==> (#[trigger] all[i]).data == pictures[i] && all[i].name
                == padded_text((i + 1) as nat, 4) + "_"@ + stem_of(labels[i]) + ".jpg"@,
        comic_info matches Some(info) ==> all.last().name == "ComicInfo.xml"@ && all.last().data
            == info,
        forall|i: int|
            0 <= i < all.len() ==> (#[trigger] all[i]).compression == Compression::Stored,
{
    law_written_archive(labels, pictures, comic_info);
    let pages = cbz_pages(labels, pictures);
    assert forall|i: int| 0 <= i < labels.len() implies (#[trigger] all[i]) == pages[i] by {}
}

/// A page that could not be prepared is told of with its cause, and the archive then takes no more
/// pages and is never completed; neither is one that refused an entry.
#[verifier::rlimit(60)]
pub proof fn law_failed_archive(
    entries: Seq<EntryView>,
    text: Seq<char>,
    page: Result<(Seq<char>, Seq<u8>), Seq<char>>,
    comic_info: Option<Seq<u8>>,
)
    ensures
        page matches Err(cause) ==> after_page(CbzState::Open(entries), page)
            == CbzState::PageFailed(entries, "failed to prepare CBZ pages"@ + ": "@ + cause),
        after_page(CbzState::PageFailed(entries, text), page) == CbzState::PageFailed(entries, text),
        after_page(CbzState::Broken(text), page) == CbzState::Broken(text),
        cbz_outcome(CbzState::PageFailed(entries, text), comic_info) is Err,
        cbz_outcome(CbzState::Broken(text), comic_info) == Err::<Seq<EntryView>, Seq<char>>(text),
        cbz_outcome(CbzState::Open(entries), comic_info) is Ok ==> cbz_outcome(
            CbzState::PageFailed(entries, text),
            comic_info,
        ) == Err::<Seq<EntryView>, Seq<char>>(text),
        match page {
            Ok((name, data)) => match after_page(CbzState::Open(entries), page) {
                CbzState::Open(more) => more == entries.push(
                    EntryView { name, data, compression: Compression::Stored },
                ),
                CbzState::PageFailed(_, _) => false,
                CbzState::Broken(refusal) => append_refusal(
                    entries,
                    EntryView { name, data, compression: Compression::Stored },
                ) == Some(refusal),
            },
            Err(_) => true,
        },
        cbz_outcome(CbzState::Open(entries), comic_info) matches Ok(all) ==> all.len()
            >= entries.len() && all.take(entries.len() as int) == entries && match comic_info {
            Some(info) => all == entries.push(
                EntryView {
                    name: "ComicInfo.xml"@,
                    data: info,
                    compression: Compression::Stored,
                },
            ),
            None => all == entries,
        },
        is_completable(entries, comic_info) <==> (comic_info matches Some(info) ==> info.len()
            <= 4294967295 && forall|i: int|
            0 <= i < entries.len() ==> (#[trigger] entries[i]).name != "ComicInfo.xml"@),
{
    if let Ok(all) = cbz_outcome(CbzState::Open(entries), comic_info) {
        assert(all.take(entries.len() as int) =~= entries);
    }
}

/// The archive of a project lists its pages: one picture for each page, in the order of the pages,
/// each with the contents that were written, and nothing else.
pub proof fn law_pages_round_trip(
    style: PathStyle,
    bytes: Seq<u8>,
    labels: Seq<Seq<char>>,
    pictures: Seq<Seq<u8>>,
    comic_info: Option<Seq<u8>>,
    path: Option<Seq<char>>,
)
    requires
        archive_holds(bytes, with_comic_info(cbz_pages(labels, pictures), comic_info)),
    ensures
        image_entries(style, path, archive_headers(bytes)) == Ok::<
            Seq<(usize, Seq<char>)>,
            Seq<char>,
        >(page_entries(labels)),
        forall|i: int, limit: u64|
            0 <= i < labels.len() && pictures[i].len() <= limit ==> #[trigger] zip_data(
                bytes,
                i as usize,
                limit,
            ) == Ok::<Seq<u8>, Seq<char>>(pictures[i]),
{
    let headers = archive_headers(bytes);
    let all = with_comic_info(cbz_pages(labels, pictures), comic_info);
    let count = labels.len();
    lemma_page_entries(style, bytes, labels, pictures, comic_info, path, count);
    if comic_info is Some {
        lemma_comic_info_name(style);
        assert(headers.drop_last() =~= headers.take(count as int));
        assert(headers.last() == zip_entry(bytes, count as usize));
    } else {
        assert(headers.take(count as int) =~= headers);
    }
    assert forall|i: int, limit: u64|
        0 <= i < labels.len() && pictures[i].len() <= limit implies #[trigger] zip_data(
        bytes,
        i as usize,
        limit,
    ) == Ok::<Seq<u8>, Seq<char>>(pictures[i]) by {
        assert(all[i] == cbz_pages(labels, pictures)[i]);
        assert(all[(i as usize) as int].data == pictures[i]);
    }
}

/// The names of the entries of the pages of a project, each with its place.
pub open spec fn page_entries(labels: Seq<Seq<char>>) -> Seq<(usize, Seq<char>)> {
    Seq::new(
        labels.len(),
        |i: int| (i as usize, cbz_entry_name(job_stem(labels[i], Some(i as nat)))),
    )
}

proof fn lemma_page_entries(
    style: PathStyle,
    bytes: Seq<u8>,
    labels: Seq<Seq<char>>,
    pictures: Seq<Seq<u8>>,
    comic_info: Option<Seq<u8>>,
    path: Option<Seq<char>>,
    count: nat,
)
    requires
        archive_holds(bytes, with_comic_info(cbz_pages(labels, pictures), comic_info)),
        count <= labels.len(),
    ensures
        image_entries(style, path, archive_headers(bytes).take(count as int)) == Ok::<
            Seq<(usize, Seq<char>)>,
            Seq<char>,
        >(
            Seq::new(
                count,
                |i: int| (i as usize, cbz_entry_name(job_stem(labels[i], Some(i as nat)))),
            ),
        ),
    decreases count,
{
    let headers = archive_headers(bytes);
    let names = |i: int| (i as usize, cbz_entry_name(job_stem(labels[i], Some(i as nat))));
    if count == 0 {
        assert(Seq::new(0, names) =~= Seq::empty());
    } else {
        let last = (count - 1) as nat;
        let all = with_comic_info(cbz_pages(labels, pictures), comic_info);
        lemma_page_entries(style, bytes, labels, pictures, comic_info, path, last);
        lemma_cbz_entry_name(style, labels[last as int], last);
        assert(all[last as int] == cbz_pages(labels, pictures)[last as int]);
        assert(headers[last as int] == zip_entry(bytes, last as usize));
        assert(headers.take(count as int).drop_last() =~= headers.take(last as int));
        assert(Seq::new(count, names) =~= Seq::new(last, names).push(names(last as int)));
    }
}

proof fn lemma_page_number(label: Seq<char>, index: nat)
    ensures
        starts_with_number(cbz_entry_name(job_stem(label, Some(index)))),
        leading_number(cbz_entry_name(job_stem(label, Some(index)))) == index + 1,
{
    reveal_strlit("_");
    lemma_padded_text(index + 1, 4);
    let digits = padded_text(index + 1, 4);
    let rest = "_"@ + stem_of(label) + ".jpg"@;
    let name = cbz_entry_name(job_stem(label, Some(index)));
    assert(name =~= digits + rest);
    assert(rest[0] == '_');
    assert(name[0] == digits[0]);
    lemma_leading_digits(digits, rest);
}

/// Natural order leaves the pages of a project in their order.
pub proof fn law_page_order_is_natural(labels: Seq<Seq<char>>)
    requires
        labels.len() <= usize::MAX,
    ensures
        natural_order(page_entries(labels)) == page_entries(labels),
{
    let entries = page_entries(labels);
    assert forall|i: int, j: int| 0 <= i < j < entries.len() implies stands_before(
        #[trigger] entries[i],
        #[trigger] entries[j],
    ) by {
        lemma_page_number(labels[i], i as nat);
        lemma_page_number(labels[j], j as nat);
        law_numbers_count_by_value(Seq::empty(), entries[i], entries[j]);
        assert(Seq::empty() + entries[i].1 =~= entries[i].1);
        assert(Seq::empty() + entries[j].1 =~= entries[j].1);
    }
    lemma_natural_order(entries, entries);
}

/// How many bytes the first pictures have together.
pub open spec fn picture_bytes(pictures: Seq<Seq<u8>>, count: nat) -> nat
    decreases count,
{
    if count == 0 {
        0
    } else {
        picture_bytes(pictures, (count - 1) as nat) + pictures[count - 1].len()
    }
}

proof fn lemma_picture_bytes(pictures: Seq<Seq<u8>>, few: nat, many: nat)
    requires
        few <= many,
    ensures
        picture_bytes(pictures, few) <= picture_bytes(pictures, many),
    decreases many,
{
    if few < many {
        lemma_picture_bytes(pictures, few, (many - 1) as nat);
    }
}

/// The pages that the archive of a project is imported as.
pub open spec fn reimported_pages(
    labels: Seq<Seq<char>>,
    pictures: Seq<Seq<u8>>,
    sizes: Seq<(u32, u32)>,
) -> Seq<PageView> {
    Seq::new(
        labels.len(),
        |i: int|
            PageView {
                name: cbz_entry_name(job_stem(labels[i], Some(i as nat))),
                bytes: pictures[i],
                mime: "image/jpeg"@,
                width: sizes[i].0,
                height: sizes[i].1,
            },
    )
}

/// Whether pictures are JPEGs of the given sizes, within the limits of an import.
pub open spec fn are_importable(pictures: Seq<Seq<u8>>, sizes: Seq<(u32, u32)>) -> bool {
    &&& sizes.len() == pictures.len()
    &&& picture_bytes(pictures, pictures.len()) <= MAX_ARCHIVE_TOTAL_BYTES
    &&& forall|i: int|
        0 <= i < pictures.len() ==> (#[trigger] pictures[i]).len() <= MAX_ARCHIVE_ENTRY_BYTES
            && is_jpeg_of(pictures[i], sizes[i].0, sizes[i].1)
}

proof fn lemma_reimport(
    style: PathStyle,
    path: Seq<char>,
    bytes: Seq<u8>,
    labels: Seq<Seq<char>>,
    pictures: Seq<Seq<u8>>,
    sizes: Seq<(u32, u32)>,
    comic_info: Option<Seq<u8>>,
    from: nat,
)
    requires
        archive_holds(bytes, with_comic_info(cbz_pages(labels, pictures), comic_info)),
        labels.len() == pictures.len(),
        are_importable(pictures, sizes),
        from <= labels.len(),
    ensures
        entry_pages(
            style,
            path,
            bytes,
            page_entries(labels).skip(from as int),
            picture_bytes(pictures, from) as int,
        ) == Ok::<Seq<PageView>, Seq<char>>(
            reimported_pages(labels, pictures, sizes).skip(from as int),
        ),
    decreases labels.len() - from,
{
    let entries = page_entries(labels);
    let pages = reimported_pages(labels, pictures, sizes);
    let rest = entries.skip(from as int);
    if from == labels.len() {
        assert(rest =~= Seq::empty());
        assert(pages.skip(from as int) =~= Seq::empty());
    } else {
        let all = with_comic_info(cbz_pages(labels, pictures), comic_info);
        lemma_reimport(style, path, bytes, labels, pictures, sizes, comic_info, from + 1);
        lemma_picture_bytes(pictures, from + 1, labels.len());
        lemma_cbz_entry_name(style, labels[from as int], from);
        assert(rest[0] == entries[from as int]);
        assert(rest.drop_first() =~= entries.skip(from as int + 1));
        assert(all[from as int] == cbz_pages(labels, pictures)[from as int]);
        assert(zip_entry(bytes, from as usize) is Ok);
        assert(zip_data(bytes, from as usize, (MAX_ARCHIVE_ENTRY_BYTES + 1) as u64) == Ok::<
            Seq<u8>,
            Seq<char>,
        >(pictures[from as int]));
        assert(is_jpeg_of(pictures[from as int], sizes[from as int].0, sizes[from as int].1));
        assert(entry_page(
            style,
            path,
            bytes,
            rest[0],
            picture_bytes(pictures, from) as int,
        ) == Ok::<(PageView, int), Seq<char>>(
            (pages[from as int], picture_bytes(pictures, from + 1) as int),
        ));
        assert(seq![pages[from as int]] + pages.skip(from as int + 1) =~= pages.skip(from as int));
    }
}

/// A project that is exported and imported again has the same pages in the same order: each a JPEG
/// of its size, under its name; and the metadata is never taken for a page.
pub proof fn law_reimport_keeps_pages(
    style: PathStyle,
    path: Seq<char>,
    bytes: Seq<u8>,
    labels: Seq<Seq<char>>,
    pictures: Seq<Seq<u8>>,
    sizes: Seq<(u32, u32)>,
    comic_info: Option<Seq<u8>>,
)
    requires
        archive_holds(bytes, with_comic_info(cbz_pages(labels, pictures), comic_info)),
        labels.len() == pictures.len(),
        are_importable(pictures, sizes),
    ensures
        archive_pages(style, path, ContentsView::Bytes(bytes)) == Ok::<Seq<PageView>, Seq<char>>(
            reimported_pages(labels, pictures, sizes),
        ),
{
    law_pages_round_trip(style, bytes, labels, pictures, comic_info, Some(path));
    law_page_order_is_natural(labels);
    lemma_reimport(style, path, bytes, labels, pictures, sizes, comic_info, 0);
    assert(page_entries(labels).skip(0) =~= page_entries(labels));
    let pages = reimported_pages(labels, pictures, sizes);
    assert(pages.skip(0) =~= pages);
}

/// A step of publishing an archive that failed is told of with its cause; where the archive could not
/// be prepared or put in its place, also with the directory or the path.
pub proof fn law_publish_failure(path: Seq<char>, directory: Seq<char>, cause: String)
    ensures
        publish_failure(path, directory, PublishFailure::Directory(cause)) == cause@,
        publish_failure(path, directory, PublishFailure::Write(cause)) == cause@,
        publish_failure(path, directory, PublishFailure::Temporary(cause))
            == "failed to create a temporary archive in "@ + directory + ": "@ + cause@,
        publish_failure(path, directory, PublishFailure::Publish(cause)) == "failed to publish "@
            + path + ": "@ + cause@,
        CBZ_JPEG_QUALITY == 95,
{
}

/// A page that is ready for the archive is taken with its name and its contents as they are.
pub proof fn law_prepared_page(page: Result<(String, Vec<u8>), Error>)
    ensures
        match page {
            Ok((name, data)) => prepared_page(page) == Ok::<(Seq<char>, Seq<u8>), Seq<char>>(
                (name@, data@),
            ),
            Err(error) => prepared_page(page) == Err::<(Seq<char>, Seq<u8>), Seq<char>>(
                error.message@,
            ),
        },
{
}

/// Why an open archive is not completed: what refuses the metadata counts before what refuses the end.
pub proof fn law_refused_archive(entries: Seq<EntryView>, info: Seq<u8>)
    ensures
        ({
            let entry = EntryView {
                name: "ComicInfo.xml"@,
                data: info,
                compression: Compression::Stored,
            };
            match append_refusal(entries, entry) {
                Some(text) => cbz_outcome(CbzState::Open(entries), Some(info)) == Err::<
                    Seq<EntryView>,
                    Seq<char>,
                >(text),
                None => finish_refusal(entries.push(entry)) matches Some(text) ==> cbz_outcome(
                    CbzState::Open(entries),
                    Some(info),
                ) == Err::<Seq<EntryView>, Seq<char>>(text),
            }
        }),
        finish_refusal(entries) matches Some(text) ==> cbz_outcome(CbzState::Open(entries), None)
            == Err::<Seq<EntryView>, Seq<char>>(text),
        finish_refusal(entries) is None ==> cbz_outcome(CbzState::Open(entries), None) == Ok::<
            Seq<EntryView>,
            Seq<char>,
        >(entries),
{
}

} // verus!
