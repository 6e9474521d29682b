//! Chapters: the archives that a batch works on, where they are found and what is known of them.

use crate::archive::{
    archive_headers, archive_source, entry_header, header_view, header_views, read_entry,
    read_headers, zip_data, zip_entry, zip_len, zip_refusal, EntryHeader, HeaderView,
};
use crate::error::{caused, Error};
use crate::images::{
    base64_text, decoded_size, encode_webp, is_small_picture, is_small_webp, is_webp_of,
    load_small_picture, webp_data_url, webp_url, RgbaImage, LARGEST_EDGE,
};
use crate::import::{
    archive_pages, entry_page, image_entries, law_archive_pages_follow_entries,
    lemma_image_entries_of_any_path, open_file, select_images, ContentsView, FileContents, PageView,
};
use crate::natural::{
    is_natural_order, keyed, lemma_natural_order, natural_order, numbered_upwards, sort_names,
    sort_paths, stands_before,
};
use crate::paths::{
    file_name, file_name_of, has_extension, join, joined, names_extension, parent, parent_of,
    PathStyle,
};
use crate::text::{eq_ignore_case, equal_ignoring_case, to_chars};
use crate::views::{
    bytes_result, data_result, lemma_failure_stays, message_result, optional_data_result,
    optional_string, plain_result,
};
use vstd::prelude::*;
use vstd::seq_lib::lemma_seq_contains_after_push;

verus! {

/// The largest metadata entry that is carried over to a translated chapter.
pub const COMIC_INFO_LIMIT: u64 = 2 * 1024 * 1024;

/// The largest cover that is read for a thumbnail.
pub const THUMBNAIL_ENTRY_LIMIT: u64 = 512 * 1024 * 1024;

/// The box that the thumbnail of a cover fits into.
pub const COVER_WIDTH: u32 = 360;

pub const COVER_HEIGHT: u32 = 480;

/// The WebP quality of the thumbnail of a cover.
pub const COVER_QUALITY: u8 = 78;

/// A folder of chapters, as it is offered for a batch.
#[derive(Debug)]
pub struct BatchSource {
    pub path: String,
    /// Where the translated chapters go unless another place is chosen.
    pub default_output: String,
    pub chapters: Vec<BatchChapter>,
}

/// A chapter, as it is offered for a batch.
#[derive(Debug)]
pub struct BatchChapter {
    pub path: String,
    pub name: String,
    /// The size of the file.
    pub size: u64,
    /// How many pages the chapter has.
    pub pages: usize,
    /// A URL that holds a small picture of the cover.
    pub thumbnail: Option<String>,
    /// Why the chapter cannot be read, where it cannot.
    pub error: Option<String>,
}

/// The name of a chapter: the file that its path names.
pub open spec fn chapter_name_of(style: PathStyle, path: Seq<char>) -> Seq<char> {
    match file_name_of(style, path) {
        Some(name) => name,
        None => "chapter.cbz"@,
    }
}

/// The name of a chapter.
pub fn chapter_name(style: PathStyle, path: &str) -> (name: String)
    ensures
        name@ == chapter_name_of(style, path@),
{
    match file_name(style, path) {
        Some(name) => name,
        None => "chapter.cbz".to_owned(),
    }
}

/// An entry of a directory, as the file system lists it.
#[derive(Debug)]
pub struct ListedEntry {
    pub path: String,
    pub is_file: bool,
}

/// What the input of a batch is.
#[derive(Debug)]
pub enum InputKind {
    /// A file.
    File,
    /// A directory, with what became of listing it and of reading each of its entries.
    Directory(Result<Vec<Result<ListedEntry, String>>, String>),
    /// Neither a file nor a directory.
    Other,
}

/// An entry of a directory, in terms of sequences.
pub open spec fn listed_view(entry: Result<ListedEntry, String>) -> Result<
    (Seq<char>, bool),
    Seq<char>,
> {
    match entry {
        Ok(entry) => Ok((entry.path@, entry.is_file)),
        Err(cause) => Err(cause@),
    }
}

/// The entries of a directory, in terms of sequences.
pub open spec fn listed_views(entries: Seq<Result<ListedEntry, String>>) -> Seq<
    Result<(Seq<char>, bool), Seq<char>>,
> {
    entries.map_values(|entry: Result<ListedEntry, String>| listed_view(entry))
}

/// The chapters among the entries of a directory, each with its number, as they are listed.
pub open spec fn listed_chapters(
    style: PathStyle,
    entries: Seq<Result<(Seq<char>, bool), Seq<char>>>,
) -> Result<Seq<(usize, Seq<char>)>, Seq<char>>
    decreases entries.len(),
{
    if entries.len() == 0 {
        Ok(Seq::empty())
    } else {
        match listed_chapters(style, entries.drop_last()) {
            Err(text) => Err(text),
            Ok(found) => match entries.last() {
                Err(cause) => Err(cause),
                Ok((path, is_file)) => if is_file && names_extension(style, path, "cbz"@) {
                    Ok(found.push(((entries.len() - 1) as usize, path)))
                } else {
                    Ok(found)
                },
            },
        }
    }
}

/// The chapters of a directory are all archives that stand directly in it, and nothing else.
pub proof fn law_listed_chapters(
    style: PathStyle,
    entries: Seq<Result<(Seq<char>, bool), Seq<char>>>,
    index: usize,
    path: Seq<char>,
)
    requires
        entries.len() <= usize::MAX,
    ensures
        listed_chapters(style, entries) matches Ok(found) ==> (found.contains((index, path)) <==> (index
            < entries.len() && entries[index as int] == Ok::<(Seq<char>, bool), Seq<char>>(
            (path, true),
        ) && names_extension(style, path, "cbz"@))),
    decreases entries.len(),
{
    broadcast use lemma_seq_contains_after_push;

    if entries.len() > 0 {
        let before = entries.drop_last();
        let last = entries.len() - 1;
        law_listed_chapters(style, before, index, path);
        if index < last {
            assert(before[index as int] == entries[index as int]);
        }
    }
}

/// The chapters of an input, each with its number among the entries, or why there are none.
pub open spec fn discovered(style: PathStyle, input: Seq<char>, kind: InputKind) -> Result<
    Seq<(usize, Seq<char>)>,
    Seq<char>,
> {
    match kind {
        InputKind::File => if names_extension(style, input, "cbz"@) {
            Ok(seq![(0usize, input)])
        } else {
            Err("input file must use the .cbz extension"@)
        },
        InputKind::Directory(Err(cause)) => Err(caused("failed to read "@ + input, cause@)),
        InputKind::Directory(Ok(entries)) => match listed_chapters(style, listed_views(entries@)) {
            Err(text) => Err(text),
            Ok(found) => if found.len() == 0 {
                Err("no CBZ chapters were found in "@ + input)
            } else {
                Ok(natural_order(found))
            },
        },
        InputKind::Other => Err("input must be a CBZ file or directory"@),
    }
}

/// Picks the chapters among the entries of a directory.
fn list_chapters(style: PathStyle, entries: &Vec<Result<ListedEntry, String>>) -> (found: Result<
    Vec<(usize, String)>,
    Error,
>)
    ensures
        match found {
            Ok(found) => numbered_upwards(found@) && listed_chapters(
                style,
                listed_views(entries@),
            ) == Ok::<Seq<(usize, Seq<char>)>, Seq<char>>(keyed(found@)),
            Err(error) => listed_chapters(style, listed_views(entries@)) == Err::<
                Seq<(usize, Seq<char>)>,
                Seq<char>,
            >(error@),
        },
{
    let ghost views = listed_views(entries@);
    let mut found: Vec<(usize, String)> = Vec::new();
    let mut index: usize = 0;
    assert(keyed(found@) =~= Seq::<(usize, Seq<char>)>::empty());
    while index < entries.len()
        invariant
            index <= entries@.len(),
            views == listed_views(entries@),
            listed_chapters(style, views.take(index as int)) == Ok::<
                Seq<(usize, Seq<char>)>,
                Seq<char>,
            >(keyed(found@)),
            numbered_upwards(found@),
            forall|i: int| 0 <= i < found@.len() ==> (#[trigger] found@[i]).0 < index,
        decreases entries@.len() - index,
    {
        assert(views.take(index + 1).drop_last() =~= views.take(index as int));
        assert(views.take(index + 1).last() == listed_view(entries@[index as int]));
        match &entries[index] {
            Err(cause) => {
                proof {
                    lemma_failure_stays(
                        |entries: Seq<Result<(Seq<char>, bool), Seq<char>>>|
                            listed_chapters(style, entries),
                        views,
                        index + 1,
                    );
                }
                return Err(Error::new(cause.as_str()));
            },
            Ok(entry) => {
                if entry.is_file && has_extension(style, entry.path.as_str(), "cbz") {
                    let ghost before = found@;
                    found.push((index, entry.path.clone()));
                    assert(keyed(found@) =~= keyed(before).push((index, entry.path@)));
                }
            },
        }
        index = index + 1;
    }
    assert(views.take(index as int) =~= views);
    Ok(found)
}

/// Finds the chapters of an input: the input itself, or the archives that stand directly in it, in
/// natural order. Each comes with its number among the entries of the directory.
pub fn discover_chapters(style: PathStyle, input: &str, kind: InputKind) -> (chapters: Result<
    Vec<(usize, String)>,
    Error,
>)
    ensures
        match chapters {
            Ok(chapters) => discovered(style, input@, kind) == Ok::<
                Seq<(usize, Seq<char>)>,
                Seq<char>,
            >(keyed(chapters@)),
            Err(error) => discovered(style, input@, kind) == Err::<Seq<(usize, Seq<char>)>, Seq<char>>(
                error@,
            ),
        },
        chapters matches Ok(chapters) ==> chapters@.len() > 0,
        chapters is Ok ==> (kind matches InputKind::Directory(listing) ==> (listing matches Ok(entries)
            && listed_chapters(style, listed_views(entries@)) matches Ok(found) && is_natural_order(
            found,
            natural_order(found),
        ))),
{
    match kind {
        InputKind::File => {
            if !has_extension(style, input, "cbz") {
                return Err(Error::new("input file must use the .cbz extension"));
            }
            let mut chapters: Vec<(usize, String)> = Vec::new();
            chapters.push((0, input.to_owned()));
            assert(keyed(chapters@) =~= seq![(0usize, input@)]);
            Ok(chapters)
        },
        InputKind::Directory(Err(cause)) => Err(
            Error::because_of("failed to read ", input, cause.as_str()),
        ),
        InputKind::Directory(Ok(entries)) => match list_chapters(style, &entries) {
            Err(error) => Err(error),
            Ok(mut chapters) => {
                sort_paths(&mut chapters);
                if chapters.len() == 0 {
                    return Err(Error::about("no CBZ chapters were found in ", input));
                }
                Ok(chapters)
            },
        },
        InputKind::Other => Err(Error::new("input must be a CBZ file or directory")),
    }
}

/// A chapter that was chosen, and whether it is a file.
#[derive(Debug)]
pub struct ChapterFile {
    pub path: String,
    pub is_file: bool,
}

/// The chapters that were chosen, in terms of sequences.
pub open spec fn chapter_files(chapters: Seq<ChapterFile>) -> Seq<(Seq<char>, bool)> {
    chapters.map_values(|chapter: ChapterFile| (chapter.path@, chapter.is_file))
}

/// What is said of the first chapter that is no archive, if there is one.
pub open spec fn chapter_refusal(style: PathStyle, chapters: Seq<(Seq<char>, bool)>) -> Option<
    Seq<char>,
>
    decreases chapters.len(),
{
    if chapters.len() == 0 {
        None
    } else if !chapters[0].1 || !names_extension(style, chapters[0].0, "cbz"@) {
        Some("batch input must be a CBZ file: "@ + chapters[0].0)
    } else {
        chapter_refusal(style, chapters.drop_first())
    }
}

/// Whether a JPEG quality is one that the encoder knows.
pub open spec fn is_jpeg_quality(quality: u8) -> bool {
    1 <= quality <= 100
}

/// What is said of a batch that cannot start, if it cannot.
pub open spec fn batch_refusal(
    style: PathStyle,
    chapters: Seq<(Seq<char>, bool)>,
    quality: u8,
) -> Option<Seq<char>> {
    if !is_jpeg_quality(quality) {
        Some("JPEG quality must be between 1 and 100"@)
    } else if chapters.len() == 0 {
        Some("select at least one chapter"@)
    } else {
        chapter_refusal(style, chapters)
    }
}

/// Whether a chapter that was chosen is a file with the extension of a comic book archive.
spec fn is_archive_file(style: PathStyle, chapter: (Seq<char>, bool)) -> bool {
    chapter.1 && names_extension(style, chapter.0, "cbz"@)
}

proof fn lemma_chapters_taken(style: PathStyle, chapters: Seq<(Seq<char>, bool)>)
    ensures
        chapter_refusal(style, chapters) is None <==> forall|i: int|
            0 <= i < chapters.len() ==> is_archive_file(style, #[trigger] chapters[i]),
    decreases chapters.len(),
{
    if chapters.len() > 0 {
        let rest = chapters.drop_first();
        lemma_chapters_taken(style, rest);
        assert forall|i: int| 0 <= i < rest.len() implies #[trigger] rest[i] == chapters[i + 1] by {}
        if chapter_refusal(style, chapters) is None {
            assert forall|i: int| 0 <= i < chapters.len() implies is_archive_file(
                style,
                #[trigger] chapters[i],
            ) by {
                if i > 0 {
                    assert(rest[i - 1] == chapters[i]);
                }
            }
        } else if is_archive_file(style, chapters[0]) {
            let i = choose|i: int| 0 <= i < rest.len() && !is_archive_file(style, #[trigger] rest[i]);
            assert(!is_archive_file(style, chapters[i + 1]));
        }
    }
}

proof fn lemma_first_chapter_refused(
    style: PathStyle,
    chapters: Seq<(Seq<char>, bool)>,
    first: int,
)
    requires
        0 <= first < chapters.len(),
        !is_archive_file(style, chapters[first]),
        forall|j: int| 0 <= j < first ==> is_archive_file(style, #[trigger] chapters[j]),
    ensures
        chapter_refusal(style, chapters) == Some(
            "batch input must be a CBZ file: "@ + chapters[first].0,
        ),
    decreases chapters.len(),
{
    if first > 0 {
        let rest = chapters.drop_first();
        assert(is_archive_file(style, chapters[0]));
        assert forall|j: int| 0 <= j < first - 1 implies is_archive_file(style, #[trigger] rest[j]) by {
            assert(rest[j] == chapters[j + 1]);
        }
        assert(rest[first - 1] == chapters[first]);
        lemma_first_chapter_refused(style, rest, first - 1);
    }
}

/// A batch is refused for a quality out of range before all else, then where there are no chapters,
/// then for the first chapter that is no file with the extension of a comic book archive; and for
/// nothing else.
#[verifier::rlimit(60)]
pub proof fn law_batch_refusal(
    style: PathStyle,
    chapters: Seq<(Seq<char>, bool)>,
    quality: u8,
    first: int,
)
    ensures
        batch_refusal(style, chapters, quality) is None <==> {
            &&& 1 <= quality <= 100
            &&& chapters.len() > 0
            &&& forall|i: int|
                0 <= i < chapters.len() ==> (#[trigger] chapters[i]).1 && names_extension(
                    style,
                    chapters[i].0,
                    "cbz"@,
                )
        },
        quality == 0 || quality > 100 ==> batch_refusal(style, chapters, quality) == Some(
            "JPEG quality must be between 1 and 100"@,
        ),
        1 <= quality <= 100 && chapters.len() == 0 ==> batch_refusal(style, chapters, quality)
            == Some("select at least one chapter"@),
        1 <= quality <= 100 && 0 <= first < chapters.len() && !(chapters[first].1 && names_extension(
            style,
            chapters[first].0,
            "cbz"@,
        )) && (forall|j: int|
            0 <= j < first ==> (#[trigger] chapters[j]).1 && names_extension(
                style,
                chapters[j].0,
                "cbz"@,
            )) ==> batch_refusal(style, chapters, quality) == Some(
            "batch input must be a CBZ file: "@ + chapters[first].0,
        ),
{
    lemma_chapters_taken(style, chapters);
    if batch_refusal(style, chapters, quality) is None {
        assert forall|i: int| 0 <= i < chapters.len() implies (#[trigger] chapters[i]).1
            && names_extension(style, chapters[i].0, "cbz"@) by {
            assert(is_archive_file(style, chapters[i]));
        }
    }
    if 0 <= first < chapters.len() && !is_archive_file(style, chapters[first]) && (forall|j: int|
        0 <= j < first ==> (#[trigger] chapters[j]).1 && names_extension(
            style,
            chapters[j].0,
            "cbz"@,
        )) {
        assert forall|j: int| 0 <= j < first implies is_archive_file(style, #[trigger] chapters[j]) by {}
        lemma_first_chapter_refused(style, chapters, first);
    }
}

/// Checks that a batch can start: its quality, and that its chapters are archives.
pub fn validate_chapters(style: PathStyle, chapters: &Vec<ChapterFile>, jpeg_quality: u8) -> (valid:
    Result<(), Error>)
    ensures
        match valid {
            Ok(()) => batch_refusal(style, chapter_files(chapters@), jpeg_quality) is None,
            Err(error) => batch_refusal(style, chapter_files(chapters@), jpeg_quality) == Some(error@),
        },
{
    if jpeg_quality < 1 || jpeg_quality > 100 {
        return Err(Error::new("JPEG quality must be between 1 and 100"));
    }
    if chapters.len() == 0 {
        return Err(Error::new("select at least one chapter"));
    }
    let ghost files = chapter_files(chapters@);
    let mut i: usize = 0;
    assert(files.skip(0) =~= files);
    while i < chapters.len()
        invariant
            i <= chapters@.len(),
            chapters@.len() > 0,
            is_jpeg_quality(jpeg_quality),
            files == chapter_files(chapters@),
            chapter_refusal(style, files.skip(i as int)) == chapter_refusal(style, files),
        decreases chapters@.len() - i,
    {
        assert(files.skip(i as int)[0] == (chapters@[i as int].path@, chapters@[i as int].is_file));
        assert(files.skip(i as int).drop_first() =~= files.skip(i + 1));
        if !chapters[i].is_file || !has_extension(style, chapters[i].path.as_str(), "cbz") {
            return Err(
                Error::about("batch input must be a CBZ file: ", chapters[i].path.as_str()),
            );
        }
        i = i + 1;
    }
    Ok(())
}

/// The directory for translated chapters, inside the given one.
pub open spec fn translated_in(style: PathStyle, directory: Seq<char>) -> Seq<char> {
    joined(style, directory, "Translated"@)
}

/// Where the translated chapters of an input go unless another place is chosen: into a directory
/// inside the input, or beside it where the input is one chapter.
pub open spec fn default_output_of(style: PathStyle, input: Seq<char>, is_dir: bool) -> Seq<char> {
    if is_dir {
        translated_in(style, input)
    } else {
        match parent_of(style, input) {
            Some(above) => translated_in(style, above),
            None => translated_in(style, "."@),
        }
    }
}

/// Where the translated chapters of an input go unless another place is chosen.
pub fn default_output_directory(style: PathStyle, input: &str, is_dir: bool) -> (directory: String)
    ensures
        directory@ == default_output_of(style, input@, is_dir),
{
    if is_dir {
        join(style, input, "Translated")
    } else {
        match parent(style, input) {
            Some(above) => join(style, above.as_str(), "Translated"),
            None => join(style, ".", "Translated"),
        }
    }
}

/// Why the output of a chapter cannot be written, if it cannot: nothing replaces its own source.
pub open spec fn output_refusal(
    source: Seq<char>,
    output_exists: bool,
    same_file: Result<bool, Seq<char>>,
) -> Option<Seq<char>> {
    if !output_exists {
        None
    } else {
        match same_file {
            Err(cause) => Some(cause),
            Ok(true) => Some("refusing to replace source archive "@ + source),
            Ok(false) => None,
        }
    }
}

/// Checks that the output of a chapter is not the chapter itself. `same_file` tells whether the two
/// paths lead to one file; it counts only where the output exists.
pub fn ensure_distinct_paths(
    source: &str,
    output_exists: bool,
    same_file: Result<bool, String>,
) -> (checked: Result<(), Error>)
    ensures
        match checked {
            Ok(()) => output_refusal(
                source@,
                output_exists,
                plain_result(same_file),
            ) is None,
            Err(error) => output_refusal(
                source@,
                output_exists,
                plain_result(same_file),
            ) == Some(error@),
        },
{
    if !output_exists {
        return Ok(());
    }
    match same_file {
        Err(cause) => Err(Error { message: cause }),
        Ok(same) => if same {
            Err(Error::about("refusing to replace source archive ", source))
        } else {
            Ok(())
        },
    }
}

/// Why a cover is not read, if it is not, by what the archive says of it.
pub open spec fn cover_size_refusal(
    name: Seq<char>,
    header: Result<HeaderView, Seq<char>>,
) -> Option<Seq<char>> {
    match header {
        Err(cause) => Some(caused("failed to read cover "@ + name, cause)),
        Ok(header) => if header.size > THUMBNAIL_ENTRY_LIMIT {
            Some("cover image exceeds the 512 MiB page limit"@)
        } else {
            None
        },
    }
}

/// Decides whether a cover is read, by what the archive says of it.
pub fn admit_cover(name: &str, header: Result<EntryHeader, String>) -> (admitted: Result<(), Error>)
    ensures
        match admitted {
            Ok(()) => cover_size_refusal(name@, header_view(header)) is None,
            Err(error) => cover_size_refusal(name@, header_view(header)) == Some(error@),
        },
{
    match header {
        Err(cause) => Err(Error::because_of("failed to read cover ", name, cause.as_str())),
        Ok(header) => if header.size > THUMBNAIL_ENTRY_LIMIT {
            Err(Error::new("cover image exceeds the 512 MiB page limit"))
        } else {
            Ok(())
        },
    }
}

/// The contents of a cover, unless they cannot be read or are too long.
pub open spec fn cover_data(data: Result<Seq<u8>, Seq<char>>) -> Result<Seq<u8>, Seq<char>> {
    match data {
        Err(cause) => Err(cause),
        Ok(data) => if data.len() > THUMBNAIL_ENTRY_LIMIT {
            Err("cover image exceeds the 512 MiB page limit"@)
        } else {
            Ok(data)
        },
    }
}

/// Decides whether the contents of a cover are taken.
pub fn accept_cover(data: Result<Vec<u8>, String>) -> (accepted: Result<Vec<u8>, Error>)
    ensures
        data_result(accepted) == cover_data(bytes_result(data)),
{
    match data {
        Err(cause) => Err(Error { message: cause }),
        Ok(data) => if data.len() as u64 > THUMBNAIL_ENTRY_LIMIT {
            Err(Error::new("cover image exceeds the 512 MiB page limit"))
        } else {
            Ok(data)
        },
    }
}

/// Whether a text is the URL of a WebP of a picture.
pub open spec fn is_cover_url(small: RgbaImage, url: Seq<char>) -> bool {
    exists|webp: Seq<u8>| #[trigger]
        is_webp_of(small.pixels@, small.width, small.height, COVER_QUALITY, webp) && url == webp_url(
            webp,
        )
}

/// Makes the thumbnail of a cover out of the picture that was decoded and scaled down.
pub fn encode_cover(decoded: Result<(u32, u32, RgbaImage), String>) -> (thumbnail: Result<
    String,
    Error,
>)
    requires
        decoded matches Ok((_, _, small)) ==> small.well_formed() && 1 <= small.width
            <= LARGEST_EDGE && 1 <= small.height <= LARGEST_EDGE,
    ensures
        match decoded {
            Ok((_, _, small)) => thumbnail matches Ok(url) && is_cover_url(small, url@),
            Err(cause) => thumbnail matches Err(error) && error@ == caused(
                "failed to decode cover image"@,
                cause@,
            ),
        },
        thumbnail matches Ok(url) ==> (decoded matches Ok((_, _, small)) && exists|webp: Seq<u8>|
         #[trigger]
            is_webp_of(small.pixels@, small.width, small.height, 78, webp) && url@
                == "data:image/webp;base64,"@ + base64_text(webp)),
{
    match decoded {
        Err(cause) => Err(Error::because("failed to decode cover image", cause.as_str())),
        Ok((_, _, small)) => {
            let webp = encode_webp(&small, COVER_QUALITY);
            let url = webp_data_url(&webp);
            assert(is_webp_of(small.pixels@, small.width, small.height, COVER_QUALITY, webp@));
            Ok(url)
        },
    }
}

/// Whether a text is the URL of a WebP of a cover with these contents and this size, scaled to fit
/// into the box.
pub open spec fn is_cover_of(data: Seq<u8>, size: (u32, u32), url: Seq<char>) -> bool {
    exists|webp: Seq<u8>| #[trigger]
        is_small_webp(data, size, COVER_WIDTH, COVER_HEIGHT, COVER_QUALITY, webp) && url == webp_url(
            webp,
        )
}

/// What can become of the thumbnail of a cover with these contents: the URL of a WebP that fits into
/// the box, unless the cover cannot be decoded.
pub open spec fn is_cover_outcome(data: Seq<u8>, outcome: Result<Seq<char>, Seq<char>>) -> bool {
    match decoded_size(data) {
        Err(cause) => outcome == Err::<Seq<char>, Seq<char>>(
            caused("failed to decode cover image"@, cause),
        ),
        Ok(size) => outcome matches Ok(url) && is_cover_of(data, size, url),
    }
}

/// Makes the thumbnail of a cover.
fn draw_cover(data: &Vec<u8>) -> (thumbnail: Result<String, Error>)
    ensures
        is_cover_outcome(data@, message_result(thumbnail)),
{
    let decoded = load_small_picture(data.as_slice(), COVER_WIDTH, COVER_HEIGHT);
    let ghost drawn = decoded;
    let thumbnail = encode_cover(decoded);
    proof {
        if let Ok((full_width, full_height, small)) = drawn {
            let url = thumbnail->Ok_0@;
            let webp = choose|webp: Seq<u8>| #[trigger]
                is_webp_of(small.pixels@, small.width, small.height, COVER_QUALITY, webp) && url
                    == webp_url(webp);
            assert(is_small_picture(data@, COVER_WIDTH, COVER_HEIGHT, small.pixels@));
            assert(is_small_webp(
                data@,
                (full_width, full_height),
                COVER_WIDTH,
                COVER_HEIGHT,
                COVER_QUALITY,
                webp,
            ));
            assert(is_cover_of(data@, (full_width, full_height), url));
        }
    }
    thumbnail
}

/// The contents of the cover that stands at an index of an archive, or why they are not read.
pub open spec fn cover_contents(bytes: Seq<u8>, index: usize, name: Seq<char>) -> Result<
    Seq<u8>,
    Seq<char>,
> {
    match cover_size_refusal(name, zip_entry(bytes, index)) {
        Some(text) => Err(text),
        None => cover_data(zip_data(bytes, index, (THUMBNAIL_ENTRY_LIMIT + 1) as u64)),
    }
}

/// How many pages a chapter has, and the contents of its cover: the picture that comes first in
/// natural order.
pub open spec fn chapter_cover(style: PathStyle, path: Seq<char>, contents: ContentsView) -> Result<
    (nat, Seq<u8>),
    Seq<char>,
> {
    match contents {
        ContentsView::OpenFailed(cause) => Err(caused("failed to open archive "@ + path, cause)),
        ContentsView::ReadFailed(cause) => Err(caused("failed to read archive "@ + path, cause)),
        ContentsView::Bytes(bytes) => match zip_refusal(bytes) {
            Some(cause) => Err(caused("failed to read archive "@ + path, cause)),
            None => match image_entries(style, None, archive_headers(bytes)) {
                Err(text) => Err(text),
                Ok(entries) => if entries.len() == 0 {
                    Err("archive contains no supported images"@)
                } else {
                    let (index, name) = natural_order(entries)[0];
                    match cover_contents(bytes, index, name) {
                        Err(text) => Err(text),
                        Ok(data) => Ok((entries.len(), data)),
                    }
                },
            },
        },
    }
}

/// What can be found out of a chapter: how many pages it has, and a small picture of its cover.
pub open spec fn is_inspection(
    style: PathStyle,
    path: Seq<char>,
    contents: ContentsView,
    inspected: Result<(nat, Option<Seq<char>>), Seq<char>>,
) -> bool {
    match chapter_cover(style, path, contents) {
        Err(text) => inspected == Err::<(nat, Option<Seq<char>>), Seq<char>>(text),
        Ok((count, data)) => match inspected {
            Ok((pages, Some(url))) => pages == count && is_cover_outcome(
                data,
                Ok::<Seq<char>, Seq<char>>(url),
            ),
            Ok((_, None)) => false,
            Err(text) => is_cover_outcome(data, Err::<Seq<char>, Seq<char>>(text)),
        },
    }
}

/// Reads the cover at an index of an archive.
fn read_cover(
    archive: &mut zip::ZipArchive<std::io::Cursor<Vec<u8>>>,
    index: usize,
    name: &str,
) -> (data: Result<Vec<u8>, Error>)
    ensures
        data_result(data) == cover_contents(archive_source(*old(archive)), index, name@),
{
    match admit_cover(name, entry_header(archive, index)) {
        Err(error) => {
            return Err(error);
        },
        Ok(()) => {},
    }
    accept_cover(read_entry(archive, index, THUMBNAIL_ENTRY_LIMIT + 1))
}

/// Counts the pages of a chapter and makes a small picture of its cover.
pub fn inspect_chapter(style: PathStyle, path: &str, contents: FileContents) -> (inspected: Result<
    (usize, Option<String>),
    Error,
>)
    ensures
        is_inspection(style, path@, contents@, inspection_result(inspected)),
        inspected is Ok ==> (contents@ matches ContentsView::Bytes(bytes) && image_entries(
            style,
            None,
            archive_headers(bytes),
        ) matches Ok(entries) && is_natural_order(entries, natural_order(entries))),
{
    let mut archive = match open_file(path, contents) {
        Err(error) => {
            return Err(error);
        },
        Ok(archive) => archive,
    };
    let headers = read_headers(&mut archive);
    let mut images = match select_images(style, None, &headers) {
        Err(error) => {
            return Err(error);
        },
        Ok(images) => images,
    };
    sort_names(&mut images);
    if images.len() == 0 {
        return Err(Error::new("archive contains no supported images"));
    }
    assert(keyed(images@)[0] == (images@[0].0, images@[0].1@));
    let data = match read_cover(&mut archive, images[0].0, images[0].1.as_str()) {
        Err(error) => {
            return Err(error);
        },
        Ok(data) => data,
    };
    match draw_cover(&data) {
        Err(error) => Err(error),
        Ok(url) => Ok((images.len(), Some(url))),
    }
}

/// What is known of a chapter agrees with its import: a chapter that is imported with pages has as
/// many, and the first of them is its cover.
pub proof fn law_inspection_agrees_with_import(
    style: PathStyle,
    path: Seq<char>,
    contents: ContentsView,
    pages: Seq<PageView>,
    entries: Seq<(usize, Seq<char>)>,
)
    requires
        archive_pages(style, path, contents) == Ok::<Seq<PageView>, Seq<char>>(pages),
        pages.len() > 0,
        contents matches ContentsView::Bytes(bytes) && image_entries(
            style,
            Some(path),
            archive_headers(bytes),
        ) == Ok::<Seq<(usize, Seq<char>)>, Seq<char>>(entries),
        is_natural_order(entries, natural_order(entries)),
    ensures
        chapter_cover(style, path, contents) == Ok::<(nat, Seq<u8>), Seq<char>>(
            (pages.len(), pages[0].bytes),
        ),
{
    let bytes = contents->Bytes_0;
    let sorted = natural_order(entries);
    lemma_image_entries_of_any_path(style, Some(path), None, archive_headers(bytes));
    law_archive_pages_follow_entries(style, path, bytes, sorted, 0);
    sorted.to_multiset_ensures();
    entries.to_multiset_ensures();
    assert(pages.len() == entries.len());
    assert(entry_page(style, path, bytes, sorted[0], 0) is Ok);
}

/// Whether the name of an entry is that of the metadata of a comic, in any directory.
pub open spec fn is_comic_info(style: PathStyle, name: Seq<char>) -> bool {
    file_name_of(style, name) matches Some(file) && equal_ignoring_case(
        file,
        "ComicInfo.xml"@,
    )
}

/// Whether the name of an entry is that of the metadata of a comic.
pub fn names_comic_info(style: PathStyle, name: &str) -> (r: bool)
    ensures
        r == is_comic_info(style, name@),
{
    match file_name(style, name) {
        Some(file) => eq_ignore_case(&to_chars(file.as_str()), &to_chars("ComicInfo.xml")),
        None => false,
    }
}

/// The first entry that holds the metadata of a comic, if there is one, unless it is too long or
/// an entry before it cannot be looked at.
pub open spec fn comic_info_entry(
    style: PathStyle,
    headers: Seq<Result<HeaderView, Seq<char>>>,
    from: nat,
) -> Result<Option<nat>, Seq<char>>
    decreases headers.len() - from,
{
    if from >= headers.len() {
        Ok(None)
    } else {
        match headers[from as int] {
            Err(cause) => Err(cause),
            Ok(header) => if !header.is_file || !is_comic_info(style, header.name) {
                comic_info_entry(style, headers, from + 1)
            } else if header.size > COMIC_INFO_LIMIT {
                Err("ComicInfo.xml exceeds the 2 MiB metadata limit"@)
            } else {
                Ok(Some(from))
            },
        }
    }
}

/// Finds the entry that holds the metadata of a comic.
pub fn find_comic_info(style: PathStyle, headers: &Vec<Result<EntryHeader, String>>) -> (found:
    Result<Option<usize>, Error>)
    ensures
        match found {
            Ok(Some(index)) => comic_info_entry(style, header_views(headers@), 0) == Ok::<
                Option<nat>,
                Seq<char>,
            >(Some(index as nat)),
            Ok(None) => comic_info_entry(style, header_views(headers@), 0) == Ok::<
                Option<nat>,
                Seq<char>,
            >(None),
            Err(error) => comic_info_entry(style, header_views(headers@), 0) == Err::<
                Option<nat>,
                Seq<char>,
            >(error@),
        },
{
    let ghost views = header_views(headers@);
    let mut index: usize = 0;
    while index < headers.len()
        invariant
            index <= headers@.len(),
            views == header_views(headers@),
            comic_info_entry(style, views, index as nat) == comic_info_entry(style, views, 0),
        decreases headers@.len() - index,
    {
        assert(views[index as int] == header_view(headers@[index as int]));
        match &headers[index] {
            Err(cause) => {
                return Err(Error::new(cause.as_str()));
            },
            Ok(header) => {
                if header.is_file && names_comic_info(style, header.name.as_str()) {
                    if header.size > COMIC_INFO_LIMIT {
                        return Err(Error::new("ComicInfo.xml exceeds the 2 MiB metadata limit"));
                    }
                    return Ok(Some(index));
                }
            },
        }
        index = index + 1;
    }
    Ok(None)
}

/// The metadata of a comic, unless it cannot be read or is too long.
pub open spec fn comic_info_data(data: Result<Seq<u8>, Seq<char>>) -> Result<Seq<u8>, Seq<char>> {
    match data {
        Err(cause) => Err(cause),
        Ok(data) => if data.len() > COMIC_INFO_LIMIT {
            Err("ComicInfo.xml exceeds the 2 MiB metadata limit"@)
        } else {
            Ok(data)
        },
    }
}

/// Decides whether the metadata of a comic is taken.
pub fn accept_comic_info(data: Result<Vec<u8>, String>) -> (accepted: Result<Vec<u8>, Error>)
    ensures
        data_result(accepted) == comic_info_data(bytes_result(data)),
{
    match data {
        Err(cause) => Err(Error { message: cause }),
        Ok(data) => if data.len() as u64 > COMIC_INFO_LIMIT {
            Err(Error::new("ComicInfo.xml exceeds the 2 MiB metadata limit"))
        } else {
            Ok(data)
        },
    }
}

/// The metadata in an archive, if there is any.
pub open spec fn comic_info_of(style: PathStyle, bytes: Seq<u8>) -> Result<
    Option<Seq<u8>>,
    Seq<char>,
> {
    match comic_info_entry(style, archive_headers(bytes), 0) {
        Err(text) => Err(text),
        Ok(None) => Ok(None),
        Ok(Some(index)) => match comic_info_data(
            zip_data(bytes, index as usize, (COMIC_INFO_LIMIT + 1) as u64),
        ) {
            Err(text) => Err(text),
            Ok(data) => Ok(Some(data)),
        },
    }
}

/// The metadata of a chapter, if there is any.
pub open spec fn chapter_comic_info(
    style: PathStyle,
    path: Seq<char>,
    contents: ContentsView,
) -> Result<Option<Seq<u8>>, Seq<char>> {
    match contents {
        ContentsView::OpenFailed(cause) => Err(caused("failed to open archive "@ + path, cause)),
        ContentsView::ReadFailed(cause) => Err(caused("failed to read archive "@ + path, cause)),
        ContentsView::Bytes(bytes) => match zip_refusal(bytes) {
            Some(cause) => Err(caused("failed to read archive "@ + path, cause)),
            None => comic_info_of(style, bytes),
        },
    }
}

/// Reads the metadata of a chapter, if it has any.
pub fn read_comic_info(style: PathStyle, path: &str, contents: FileContents) -> (info: Result<
    Option<Vec<u8>>,
    Error,
>)
    ensures
        optional_data_result(info) == chapter_comic_info(style, path@, contents@),
{
    let mut archive = match open_file(path, contents) {
        Err(error) => {
            return Err(error);
        },
        Ok(archive) => archive,
    };
    let headers = read_headers(&mut archive);
    match find_comic_info(style, &headers) {
        Err(error) => Err(error),
        Ok(None) => Ok(None),
        Ok(Some(index)) => match accept_comic_info(
            read_entry(&mut archive, index, COMIC_INFO_LIMIT + 1),
        ) {
            Err(error) => Err(error),
            Ok(data) => Ok(Some(data)),
        },
    }
}

/// What a card shows of a chapter.
#[verifier::ext_equal]
pub struct CardView {
    pub path: Seq<char>,
    pub name: Seq<char>,
    pub size: u64,
    pub pages: nat,
    pub thumbnail: Option<Seq<char>>,
    pub error: Option<Seq<char>>,
}

impl View for BatchChapter {
    type V = CardView;

    open spec fn view(&self) -> CardView {
        CardView {
            path: self.path@,
            name: self.name@,
            size: self.size,
            pages: self.pages as nat,
            thumbnail: optional_string(self.thumbnail),
            error: optional_string(self.error),
        }
    }
}

/// The card of a chapter: what is known of it, or why it cannot be read.
pub open spec fn card_of(
    style: PathStyle,
    path: Seq<char>,
    size: Option<u64>,
    inspected: Result<(nat, Option<Seq<char>>), Seq<char>>,
) -> CardView {
    let size = match size {
        Some(size) => size,
        None => 0,
    };
    match inspected {
        Ok((pages, thumbnail)) => CardView {
            path,
            name: chapter_name_of(style, path),
            size,
            pages,
            thumbnail,
            error: None,
        },
        Err(text) => CardView {
            path,
            name: chapter_name_of(style, path),
            size,
            pages: 0,
            thumbnail: None,
            error: Some(text),
        },
    }
}

/// What is known of a chapter, in terms of sequences.
pub open spec fn inspection_result(result: Result<(usize, Option<String>), Error>) -> Result<
    (nat, Option<Seq<char>>),
    Seq<char>,
> {
    match result {
        Ok((pages, thumbnail)) => Ok((pages as nat, optional_string(thumbnail))),
        Err(error) => Err(error@),
    }
}

/// Makes the card of a chapter, given the size of its file, where that is known, and what was
/// found in it.
pub fn make_card(
    style: PathStyle,
    path: &str,
    size: Option<u64>,
    inspected: Result<(usize, Option<String>), Error>,
) -> (card: BatchChapter)
    ensures
        card@ == card_of(style, path@, size, inspection_result(inspected)),
{
    let size: u64 = match size {
        Some(size) => size,
        None => 0,
    };
    match inspected {
        Ok((pages, thumbnail)) => BatchChapter {
            path: path.to_owned(),
            name: chapter_name(style, path),
            size,
            pages,
            thumbnail,
            error: None,
        },
        Err(error) => BatchChapter {
            path: path.to_owned(),
            name: chapter_name(style, path),
            size,
            pages: 0,
            thumbnail: None,
            error: Some(error.message),
        },
    }
}

/// Looks into a chapter and makes its card.
pub fn chapter_card(style: PathStyle, path: &str, size: Option<u64>, contents: FileContents) -> (card:
    BatchChapter)
    ensures
        exists|inspected: Result<(nat, Option<Seq<char>>), Seq<char>>|
            is_inspection(style, path@, contents@, inspected) && card@ == #[trigger] card_of(
                style,
                path@,
                size,
                inspected,
            ),
{
    let inspected = inspect_chapter(style, path, contents);
    let ghost found = inspection_result(inspected);
    assert(is_inspection(style, path@, contents@, found));
    make_card(style, path, size, inspected)
}

/// The metadata that is carried over is never longer than the limit.
pub proof fn law_comic_info_is_small(style: PathStyle, bytes: Seq<u8>)
    ensures
        comic_info_of(style, bytes) matches Ok(Some(data)) ==> data.len() <= COMIC_INFO_LIMIT,
{
}

/// Makes an offer of a folder out of the cards of its chapters.
pub fn scan_batch_source(style: PathStyle, path: String, chapters: Vec<BatchChapter>) -> (source:
    BatchSource)
    ensures
        source.path@ == path@,
        source.default_output@ == translated_in(style, path@),
        source.chapters@ == chapters@,
{
    let default_output = join(style, path.as_str(), "Translated");
    BatchSource { path, default_output, chapters }
}

/// A chapter is named after the file that its path names, and has a name where there is none.
pub proof fn law_chapter_name(style: PathStyle, path: Seq<char>)
    ensures
        file_name_of(style, path) matches Some(name) ==> chapter_name_of(style, path) == name,
        file_name_of(style, path) is None ==> chapter_name_of(style, path) == "chapter.cbz"@,
{
}

/// The chapters of a directory are all its files with the extension of a comic book archive, each
/// once, in natural order of their paths; and a file is a chapter itself if it has that extension.
/// An input without chapters, or of another kind, is refused, and so is a directory that could not be
/// listed to its end.
pub proof fn law_discovered(
    style: PathStyle,
    input: Seq<char>,
    entries: Vec<Result<ListedEntry, String>>,
    found: Seq<(usize, Seq<char>)>,
    sorted: Seq<(usize, Seq<char>)>,
)
    requires
        listed_chapters(style, listed_views(entries@)) == Ok::<
            Seq<(usize, Seq<char>)>,
            Seq<char>,
        >(found),
        sorted.to_multiset() == found.to_multiset(),
        forall|i: int, j: int|
            0 <= i < j < sorted.len() ==> stands_before(#[trigger] sorted[i], #[trigger] sorted[j]),
    ensures
        found.len() > 0 ==> discovered(style, input, InputKind::Directory(Ok(entries))) == Ok::<
            Seq<(usize, Seq<char>)>,
            Seq<char>,
        >(sorted),
        found.len() == 0 ==> discovered(style, input, InputKind::Directory(Ok(entries))) == Err::<
            Seq<(usize, Seq<char>)>,
            Seq<char>,
        >("no CBZ chapters were found in "@ + input),
        names_extension(style, input, "cbz"@) ==> discovered(style, input, InputKind::File) == Ok::<
            Seq<(usize, Seq<char>)>,
            Seq<char>,
        >(seq![(0usize, input)]),
        !names_extension(style, input, "cbz"@) ==> discovered(style, input, InputKind::File)
            is Err,
        discovered(style, input, InputKind::Other) is Err,
{
    lemma_natural_order(found, sorted);
}

/// What is listed of a directory: its files with the extension of a comic book archive, each once,
/// with its number among the entries, in the order of the entries.
#[verifier::rlimit(60)]
pub proof fn law_listing(style: PathStyle, entries: Seq<Result<(Seq<char>, bool), Seq<char>>>)
    requires
        entries.len() <= usize::MAX,
    ensures
        listed_chapters(style, entries) is Ok <==> forall|i: int|
            0 <= i < entries.len() ==> (#[trigger] entries[i]) is Ok,
        listed_chapters(style, entries) matches Ok(found) ==> {
            &&& numbered_upwards(found)
            &&& forall|k: int|
                0 <= k < found.len() ==> (#[trigger] found[k]).0 < entries.len()
                    && entries[found[k].0 as int] == Ok::<(Seq<char>, bool), Seq<char>>(
                    (found[k].1, true),
                ) && names_extension(style, found[k].1, "cbz"@)
            &&& forall|i: int|
                0 <= i < entries.len() && (#[trigger] entries[i]) is Ok && entries[i]->Ok_0.1
                    && names_extension(style, entries[i]->Ok_0.0, "cbz"@) ==> found.contains(
                    (i as usize, entries[i]->Ok_0.0),
                )
        },
    decreases entries.len(),
{
    broadcast use lemma_seq_contains_after_push;

    if entries.len() > 0 {
        let before = entries.drop_last();
        let last = entries.len() - 1;
        law_listing(style, before);
        assert forall|i: int| 0 <= i < last implies #[trigger] entries[i] == before[i] by {}
        if listed_chapters(style, before) is Err {
            let i = choose|i: int| 0 <= i < before.len() && (#[trigger] before[i]) is Err;
            assert(entries[i] is Err);
        } else if let Ok(found) = listed_chapters(style, entries) {
            let earlier = listed_chapters(style, before)->Ok_0;
            assert forall|k: int| 0 <= k < found.len() implies (#[trigger] found[k]).0
                < entries.len() && entries[found[k].0 as int] == Ok::<
                (Seq<char>, bool),
                Seq<char>,
            >((found[k].1, true)) && names_extension(style, found[k].1, "cbz"@) by {
                if k < earlier.len() {
                    assert(found[k] == earlier[k]);
                }
            }
            assert forall|i: int, j: int| 0 <= i < j < found.len() implies (#[trigger] found[i]).0 < (
            #[trigger] found[j]).0 by {
                if j < earlier.len() {
                    assert(found[i] == earlier[i] && found[j] == earlier[j]);
                } else {
                    assert(found[i] == earlier[i]);
                }
            }
            assert forall|i: int|
                0 <= i < entries.len() && (#[trigger] entries[i]) is Ok && entries[i]->Ok_0.1
                    && names_extension(style, entries[i]->Ok_0.0, "cbz"@) implies found.contains(
                (i as usize, entries[i]->Ok_0.0),
            ) by {
                if i < last {
                    assert(before[i] == entries[i]);
                    assert(earlier.contains((i as usize, entries[i]->Ok_0.0)));
                }
            }
            assert forall|i: int| 0 <= i < entries.len() implies (#[trigger] entries[i]) is Ok by {
                if i < last {
                    assert(before[i] == entries[i]);
                }
            }
        }
    }
}

/// An output is refused if and only if it exists and is the source itself, or nobody can tell: nothing
/// replaces its own source, and an output that does not exist is never refused.
pub proof fn law_source_is_never_replaced(
    source: Seq<char>,
    exists_already: bool,
    same_file: Result<bool, Seq<char>>,
)
    ensures
        output_refusal(source, exists_already, same_file) is None <==> !exists_already || same_file
            == Ok::<bool, Seq<char>>(false),
        exists_already && same_file == Ok::<bool, Seq<char>>(true) ==> output_refusal(
            source,
            exists_already,
            same_file,
        ) == Some("refusing to replace source archive "@ + source),
        exists_already ==> (same_file matches Err(cause) ==> output_refusal(
            source,
            exists_already,
            same_file,
        ) == Some(cause)),
{
}

/// Without another choice the translations of a directory go into a directory `Translated` in it: the
/// path starts with all of that directory. Those of a chapter go beside it, into a directory of that
/// name in its parent.
pub proof fn law_default_output(style: PathStyle, input: Seq<char>)
    ensures
        default_output_of(style, input, true) == joined(style, input, "Translated"@),
        parent_of(style, input) matches Some(above) ==> default_output_of(style, input, false)
            == joined(style, above, "Translated"@),
        parent_of(style, input) is None ==> default_output_of(style, input, false) == joined(
            style,
            "."@,
            "Translated"@,
        ),
        translated_in(style, input) == joined(style, input, "Translated"@),
        style is Slashes && input.len() > 0 && input.last() != '/' ==> default_output_of(
            style,
            input,
            true,
        ) == input + "/Translated"@,
{
    reveal_strlit("Translated");
    reveal_strlit("/Translated");
    reveal_strlit("/");
    if style is Slashes && input.len() > 0 && input.last() != '/' {
        assert(default_output_of(style, input, true) =~= input + "/Translated"@);
    }
}

/// A cover is read if and only if the archive knows it and it claims at most 536870912 bytes; it is
/// taken if and only if it can be read and has at most as many.
pub proof fn law_cover_limits(
    name: Seq<char>,
    header: Result<HeaderView, Seq<char>>,
    data: Result<Seq<u8>, Seq<char>>,
)
    ensures
        cover_size_refusal(name, header) is None <==> (header matches Ok(header) && header.size
            <= 536870912),
        header matches Err(cause) ==> cover_size_refusal(name, header) == Some(
            "failed to read cover "@ + name + ": "@ + cause,
        ),
        match cover_data(data) {
            Ok(taken) => data == Ok::<Seq<u8>, Seq<char>>(taken) && taken.len() <= 536870912,
            Err(text) => data == Err::<Seq<u8>, Seq<char>>(text) || (data is Ok
                && data->Ok_0.len() > 536870912),
        },
{
}

/// What is shown of a chapter: as many pages as its archive has pictures, of which there is one, and a
/// small picture of the one that comes first in natural order, 360 by 480 pixels at most, as WebP of
/// quality 78.
#[verifier::rlimit(60)]
pub proof fn law_inspection(
    style: PathStyle,
    path: Seq<char>,
    bytes: Seq<u8>,
    found: Seq<(usize, Seq<char>)>,
    sorted: Seq<(usize, Seq<char>)>,
    inspected: Result<(nat, Option<Seq<char>>), Seq<char>>,
)
    requires
        zip_refusal(bytes) is None,
        image_entries(style, None, archive_headers(bytes)) == Ok::<
            Seq<(usize, Seq<char>)>,
            Seq<char>,
        >(found),
        sorted.to_multiset() == found.to_multiset(),
        forall|i: int, j: int|
            0 <= i < j < sorted.len() ==> stands_before(#[trigger] sorted[i], #[trigger] sorted[j]),
        is_inspection(style, path, ContentsView::Bytes(bytes), inspected),
    ensures
        inspected matches Ok((pages, url)) ==> {
            &&& pages == found.len() && pages > 0
            &&& url is Some
            &&& zip_entry(bytes, sorted[0].0) matches Ok(header) && header.size <= 536870912
            &&& zip_data(bytes, sorted[0].0, 536870913) matches Ok(data) && data.len() <= 536870912
                && decoded_size(data) is Ok && exists|webp: Seq<u8>| #[trigger]
                is_small_webp(data, decoded_size(data)->Ok_0, 360, 480, 78, webp) && url == Some(
                    "data:image/webp;base64,"@ + base64_text(webp),
                )
        },
        inspected is Err ==> {
            ||| found.len() == 0
            ||| !(zip_entry(bytes, sorted[0].0) matches Ok(header) && header.size <= 536870912)
            ||| !(zip_data(bytes, sorted[0].0, 536870913) matches Ok(data) && data.len()
                <= 536870912 && decoded_size(data) is Ok)
        },
{
    lemma_natural_order(found, sorted);
    found.to_multiset_ensures();
    sorted.to_multiset_ensures();
}

/// The metadata of an archive is that of its first file named `ComicInfo.xml`, in any directory and
/// any case of letters: all of its contents, at most 2097152 bytes. There is none if and only if all
/// entries can be looked at and no file has that name.
#[verifier::rlimit(60)]
pub proof fn law_comic_info(style: PathStyle, bytes: Seq<u8>)
    ensures
        match comic_info_of(style, bytes) {
            Ok(Some(data)) => exists|i: int| #[trigger]
                is_first_comic_info(style, bytes, i) && zip_data(bytes, i as usize, 2097153) == Ok::<
                    Seq<u8>,
                    Seq<char>,
                >(data) && data.len() <= 2097152,
            Ok(None) => forall|i: int|
                0 <= i < zip_len(bytes) ==> (#[trigger] zip_entry(bytes, i as usize)) is Ok && !(
                zip_entry(bytes, i as usize)->Ok_0.is_file && is_comic_info(
                    style,
                    zip_entry(bytes, i as usize)->Ok_0.name,
                )),
            Err(_) => {
                ||| exists|i: int|
                    0 <= i < zip_len(bytes) && (#[trigger] zip_entry(bytes, i as usize)) is Err
                ||| exists|i: int| #[trigger]
                    is_first_comic_info(style, bytes, i) && (zip_data(
                        bytes,
                        i as usize,
                        2097153,
                    ) is Err || zip_data(bytes, i as usize, 2097153)->Ok_0.len() > 2097152
                        || zip_entry(bytes, i as usize)->Ok_0.size > 2097152)
            },
        },
{
    lemma_comic_info_entry(style, archive_headers(bytes), 0);
    let headers = archive_headers(bytes);
    assert forall|i: int| 0 <= i < headers.len() implies #[trigger] headers[i] == zip_entry(
        bytes,
        i as usize,
    ) by {}
    match comic_info_entry(style, headers, 0) {
        Ok(Some(index)) => {
            assert(headers[index as int] == zip_entry(bytes, index as usize));
            assert(is_first_comic_info(style, bytes, index as int)) by {
                assert forall|j: int| 0 <= j < index implies (#[trigger] zip_entry(
                    bytes,
                    j as usize,
                )) is Ok && !(zip_entry(bytes, j as usize)->Ok_0.is_file && is_comic_info(
                    style,
                    zip_entry(bytes, j as usize)->Ok_0.name,
                )) by {
                    assert(headers[j] == zip_entry(bytes, j as usize));
                }
            }
        },
        Ok(None) => {
            assert forall|i: int| 0 <= i < zip_len(bytes) implies (#[trigger] zip_entry(
                bytes,
                i as usize,
            )) is Ok && !(zip_entry(bytes, i as usize)->Ok_0.is_file && is_comic_info(
                style,
                zip_entry(bytes, i as usize)->Ok_0.name,
            )) by {
                assert(headers[i] == zip_entry(bytes, i as usize));
            }
        },
        Err(text) => {
            let i = choose|i: int|
                0 <= i < headers.len() && is_comic_info_stop(style, #[trigger] headers[i]) && forall|
                    j: int,
                |
                    0 <= j < i ==> is_passed_over(style, #[trigger] headers[j]);
            assert(headers[i] == zip_entry(bytes, i as usize));
            if zip_entry(bytes, i as usize) is Ok {
                assert(is_first_comic_info(style, bytes, i)) by {
                    assert forall|j: int| 0 <= j < i implies (#[trigger] zip_entry(
                        bytes,
                        j as usize,
                    )) is Ok && !(zip_entry(bytes, j as usize)->Ok_0.is_file && is_comic_info(
                        style,
                        zip_entry(bytes, j as usize)->Ok_0.name,
                    )) by {
                        assert(headers[j] == zip_entry(bytes, j as usize));
                        assert(is_passed_over(style, headers[j]));
                    }
                }
            }
        },
    }
}

/// Whether the entry at a place is the first file of an archive that is named like the metadata, and
/// all before it can be looked at.
pub open spec fn is_first_comic_info(style: PathStyle, bytes: Seq<u8>, i: int) -> bool {
    &&& 0 <= i < zip_len(bytes)
    &&& zip_entry(bytes, i as usize) matches Ok(header) && header.is_file && is_comic_info(
        style,
        header.name,
    )
    &&& forall|j: int|
        0 <= j < i ==> (#[trigger] zip_entry(bytes, j as usize)) is Ok && !(zip_entry(
            bytes,
            j as usize,
        )->Ok_0.is_file && is_comic_info(style, zip_entry(bytes, j as usize)->Ok_0.name))
}

/// Whether an entry is passed over in the search for the metadata.
spec fn is_passed_over(style: PathStyle, header: Result<HeaderView, Seq<char>>) -> bool {
    header matches Ok(header) && !(header.is_file && is_comic_info(style, header.name))
}

/// Whether the search for the metadata fails at an entry.
spec fn is_comic_info_stop(style: PathStyle, header: Result<HeaderView, Seq<char>>) -> bool {
    match header {
        Err(_) => true,
        Ok(header) => header.is_file && is_comic_info(style, header.name) && header.size > 2097152,
    }
}

proof fn lemma_comic_info_entry(
    style: PathStyle,
    headers: Seq<Result<HeaderView, Seq<char>>>,
    from: nat,
)
    requires
        from <= headers.len(),
        forall|j: int| 0 <= j < from ==> is_passed_over(style, #[trigger] headers[j]),
    ensures
        match comic_info_entry(style, headers, from) {
            Ok(Some(index)) => index < headers.len() && (headers[index as int] matches Ok(header)
                && header.is_file && is_comic_info(style, header.name) && header.size <= 2097152)
                && forall|j: int| 0 <= j < index ==> is_passed_over(style, #[trigger] headers[j]),
            Ok(None) => forall|j: int|
                0 <= j < headers.len() ==> is_passed_over(style, #[trigger] headers[j]),
            Err(_) => exists|i: int|
                0 <= i < headers.len() && is_comic_info_stop(style, #[trigger] headers[i]) && forall|
                    j: int,
                |
                    0 <= j < i ==> is_passed_over(style, #[trigger] headers[j]),
        },
    decreases headers.len() - from,
{
    if from < headers.len() {
        if is_passed_over(style, headers[from as int]) {
            lemma_comic_info_entry(style, headers, from + 1);
        } else if is_comic_info_stop(style, headers[from as int]) {
        }
    }
}

/// The metadata of a comic is a file named `ComicInfo.xml` in small or capital letters, whatever its
/// directory.
pub proof fn law_comic_info_name(style: PathStyle, name: Seq<char>)
    ensures
        is_comic_info(style, name) <==> exists|file: Seq<char>|
            file_name_of(style, name) == Some(file) && #[trigger] equal_ignoring_case(
                file,
                "ComicInfo.xml"@,
            ),
{
}

/// The card of a chapter shows its path, its name and the size of its file, and either what was found
/// or why nothing was.
pub proof fn law_card(
    style: PathStyle,
    path: Seq<char>,
    size: Option<u64>,
    inspected: Result<(nat, Option<Seq<char>>), Seq<char>>,
)
    ensures
        ({
            let card = card_of(style, path, size, inspected);
            &&& card.path == path
            &&& card.name == chapter_name_of(style, path)
            &&& size matches Some(size) ==> card.size == size
            &&& size is None ==> card.size == 0
            &&& inspected matches Ok((pages, thumbnail)) ==> card.pages == pages && card.thumbnail
                == thumbnail && card.error is None
            &&& inspected matches Err(text) ==> card.pages == 0 && card.thumbnail is None
                && card.error == Some(text)
        }),
{
}

/// What is listed and what is chosen keeps its place, its path and its kind.
pub proof fn law_listed_views(
    entries: Seq<Result<ListedEntry, String>>,
    chapters: Seq<ChapterFile>,
    i: int,
)
    ensures
        listed_views(entries).len() == entries.len(),
        0 <= i < entries.len() ==> match entries[i] {
            Ok(entry) => listed_views(entries)[i] == Ok::<(Seq<char>, bool), Seq<char>>(
                (entry.path@, entry.is_file),
            ),
            Err(cause) => listed_views(entries)[i] == Err::<(Seq<char>, bool), Seq<char>>(cause@),
        },
        chapter_files(chapters).len() == chapters.len(),
        0 <= i < chapters.len() ==> chapter_files(chapters)[i] == (
            chapters[i].path@,
            chapters[i].is_file,
        ),
{
}

/// What a directory or an archive cannot be read for is told with its path.
pub proof fn law_unreadable_chapter(
    style: PathStyle,
    path: Seq<char>,
    cause: String,
    bytes: Seq<u8>,
)
    ensures
        discovered(style, path, InputKind::Directory(Err(cause))) == Err::<
            Seq<(usize, Seq<char>)>,
            Seq<char>,
        >("failed to read "@ + path + ": "@ + cause@),
        chapter_comic_info(style, path, ContentsView::OpenFailed(cause@)) == Err::<
            Option<Seq<u8>>,
            Seq<char>,
        >("failed to open archive "@ + path + ": "@ + cause@),
        chapter_comic_info(style, path, ContentsView::ReadFailed(cause@)) == Err::<
            Option<Seq<u8>>,
            Seq<char>,
        >("failed to read archive "@ + path + ": "@ + cause@),
        zip_refusal(bytes) is None ==> chapter_comic_info(style, path, ContentsView::Bytes(bytes))
            == comic_info_of(style, bytes),
        zip_refusal(bytes) matches Some(text) ==> chapter_comic_info(
            style,
            path,
            ContentsView::Bytes(bytes),
        ) == Err::<Option<Seq<u8>>, Seq<char>>("failed to read archive "@ + path + ": "@ + text),
        chapter_cover(style, path, ContentsView::OpenFailed(cause@)) == Err::<
            (nat, Seq<u8>),
            Seq<char>,
        >("failed to open archive "@ + path + ": "@ + cause@),
        chapter_cover(style, path, ContentsView::ReadFailed(cause@)) == Err::<
            (nat, Seq<u8>),
            Seq<char>,
        >("failed to read archive "@ + path + ": "@ + cause@),
        zip_refusal(bytes) matches Some(text) ==> chapter_cover(
            style,
            path,
            ContentsView::Bytes(bytes),
        ) == Err::<(nat, Seq<u8>), Seq<char>>("failed to read archive "@ + path + ": "@ + text),
{
}

/// A quality is one that the encoder knows if and only if it is between 1 and 100.
pub proof fn law_jpeg_quality(quality: u8)
    ensures
        is_jpeg_quality(quality) <==> 1 <= quality <= 100,
{
}

/// What comes back of an inspection is taken as it is, and a card shows its fields.
pub proof fn law_inspection_results(
    result: Result<(usize, Option<String>), Error>,
    card: BatchChapter,
)
    ensures
        match result {
            Ok((pages, thumbnail)) => inspection_result(result) == Ok::<
                (nat, Option<Seq<char>>),
                Seq<char>,
            >((pages as nat, optional_string(thumbnail))),
            Err(error) => inspection_result(result) == Err::<(nat, Option<Seq<char>>), Seq<char>>(
                error.message@,
            ),
        },
        card@.path == card.path@,
        card@.name == card.name@,
        card@.size == card.size,
        card@.pages == card.pages,
        card@.thumbnail == optional_string(card.thumbnail),
        card@.error == optional_string(card.error),
{
}

/// Metadata is taken if and only if it can be read and has at most 2097152 bytes, and then as it is.
pub proof fn law_metadata_limit(data: Result<Seq<u8>, Seq<char>>)
    ensures
        match comic_info_data(data) {
            Ok(taken) => data == Ok::<Seq<u8>, Seq<char>>(taken) && taken.len() <= 2097152,
            Err(text) => data == Err::<Seq<u8>, Seq<char>>(text) || (data is Ok
                && data->Ok_0.len() > 2097152 && text
                == "ComicInfo.xml exceeds the 2 MiB metadata limit"@),
        },
{
}

/// A chapter with an entry that cannot be looked at has no cover, and one without pictures has none.
pub proof fn law_chapter_without_cover(style: PathStyle, path: Seq<char>, bytes: Seq<u8>)
    requires
        zip_refusal(bytes) is None,
    ensures
        image_entries(style, None, archive_headers(bytes)) matches Err(text) ==> chapter_cover(
            style,
            path,
            ContentsView::Bytes(bytes),
        ) == Err::<(nat, Seq<u8>), Seq<char>>(text),
        image_entries(style, None, archive_headers(bytes)) == Ok::<
            Seq<(usize, Seq<char>)>,
            Seq<char>,
        >(Seq::empty()) ==> chapter_cover(style, path, ContentsView::Bytes(bytes)) == Err::<
            (nat, Seq<u8>),
            Seq<char>,
        >("archive contains no supported images"@),
{
}

/// Of several entries of a directory that cannot be read, the first is told of.
pub proof fn law_first_unreadable_listing(
    style: PathStyle,
    entries: Seq<Result<(Seq<char>, bool), Seq<char>>>,
    first: int,
)
    requires
        0 <= first < entries.len(),
        entries[first] is Err,
        forall|i: int| 0 <= i < first ==> (#[trigger] entries[i]) is Ok,
    ensures
        listed_chapters(style, entries) == Err::<Seq<(usize, Seq<char>)>, Seq<char>>(
            entries[first]->Err_0,
        ),
    decreases entries.len(),
{
    let before = entries.drop_last();
    if first < entries.len() - 1 {
        assert(before[first] == entries[first]);
        assert forall|i: int| 0 <= i < first implies (#[trigger] before[i]) is Ok by {
            assert(before[i] == entries[i]);
        }
        law_first_unreadable_listing(style, before, first);
    } else {
        lemma_readable_listing(style, before);
        assert(entries.last() == entries[first]);
    }
}

proof fn lemma_readable_listing(
    style: PathStyle,
    entries: Seq<Result<(Seq<char>, bool), Seq<char>>>,
)
    requires
        forall|i: int| 0 <= i < entries.len() ==> (#[trigger] entries[i]) is Ok,
    ensures
        listed_chapters(style, entries) is Ok,
    decreases entries.len(),
{
    if entries.len() > 0 {
        let before = entries.drop_last();
        assert forall|i: int| 0 <= i < before.len() implies (#[trigger] before[i]) is Ok by {
            assert(before[i] == entries[i]);
        }
        lemma_readable_listing(style, before);
        assert(entries[entries.len() - 1] is Ok);
    }
}

/// A directory whose listing broke off is refused for that reason, and inputs of other kinds say what
/// is wrong with them.
pub proof fn law_refused_input(
    style: PathStyle,
    input: Seq<char>,
    entries: Vec<Result<ListedEntry, String>>,
)
    ensures
        listed_chapters(style, listed_views(entries@)) matches Err(text) ==> discovered(
            style,
            input,
            InputKind::Directory(Ok(entries)),
        ) == Err::<Seq<(usize, Seq<char>)>, Seq<char>>(text),
        discovered(style, input, InputKind::Other) == Err::<Seq<(usize, Seq<char>)>, Seq<char>>(
            "input must be a CBZ file or directory"@,
        ),
        !names_extension(style, input, "cbz"@) ==> discovered(style, input, InputKind::File)
            == Err::<Seq<(usize, Seq<char>)>, Seq<char>>(
            "input file must use the .cbz extension"@,
        ),
{
}

/// Why a cover is not shown: what the archive says of it counts before its contents, and those before
/// what they cannot be decoded for.
pub proof fn law_refused_cover(
    style: PathStyle,
    path: Seq<char>,
    bytes: Seq<u8>,
    found: Seq<(usize, Seq<char>)>,
    sorted: Seq<(usize, Seq<char>)>,
    data: Seq<u8>,
    outcome: Result<Seq<char>, Seq<char>>,
)
    requires
        zip_refusal(bytes) is None,
        image_entries(style, None, archive_headers(bytes)) == Ok::<
            Seq<(usize, Seq<char>)>,
            Seq<char>,
        >(found),
        found.len() > 0,
        sorted.to_multiset() == found.to_multiset(),
        forall|i: int, j: int|
            0 <= i < j < sorted.len() ==> stands_before(#[trigger] sorted[i], #[trigger] sorted[j]),
    ensures
        match cover_size_refusal(sorted[0].1, zip_entry(bytes, sorted[0].0)) {
            Some(text) => chapter_cover(style, path, ContentsView::Bytes(bytes)) == Err::<
                (nat, Seq<u8>),
                Seq<char>,
            >(text),
            None => match cover_data(zip_data(bytes, sorted[0].0, 536870913)) {
                Err(text) => chapter_cover(style, path, ContentsView::Bytes(bytes)) == Err::<
                    (nat, Seq<u8>),
                    Seq<char>,
                >(text),
                Ok(data) => chapter_cover(style, path, ContentsView::Bytes(bytes)) == Ok::<
                    (nat, Seq<u8>),
                    Seq<char>,
                >((found.len(), data)),
            },
        },
        is_cover_outcome(data, outcome) ==> (decoded_size(data) matches Err(cause) ==> outcome
            == Err::<Seq<char>, Seq<char>>("failed to decode cover image"@ + ": "@ + cause)),
        is_cover_outcome(data, outcome) ==> (decoded_size(data) is Ok ==> outcome is Ok),
{
    lemma_natural_order(found, sorted);
}

/// A cover or metadata that is too long is told of as such.
pub proof fn law_too_long(name: Seq<char>, header: HeaderView, data: Seq<u8>)
    ensures
        header.size > 536870912 ==> cover_size_refusal(name, Ok::<HeaderView, Seq<char>>(header))
            == Some("cover image exceeds the 512 MiB page limit"@),
        data.len() > 536870912 ==> cover_data(Ok::<Seq<u8>, Seq<char>>(data)) == Err::<
            Seq<u8>,
            Seq<char>,
        >("cover image exceeds the 512 MiB page limit"@),
{
}

/// Why metadata is not read: what the first entry that cannot be looked at says, or what is wrong with
/// the first file that is named like it, whichever comes first.
pub proof fn law_refused_comic_info(style: PathStyle, bytes: Seq<u8>, i: int)
    requires
        0 <= i < zip_len(bytes),
        forall|j: int|
            0 <= j < i ==> (#[trigger] zip_entry(bytes, j as usize)) is Ok && !(zip_entry(
                bytes,
                j as usize,
            )->Ok_0.is_file && is_comic_info(style, zip_entry(bytes, j as usize)->Ok_0.name)),
    ensures
        match zip_entry(bytes, i as usize) {
            Err(cause) => comic_info_of(style, bytes) == Err::<Option<Seq<u8>>, Seq<char>>(cause),
            Ok(header) => header.is_file && is_comic_info(style, header.name) ==> if header.size
                > 2097152 {
                comic_info_of(style, bytes) == Err::<Option<Seq<u8>>, Seq<char>>(
                    "ComicInfo.xml exceeds the 2 MiB metadata limit"@,
                )
            } else {
                match zip_data(bytes, i as usize, 2097153) {
                    Err(cause) => comic_info_of(style, bytes) == Err::<
                        Option<Seq<u8>>,
                        Seq<char>,
                    >(cause),
                    Ok(data) => if data.len() > 2097152 {
                        comic_info_of(style, bytes) == Err::<Option<Seq<u8>>, Seq<char>>(
                            "ComicInfo.xml exceeds the 2 MiB metadata limit"@,
                        )
                    } else {
                        comic_info_of(style, bytes) == Ok::<Option<Seq<u8>>, Seq<char>>(Some(data))
                    },
                }
            },
        },
{
    lemma_search_goes_on(style, bytes, 0, i);
    assert(archive_headers(bytes)[i] == zip_entry(bytes, i as usize));
}

proof fn lemma_search_goes_on(style: PathStyle, bytes: Seq<u8>, from: int, i: int)
    requires
        0 <= from <= i < zip_len(bytes),
        forall|j: int|
            0 <= j < i ==> (#[trigger] zip_entry(bytes, j as usize)) is Ok && !(zip_entry(
                bytes,
                j as usize,
            )->Ok_0.is_file && is_comic_info(style, zip_entry(bytes, j as usize)->Ok_0.name)),
    ensures
        comic_info_entry(style, archive_headers(bytes), from as nat) == comic_info_entry(
            style,
            archive_headers(bytes),
            i as nat,
        ),
    decreases i - from,
{
    if from < i {
        assert(archive_headers(bytes)[from] == zip_entry(bytes, from as usize));
        lemma_search_goes_on(style, bytes, from + 1, i);
    }
}

} // verus!
