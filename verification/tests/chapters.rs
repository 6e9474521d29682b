use std::io::{Cursor, Write as _};

use image::{DynamicImage, ImageFormat, RgbaImage};
use koharu::archive::{Compression, EntryHeader};
use koharu::chapters::{
    accept_comic_info, accept_cover, admit_cover, chapter_card, chapter_name,
    default_output_directory, discover_chapters, encode_cover, ensure_distinct_paths,
    find_comic_info,
    inspect_chapter, make_card, names_comic_info, read_comic_info, scan_batch_source,
    validate_chapters, ChapterFile, InputKind, ListedEntry, COMIC_INFO_LIMIT,
    THUMBNAIL_ENTRY_LIMIT,
};
use koharu::error::Error;
use koharu::import::{load_archive, FileContents};
use koharu::paths::PathStyle;
use zip::{write::SimpleFileOptions, ZipWriter};

fn png(width: u32, height: u32) -> Vec<u8> {
    let mut bytes = Cursor::new(Vec::new());
    DynamicImage::ImageRgba8(RgbaImage::new(width, height))
        .write_to(&mut bytes, ImageFormat::Png)
        .unwrap();
    bytes.into_inner()
}

fn archive(entries: &[(&str, &[u8])]) -> Vec<u8> {
    let mut archive = ZipWriter::new(Cursor::new(Vec::new()));
    for (name, data) in entries {
        archive.start_file(*name, SimpleFileOptions::default()).unwrap();
        archive.write_all(data).unwrap();
    }
    archive.finish().unwrap().into_inner()
}

fn listed(path: &str, is_file: bool) -> Result<ListedEntry, String> {
    Ok(ListedEntry { path: path.to_owned(), is_file })
}

fn header(name: &str, is_file: bool, size: u64) -> Result<EntryHeader, String> {
    Ok(EntryHeader { name: name.to_owned(), is_file, size, compression: Compression::Stored })
}

#[test]
fn discovers_top_level_chapters_in_natural_order() {
    let listing = vec![
        listed("directory/Chapter 10.cbz", true),
        listed("directory/Chapter 2.cbz", true),
        listed("directory/notes.txt", true),
        listed("directory/nested", false),
    ];
    let names = discover_chapters(PathStyle::Slashes, "directory", InputKind::Directory(Ok(listing)))
        .unwrap()
        .into_iter()
        .map(|(_, path)| chapter_name(PathStyle::Slashes, &path))
        .collect::<Vec<_>>();

    assert_eq!(names, ["Chapter 2.cbz", "Chapter 10.cbz"]);
}

#[test]
fn scans_cover_thumbnail_and_page_count() {
    let page = png(4, 6);
    let bytes = archive(&[("002.png", &page), ("001.png", &page)]);

    let (pages, thumbnail) = inspect_chapter(PathStyle::Slashes, "chapter.cbz", FileContents::Bytes(bytes)).unwrap();
    assert_eq!(pages, 2);
    assert!(thumbnail.unwrap().starts_with("data:image/webp;base64,"));
}

#[test]
fn preserves_small_comic_info_metadata() {
    let bytes = archive(&[("metadata/ComicInfo.xml", b"<ComicInfo />")]);

    assert_eq!(
        read_comic_info(PathStyle::Slashes, "chapter.cbz", FileContents::Bytes(bytes)).unwrap().unwrap(),
        b"<ComicInfo />"
    );
}

#[test]
fn defaults_output_beside_a_single_chapter() {
    let input = "Manga/Chapter 1.cbz";
    assert_eq!(default_output_directory(PathStyle::Slashes, input, false), "Manga/Translated");
}

#[test]
fn defaults_output_inside_a_directory() {
    assert_eq!(default_output_directory(PathStyle::Slashes, "Manga Project", true), "Manga Project/Translated");
    assert_eq!(default_output_directory(PathStyle::Slashes, "Chapter 1.cbz", false), "Translated");
    assert_eq!(default_output_directory(PathStyle::Slashes, "/", false), "./Translated");
}

#[test]
fn refuses_inputs_without_chapters() {
    let message = |kind| discover_chapters(PathStyle::Slashes, "in", kind).unwrap_err().message;
    assert_eq!(message(InputKind::File), "input file must use the .cbz extension");
    assert_eq!(message(InputKind::Other), "input must be a CBZ file or directory");
    assert_eq!(
        message(InputKind::Directory(Err("denied".to_owned()))),
        "failed to read in: denied"
    );
    assert_eq!(
        message(InputKind::Directory(Ok(vec![listed("in/a.cbz", false)]))),
        "no CBZ chapters were found in in"
    );
    let listing = vec![listed("in/a.cbz", true), Err("broken".to_owned()), Err("late".to_owned())];
    assert_eq!(message(InputKind::Directory(Ok(listing))), "broken");
}

#[test]
fn takes_one_chapter_as_it_is() {
    let found = discover_chapters(PathStyle::Slashes, "in/A.CBZ", InputKind::File).unwrap();
    assert_eq!(found, [(0, "in/A.CBZ".to_owned())]);
}

#[test]
fn numbers_chapters_by_their_place_in_the_listing() {
    let listing = vec![listed("d/x", false), listed("d/b.cbz", true), listed("d/a.cbz", true)];
    let found = discover_chapters(PathStyle::Slashes, "d", InputKind::Directory(Ok(listing))).unwrap();
    assert_eq!(found, [(2, "d/a.cbz".to_owned()), (1, "d/b.cbz".to_owned())]);
}

#[test]
fn validates_chapters_and_quality() {
    let chapter = |path: &str, is_file| ChapterFile { path: path.to_owned(), is_file };
    let good = vec![chapter("a.cbz", true), chapter("b.CBZ", true)];
    assert!(validate_chapters(PathStyle::Slashes, &good, 1).is_ok());
    assert!(validate_chapters(PathStyle::Slashes, &good, 100).is_ok());
    let message = |chapters, quality| validate_chapters(PathStyle::Slashes, &chapters, quality).unwrap_err().message;
    assert_eq!(message(good, 0), "JPEG quality must be between 1 and 100");
    assert_eq!(message(Vec::new(), 101), "JPEG quality must be between 1 and 100");
    assert_eq!(message(Vec::new(), 95), "select at least one chapter");
    assert_eq!(
        message(vec![chapter("a.cbz", true), chapter("b.zip", true), chapter("c", true)], 95),
        "batch input must be a CBZ file: b.zip"
    );
    assert_eq!(
        message(vec![chapter("a.cbz", false)], 95),
        "batch input must be a CBZ file: a.cbz"
    );
}

#[test]
fn never_replaces_the_source() {
    assert!(ensure_distinct_paths("a.cbz", false, Ok(true)).is_ok());
    assert!(ensure_distinct_paths("a.cbz", true, Ok(false)).is_ok());
    assert_eq!(
        ensure_distinct_paths("a.cbz", true, Ok(true)).unwrap_err().message,
        "refusing to replace source archive a.cbz"
    );
    assert_eq!(
        ensure_distinct_paths("a.cbz", true, Err("gone".to_owned())).unwrap_err().message,
        "gone"
    );
}

#[test]
fn takes_the_first_picture_as_cover() {
    let (wide, tall) = (png(8, 2), png(2, 8));
    let bytes = archive(&[("p10.png", &wide), ("notes.txt", b"x"), ("p9.png", &tall)]);
    let expected = archive(&[("p9.png", &tall)]);
    let first = inspect_chapter(PathStyle::Slashes, "x", FileContents::Bytes(bytes)).unwrap();
    let alone = inspect_chapter(PathStyle::Slashes, "x", FileContents::Bytes(expected)).unwrap();
    assert_eq!((first.0, alone.0), (2, 1));
    assert_eq!(first.1, alone.1);
    let other = inspect_chapter(PathStyle::Slashes, "x", FileContents::Bytes(archive(&[("p.png", &wide)]))).unwrap();
    assert_ne!(first.1, other.1);
}

#[test]
fn fits_the_cover_into_its_box() {
    let bytes = archive(&[("p.png", &png(720, 100))]);
    let (_, thumbnail) = inspect_chapter(PathStyle::Slashes, "x", FileContents::Bytes(bytes)).unwrap();
    let url = thumbnail.unwrap();
    let text = url.strip_prefix("data:image/webp;base64,").unwrap();
    let engine = &base64::engine::general_purpose::STANDARD;
    let webp = base64::Engine::decode(engine, text).unwrap();
    let image = image::load_from_memory(&webp).unwrap();
    assert_eq!((image.width(), image.height()), (360, 50));
}

#[test]
fn tells_why_a_chapter_cannot_be_inspected() {
    let message = |contents| inspect_chapter(PathStyle::Slashes, "a.cbz", contents).unwrap_err().message;
    assert_eq!(
        message(FileContents::OpenFailed("denied".to_owned())),
        "failed to open archive a.cbz: denied"
    );
    assert_eq!(
        message(FileContents::ReadFailed("bad disk".to_owned())),
        "failed to read archive a.cbz: bad disk"
    );
    let text = message(FileContents::Bytes(b"no archive".to_vec()));
    assert!(text.starts_with("failed to read archive a.cbz: "), "{text}");
    assert_eq!(
        message(FileContents::Bytes(archive(&[("a.txt", b"x")]))),
        "archive contains no supported images"
    );
    let text = message(FileContents::Bytes(archive(&[("a.png", b"no picture")])));
    assert!(text.starts_with("failed to decode cover image: "), "{text}");
}

#[test]
fn encodes_covers_by_what_was_decoded() {
    let small = || koharu::images::RgbaImage { width: 2, height: 3, pixels: vec![9; 24] };
    let url = encode_cover(Ok((20, 30, small()))).unwrap();
    let text = url.strip_prefix("data:image/webp;base64,").unwrap();
    let engine = &base64::engine::general_purpose::STANDARD;
    let image = image::load_from_memory(&base64::Engine::decode(engine, text).unwrap()).unwrap();
    assert_eq!((image.width(), image.height()), (2, 3));
    assert_eq!(
        encode_cover(Err("odd".to_owned())).unwrap_err().message,
        "failed to decode cover image: odd"
    );
}

#[test]
fn limits_the_size_of_a_cover() {
    assert!(admit_cover("a", header("a", true, THUMBNAIL_ENTRY_LIMIT)).is_ok());
    assert_eq!(
        admit_cover("a", header("a", true, THUMBNAIL_ENTRY_LIMIT + 1)).unwrap_err().message,
        "cover image exceeds the 512 MiB page limit"
    );
    assert_eq!(
        admit_cover("a", Err("locked".to_owned())).unwrap_err().message,
        "failed to read cover a: locked"
    );
    assert_eq!(accept_cover(Ok(vec![1, 2])).unwrap(), [1, 2]);
    assert_eq!(accept_cover(Err("bad".to_owned())).unwrap_err().message, "bad");
}

#[test]
fn recognises_comic_info_by_name() {
    assert!(names_comic_info(PathStyle::Slashes, "ComicInfo.xml"));
    assert!(names_comic_info(PathStyle::Slashes, "a/b/comicinfo.XML"));
    assert!(names_comic_info(PathStyle::Slashes, "ComicInfo.xml/"));
    assert!(!names_comic_info(PathStyle::Slashes, "ComicInfo.xml.bak"));
    assert!(!names_comic_info(PathStyle::Slashes, "xComicInfo.xml"));
    assert!(!names_comic_info(PathStyle::Slashes, "metadata\\ComicInfo.xml"));
    assert!(names_comic_info(PathStyle::Windows, "metadata\\ComicInfo.xml"));
}

#[test]
fn finds_the_first_comic_info() {
    let headers = vec![
        header("a.png", true, 1),
        header("dir/ComicInfo.xml", false, 1),
        header("b/comicinfo.xml", true, COMIC_INFO_LIMIT),
        header("ComicInfo.xml", true, 1),
        Err("late".to_owned()),
    ];
    assert_eq!(find_comic_info(PathStyle::Slashes, &headers).unwrap(), Some(2));
    assert_eq!(find_comic_info(PathStyle::Slashes, &vec![header("a", true, 1)]).unwrap(), None);
    let large = vec![header("ComicInfo.xml", true, COMIC_INFO_LIMIT + 1)];
    assert_eq!(
        find_comic_info(PathStyle::Slashes, &large).unwrap_err().message,
        "ComicInfo.xml exceeds the 2 MiB metadata limit"
    );
    let broken = vec![Err("broken".to_owned()), header("ComicInfo.xml", true, 1)];
    assert_eq!(find_comic_info(PathStyle::Slashes, &broken).unwrap_err().message, "broken");
}

#[test]
fn limits_the_size_of_comic_info() {
    let largest = vec![7; COMIC_INFO_LIMIT as usize];
    assert_eq!(accept_comic_info(Ok(largest.clone())).unwrap(), largest);
    let message = "ComicInfo.xml exceeds the 2 MiB metadata limit";
    let larger = vec![7; COMIC_INFO_LIMIT as usize + 1];
    assert_eq!(accept_comic_info(Ok(larger.clone())).unwrap_err().message, message);
    assert_eq!(accept_comic_info(Err("bad".to_owned())).unwrap_err().message, "bad");

    let bytes = archive(&[("ComicInfo.xml", &largest)]);
    let info = read_comic_info(PathStyle::Slashes, "x", FileContents::Bytes(bytes)).unwrap();
    assert_eq!(info.unwrap(), largest);
    let bytes = archive(&[("ComicInfo.xml", &larger)]);
    let error = read_comic_info(PathStyle::Slashes, "x", FileContents::Bytes(bytes)).unwrap_err();
    assert_eq!(error.message, message);
}

#[test]
fn reads_no_comic_info_from_what_is_no_archive() {
    assert_eq!(
        read_comic_info(PathStyle::Slashes, "x", FileContents::OpenFailed("denied".to_owned())).unwrap_err().message,
        "failed to open archive x: denied"
    );
    let text = read_comic_info(PathStyle::Slashes, "x", FileContents::Bytes(Vec::new())).unwrap_err().message;
    assert!(text.starts_with("failed to read archive x: "), "{text}");
}

#[test]
fn makes_cards_of_chapters() {
    let card = make_card(PathStyle::Slashes, "d/a.cbz", Some(9), Ok((3, Some("url".to_owned()))));
    assert_eq!((card.path.as_str(), card.name.as_str()), ("d/a.cbz", "a.cbz"));
    assert_eq!((card.size, card.pages), (9, 3));
    assert_eq!(card.thumbnail.as_deref(), Some("url"));
    assert_eq!(card.error, None);

    let card = make_card(PathStyle::Slashes, "..", None, Err(Error::new("bad")));
    assert_eq!((card.name.as_str(), card.size, card.pages), ("chapter.cbz", 0, 0));
    assert_eq!(card.thumbnail, None);
    assert_eq!(card.error.as_deref(), Some("bad"));

    let bytes = archive(&[("1.png", &png(4, 6))]);
    let card = chapter_card(PathStyle::Slashes, "d/b.cbz", Some(5), FileContents::Bytes(bytes));
    assert_eq!((card.name.as_str(), card.pages), ("b.cbz", 1));
    assert!(card.thumbnail.is_some() && card.error.is_none());
}

#[test]
fn offers_a_folder_of_chapters() {
    let cards = vec![make_card(PathStyle::Slashes, "d/a.cbz", Some(1), Ok((1, None)))];
    let source = scan_batch_source(PathStyle::Slashes, "d".to_owned(), cards);
    assert_eq!((source.path.as_str(), source.default_output.as_str()), ("d", "d/Translated"));
    assert_eq!(source.chapters.len(), 1);
    assert_eq!(source.chapters[0].name, "a.cbz");
}

#[test]
fn reads_chapter_paths_in_the_style_of_the_system() {
    let style = PathStyle::Windows;
    assert_eq!(chapter_name(style, "C:a.cbz"), "a.cbz");
    assert_eq!(chapter_name(style, "C:\\"), "chapter.cbz");
    assert_eq!(chapter_name(PathStyle::Slashes, "C:a.cbz"), "C:a.cbz");
    assert_eq!(default_output_directory(style, "C:\\m\\1.cbz", false), "C:\\m\\Translated");
    assert_eq!(default_output_directory(style, "C:1.cbz", false), "C:Translated");
    assert_eq!(default_output_directory(style, "C:\\m", true), "C:\\m\\Translated");
    assert_eq!(default_output_directory(style, "\\\\s\\t", false), ".\\Translated");
    let listing = vec![listed("d\\10.CBZ", true), listed("d\\9.cbz", true)];
    let found = discover_chapters(style, "d", InputKind::Directory(Ok(listing))).unwrap();
    assert_eq!(found, [(1, "d\\9.cbz".to_owned()), (0, "d\\10.CBZ".to_owned())]);
}

#[test]
fn an_inspection_agrees_with_the_import() {
    let (a, b) = (png(3, 2), png(2, 3));
    let bytes = archive(&[("p10.png", &a), ("p9.png", &b), ("x.txt", b"x")]);
    let style = PathStyle::Slashes;
    let pages = load_archive(style, "x.cbz", FileContents::Bytes(bytes.clone())).unwrap();
    assert_eq!(pages[0].bytes, b);
    let (count, url) = inspect_chapter(style, "x.cbz", FileContents::Bytes(bytes)).unwrap();
    assert_eq!(count, pages.len());
    let cover = archive(&[("1.png", &pages[0].bytes)]);
    assert_eq!(inspect_chapter(style, "y.cbz", FileContents::Bytes(cover)).unwrap().1, url);
}
