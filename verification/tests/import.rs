use std::io::{Cursor, Write as _};

use image::{DynamicImage, ImageFormat, RgbaImage};
use koharu::archive::{Compression, EntryHeader};
use koharu::error::Error;
use koharu::import::{
    accept_data, admit_entry, begin_import, collect_import_files, has_archive_extension,
    has_image_extension, identify_page, import_order, load_archive, load_file, load_image,
    load_image_file, load_pages, select_images, FileContents, ImportAction, ImportCandidate,
    ImportedPage, PageImportSource, MAX_ARCHIVE_ENTRY_BYTES, MAX_ARCHIVE_TOTAL_BYTES,
};
use koharu::paths::PathStyle;
use zip::{write::SimpleFileOptions, ZipWriter};

fn png(width: u32, height: u32) -> Vec<u8> {
    let mut bytes = Cursor::new(Vec::new());
    DynamicImage::ImageRgba8(RgbaImage::new(width, height))
        .write_to(&mut bytes, ImageFormat::Png)
        .unwrap();
    bytes.into_inner()
}

fn archive(entries: &[(&str, &[u8])]) -> Vec<u8> {
    let mut archive = ZipWriter::new(Cursor::new(Vec::new()));
    let options = SimpleFileOptions::default().compression_method(zip::CompressionMethod::Stored);
    for (name, data) in entries {
        archive.start_file(*name, options).unwrap();
        archive.write_all(data).unwrap();
    }
    archive.finish().unwrap().into_inner()
}

fn walked(path: &str, is_file: bool) -> ImportCandidate {
    ImportCandidate::Walked { path: path.to_owned(), is_file }
}

/// Imports a selection whose files have the given contents.
fn import(
    candidates: Vec<ImportCandidate>,
    contents: &[(&str, Vec<u8>)],
) -> Result<Vec<ImportedPage>, Error> {
    let mut loaded = Vec::new();
    for (_, path) in import_order(PathStyle::Slashes, candidates) {
        let (_, bytes) = contents.iter().find(|(name, _)| *name == path).unwrap();
        loaded.push(load_file(PathStyle::Slashes, &path, FileContents::Bytes(bytes.clone())));
    }
    load_pages(loaded)
}

fn message<T: std::fmt::Debug>(result: Result<T, Error>) -> String {
    result.unwrap_err().message
}

#[test]
fn imports_archive_images_in_natural_order() {
    let bytes = archive(&[
        ("chapter/page-10.png", &png(10, 1)),
        ("chapter/notes.txt", b"ignored"),
        ("chapter/page-2.png", &png(2, 1)),
    ]);

    let candidates = vec![ImportCandidate::Given("chapter.cbz".to_owned())];
    let pages = import(candidates, &[("chapter.cbz", bytes)]).unwrap();

    assert_eq!(pages.len(), 2);
    assert_eq!(pages[0].name, "page-2.png");
    assert_eq!((pages[0].width, pages[0].height), (2, 1));
    assert_eq!(pages[1].name, "page-10.png");
    assert_eq!((pages[1].width, pages[1].height), (10, 1));
}

#[test]
fn expands_dropped_folders_and_ignores_unsupported_files() {
    let candidates = vec![
        walked("directory", false),
        walked("directory/nested", false),
        walked("directory/nested/page.png", true),
        walked("directory/nested/notes.txt", true),
    ];
    let contents = [
        ("directory/nested/page.png", png(3, 4)),
        ("directory/nested/notes.txt", b"ignored".to_vec()),
    ];

    let pages = import(candidates, &contents).unwrap();

    assert_eq!(pages.len(), 1);
    assert_eq!(pages[0].name, "page.png");
    assert_eq!((pages[0].width, pages[0].height), (3, 4));
}

#[test]
fn knows_pictures_and_archives_by_extension() {
    for path in ["a.png", "a.JPG", "d/a.jpeg", "a.webp"] {
        assert!(has_image_extension(PathStyle::Slashes, path) && !has_archive_extension(PathStyle::Slashes, path), "{path}");
    }
    for path in ["a.zip", "a.CBZ"] {
        assert!(has_archive_extension(PathStyle::Slashes, path) && !has_image_extension(PathStyle::Slashes, path), "{path}");
    }
    for path in ["png", ".png", "a.gif", "a.cbr", ""] {
        assert!(!has_archive_extension(PathStyle::Slashes, path) && !has_image_extension(PathStyle::Slashes, path), "{path}");
    }
}

#[test]
fn picks_files_to_import() {
    let candidates = vec![
        ImportCandidate::Given("b/10.png".to_owned()),
        ImportCandidate::Unreadable,
        walked("b/folder.png", false),
        walked("b/9.png", true),
        ImportCandidate::Given("notes.txt".to_owned()),
        ImportCandidate::Given("a.cbz".to_owned()),
    ];
    let numbers: Vec<usize> = collect_import_files(PathStyle::Slashes, candidates).iter().map(|file| file.0).collect();
    assert_eq!(numbers, [0, 3, 5]);
    let candidates = vec![
        ImportCandidate::Given("b/10.png".to_owned()),
        walked("b/9.png", true),
        ImportCandidate::Given("a.cbz".to_owned()),
    ];
    let order: Vec<usize> = import_order(PathStyle::Slashes, candidates).iter().map(|file| file.0).collect();
    assert_eq!(order, [2, 1, 0]);
}

#[test]
fn reads_the_format_and_size_of_a_picture() {
    let bytes = png(5, 7);
    let page = load_image("p".to_owned(), bytes.clone(), "source").unwrap();
    assert_eq!((page.name.as_str(), page.mime.as_str()), ("p", "image/png"));
    assert_eq!((page.width, page.height), (5, 7));
    assert_eq!(page.bytes, bytes);

    let text = message(load_image("p".to_owned(), b"nothing".to_vec(), "source"));
    assert!(text.starts_with("failed to identify image format for source: "), "{text}");
    let text = message(load_image("p".to_owned(), bytes[..20].to_vec(), "source"));
    assert!(text.starts_with("failed to read image dimensions for source: "), "{text}");
}

#[test]
fn identifies_pages_by_what_was_found() {
    let page = identify_page("n".to_owned(), vec![1], "s", Ok("image/x".to_owned()), Ok((2, 3)));
    let page = page.unwrap();
    assert_eq!((page.name.as_str(), page.mime.as_str()), ("n", "image/x"));
    assert_eq!((page.bytes.as_slice(), page.width, page.height), (&[1][..], 2, 3));
    let mime = || Ok("image/x".to_owned());
    assert_eq!(
        message(identify_page("n".to_owned(), vec![], "s", Err("odd".to_owned()), Ok((1, 1)))),
        "failed to identify image format for s: odd"
    );
    assert_eq!(
        message(identify_page("n".to_owned(), vec![], "s", mime(), Err("cut".to_owned()))),
        "failed to read image dimensions for s: cut"
    );
}

#[test]
fn names_pages_after_their_files() {
    let page = load_image_file(PathStyle::Slashes, "d/x.png", FileContents::Bytes(png(1, 1))).unwrap();
    assert_eq!(page.name, "x.png");
    let page = load_image_file(PathStyle::Slashes, "..", FileContents::Bytes(png(1, 1))).unwrap();
    assert_eq!(page.name, "page");
    for contents in [
        FileContents::OpenFailed("gone".to_owned()),
        FileContents::ReadFailed("gone".to_owned()),
    ] {
        assert_eq!(message(load_image_file(PathStyle::Slashes, "d/x.png", contents)), "failed to read d/x.png: gone");
    }
}

#[test]
fn tells_why_an_archive_cannot_be_imported() {
    let load = |contents| message(load_archive(PathStyle::Slashes, "a.cbz", contents));
    assert_eq!(
        load(FileContents::OpenFailed("denied".to_owned())),
        "failed to open archive a.cbz: denied"
    );
    assert_eq!(
        load(FileContents::ReadFailed("bad".to_owned())),
        "failed to read archive a.cbz: bad"
    );
    let text = load(FileContents::Bytes(b"no archive".to_vec()));
    assert!(text.starts_with("failed to read archive a.cbz: "), "{text}");
    let text = load(FileContents::Bytes(archive(&[("p/x.png", b"nothing")])));
    assert!(
        text.starts_with("failed to identify image format for p/x.png in a.cbz: "),
        "{text}"
    );
}

#[test]
fn an_archive_without_pictures_has_no_pages() {
    let bytes = archive(&[("a.txt", b"x")]);
    assert_eq!(load_archive(PathStyle::Slashes, "a.cbz", FileContents::Bytes(bytes)).unwrap().len(), 0);
}

fn header(name: &str, is_file: bool, size: u64) -> Result<EntryHeader, String> {
    Ok(EntryHeader { name: name.to_owned(), is_file, size, compression: Compression::Stored })
}

#[test]
fn selects_the_pictures_of_an_archive() {
    let headers = vec![
        header("d.png/", false, 0),
        header("b.png", true, 1),
        header("x.txt", true, 1),
        header("d/a.WEBP", true, 1),
    ];
    let found = select_images(PathStyle::Slashes, None, &headers).unwrap();
    assert_eq!(found, [(1, "b.png".to_owned()), (3, "d/a.WEBP".to_owned())]);

    let headers = vec![header("b.png", true, 1), Err("odd".to_owned()), Err("late".to_owned())];
    assert_eq!(message(select_images(PathStyle::Slashes, None, &headers)), "odd");
    assert_eq!(
        message(select_images(PathStyle::Slashes, Some("a.zip"), &headers)),
        "failed to inspect entry 1 in a.zip: odd"
    );
}

#[test]
fn reads_entry_names_as_paths_of_the_system() {
    let bytes = archive(&[("chapter\\page-1.png", &png(1, 1))]);
    let name = |style| {
        let contents = FileContents::Bytes(bytes.clone());
        load_archive(style, "a.cbz", contents).unwrap()[0].name.clone()
    };
    assert_eq!(name(PathStyle::Slashes), "chapter\\page-1.png");
    assert_eq!(name(PathStyle::Windows), "page-1.png");

    // On Windows these are shares, and name no file.
    let bytes = archive(&[("//a/b.png", &png(1, 1)), ("\\\\a\\b.png", &png(1, 1))]);
    let count = |style| {
        load_archive(style, "a.cbz", FileContents::Bytes(bytes.clone())).unwrap().len()
    };
    assert_eq!((count(PathStyle::Slashes), count(PathStyle::Windows)), (2, 0));
}

#[test]
fn limits_what_an_archive_claims() {
    let claim = |size, total| admit_entry("a.zip", "x in a.zip", header("x", true, size), total);
    assert_eq!(claim(MAX_ARCHIVE_ENTRY_BYTES, 5).unwrap(), MAX_ARCHIVE_ENTRY_BYTES + 5);
    assert_eq!(
        message(claim(MAX_ARCHIVE_ENTRY_BYTES + 1, 0)),
        "x in a.zip exceeds the 512 MiB page limit"
    );
    assert_eq!(claim(10, MAX_ARCHIVE_TOTAL_BYTES - 10).unwrap(), MAX_ARCHIVE_TOTAL_BYTES);
    assert_eq!(
        message(claim(11, MAX_ARCHIVE_TOTAL_BYTES - 10)),
        "a.zip exceeds the 4 GiB import limit"
    );
    assert_eq!(
        message(admit_entry("a.zip", "x in a.zip", Err("odd".to_owned()), 0)),
        "failed to open x in a.zip: odd"
    );
    assert_eq!(accept_data("x in a.zip", Ok(vec![1, 2])).unwrap(), [1, 2]);
    assert_eq!(
        message(accept_data("x in a.zip", Err("odd".to_owned()))),
        "failed to extract x in a.zip: odd"
    );
}

#[test]
fn puts_the_pages_of_a_selection_together() {
    let page = |name: &str| load_image(name.to_owned(), png(1, 1), "s").unwrap();
    let pages = load_pages(vec![
        Ok(vec![page("a"), page("b")]),
        Ok(Vec::new()),
        Ok(vec![page("c")]),
    ])
    .unwrap();
    let names: Vec<&str> = pages.iter().map(|page| page.name.as_str()).collect();
    assert_eq!(names, ["a", "b", "c"]);

    let failed = vec![Ok(vec![page("a")]), Err(Error::new("one")), Err(Error::new("two"))];
    assert_eq!(message(load_pages(failed)), "one");
    for nothing in [Vec::new(), vec![Ok(Vec::new())]] {
        assert_eq!(
            message(load_pages(nothing)),
            "no supported images were found in the selection"
        );
    }
}

#[test]
fn starts_an_import_unless_pages_are_processed() {
    assert!(matches!(begin_import(PageImportSource::Files, false), Ok(ImportAction::PickFiles)));
    assert!(matches!(begin_import(PageImportSource::Folder, false), Ok(ImportAction::PickFolder)));
    let source = PageImportSource::Paths { paths: vec!["a".to_owned()] };
    let Ok(ImportAction::Load { paths }) = begin_import(source, false) else {
        panic!("the paths are loaded");
    };
    assert_eq!(paths, ["a"]);
    assert_eq!(
        message(begin_import(PageImportSource::Files, true)),
        "pages cannot be imported while processing is running"
    );
}
