use std::io::{Cursor, Read as _};

use koharu::cbz::{
    begin_cbz, check_quality, encode_cbz_page, encode_jpeg, publish_error, CbzWriter,
    PublishFailure, CBZ_JPEG_QUALITY,
};
use koharu::chapters::read_comic_info;
use koharu::error::Error;
use koharu::export::export_page_job;
use koharu::images::{composite_on_white, RgbaImage};
use koharu::import::{load_archive, FileContents};
use koharu::paths::PathStyle;

fn picture(width: u32, height: u32) -> RgbaImage {
    RgbaImage { width, height, pixels: vec![0; (4 * width * height) as usize] }
}

fn entry(name: &str, data: &[u8]) -> Result<(String, Vec<u8>), Error> {
    Ok((name.to_owned(), data.to_vec()))
}

#[test]
fn writes_compact_jpeg_images_into_cbz_entries() {
    let mut source = picture(2, 3);
    source.pixels[..4].copy_from_slice(&[255, 0, 0, 128]);
    let jpeg = encode_jpeg(source, CBZ_JPEG_QUALITY).unwrap();
    let writer = CbzWriter::new();
    let writer = writer.append_cbz_entry(entry("0001_Page 1.jpg", &jpeg));

    let cursor = Cursor::new(writer.finish(None).unwrap());
    let mut archive = zip::ZipArchive::new(cursor).unwrap();
    assert_eq!(archive.len(), 1);
    let mut entry = archive.by_index(0).unwrap();
    assert_eq!(entry.name(), "0001_Page 1.jpg");
    assert_eq!(entry.compression(), zip::CompressionMethod::Stored);
    let mut bytes = Vec::new();
    entry.read_to_end(&mut bytes).unwrap();
    let image = image::load_from_memory_with_format(&bytes, image::ImageFormat::Jpeg).unwrap();
    assert_eq!((image.width(), image.height()), (2, 3));
}

#[test]
fn composites_transparency_onto_white_before_jpeg_encoding() {
    let mut source = picture(1, 1);
    source.pixels = vec![0, 0, 0, 0];

    assert_eq!(composite_on_white(source).pixels, [255; 3]);
}

#[test]
fn composites_by_alpha() {
    let source = RgbaImage {
        width: 2,
        height: 2,
        pixels: vec![
            10, 20, 30, 255, // opaque
            0, 100, 255, 128, // half
            200, 0, 0, 1, // nearly gone
            1, 2, 3, 0, // gone
        ],
    };
    let flat = composite_on_white(source);
    assert_eq!((flat.width, flat.height), (2, 2));
    assert_eq!(flat.pixels, [10, 20, 30, 127, 177, 255, 255, 254, 254, 255, 255, 255]);
}

#[test]
fn encodes_a_transparent_picture_as_white() {
    let (name, bytes) = encode_cbz_page("0001_x", picture(8, 8), 95).unwrap();
    assert_eq!(name, "0001_x.jpg");
    let image = image::load_from_memory(&bytes).unwrap().to_rgb8();
    assert!(image.pixels().all(|pixel| pixel.0 == [255; 3]));
}

#[test]
fn refuses_qualities_out_of_range() {
    for quality in [0, 101, 255] {
        let message = "JPEG quality must be between 1 and 100";
        assert_eq!(check_quality(quality).unwrap_err().message, message);
        assert_eq!(encode_jpeg(picture(1, 1), quality).unwrap_err().message, message);
        assert_eq!(begin_cbz(PathStyle::Slashes, "out/x.cbz", quality).unwrap_err().message, message);
        assert_eq!(
            encode_cbz_page("x", picture(1, 1), quality).unwrap_err().message,
            message
        );
    }
    for quality in [1, 100] {
        assert!(check_quality(quality).is_ok());
        assert!(encode_jpeg(picture(1, 1), quality).is_ok());
    }
}

#[test]
fn refuses_pictures_that_jpeg_has_no_room_for() {
    assert!(encode_jpeg(picture(0, 4), 95).is_err());
    assert!(encode_jpeg(picture(65536, 1), 95).is_err());
    assert!(encode_jpeg(picture(65535, 1), 95).is_ok());
}

#[test]
fn prepares_an_archive_beside_its_place() {
    assert_eq!(begin_cbz(PathStyle::Slashes, "out/x.cbz", 95).unwrap(), "out");
    assert_eq!(begin_cbz(PathStyle::Slashes, "x.cbz", 95).unwrap(), "");
    assert_eq!(begin_cbz(PathStyle::Slashes, "/", 95).unwrap_err().message, "/ has no parent directory");
}

#[test]
fn tells_which_step_of_publishing_failed() {
    let error = |failure| publish_error("out/x.cbz", "out", failure).message;
    assert_eq!(error(PublishFailure::Directory("denied".to_owned())), "denied");
    assert_eq!(
        error(PublishFailure::Temporary("denied".to_owned())),
        "failed to create a temporary archive in out: denied"
    );
    assert_eq!(error(PublishFailure::Write("full".to_owned())), "full");
    assert_eq!(
        error(PublishFailure::Publish("denied".to_owned())),
        "failed to publish out/x.cbz: denied"
    );
}

#[test]
fn gives_back_what_was_written() {
    let mut writer = CbzWriter::new();
    for stem in ["0001_b", "0002_a"] {
        let page = encode_cbz_page(stem, picture(3, 2), 95);
        writer = writer.append_cbz_entry(page);
        assert!(writer.is_open());
    }
    let bytes = writer.finish(Some(b"<ComicInfo />".to_vec())).unwrap();

    let info = read_comic_info(PathStyle::Slashes, "x.cbz", FileContents::Bytes(bytes.clone())).unwrap();
    assert_eq!(info.unwrap(), b"<ComicInfo />");
    let pages = load_archive(PathStyle::Slashes, "x.cbz", FileContents::Bytes(bytes)).unwrap();
    let names: Vec<&str> = pages.iter().map(|page| page.name.as_str()).collect();
    assert_eq!(names, ["0001_b.jpg", "0002_a.jpg"]);
    assert!(pages.iter().all(|page| page.mime == "image/jpeg"));
    assert!(pages.iter().all(|page| (page.width, page.height) == (3, 2)));
}

#[test]
fn keeps_the_order_of_pages_through_export_and_import() {
    let labels = ["z.png", "10 a.png", "9.png", "a.png", "cover.jpg", "..."];
    let mut writer = CbzWriter::new();
    let mut expected = Vec::new();
    for (i, label) in labels.iter().cycle().take(12).enumerate() {
        let stem = export_page_job(0, label, Some(i)).stem;
        expected.push((format!("{stem}.jpg"), (i as u32 + 1, 2)));
        writer = writer.append_cbz_entry(encode_cbz_page(&stem, picture(i as u32 + 1, 2), 50));
    }
    let bytes = writer.finish(Some(b"<ComicInfo />".to_vec())).unwrap();
    for style in [PathStyle::Slashes, PathStyle::Windows] {
        let pages = load_archive(style, "x.cbz", FileContents::Bytes(bytes.clone())).unwrap();
        let found: Vec<(String, (u32, u32))> = pages
            .into_iter()
            .map(|page| {
                assert_eq!(page.mime, "image/jpeg");
                (page.name, (page.width, page.height))
            })
            .collect();
        assert_eq!(found, expected);
    }
}

#[test]
fn finds_no_metadata_where_none_was_written() {
    let writer = CbzWriter::new().append_cbz_entry(entry("0001_x.jpg", b"x"));
    let bytes = writer.finish(None).unwrap();
    assert!(read_comic_info(PathStyle::Slashes, "x.cbz", FileContents::Bytes(bytes)).unwrap().is_none());
}

#[test]
fn refuses_a_second_entry_of_the_same_name() {
    let writer = CbzWriter::new()
        .append_cbz_entry(entry("a.jpg", b"1"))
        .append_cbz_entry(entry("a.jpg", b"2"));
    assert!(!writer.is_open());
    let writer = writer.append_cbz_entry(Err(Error::new("too late")));
    let message = writer.finish(None).unwrap_err().message;
    assert!(message.contains("a.jpg"), "{message}");

    let writer = CbzWriter::new().append_cbz_entry(entry("ComicInfo.xml", b"1"));
    assert!(writer.finish(Some(b"2".to_vec())).is_err());
}

#[test]
fn reports_a_page_that_could_not_be_prepared() {
    let writer = CbzWriter::new()
        .append_cbz_entry(entry("a.jpg", b"1"))
        .append_cbz_entry(Err(Error::new("no frame")));
    assert!(!writer.is_open());
    let writer = writer.append_cbz_entry(entry("b.jpg", b"2"));
    assert_eq!(
        writer.finish(None).unwrap_err().message,
        "failed to prepare CBZ pages: no frame"
    );

    let writer = CbzWriter::new()
        .append_cbz_entry(entry("ComicInfo.xml", b"1"))
        .append_cbz_entry(Err(Error::new("no frame")));
    let message = writer.finish(Some(b"2".to_vec())).unwrap_err().message;
    assert!(message.contains("ComicInfo.xml"), "{message}");
}

#[test]
fn archives_of_many_pages_are_read_back() {
    for count in [65_534, 65_535, 65_536, 70_000] {
        let mut writer = CbzWriter::new();
        for i in 0..count {
            writer = writer.append_cbz_entry(entry(&format!("{i}.jpg"), &[i as u8]));
        }
        let bytes = writer.finish(None).unwrap();
        let mut archive = zip::ZipArchive::new(std::io::Cursor::new(bytes)).unwrap();
        assert_eq!(archive.len(), count);
        for i in [0, 1, count / 2, count - 1] {
            let mut found = archive.by_index(i).unwrap();
            assert_eq!(found.name(), format!("{i}.jpg"));
            assert_eq!(found.compression(), zip::CompressionMethod::Stored);
            let mut data = Vec::new();
            std::io::Read::read_to_end(&mut found, &mut data).unwrap();
            assert_eq!(data, [i as u8]);
        }
    }
}

#[test]
fn an_ambiguous_archive_is_not_read_back() {
    let first = vec![0; 0x0706_4b50 - 65_534 * 35];
    let mut writer = CbzWriter::new().append_cbz_entry(entry("00000", &first));
    for i in 1..65_534 {
        writer = writer.append_cbz_entry(entry(&format!("{i:05}"), b""));
    }
    let writer = writer.append_cbz_entry(entry("0123456789ab.jpg", b""));
    let bytes = writer.finish(None).unwrap();
    assert!(zip::ZipArchive::new(std::io::Cursor::new(bytes)).is_err());
}

#[test]
fn refuses_names_that_are_too_long() {
    let longest = "é".repeat(32_767);
    assert!(CbzWriter::new().append_cbz_entry(entry(&longest, b"1")).is_open());
    let writer = CbzWriter::new().append_cbz_entry(entry(&format!("{longest}xx"), b"1"));
    assert!(!writer.is_open());
    assert!(writer.finish(None).is_err());
}
