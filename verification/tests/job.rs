use std::io::{Cursor, Write as _};

use image::{DynamicImage, ImageFormat, RgbaImage};
use koharu::events::BatchEvent;
use koharu::import::FileContents;
use koharu::job::ChapterJob;
use koharu::paths::PathStyle;
use koharu::progress::Progress;
use zip::{write::SimpleFileOptions, ZipWriter};

fn chapter() -> Vec<u8> {
    let mut png = Cursor::new(Vec::new());
    DynamicImage::ImageRgba8(RgbaImage::new(2, 2)).write_to(&mut png, ImageFormat::Png).unwrap();
    let mut archive = ZipWriter::new(Cursor::new(Vec::new()));
    for name in ["1.png", "2.png", "notes.txt"] {
        archive.start_file(name, SimpleFileOptions::default()).unwrap();
        archive.write_all(png.get_ref()).unwrap();
    }
    archive.finish().unwrap().into_inner()
}

#[test]
fn reads_a_chapter_and_follows_its_translation() {
    let contents = FileContents::Bytes(chapter());
    let (mut job, pages, event) = ChapterJob::start(3, 8, PathStyle::Slashes, "d/x.cbz", contents).unwrap();
    assert_eq!(pages.len(), 2);
    assert!(matches!(
        event,
        BatchEvent::ChapterStarted { index: 3, total_chapters: 8, name, pages: 2 } if name == "x.cbz"
    ));
    let event = job.record(Progress::Started { pages: 2, stages: 4 });
    assert!(matches!(
        event,
        BatchEvent::ChapterProgress { index: 3, total_pages: 2, total_steps: 8, stage: None, .. }
    ));
    assert!(job.translated(true).is_ok());
    assert_eq!(
        job.translated(false).unwrap_err().message,
        "translation stopped before all 2 pages completed"
    );
}

#[test]
fn tells_why_a_chapter_cannot_be_read() {
    let contents = FileContents::OpenFailed("gone".to_owned());
    assert!(matches!(
        ChapterJob::start(0, 1, PathStyle::Slashes, "x.cbz", contents),
        Err(error) if error.message == "failed to open archive x.cbz: gone"
    ));
}
