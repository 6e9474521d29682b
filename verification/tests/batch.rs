use koharu::batch::{
    has_failures, plan_batch, report_lines, validate_options, BatchFailure, BatchOptions,
    BatchReport, BatchRun, BatchState, ChapterEnd, ChapterStep,
};
use koharu::chapters::ChapterFile;
use koharu::error::Error;
use koharu::events::BatchEvent;
use koharu::paths::PathStyle;

fn files(paths: &[&str]) -> Vec<ChapterFile> {
    paths.iter().map(|path| ChapterFile { path: path.to_string(), is_file: true }).collect()
}

fn run(paths: &[&str], overwrite: bool) -> BatchRun {
    let mut run = BatchRun::new(PathStyle::Slashes, files(paths), "out".to_owned(), 95, overwrite).unwrap();
    let event = run.directory_created(Ok(())).unwrap();
    assert!(matches!(event, BatchEvent::Started { total_chapters } if total_chapters == paths.len()));
    run
}

fn options(output: Option<&str>) -> BatchOptions {
    BatchOptions {
        input: "Manga/1.cbz".to_owned(),
        output: output.map(|path| path.to_owned()),
        jpeg_quality: 92,
        overwrite: false,
        cpu: false,
    }
}

#[test]
fn plans_a_batch() {
    let (chapters, output) =
        plan_batch(PathStyle::Slashes, &options(None), true, false, Ok(files(&["Manga/1.cbz"]))).unwrap();
    assert_eq!((chapters.len(), output.as_str()), (1, "Manga/Translated"));
    let (_, output) =
        plan_batch(PathStyle::Slashes, &options(Some("there")), true, true, Ok(files(&["Manga/1.cbz"]))).unwrap();
    assert_eq!(output, "there");
    let (_, output) = plan_batch(PathStyle::Slashes, &options(None), true, true, Ok(files(&["a.cbz"]))).unwrap();
    assert_eq!(output, "Manga/1.cbz/Translated");
}

#[test]
fn refuses_batches_that_cannot_start() {
    let check = |exists, chapters| {
        validate_options(PathStyle::Slashes, &options(None), exists, &chapters).unwrap_err().message
    };
    assert_eq!(check(false, Ok(files(&["a.cbz"]))), "input path does not exist: Manga/1.cbz");
    assert_eq!(check(true, Err(Error::new("no listing"))), "no listing");
    assert_eq!(check(true, Ok(files(&["a.zip"]))), "batch input must be a CBZ file: a.zip");
    let error = plan_batch(PathStyle::Slashes, &options(None), true, true, Ok(Vec::new())).unwrap_err();
    assert_eq!(error.message, "select at least one chapter");
    let refused = BatchRun::new(PathStyle::Slashes, files(&["a.cbz"]), "out".to_owned(), 0, true);
    assert!(matches!(
        refused,
        Err(error) if error.message == "JPEG quality must be between 1 and 100"
    ));
}

#[test]
fn needs_a_directory_for_outputs() {
    let mut run = BatchRun::new(PathStyle::Slashes, files(&["a.cbz"]), "out".to_owned(), 95, false).unwrap();
    let error = run.directory_created(Err("denied".to_owned())).unwrap_err();
    assert_eq!(error.message, "failed to create output directory out: denied");
}

#[test]
fn translates_skips_and_reports() {
    let mut run = run(&["d/1.cbz", "d/2.cbz", "d/3.cbz"], false);

    let pending = run.next_chapter(false).unwrap();
    assert_eq!(pending.index, 0);
    assert_eq!((pending.chapter.as_str(), pending.output.as_str()), ("d/1.cbz", "out/1.cbz"));
    let Ok(ChapterStep::Translate { notice }) = run.output_checked(false, Ok(false)) else {
        panic!("the chapter is translated");
    };
    assert_eq!(notice, "[1/3] translating d/1.cbz");
    let ChapterEnd::Finished { event } = run.chapter_done(Ok(()), false) else {
        panic!("the chapter is finished");
    };
    assert!(matches!(
        event,
        BatchEvent::ChapterFinished { index: 0, output } if output == "out/1.cbz"
    ));

    run.next_chapter(false).unwrap();
    let Ok(ChapterStep::Skip { event, notice }) = run.output_checked(true, Ok(false)) else {
        panic!("the chapter is skipped");
    };
    assert_eq!(notice, "skip d/2.cbz: output already exists");
    assert!(matches!(
        event,
        BatchEvent::ChapterSkipped { index: 1, output } if output == "out/2.cbz"
    ));

    run.next_chapter(false).unwrap();
    run.output_checked(false, Ok(false)).unwrap();
    let ChapterEnd::Failed { event, notice } = run.chapter_done(Err(Error::new("bad")), false)
    else {
        panic!("the chapter failed");
    };
    assert_eq!(notice, "failed d/3.cbz: bad");
    assert!(matches!(
        event,
        BatchEvent::ChapterFailed { index: 2, name, error } if name == "3.cbz" && error == "bad"
    ));

    assert!(run.next_chapter(true).is_none());
    let (event, report) = run.finish();
    assert!(matches!(
        event,
        BatchEvent::Finished { completed: 1, skipped: 1, failed: 1, stopped: false }
    ));
    assert_eq!((report.completed, report.skipped, report.stopped), (1, 1, false));
    assert_eq!(report.failures.len(), 1);
    assert_eq!(report.failures[0].chapter, "d/3.cbz");
    assert_eq!(report.failures[0].error, "bad");
}

/// Runs a batch of chapters over outputs, where those with a `bad` in their names fail.
fn run_over(paths: &[&str], outputs: &mut Vec<String>, overwrite: bool) -> BatchReport {
    let mut run = run(paths, overwrite);
    while let Some(pending) = run.next_chapter(false) {
        let exists = outputs.contains(&pending.output);
        if let ChapterStep::Translate { .. } = run.output_checked(exists, Ok(false)).unwrap() {
            if pending.chapter.contains("bad") {
                run.chapter_done(Err(Error::new("bad")), false);
            } else {
                outputs.push(pending.output);
                run.chapter_done(Ok(()), false);
            }
        }
    }
    run.finish().1
}

#[test]
fn a_second_run_translates_only_what_failed() {
    let paths = ["d/1.cbz", "d/bad.cbz", "e/1.cbz", "d/2.cbz"];
    let mut outputs = vec!["out/2.cbz".to_owned()];
    let first = run_over(&paths, &mut outputs, false);
    assert_eq!((first.completed, first.skipped, first.failures.len()), (1, 2, 1));
    let known = outputs.clone();
    let second = run_over(&paths, &mut outputs, false);
    assert_eq!((second.completed, second.skipped, second.failures.len()), (0, 3, 1));
    assert_eq!(outputs, known);
    let third = run_over(&["d/1.cbz", "d/2.cbz"], &mut outputs, false);
    assert_eq!((third.completed, third.skipped), (0, 2));
    let replaced = run_over(&["d/1.cbz", "d/2.cbz"], &mut outputs, true);
    assert_eq!((replaced.completed, replaced.skipped), (2, 0));
}

#[test]
fn replaces_outputs_when_asked() {
    let mut run = run(&["d/1.cbz"], true);
    run.next_chapter(false).unwrap();
    assert!(matches!(
        run.output_checked(true, Ok(false)),
        Ok(ChapterStep::Translate { .. })
    ));
}

#[test]
fn stops_a_batch_before_it_replaces_a_source() {
    let mut run = run(&["out/1.cbz"], true);
    run.next_chapter(false).unwrap();
    let error = run.output_checked(true, Ok(true)).unwrap_err();
    assert_eq!(error.message, "refusing to replace source archive out/1.cbz");
}

#[test]
fn stops_between_chapters() {
    let mut run = run(&["1.cbz", "2.cbz"], false);
    run.next_chapter(false).unwrap();
    run.output_checked(false, Ok(false)).unwrap();
    run.chapter_done(Ok(()), true);
    assert!(run.next_chapter(true).is_none());
    let (_, report) = run.finish();
    assert_eq!((report.completed, report.stopped), (1, true));
}

#[test]
fn a_stopped_chapter_is_no_failure() {
    let mut run = run(&["1.cbz", "2.cbz"], false);
    run.next_chapter(false).unwrap();
    run.output_checked(false, Ok(false)).unwrap();
    assert!(matches!(run.chapter_done(Err(Error::new("stopped")), true), ChapterEnd::Stopped));
    let (event, report) = run.finish();
    assert!(matches!(
        event,
        BatchEvent::Finished { completed: 0, skipped: 0, failed: 0, stopped: true }
    ));
    assert!(report.stopped && report.failures.is_empty());
}

#[test]
fn runs_one_batch_at_a_time() {
    let mut state = BatchState::new();
    state.stop();
    assert_eq!(
        state.begin_chapters(0).unwrap_err().message,
        "select at least one chapter"
    );
    state.begin_chapters(1).unwrap();
    assert!(!state.stopped());
    assert_eq!(state.begin().unwrap_err().message, "a batch is already running");
    assert_eq!(state.begin_chapters(2).unwrap_err().message, "a batch is already running");
    state.stop();
    assert!(state.stopped());
    state.finish();
    assert!(!state.stopped());
    state.begin().unwrap();
    assert!(!state.stopped());
}

#[test]
fn summarises_a_batch() {
    let report = BatchReport::default();
    assert_eq!(report_lines(&report), ["batch finished: 0 completed, 0 skipped, 0 failed"]);
    assert!(!has_failures(&report));
    let report = BatchReport {
        completed: 12,
        skipped: 3,
        failures: vec![BatchFailure { chapter: "a.cbz".to_owned(), error: "bad: worse".to_owned() }],
        stopped: false,
    };
    assert_eq!(
        report_lines(&report),
        [
            "batch finished: 12 completed, 3 skipped, 1 failed",
            "  a.cbz: bad: worse"
        ]
    );
    assert!(has_failures(&report));
}

#[test]
fn outputs_follow_the_style_of_the_system() {
    let chapters = files(&["C:\\m\\a.cbz"]);
    let mut run =
        BatchRun::new(PathStyle::Windows, chapters, "D:\\out".to_owned(), 95, false).unwrap();
    run.directory_created(Ok(())).unwrap();
    let pending = run.next_chapter(false).unwrap();
    assert_eq!((pending.index, pending.output.as_str()), (0, "D:\\out\\a.cbz"));
}
