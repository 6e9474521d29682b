use koharu::events::BatchEvent;
use koharu::progress::{ChapterProgress, Progress};

fn sums(event: &BatchEvent) -> (usize, usize, usize, usize, usize, Option<&str>) {
    match event {
        BatchEvent::ChapterProgress {
            index,
            completed_pages,
            total_pages,
            completed_steps,
            total_steps,
            stage,
        } => (
            *index,
            *completed_pages,
            *total_pages,
            *completed_steps,
            *total_steps,
            stage.as_deref(),
        ),
        other => panic!("{other:?} is no progress"),
    }
}

fn finished(page: u64, stage: &str) -> Progress {
    Progress::Finished { page, stage: stage.to_owned() }
}

#[test]
fn counts_steps_and_pages() {
    let mut progress = ChapterProgress::new();
    let started = progress.record(4, Progress::Started { pages: 2, stages: 2 });
    assert_eq!(sums(&started), (4, 0, 2, 0, 4, None));
    let loading = progress.record(4, Progress::Loading { stage: "detect".to_owned() });
    assert_eq!(sums(&loading), (4, 0, 2, 0, 4, Some("detect")));
    let running = progress.record(4, Progress::Running { stage: "detect".to_owned() });
    assert_eq!(sums(&running), (4, 0, 2, 0, 4, Some("detect")));
    assert_eq!(sums(&progress.record(4, finished(7, "detect"))), (4, 0, 2, 1, 4, Some("detect")));
    assert_eq!(sums(&progress.record(4, finished(9, "detect"))), (4, 0, 2, 2, 4, Some("detect")));
    let skipped = progress.record(4, Progress::Skipped { page: 9, stage: "render".to_owned() });
    assert_eq!(sums(&skipped), (4, 1, 2, 3, 4, Some("render")));
    assert_eq!(sums(&progress.record(4, finished(7, "render"))), (4, 2, 2, 4, 4, Some("render")));
}

#[test]
fn a_complete_run_reaches_its_totals() {
    let mut progress = ChapterProgress::new();
    let (pages, stages) = (13, 5);
    let mut last = progress.record(0, Progress::Started { pages, stages });
    for stage in 0..stages {
        for page in 0..pages as u64 {
            last = progress.record(0, finished(page * 31 % 13, &stage.to_string()));
        }
    }
    assert_eq!(sums(&last), (0, 13, 13, 65, 65, Some("4")));
}

#[test]
fn a_page_is_counted_once() {
    let mut progress = ChapterProgress::new();
    progress.record(0, Progress::Started { pages: 1, stages: 1 });
    progress.record(0, finished(1, "a"));
    assert_eq!(sums(&progress.record(0, finished(1, "b"))), (0, 1, 1, 2, 1, Some("b")));
}

#[test]
fn totals_stay_in_range() {
    let mut progress = ChapterProgress::new();
    let event = progress.record(0, Progress::Started { pages: usize::MAX, stages: 2 });
    assert_eq!(sums(&event), (0, 0, usize::MAX, 0, usize::MAX, None));
}
