//! The translation of one chapter of a batch.

use crate::chapters::{chapter_name, chapter_name_of};
use crate::error::Error;
use crate::events::{BatchEvent, EventView};
use crate::import::{archive_pages, load_archive, page_views, FileContents, ImportedPage, PageView};
use crate::paths::PathStyle;
use crate::progress::{
    after_news, no_progress, progress_event, stage_of, ChapterProgress, Progress, ProgressView,
};
use crate::text::{concat3, decimal, decimal_text};
use vstd::prelude::*;

verus! {

/// The translation of one chapter: its place in the batch, how many pages it has, and how far it
/// has come.
pub struct ChapterJob {
    index: usize,
    pages: usize,
    progress: ChapterProgress,
}

/// The translation of one chapter.
pub struct JobView {
    pub index: usize,
    pub pages: usize,
    pub progress: ProgressView,
}

impl View for ChapterJob {
    type V = JobView;

    closed spec fn view(&self) -> JobView {
        JobView { index: self.index, pages: self.pages, progress: self.progress@ }
    }
}

/// What is said of a translation that ended before its time.
pub open spec fn unfinished_text(pages: nat) -> Seq<char> {
    "translation stopped before all "@ + decimal_text(pages) + " pages completed"@
}

impl ChapterJob {
    /// Reads the pages of a chapter, and tells that its translation starts.
    pub fn start(
        index: usize,
        total_chapters: usize,
        style: PathStyle,
        path: &str,
        contents: FileContents,
    ) -> (started: Result<(ChapterJob, Vec<ImportedPage>, BatchEvent), Error>)
        ensures
            match started {
                Ok((job, pages, event)) => {
                    &&& archive_pages(style, path@, contents@) == Ok::<Seq<PageView>, Seq<char>>(
                        page_views(pages@),
                    )
                    &&& event@ == (EventView::ChapterStarted {
                        index: index as nat,
                        total_chapters: total_chapters as nat,
                        name: chapter_name_of(style, path@),
                        pages: pages@.len(),
                    })
                    &&& job@ == (JobView {
                        index,
                        pages: pages.len(),
                        progress: no_progress(),
                    })
                },
                Err(error) => archive_pages(style, path@, contents@) == Err::<Seq<PageView>, Seq<char>>(
                    error@,
                ),
            },
    {
        match load_archive(style, path, contents) {
            Err(error) => Err(error),
            Ok(pages) => {
                let count = pages.len();
                let event = BatchEvent::ChapterStarted {
                    index,
                    total_chapters,
                    name: chapter_name(style, path),
                    pages: count,
                };
                let job = ChapterJob { index, pages: count, progress: ChapterProgress::new() };
                Ok((job, pages, event))
            },
        }
    }

    /// Takes note of some news of the pipeline, and tells of it.
    pub fn record(&mut self, news: Progress) -> (event: BatchEvent)
        ensures
            final(self)@ == (JobView {
                progress: after_news(old(self)@.progress, news),
                ..old(self)@
            }),
            event@ == progress_event(
                old(self)@.index,
                after_news(old(self)@.progress, news),
                stage_of(news),
            ),
            event@ == (EventView::ChapterProgress {
                index: old(self)@.index as nat,
                completed_pages: final(self)@.progress.completed_pages as nat,
                total_pages: final(self)@.progress.total_pages as nat,
                completed_steps: final(self)@.progress.completed_steps as nat,
                total_steps: final(self)@.progress.total_steps as nat,
                stage: stage_of(news),
            }),
    {
        self.progress.record(self.index, news)
    }

    /// Decides whether the chapter is exported: only a translation that was completed is.
    pub fn translated(&self, completed: bool) -> (checked: Result<(), Error>)
        ensures
            match checked {
                Ok(()) => completed,
                Err(error) => !completed && error@ == unfinished_text(self@.pages as nat),
            },
    {
        if completed {
            Ok(())
        } else {
            Err(
                Error {
                    message: concat3(
                        "translation stopped before all ",
                        decimal(self.pages).as_str(),
                        " pages completed",
                    ),
                },
            )
        }
    }
}

/// A translation that ended before its time is told of with the number of its pages.
pub proof fn law_unfinished_text(pages: nat)
    ensures
        unfinished_text(pages) == "translation stopped before all "@ + decimal_text(pages)
            + " pages completed"@,
{
}

} // verus!
