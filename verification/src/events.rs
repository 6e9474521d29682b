//! What a batch tells of itself while it runs.

use crate::views::optional_string;
use vstd::prelude::*;

verus! {

/// Something that happened in a batch. Chapters go by their place in it, counted from zero.
#[derive(Debug)]
pub enum BatchEvent {
    Started { total_chapters: usize },
    ChapterStarted { index: usize, total_chapters: usize, name: String, pages: usize },
    ChapterProgress {
        index: usize,
        completed_pages: usize,
        total_pages: usize,
        completed_steps: usize,
        total_steps: usize,
        /// The stage that the news is of, if it is of one.
        stage: Option<String>,
    },
    ChapterFinished { index: usize, output: String },
    ChapterSkipped { index: usize, output: String },
    ChapterFailed { index: usize, name: String, error: String },
    Finished { completed: usize, skipped: usize, failed: usize, stopped: bool },
}

/// Something that happened in a batch, in terms of sequences.
pub enum EventView {
    Started { total_chapters: nat },
    ChapterStarted { index: nat, total_chapters: nat, name: Seq<char>, pages: nat },
    ChapterProgress {
        index: nat,
        completed_pages: nat,
        total_pages: nat,
        completed_steps: nat,
        total_steps: nat,
        stage: Option<Seq<char>>,
    },
    ChapterFinished { index: nat, output: Seq<char> },
    ChapterSkipped { index: nat, output: Seq<char> },
    ChapterFailed { index: nat, name: Seq<char>, error: Seq<char> },
    Finished { completed: nat, skipped: nat, failed: nat, stopped: bool },
}

impl View for BatchEvent {
    type V = EventView;

    open spec fn view(&self) -> EventView {
        match self {
            BatchEvent::Started { total_chapters } => EventView::Started {
                total_chapters: *total_chapters as nat,
            },
            BatchEvent::ChapterStarted { index, total_chapters, name, pages } => {
                EventView::ChapterStarted {
                    index: *index as nat,
                    total_chapters: *total_chapters as nat,
                    name: name@,
                    pages: *pages as nat,
                }
            },
            BatchEvent::ChapterProgress {
                index,
                completed_pages,
                total_pages,
                completed_steps,
                total_steps,
                stage,
            } => EventView::ChapterProgress {
                index: *index as nat,
                completed_pages: *completed_pages as nat,
                total_pages: *total_pages as nat,
                completed_steps: *completed_steps as nat,
                total_steps: *total_steps as nat,
                stage: optional_string(*stage),
            },
            BatchEvent::ChapterFinished { index, output } => EventView::ChapterFinished {
                index: *index as nat,
                output: output@,
            },
            BatchEvent::ChapterSkipped { index, output } => EventView::ChapterSkipped {
                index: *index as nat,
                output: output@,
            },
            BatchEvent::ChapterFailed { index, name, error } => EventView::ChapterFailed {
                index: *index as nat,
                name: name@,
                error: error@,
            },
            BatchEvent::Finished { completed, skipped, failed, stopped } => EventView::Finished {
                completed: *completed as nat,
                skipped: *skipped as nat,
                failed: *failed as nat,
                stopped: *stopped,
            },
        }
    }
}

/// An event says what its fields say.
pub proof fn law_event_view(event: BatchEvent)
    ensures
        match event {
            BatchEvent::Started { total_chapters } => event@ matches EventView::Started {
                total_chapters: total,
            } && total == total_chapters,
            BatchEvent::ChapterStarted { index, total_chapters, name, pages } => event@
                == (EventView::ChapterStarted {
                index: index as nat,
                total_chapters: total_chapters as nat,
                name: name@,
                pages: pages as nat,
            }),
            BatchEvent::ChapterProgress {
                index,
                completed_pages,
                total_pages,
                completed_steps,
                total_steps,
                stage,
            } => event@ == (EventView::ChapterProgress {
                index: index as nat,
                completed_pages: completed_pages as nat,
                total_pages: total_pages as nat,
                completed_steps: completed_steps as nat,
                total_steps: total_steps as nat,
                stage: optional_string(stage),
            }),
            BatchEvent::ChapterFinished { index, output } => event@
                == (EventView::ChapterFinished { index: index as nat, output: output@ }),
            BatchEvent::ChapterSkipped { index, output } => event@ == (EventView::ChapterSkipped {
                index: index as nat,
                output: output@,
            }),
            BatchEvent::ChapterFailed { index, name, error } => event@
                == (EventView::ChapterFailed {
                index: index as nat,
                name: name@,
                error: error@,
            }),
            BatchEvent::Finished { completed, skipped, failed, stopped } => event@
                == (EventView::Finished {
                completed: completed as nat,
                skipped: skipped as nat,
                failed: failed as nat,
                stopped,
            }),
        },
{
}

} // verus!
