//! The progress of a chapter: how many steps of its pages are done, and how many pages.

use crate::events::{BatchEvent, EventView};
use std::collections::HashMap;
use vstd::prelude::*;

verus! {

broadcast use vstd::std_specs::hash::group_hash_axioms;

/// News of the pipeline that translates the pages of a chapter, with pages by their numbers.
#[derive(Debug)]
pub enum Progress {
    /// The pipeline knows how many pages it works on, and how many stages each goes through.
    Started { pages: usize, stages: usize },
    /// The models of a stage are being loaded.
    Loading { stage: String },
    /// A stage is working on a page.
    Running { stage: String },
    /// A stage is done with a page.
    Finished { page: u64, stage: String },
    /// A stage had nothing to do for a page.
    Skipped { page: u64, stage: String },
}

/// How far a chapter has come.
pub struct ChapterProgress {
    page_steps: HashMap<u64, usize>,
    completed_pages: usize,
    total_pages: usize,
    completed_steps: usize,
    total_steps: usize,
    stages_per_page: usize,
}

/// How far a chapter has come: the steps done for each page, and the sums.
#[verifier::ext_equal]
pub struct ProgressView {
    pub page_steps: Map<u64, usize>,
    pub completed_pages: usize,
    pub total_pages: usize,
    pub completed_steps: usize,
    pub total_steps: usize,
    pub stages_per_page: usize,
}

impl View for ChapterProgress {
    type V = ProgressView;

    closed spec fn view(&self) -> ProgressView {
        ProgressView {
            page_steps: self.page_steps@,
            completed_pages: self.completed_pages,
            total_pages: self.total_pages,
            completed_steps: self.completed_steps,
            total_steps: self.total_steps,
            stages_per_page: self.stages_per_page,
        }
    }
}

/// The next number, or the same where there is none.
pub open spec fn next_up(n: usize) -> usize {
    if n == usize::MAX {
        n
    } else {
        (n + 1) as usize
    }
}

/// A product, or the largest number where it is out of range.
pub open spec fn product(a: usize, b: usize) -> usize {
    if a * b > usize::MAX {
        usize::MAX
    } else {
        (a * b) as usize
    }
}

/// How many steps are done for a page.
pub open spec fn steps_of(progress: ProgressView, page: u64) -> usize {
    if progress.page_steps.contains_key(page) {
        progress.page_steps[page]
    } else {
        0
    }
}

/// Nothing is done, and nothing is known.
pub open spec fn no_progress() -> ProgressView {
    ProgressView {
        page_steps: Map::empty(),
        completed_pages: 0,
        total_pages: 0,
        completed_steps: 0,
        total_steps: 0,
        stages_per_page: 0,
    }
}

/// How far a chapter has come once the pipeline knows what there is to do.
pub open spec fn after_start(progress: ProgressView, pages: usize, stages: usize) -> ProgressView {
    ProgressView {
        total_pages: pages,
        stages_per_page: stages,
        total_steps: product(pages, stages),
        ..progress
    }
}

/// How far a chapter has come after a step of a page. The page is done with the step that is the
/// last of its stages.
pub open spec fn after_step(progress: ProgressView, page: u64) -> ProgressView {
    let steps = next_up(steps_of(progress, page));
    ProgressView {
        page_steps: progress.page_steps.insert(page, steps),
        completed_steps: next_up(progress.completed_steps),
        completed_pages: if steps == progress.stages_per_page {
            next_up(progress.completed_pages)
        } else {
            progress.completed_pages
        },
        ..progress
    }
}

/// How far a chapter has come after some news.
pub open spec fn after_news(progress: ProgressView, news: Progress) -> ProgressView {
    match news {
        Progress::Started { pages, stages } => after_start(progress, pages, stages),
        Progress::Loading { stage } => progress,
        Progress::Running { stage } => progress,
        Progress::Finished { page, stage } => after_step(progress, page),
        Progress::Skipped { page, stage } => after_step(progress, page),
    }
}

/// The stage that some news is of.
pub open spec fn stage_of(news: Progress) -> Option<Seq<char>> {
    match news {
        Progress::Started { pages, stages } => None,
        Progress::Loading { stage } => Some(stage@),
        Progress::Running { stage } => Some(stage@),
        Progress::Finished { page, stage } => Some(stage@),
        Progress::Skipped { page, stage } => Some(stage@),
    }
}

/// What is told of the progress of the chapter at a place of the batch.
pub open spec fn progress_event(
    index: usize,
    progress: ProgressView,
    stage: Option<Seq<char>>,
) -> EventView {
    EventView::ChapterProgress {
        index: index as nat,
        completed_pages: progress.completed_pages as nat,
        total_pages: progress.total_pages as nat,
        completed_steps: progress.completed_steps as nat,
        total_steps: progress.total_steps as nat,
        stage,
    }
}

impl ChapterProgress {
    /// The progress of a chapter of which nothing is known yet.
    pub fn new() -> (progress: ChapterProgress)
        ensures
            progress@ == no_progress(),
    {
        ChapterProgress {
            page_steps: HashMap::new(),
            completed_pages: 0,
            total_pages: 0,
            completed_steps: 0,
            total_steps: 0,
            stages_per_page: 0,
        }
    }

    /// Counts a step of a page.
    fn count_step(&mut self, page: u64)
        ensures
            final(self)@ == after_step(old(self)@, page),
    {
        let done: usize = match self.page_steps.get(&page) {
            Some(steps) => *steps,
            None => 0,
        };
        let steps: usize = done.saturating_add(1);
        self.page_steps.insert(page, steps);
        self.completed_steps = self.completed_steps.saturating_add(1);
        if steps == self.stages_per_page {
            self.completed_pages = self.completed_pages.saturating_add(1);
        }
    }

    /// Takes note of some news, and tells of it; `index` is the place of the chapter in the batch.
    pub fn record(&mut self, index: usize, news: Progress) -> (event: BatchEvent)
        ensures
            final(self)@ == after_news(old(self)@, news),
            event@ == progress_event(index, after_news(old(self)@, news), stage_of(news)),
            event@ == (EventView::ChapterProgress {
                index: index as nat,
                completed_pages: final(self)@.completed_pages as nat,
                total_pages: final(self)@.total_pages as nat,
                completed_steps: final(self)@.completed_steps as nat,
                total_steps: final(self)@.total_steps as nat,
                stage: match news {
                    Progress::Started { pages, stages } => None,
                    Progress::Loading { stage } => Some(stage@),
                    Progress::Running { stage } => Some(stage@),
                    Progress::Finished { page, stage } => Some(stage@),
                    Progress::Skipped { page, stage } => Some(stage@),
                },
            }),
    {
        let stage = match news {
            Progress::Started { pages, stages } => {
                self.total_pages = pages;
                self.stages_per_page = stages;
                self.total_steps = match pages.checked_mul(stages) {
                    Some(steps) => steps,
                    None => usize::MAX,
                };
                None
            },
            Progress::Loading { stage } => Some(stage),
            Progress::Running { stage } => Some(stage),
            Progress::Finished { page, stage } => {
                self.count_step(page);
                Some(stage)
            },
            Progress::Skipped { page, stage } => {
                self.count_step(page);
                Some(stage)
            },
        };
        BatchEvent::ChapterProgress {
            index,
            completed_pages: self.completed_pages,
            total_pages: self.total_pages,
            completed_steps: self.completed_steps,
            total_steps: self.total_steps,
            stage,
        }
    }
}

/// How far a chapter has come after some steps, each given by its page.
pub open spec fn after_steps(progress: ProgressView, steps: Seq<u64>) -> ProgressView
    decreases steps.len(),
{
    if steps.len() == 0 {
        progress
    } else {
        after_step(after_steps(progress, steps.drop_last()), steps.last())
    }
}

/// How many of the steps are of a page.
pub open spec fn step_count(steps: Seq<u64>, page: u64) -> nat
    decreases steps.len(),
{
    if steps.len() == 0 {
        0
    } else if steps.last() == page {
        step_count(steps.drop_last(), page) + 1
    } else {
        step_count(steps.drop_last(), page)
    }
}

/// The pages that have gone through all stages.
pub open spec fn done_pages(steps: Seq<u64>, stages: nat) -> Set<u64> {
    steps.to_set().filter(|page: u64| step_count(steps, page) >= stages)
}

proof fn lemma_step_count(steps: Seq<u64>, page: u64)
    ensures
        step_count(steps, page) <= steps.len(),
        step_count(steps, page) > 0 <==> steps.contains(page),
    decreases steps.len(),
{
    if steps.len() > 0 {
        let before = steps.drop_last();
        lemma_step_count(before, page);
        if steps.last() == page {
            assert(steps[steps.len() - 1] == page);
        }
        if before.contains(page) {
            let i = choose|i: int| 0 <= i < before.len() && before[i] == page;
            assert(steps[i] == page);
        }
        if steps.contains(page) && steps.last() != page {
            let i = choose|i: int| 0 <= i < steps.len() && steps[i] == page;
            assert(before[i] == page);
        }
    }
}

/// The progress counts: as many steps as were done, and as many pages as have gone through all
/// stages, whatever the order of the steps.
pub proof fn law_progress_counts(pages: usize, stages: usize, steps: Seq<u64>)
    requires
        stages > 0,
        steps.len() <= usize::MAX,
    ensures
        ({
            let progress = after_steps(after_start(no_progress(), pages, stages), steps);
            &&& progress.total_pages == pages
            &&& progress.stages_per_page == stages
            &&& progress.total_steps == product(pages, stages)
            &&& progress.completed_steps == steps.len()
            &&& progress.completed_pages == done_pages(steps, stages as nat).len()
            &&& forall|page: u64| #[trigger]
                steps_of(progress, page) == step_count(steps, page)
        }),
    decreases steps.len(),
{
    let progress = after_steps(after_start(no_progress(), pages, stages), steps);
    let done = done_pages(steps, stages as nat);
    if steps.len() == 0 {
        assert(done =~= Set::empty());
    } else {
        let before = steps.drop_last();
        let page = steps.last();
        let earlier = after_steps(after_start(no_progress(), pages, stages), before);
        let done_before = done_pages(before, stages as nat);
        law_progress_counts(pages, stages, before);
        lemma_step_count(before, page);
        assert(steps_of(earlier, page) == step_count(before, page));
        assert forall|p: u64| #[trigger] steps_of(progress, p) == step_count(steps, p) by {
            assert(steps_of(earlier, p) == step_count(before, p));
        }
        assert forall|p: u64| done.contains(p) <==> done_before.contains(p) || (p == page
            && step_count(steps, p) >= stages) by {
            lemma_step_count(steps, p);
            lemma_step_count(before, p);
        }
        assert(before.to_set().finite());
        assert(done_before.finite());
        if step_count(steps, page) == stages {
            assert(done =~= done_before.insert(page));
            assert(!done_before.contains(page));
        } else {
            assert(done =~= done_before);
        }
        lemma_done_is_bounded(before, stages as nat);
    }
}

proof fn lemma_done_is_bounded(steps: Seq<u64>, stages: nat)
    ensures
        done_pages(steps, stages).len() <= steps.len(),
{
    steps.lemma_cardinality_of_set();
    assert(steps.to_set().finite());
    vstd::set_lib::lemma_len_subset(done_pages(steps, stages), steps.to_set());
}

/// The steps that are not of a page.
spec fn without_page(steps: Seq<u64>, page: u64) -> Seq<u64>
    decreases steps.len(),
{
    if steps.len() == 0 {
        Seq::empty()
    } else if steps.last() == page {
        without_page(steps.drop_last(), page)
    } else {
        without_page(steps.drop_last(), page).push(steps.last())
    }
}

proof fn lemma_without_page(steps: Seq<u64>, page: u64, other: u64)
    ensures
        without_page(steps, page).len() + step_count(steps, page) == steps.len(),
        step_count(without_page(steps, page), other) == if other == page {
            0
        } else {
            step_count(steps, other)
        },
    decreases steps.len(),
{
    if steps.len() > 0 {
        lemma_without_page(steps.drop_last(), page, other);
        if steps.last() != page {
            let rest = without_page(steps, page);
            assert(rest.drop_last() =~= without_page(steps.drop_last(), page));
        }
    }
}

proof fn lemma_complete_steps(pages: Seq<u64>, stages: nat, steps: Seq<u64>)
    requires
        pages.no_duplicates(),
        forall|page: u64| #[trigger]
            step_count(steps, page) == if pages.contains(page) {
                stages
            } else {
                0
            },
    ensures
        steps.len() == pages.len() * stages,
    decreases pages.len(),
{
    if pages.len() == 0 {
        if steps.len() > 0 {
            lemma_step_count(steps, steps[0]);
            assert(steps.contains(steps[0]));
        }
        assert(0 * stages == 0) by (nonlinear_arith);
    } else {
        let page = pages.last();
        let others = pages.drop_last();
        let rest = without_page(steps, page);
        assert(pages[pages.len() - 1] == page);
        assert(pages.contains(page));
        assert forall|p: u64| #[trigger]
            step_count(rest, p) == if others.contains(p) {
                stages
            } else {
                0
            } by {
            lemma_without_page(steps, page, p);
            if others.contains(p) {
                let i = choose|i: int| 0 <= i < others.len() && others[i] == p;
                assert(pages[i] == p);
            }
            if pages.contains(p) && p != page {
                let i = choose|i: int| 0 <= i < pages.len() && pages[i] == p;
                assert(others[i] == p);
            }
        }
        lemma_complete_steps(others, stages, rest);
        lemma_without_page(steps, page, page);
        assert(pages.len() * stages == others.len() * stages + stages) by (nonlinear_arith)
            requires
                pages.len() == others.len() + 1,
        ;
    }
}

/// A run that takes every page through every stage once reaches its totals.
pub proof fn law_complete_run(pages: Seq<u64>, stages: usize, steps: Seq<u64>)
    requires
        stages > 0,
        pages.no_duplicates(),
        pages.len() * stages <= usize::MAX,
        forall|page: u64| #[trigger]
            step_count(steps, page) == if pages.contains(page) {
                stages as nat
            } else {
                0
            },
    ensures
        ({
            let progress = after_steps(
                after_start(no_progress(), pages.len() as usize, stages),
                steps,
            );
            &&& progress.completed_pages == progress.total_pages
            &&& progress.completed_steps == progress.total_steps
        }),
{
    lemma_complete_steps(pages, stages as nat, steps);
    assert(pages.len() <= pages.len() * stages) by (nonlinear_arith)
        requires
            stages > 0,
    ;
    law_progress_counts(pages.len() as usize, stages, steps);
    let done = done_pages(steps, stages as nat);
    assert forall|page: u64| done.contains(page) <==> pages.to_set().contains(page) by {
        lemma_step_count(steps, page);
        assert(step_count(steps, page) == if pages.contains(page) {
            stages as nat
        } else {
            0
        });
    }
    assert(done =~= pages.to_set());
    pages.unique_seq_to_set();
}

/// News that a stage had nothing to do for a page counts like news that it is done with it: one more
/// step of the chapter and of that page, and none of any other; and one more page if and only if that
/// was the last of its stages. Totals stay as they are.
pub proof fn law_step_of_a_page(
    progress: ProgressView,
    page: u64,
    other: u64,
    a: String,
    b: String,
)
    requires
        progress.completed_steps < usize::MAX,
        progress.completed_pages < usize::MAX,
        steps_of(progress, page) < usize::MAX,
    ensures
        after_news(progress, Progress::Skipped { page, stage: a }) == after_news(
            progress,
            Progress::Finished { page, stage: b },
        ),
        ({
            let after = after_news(progress, Progress::Skipped { page, stage: a });
            &&& after.completed_steps == progress.completed_steps + 1
            &&& after.page_steps.contains_key(page)
            &&& after.page_steps[page] == 1 + if progress.page_steps.contains_key(page) {
                progress.page_steps[page] as int
            } else {
                0
            }
            &&& other != page ==> (after.page_steps.contains_key(other)
                <==> progress.page_steps.contains_key(other)) && after.page_steps[other]
                == progress.page_steps[other]
            &&& after.completed_pages == progress.completed_pages + if after.page_steps[page]
                == progress.stages_per_page {
                1int
            } else {
                0int
            }
            &&& after.total_pages == progress.total_pages
            &&& after.total_steps == progress.total_steps
            &&& after.stages_per_page == progress.stages_per_page
        }),
{
}

/// News that a stage is loading or running changes no count, and news that the pipeline has started
/// changes the totals alone: as many pages as it says, and as many steps as pages times stages, or the
/// largest number where those are more.
pub proof fn law_other_news(progress: ProgressView, stage: String, pages: usize, stages: usize)
    ensures
        after_news(progress, Progress::Loading { stage }) == progress,
        after_news(progress, Progress::Running { stage }) == progress,
        ({
            let after = after_news(progress, Progress::Started { pages, stages });
            &&& after.total_pages == pages
            &&& after.stages_per_page == stages
            &&& pages * stages <= usize::MAX ==> after.total_steps == pages * stages
            &&& pages * stages > usize::MAX ==> after.total_steps == usize::MAX
            &&& after.completed_steps == progress.completed_steps
            &&& after.completed_pages == progress.completed_pages
            &&& after.page_steps == progress.page_steps
        }),
        no_progress().completed_steps == 0,
        no_progress().completed_pages == 0,
        no_progress().total_steps == 0,
        no_progress().total_pages == 0,
        forall|page: u64| !(#[trigger] no_progress().page_steps.contains_key(page)),
{
}

/// How far a chapter has come after some news, one after the other.
pub open spec fn after_all(progress: ProgressView, news: Seq<Progress>) -> ProgressView
    decreases news.len(),
{
    if news.len() == 0 {
        progress
    } else {
        after_news(after_all(progress, news.drop_last()), news.last())
    }
}

/// The pages that some news is of, one for each page that a stage is done with or had nothing to do
/// for.
pub open spec fn pages_of(news: Seq<Progress>) -> Seq<u64>
    decreases news.len(),
{
    if news.len() == 0 {
        Seq::empty()
    } else {
        match news.last() {
            Progress::Finished { page, stage } => pages_of(news.drop_last()).push(page),
            Progress::Skipped { page, stage } => pages_of(news.drop_last()).push(page),
            _ => pages_of(news.drop_last()),
        }
    }
}

proof fn lemma_news_are_steps(progress: ProgressView, news: Seq<Progress>)
    requires
        forall|i: int| 0 <= i < news.len() ==> !((#[trigger] news[i]) is Started),
    ensures
        after_all(progress, news) == after_steps(progress, pages_of(news)),
        pages_of(news).len() <= news.len(),
    decreases news.len(),
{
    if news.len() > 0 {
        let before = news.drop_last();
        assert forall|i: int| 0 <= i < before.len() implies !((#[trigger] before[i]) is Started) by {
            assert(before[i] == news[i]);
        }
        lemma_news_are_steps(progress, before);
        assert(!(news[news.len() - 1] is Started));
        let steps = pages_of(news);
        if steps.len() > pages_of(before).len() {
            assert(steps.drop_last() =~= pages_of(before));
        }
    }
}

/// Whatever news comes once the pipeline has started, in any order and any mix: the steps that are
/// done are as many as there was news of a page that a stage is done with or had nothing to do for;
/// and the pages that are done are those of which there was as much such news as there are stages.
pub proof fn law_news_counts(pages: usize, stages: usize, news: Seq<Progress>)
    requires
        stages > 0,
        news.len() <= usize::MAX,
        forall|i: int| 0 <= i < news.len() ==> !((#[trigger] news[i]) is Started),
    ensures
        ({
            let after = after_all(
                after_news(no_progress(), Progress::Started { pages, stages }),
                news,
            );
            &&& after.completed_steps == pages_of(news).len()
            &&& after.completed_pages == done_pages(pages_of(news), stages as nat).len()
            &&& after.total_pages == pages
            &&& after.total_steps == product(pages, stages)
        }),
{
    lemma_news_are_steps(after_start(no_progress(), pages, stages), news);
    law_progress_counts(pages, stages, pages_of(news));
}

/// A chapter whose pages have each gone through every stage, be it done or skipped, is through with
/// all its steps and all its pages.
pub proof fn law_complete_news(pages: Seq<u64>, stages: usize, news: Seq<Progress>)
    requires
        stages > 0,
        pages.no_duplicates(),
        pages.len() * stages <= usize::MAX,
        forall|i: int| 0 <= i < news.len() ==> !((#[trigger] news[i]) is Started),
        forall|page: u64| #[trigger]
            step_count(pages_of(news), page) == if pages.contains(page) {
                stages as nat
            } else {
                0
            },
    ensures
        ({
            let after = after_all(
                after_news(
                    no_progress(),
                    Progress::Started { pages: pages.len() as usize, stages },
                ),
                news,
            );
            &&& after.completed_pages == pages.len() && after.total_pages == pages.len()
            &&& after.completed_steps == pages.len() * stages && after.total_steps == pages.len()
                * stages
        }),
{
    lemma_news_are_steps(after_start(no_progress(), pages.len() as usize, stages), news);
    assert(pages.len() <= pages.len() * stages) by (nonlinear_arith)
        requires
            stages > 0,
    ;
    law_complete_run(pages, stages, pages_of(news));
    lemma_complete_steps(pages, stages as nat, pages_of(news));
    law_progress_counts(pages.len() as usize, stages, pages_of(news));
}

/// What is told of progress are its counts as they are, at the place of the chapter, with the stage
/// that the news is of; only the start of the pipeline is of no stage.
pub proof fn law_progress_event(
    index: usize,
    progress: ProgressView,
    stage: String,
    page: u64,
    pages: usize,
    stages: usize,
)
    ensures
        progress_event(index, progress, Some(stage@)) == (EventView::ChapterProgress {
            index: index as nat,
            completed_pages: progress.completed_pages as nat,
            total_pages: progress.total_pages as nat,
            completed_steps: progress.completed_steps as nat,
            total_steps: progress.total_steps as nat,
            stage: Some(stage@),
        }),
        progress_event(index, progress, None) == (EventView::ChapterProgress {
            index: index as nat,
            completed_pages: progress.completed_pages as nat,
            total_pages: progress.total_pages as nat,
            completed_steps: progress.completed_steps as nat,
            total_steps: progress.total_steps as nat,
            stage: None,
        }),
        stage_of(Progress::Started { pages, stages }) is None,
        stage_of(Progress::Loading { stage }) == Some(stage@),
        stage_of(Progress::Running { stage }) == Some(stage@),
        stage_of(Progress::Finished { page, stage }) == Some(stage@),
        stage_of(Progress::Skipped { page, stage }) == Some(stage@),
{
}

} // verus!
