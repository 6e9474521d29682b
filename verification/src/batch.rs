//! A batch: chapters that are translated one after the other, and what becomes of each.

use crate::chapters::{
    batch_refusal, chapter_files, chapter_name, chapter_name_of, chapter_refusal,
    default_output_directory, default_output_of, ensure_distinct_paths, law_batch_refusal,
    output_refusal, validate_chapters, ChapterFile,
};
use crate::error::{caused, Error};
use crate::events::{BatchEvent, EventView};
use crate::paths::{
    file_name, file_name_of, is_file_name, join, joined, keeps_prefix, law_join_keeps_file_name,
    law_joined, law_joined_on_windows, law_parent, lemma_file_name_is_plain, lemma_joined,
    names_extension, parent_of, PathStyle,
};
use crate::text::{concat3, concat4, decimal, decimal_text};
use crate::views::{plain_result, strings};
use vstd::prelude::*;

verus! {

/// What a batch is asked for.
#[derive(Debug)]
pub struct BatchOptions {
    /// An archive, or a directory of archives.
    pub input: String,
    /// Where the translated chapters go, unless to the default place.
    pub output: Option<String>,
    pub jpeg_quality: u8,
    /// Whether outputs that exist are replaced.
    pub overwrite: bool,
    /// Whether the models run on the CPU.
    pub cpu: bool,
}

/// A chapter that could not be translated.
#[derive(Debug)]
pub struct BatchFailure {
    pub chapter: String,
    pub error: String,
}

/// What became of a batch.
#[derive(Debug)]
pub struct BatchReport {
    pub completed: usize,
    pub skipped: usize,
    pub failures: Vec<BatchFailure>,
    /// Whether the batch was stopped before its end.
    pub stopped: bool,
}

/// What became of a batch, in terms of sequences.
#[verifier::ext_equal]
pub struct ReportView {
    pub completed: nat,
    pub skipped: nat,
    pub failures: Seq<(Seq<char>, Seq<char>)>,
    pub stopped: bool,
}

impl View for BatchReport {
    type V = ReportView;

    open spec fn view(&self) -> ReportView {
        ReportView {
            completed: self.completed as nat,
            skipped: self.skipped as nat,
            failures: failure_views(self.failures@),
            stopped: self.stopped,
        }
    }
}

/// Failures, each with the path of the chapter and the message.
pub open spec fn failure_views(failures: Seq<BatchFailure>) -> Seq<(Seq<char>, Seq<char>)> {
    failures.map_values(|failure: BatchFailure| (failure.chapter@, failure.error@))
}

impl Default for BatchReport {
    fn default() -> (report: BatchReport)
        ensures
            report@ == (ReportView {
                completed: 0,
                skipped: 0,
                failures: Seq::empty(),
                stopped: false,
            }),
    {
        let report = BatchReport { completed: 0, skipped: 0, failures: Vec::new(), stopped: false };
        assert(failure_views(report.failures@) =~= Seq::empty());
        report
    }
}

/// Why a batch with these options cannot start, if it cannot.
pub open spec fn options_refusal(
    style: PathStyle,
    options: BatchOptions,
    input_exists: bool,
    chapters: Result<Seq<(Seq<char>, bool)>, Seq<char>>,
) -> Option<Seq<char>> {
    if !input_exists {
        Some("input path does not exist: "@ + options.input@)
    } else {
        match chapters {
            Err(text) => Some(text),
            Ok(chapters) => batch_refusal(style, chapters, options.jpeg_quality),
        }
    }
}

/// Chapters that were found, or the message of the error, in terms of sequences.
pub open spec fn chapters_result(result: Result<Vec<ChapterFile>, Error>) -> Result<
    Seq<(Seq<char>, bool)>,
    Seq<char>,
> {
    match result {
        Ok(chapters) => Ok(chapter_files(chapters@)),
        Err(error) => Err(error@),
    }
}

/// Checks the options of a batch, given the chapters that were found.
pub fn validate_options(
    style: PathStyle,
    options: &BatchOptions,
    input_exists: bool,
    chapters: &Result<Vec<ChapterFile>, Error>,
) -> (valid: Result<(), Error>)
    ensures
        match valid {
            Ok(()) => options_refusal(
                style,
                *options,
                input_exists,
                chapters_result(*chapters),
            ) is None,
            Err(error) => options_refusal(
                style,
                *options,
                input_exists,
                chapters_result(*chapters),
            ) == Some(error@),
        },
{
    if !input_exists {
        return Err(Error::about("input path does not exist: ", options.input.as_str()));
    }
    match chapters {
        Err(error) => Err(error.clone()),
        Ok(chapters) => validate_chapters(style, chapters, options.jpeg_quality),
    }
}

/// Where the translated chapters go.
pub open spec fn output_directory_of(
    style: PathStyle,
    options: BatchOptions,
    is_dir: bool,
) -> Seq<char> {
    match options.output {
        Some(directory) => directory@,
        None => default_output_of(style, options.input@, is_dir),
    }
}

/// The chapters of a batch and where their translations go, once its options are checked.
pub fn plan_batch(
    style: PathStyle,
    options: &BatchOptions,
    input_exists: bool,
    is_dir: bool,
    chapters: Result<Vec<ChapterFile>, Error>,
) -> (plan: Result<(Vec<ChapterFile>, String), Error>)
    ensures
        match plan {
            Ok((found, directory)) => {
                &&& options_refusal(style, *options, input_exists, chapters_result(chapters)) is None
                &&& chapters == Ok::<Vec<ChapterFile>, Error>(found)
                &&& directory@ == output_directory_of(style, *options, is_dir)
            },
            Err(error) => options_refusal(
                style,
                *options,
                input_exists,
                chapters_result(chapters),
            ) == Some(error@),
        },
{
    match validate_options(style, options, input_exists, &chapters) {
        Err(error) => {
            return Err(error);
        },
        Ok(()) => {},
    }
    match chapters {
        Err(error) => Err(error),
        Ok(found) => {
            let directory = match &options.output {
                Some(directory) => directory.clone(),
                None => default_output_directory(style, options.input.as_str(), is_dir),
            };
            Ok((found, directory))
        },
    }
}

/// A batch can start if and only if its input exists, chapters were found, its quality is between 1
/// and 100, and each of its chapters, of which there is one, is a file with the extension of a comic
/// book archive. An input that does not exist counts before all else.
pub proof fn law_batch_starts(
    style: PathStyle,
    options: BatchOptions,
    input_exists: bool,
    found: Result<Seq<(Seq<char>, bool)>, Seq<char>>,
)
    ensures
        options_refusal(style, options, input_exists, found) is None <==> {
            &&& input_exists
            &&& 1 <= options.jpeg_quality <= 100
            &&& found matches Ok(chapters) && chapters.len() > 0 && forall|i: int|
                0 <= i < chapters.len() ==> (#[trigger] chapters[i]).1 && names_extension(
                    style,
                    chapters[i].0,
                    "cbz"@,
                )
        },
        !input_exists ==> options_refusal(style, options, input_exists, found) == Some(
            "input path does not exist: "@ + options.input@,
        ),
        input_exists ==> (found matches Err(text) ==> options_refusal(
            style,
            options,
            input_exists,
            found,
        ) == Some(text)),
{
    if let Ok(chapters) = found {
        law_batch_refusal(style, chapters, options.jpeg_quality, 0);
    }
}

/// The translated chapters go where they were asked to go; else into a directory `Translated`, which
/// stands in the input where that is a directory, and beside it where it is not.
pub proof fn law_output_directory(style: PathStyle, options: BatchOptions, is_dir: bool)
    ensures
        options.output matches Some(directory) ==> output_directory_of(style, options, is_dir)
            == directory@,
        options.output is None && is_dir ==> output_directory_of(style, options, is_dir) == joined(
            style,
            options.input@,
            "Translated"@,
        ),
        options.output is None && !is_dir ==> (parent_of(style, options.input@) matches Some(above)
            ==> output_directory_of(style, options, is_dir) == joined(style, above, "Translated"@)),
        options.output is None && !is_dir && parent_of(style, options.input@) is None
            ==> output_directory_of(style, options, is_dir) == joined(style, "."@, "Translated"@),
{
}

/// Whether a batch is running, and whether it was asked to stop.
#[derive(Debug)]
pub struct BatchState {
    running: Option<bool>,
}

impl View for BatchState {
    type V = Option<bool>;

    closed spec fn view(&self) -> Option<bool> {
        self.running
    }
}

impl BatchState {
    /// No batch is running.
    pub fn new() -> (state: BatchState)
        ensures
            state@ is None,
    {
        BatchState { running: None }
    }

    /// Starts a batch, unless one is running.
    pub fn begin(&mut self) -> (begun: Result<(), Error>)
        ensures
            match begun {
                Ok(()) => old(self)@ is None && final(self)@ == Some(false),
                Err(error) => old(self)@ is Some && final(self)@ == old(self)@ && error@
                    == "a batch is already running"@,
            },
    {
        if self.running.is_some() {
            return Err(Error::new("a batch is already running"));
        }
        self.running = Some(false);
        Ok(())
    }

    /// Starts a batch of so many chapters: there must be one, and no batch may be running.
    pub fn begin_chapters(&mut self, count: usize) -> (begun: Result<(), Error>)
        ensures
            match begun {
                Ok(()) => count > 0 && old(self)@ is None && final(self)@ == Some(false),
                Err(error) => final(self)@ == old(self)@ && if count == 0 {
                    error@ == "select at least one chapter"@
                } else {
                    old(self)@ is Some && error@ == "a batch is already running"@
                },
            },
    {
        if count == 0 {
            return Err(Error::new("select at least one chapter"));
        }
        self.begin()
    }

    /// Asks the batch that is running, if one is, to stop.
    pub fn stop(&mut self)
        ensures
            final(self)@ == match old(self)@ {
                Some(_) => Some(true),
                None => None,
            },
    {
        if self.running.is_some() {
            self.running = Some(true);
        }
    }

    /// Whether the batch that is running was asked to stop.
    pub fn stopped(&self) -> (stopped: bool)
        ensures
            stopped == (self@ == Some(true)),
    {
        match self.running {
            Some(stopped) => stopped,
            None => false,
        }
    }

    /// The batch is over.
    pub fn finish(&mut self)
        ensures
            final(self)@ is None,
    {
        self.running = None;
    }
}

/// What became of a chapter.
pub enum Outcome {
    Completed,
    Skipped,
    Failed(Seq<char>),
}

/// How many chapters were completed.
pub open spec fn count_completed(outcomes: Seq<Outcome>) -> nat
    decreases outcomes.len(),
{
    if outcomes.len() == 0 {
        0
    } else {
        count_completed(outcomes.drop_last()) + if outcomes.last() is Completed {
            1nat
        } else {
            0nat
        }
    }
}

/// How many chapters were skipped.
pub open spec fn count_skipped(outcomes: Seq<Outcome>) -> nat
    decreases outcomes.len(),
{
    if outcomes.len() == 0 {
        0
    } else {
        count_skipped(outcomes.drop_last()) + if outcomes.last() is Skipped {
            1nat
        } else {
            0nat
        }
    }
}

/// The chapters that failed, each with the message, in the order of the chapters.
pub open spec fn failures_of(chapters: Seq<Seq<char>>, outcomes: Seq<Outcome>) -> Seq<
    (Seq<char>, Seq<char>),
>
    decreases outcomes.len(),
{
    if outcomes.len() == 0 {
        Seq::empty()
    } else {
        let earlier = failures_of(chapters, outcomes.drop_last());
        match outcomes.last() {
            Outcome::Failed(text) => earlier.push((chapters[outcomes.len() - 1], text)),
            _ => earlier,
        }
    }
}

/// The report on chapters with these outcomes.
pub open spec fn report_of(
    chapters: Seq<Seq<char>>,
    outcomes: Seq<Outcome>,
    stopped: bool,
) -> ReportView {
    ReportView {
        completed: count_completed(outcomes),
        skipped: count_skipped(outcomes),
        failures: failures_of(chapters, outcomes),
        stopped,
    }
}

/// A report accounts for every chapter that the batch came to: each is completed, skipped or
/// failed, and only one of them.
pub proof fn law_report_accounts_for_chapters(
    chapters: Seq<Seq<char>>,
    outcomes: Seq<Outcome>,
    stopped: bool,
)
    ensures
        ({
            let report = report_of(chapters, outcomes, stopped);
            report.completed + report.skipped + report.failures.len() == outcomes.len()
        }),
    decreases outcomes.len(),
{
    if outcomes.len() > 0 {
        law_report_accounts_for_chapters(chapters, outcomes.drop_last(), stopped);
    }
}

/// Another chapter changes a report by what became of it, and by nothing else: a completed or a
/// skipped one is counted once more, and a failed one stands at the end of the failures with its
/// message.
pub proof fn law_report_grows(
    chapters: Seq<Seq<char>>,
    outcomes: Seq<Outcome>,
    outcome: Outcome,
    stopped: bool,
)
    ensures
        ({
            let before = report_of(chapters, outcomes, stopped);
            let after = report_of(chapters, outcomes.push(outcome), stopped);
            &&& after.stopped == stopped && before.stopped == stopped
            &&& match outcome {
                Outcome::Completed => after.completed == before.completed + 1 && after.skipped
                    == before.skipped && after.failures == before.failures,
                Outcome::Skipped => after.completed == before.completed && after.skipped
                    == before.skipped + 1 && after.failures == before.failures,
                Outcome::Failed(text) => after.completed == before.completed && after.skipped
                    == before.skipped && after.failures == before.failures.push(
                    (chapters[outcomes.len() as int], text),
                ),
            }
        }),
        report_of(chapters, Seq::empty(), stopped) == (ReportView {
            completed: 0,
            skipped: 0,
            failures: Seq::empty(),
            stopped,
        }),
{
    assert(outcomes.push(outcome).drop_last() =~= outcomes);
}

/// Whether a failure is that of the chapter at a place, with its message.
pub open spec fn is_failure_at(
    chapters: Seq<Seq<char>>,
    outcomes: Seq<Outcome>,
    failure: (Seq<char>, Seq<char>),
    i: int,
) -> bool {
    0 <= i < outcomes.len() && chapters[i] == failure.0 && outcomes[i] == Outcome::Failed(failure.1)
}

/// A report lists as failures the chapters that failed, with their messages, and no others.
pub proof fn law_report_names_failures(
    chapters: Seq<Seq<char>>,
    outcomes: Seq<Outcome>,
    failure: (Seq<char>, Seq<char>),
)
    ensures
        failures_of(chapters, outcomes).contains(failure) <==> exists|i: int|
            is_failure_at(chapters, outcomes, failure, i),
    decreases outcomes.len(),
{
    let failures = failures_of(chapters, outcomes);
    if outcomes.len() > 0 {
        let before = outcomes.drop_last();
        let earlier = failures_of(chapters, before);
        let last = outcomes.len() - 1;
        law_report_names_failures(chapters, before, failure);
        if failures.contains(failure) {
            let k = choose|k: int| 0 <= k < failures.len() && failures[k] == failure;
            if k < earlier.len() {
                assert(earlier[k] == failure);
                assert(earlier.contains(failure));
                let i = choose|i: int| is_failure_at(chapters, before, failure, i);
                assert(is_failure_at(chapters, outcomes, failure, i));
            } else {
                assert(is_failure_at(chapters, outcomes, failure, last));
            }
        }
        if exists|i: int| is_failure_at(chapters, outcomes, failure, i) {
            let i = choose|i: int| is_failure_at(chapters, outcomes, failure, i);
            if i < last {
                assert(is_failure_at(chapters, before, failure, i));
                let k = choose|k: int| 0 <= k < earlier.len() && earlier[k] == failure;
                assert(failures[k] == failure);
            } else {
                assert(failures[failures.len() - 1] == failure);
            }
        }
    }
}

/// Whether chapters came to these outcomes by the rule of a batch: one is skipped if and only if its
/// output was there when it was looked for, and outputs are not to be replaced.
pub open spec fn is_run(overwrite: bool, existed: Seq<bool>, outcomes: Seq<Outcome>) -> bool {
    &&& outcomes.len() <= existed.len()
    &&& forall|i: int|
        0 <= i < outcomes.len() ==> ((#[trigger] outcomes[i]) is Skipped <==> existed[i]
            && !overwrite)
}

/// A batch that replaces outputs skips no chapter.
pub proof fn law_overwriting_skips_nothing(existed: Seq<bool>, outcomes: Seq<Outcome>)
    requires
        is_run(true, existed, outcomes),
    ensures
        count_skipped(outcomes) == 0,
    decreases outcomes.len(),
{
    if outcomes.len() > 0 {
        let before = outcomes.drop_last();
        assert forall|i: int| 0 <= i < before.len() implies ((#[trigger] before[i]) is Skipped
            <==> existed[i] && !true) by {
            assert(before[i] == outcomes[i]);
        }
        law_overwriting_skips_nothing(existed, before);
        assert(outcomes[outcomes.len() - 1] == outcomes.last());
    }
}

/// The outputs that are there after chapters came to these outcomes: those that were, and those of
/// the chapters that were completed.
pub open spec fn outputs_after(
    style: PathStyle,
    directory: Seq<char>,
    chapters: Seq<Seq<char>>,
    outcomes: Seq<Outcome>,
    files: Set<Seq<char>>,
) -> Set<Seq<char>>
    decreases outcomes.len(),
{
    if outcomes.len() == 0 {
        files
    } else {
        let earlier = outputs_after(style, directory, chapters, outcomes.drop_last(), files);
        if outcomes.last() is Completed {
            earlier.insert(output_of(style, directory, chapters[outcomes.len() - 1]))
        } else {
            earlier
        }
    }
}

/// Whether a batch that came to all its chapters had these outcomes, where only the batch itself
/// changes which outputs are there.
pub open spec fn is_run_over(
    style: PathStyle,
    directory: Seq<char>,
    chapters: Seq<Seq<char>>,
    overwrite: bool,
    files: Set<Seq<char>>,
    existed: Seq<bool>,
    outcomes: Seq<Outcome>,
) -> bool {
    &&& outcomes.len() == chapters.len()
    &&& is_run(overwrite, existed, outcomes)
    &&& forall|i: int|
        0 <= i < outcomes.len() ==> #[trigger] existed[i] == outputs_after(
            style,
            directory,
            chapters,
            outcomes.take(i),
            files,
        ).contains(output_of(style, directory, chapters[i]))
}

proof fn lemma_outputs_stay(
    style: PathStyle,
    directory: Seq<char>,
    chapters: Seq<Seq<char>>,
    outcomes: Seq<Outcome>,
    files: Set<Seq<char>>,
    few: int,
)
    requires
        0 <= few <= outcomes.len(),
    ensures
        outputs_after(style, directory, chapters, outcomes.take(few), files).subset_of(
            outputs_after(style, directory, chapters, outcomes, files),
        ),
    decreases outcomes.len(),
{
    if few < outcomes.len() {
        assert(outcomes.drop_last().take(few) =~= outcomes.take(few));
        lemma_outputs_stay(style, directory, chapters, outcomes.drop_last(), files, few);
    } else {
        assert(outcomes.take(few) =~= outcomes);
    }
}

proof fn lemma_skipped_at_least(first: Seq<Outcome>, second: Seq<Outcome>)
    requires
        first.len() == second.len(),
        forall|i: int| 0 <= i < first.len() ==> (#[trigger] first[i]) is Failed || second[i] is Skipped,
    ensures
        count_skipped(second) >= count_completed(first) + count_skipped(first),
    decreases first.len(),
{
    if first.len() > 0 {
        let (a, b) = (first.drop_last(), second.drop_last());
        assert forall|i: int| 0 <= i < a.len() implies (#[trigger] a[i]) is Failed || b[i]
            is Skipped by {
            assert(a[i] == first[i]);
        }
        lemma_skipped_at_least(a, b);
        assert(first[first.len() - 1] == first.last());
    }
}

proof fn lemma_nothing_completed(
    style: PathStyle,
    directory: Seq<char>,
    chapters: Seq<Seq<char>>,
    outcomes: Seq<Outcome>,
    files: Set<Seq<char>>,
)
    requires
        count_completed(outcomes) == 0,
    ensures
        outputs_after(style, directory, chapters, outcomes, files) == files,
    decreases outcomes.len(),
{
    if outcomes.len() > 0 {
        lemma_nothing_completed(style, directory, chapters, outcomes.drop_last(), files);
    }
}

/// A second run over the same chapters and outputs, without replacing any, translates again only
/// chapters that failed in the first. Where none failed it skips all chapters and leaves the outputs
/// as they are.
pub proof fn law_second_run_skips(
    style: PathStyle,
    directory: Seq<char>,
    chapters: Seq<Seq<char>>,
    files: Set<Seq<char>>,
    existed: (Seq<bool>, Seq<bool>),
    first: Seq<Outcome>,
    second: Seq<Outcome>,
)
    requires
        is_run_over(style, directory, chapters, false, files, existed.0, first),
        is_run_over(
            style,
            directory,
            chapters,
            false,
            outputs_after(style, directory, chapters, first, files),
            existed.1,
            second,
        ),
    ensures
        ({
            let before = report_of(chapters, first, false);
            let after = report_of(chapters, second, false);
            let outputs = outputs_after(style, directory, chapters, first, files);
            &&& after.skipped >= before.completed + before.skipped
            &&& after.completed <= before.failures.len()
            &&& before.failures.len() == 0 ==> {
                &&& after.skipped == chapters.len()
                &&& outputs_after(style, directory, chapters, second, outputs) == outputs
            }
        }),
{
    let outputs = outputs_after(style, directory, chapters, first, files);
    assert forall|i: int| 0 <= i < first.len() implies (#[trigger] first[i]) is Failed || second[i]
        is Skipped by {
        let output = output_of(style, directory, chapters[i]);
        lemma_outputs_stay(style, directory, chapters, first, files, i);
        lemma_outputs_stay(style, directory, chapters, first, files, i + 1);
        assert(first.take(i + 1).drop_last() =~= first.take(i));
        if first[i] is Skipped {
            assert(existed.0[i]);
        }
        if !(first[i] is Failed) {
            assert(outputs.contains(output));
            lemma_outputs_stay(style, directory, chapters, second.take(i), outputs, 0);
            assert(second.take(i).take(0) =~= Seq::<Outcome>::empty());
            assert(existed.1[i]);
        }
    }
    lemma_skipped_at_least(first, second);
    law_report_accounts_for_chapters(chapters, first, false);
    law_report_accounts_for_chapters(chapters, second, false);
    if failures_of(chapters, first).len() == 0 {
        lemma_nothing_completed(style, directory, chapters, second, outputs);
    }
}

/// What a batch waits for.
#[derive(Clone, Copy, Debug, PartialEq, Eq, Structural)]
pub enum BatchPhase {
    /// The directory for the outputs is made.
    Directory,
    /// The next chapter is taken.
    Next,
    /// It is found out whether the output of the chapter exists.
    Output,
    /// The chapter is translated.
    Translating,
    /// Nothing: the batch is over.
    Over,
}

/// A batch under way.
pub struct BatchRun {
    style: PathStyle,
    chapters: Vec<String>,
    output_directory: String,
    overwrite: bool,
    phase: BatchPhase,
    settled: usize,
    report: BatchReport,
    existed: Ghost<Seq<bool>>,
    outcomes: Ghost<Seq<Outcome>>,
}

/// A batch under way: its chapters and outputs, what it waits for, which outputs were there when
/// they were looked for, and what became of the chapters that it is through with.
pub struct RunView {
    pub style: PathStyle,
    pub chapters: Seq<Seq<char>>,
    pub output_directory: Seq<char>,
    pub overwrite: bool,
    pub phase: BatchPhase,
    pub existed: Seq<bool>,
    pub outcomes: Seq<Outcome>,
    pub stopped: bool,
}

impl View for BatchRun {
    type V = RunView;

    closed spec fn view(&self) -> RunView {
        RunView {
            style: self.style,
            chapters: strings(self.chapters@),
            output_directory: self.output_directory@,
            overwrite: self.overwrite,
            phase: self.phase,
            existed: self.existed@,
            outcomes: self.outcomes@,
            stopped: self.report.stopped,
        }
    }
}

/// The output of a chapter: a file of the same name in the directory for the outputs.
pub open spec fn output_of(style: PathStyle, directory: Seq<char>, chapter: Seq<char>) -> Seq<char> {
    joined(style, directory, file_name_of(style, chapter)->0)
}

/// A translated chapter keeps the name of its source. On Windows the name must not start with what
/// is read as a prefix, and the directory must keep its own.
pub proof fn law_output_keeps_file_name(style: PathStyle, directory: Seq<char>, chapter: Seq<char>)
    requires
        names_extension(style, chapter, "cbz"@),
        style is Windows ==> is_file_name(style, file_name_of(style, chapter)->0),
        keeps_prefix(style, directory, file_name_of(style, chapter)->0),
    ensures
        file_name_of(style, chapter) is Some,
        file_name_of(style, output_of(style, directory, chapter)) == file_name_of(style, chapter),
{
    lemma_file_name_is_plain(style, chapter);
    law_join_keeps_file_name(style, directory, file_name_of(style, chapter)->0);
}

/// The output of a chapter stands directly in the directory for the outputs: the path starts with all
/// of that directory, ends with the file name of the chapter, and has between them nothing, or one
/// separator where one is needed.
#[verifier::rlimit(60)]
pub proof fn law_output_stands_in_directory(
    style: PathStyle,
    directory: Seq<char>,
    chapter: Seq<char>,
    name: Seq<char>,
)
    requires
        file_name_of(style, chapter) == Some(name),
        style is Windows ==> is_file_name(style, name),
    ensures
        ({
            let output = output_of(style, directory, chapter);
            let gap = output.len() - directory.len() - name.len();
            &&& 0 <= gap <= 1
            &&& output.take(directory.len() as int) == directory
            &&& output.skip(output.len() - name.len()) == name
            &&& gap == 1 ==> output[directory.len() as int] == if style is Slashes {
                '/'
            } else {
                '\\'
            }
            &&& style is Slashes ==> (gap == 1 <==> directory.len() > 0 && directory.last() != '/')
            &&& style is Windows ==> (gap == 0 ==> directory.len() == 0 || directory.last() == '/'
                || directory.last() == '\\' || directory.last() == ':')
        }),
{
    lemma_file_name_is_plain(style, chapter);
    assert(name.contains(name[0]));
    match style {
        PathStyle::Slashes => {
            law_joined(directory, name);
        },
        PathStyle::Windows => {
            if name.len() > 1 && name[1] == ':' {
                lemma_joined(style, directory, name);
                reveal_strlit("\\");
                let output = output_of(style, directory, chapter);
                assert(output.take(directory.len() as int) =~= directory);
                assert(output.skip(output.len() - name.len()) =~= name);
            } else {
                law_joined_on_windows(directory, name);
                if is_file_name(style, name) {
                    lemma_joined(style, directory, name);
                    reveal_strlit("\\");
                }
            }
        },
    }
}

/// The parent of an output is the directory for the outputs, be it relative, nested or absolute: as
/// it is written, where it has no tail that means nothing, and in the same way where it has one.
#[verifier::rlimit(60)]
pub proof fn law_parent_of_output(directory: Seq<char>, chapter: Seq<char>, name: Seq<char>)
    requires
        file_name_of(PathStyle::Slashes, chapter) == Some(name),
    ensures
        directory.len() == 0 ==> parent_of(
            PathStyle::Slashes,
            output_of(PathStyle::Slashes, directory, chapter),
        ) == Some(directory),
        directory == seq!['/'] ==> parent_of(
            PathStyle::Slashes,
            output_of(PathStyle::Slashes, directory, chapter),
        ) == Some(directory),
        directory.len() > 0 && directory.last() != '/' && !(directory.len() > 1 && directory.last()
            == '.' && directory[directory.len() - 2] == '/') ==> parent_of(
            PathStyle::Slashes,
            output_of(PathStyle::Slashes, directory, chapter),
        ) == Some(directory) && parent_of(
            PathStyle::Slashes,
            output_of(PathStyle::Slashes, directory.push('/'), chapter),
        ) == Some(directory),
{
    let style = PathStyle::Slashes;
    reveal_strlit("/");
    lemma_file_name_is_plain(style, chapter);
    assert(name.contains(name[0]));
    let output = output_of(style, directory, chapter);
    if directory.len() == 0 {
        law_parent(Seq::empty(), name);
        assert(output =~= name);
        assert(directory =~= Seq::empty());
    } else if directory == seq!['/'] {
        law_parent(Seq::empty(), name);
        assert(output =~= Seq::empty().push('/') + name);
    } else if directory.last() != '/' && !(directory.len() > 1 && directory.last() == '.'
        && directory[directory.len() - 2] == '/') {
        law_parent(directory, name);
        assert(output =~= directory.push('/') + name);
        assert(output_of(style, directory.push('/'), chapter) =~= directory.push('/') + name);
    }
}

/// A chapter whose output is to be looked at.
#[derive(Debug)]
pub struct PendingChapter {
    pub index: usize,
    pub chapter: String,
    pub output: String,
}

/// What is done with a chapter.
#[derive(Debug)]
pub enum ChapterStep {
    /// Its output exists and stays: tell so, and go on.
    Skip { event: BatchEvent, notice: String },
    /// It is translated.
    Translate { notice: String },
}

/// How the translation of a chapter ended.
#[derive(Debug)]
pub enum ChapterEnd {
    Finished { event: BatchEvent },
    /// The batch was stopped, and the chapter is not there.
    Stopped,
    Failed { event: BatchEvent, notice: String },
}

/// What the console shows of a chapter that is skipped.
pub open spec fn skip_notice(chapter: Seq<char>) -> Seq<char> {
    "skip "@ + chapter + ": output already exists"@
}

/// What the console shows of a chapter that is to be translated.
pub open spec fn translate_notice(index: nat, total: nat, chapter: Seq<char>) -> Seq<char> {
    "["@ + decimal_text(index + 1) + "/"@ + decimal_text(total) + "] translating "@ + chapter
}

/// What the console shows of a chapter that failed.
pub open spec fn failure_notice(chapter: Seq<char>, text: Seq<char>) -> Seq<char> {
    "failed "@ + chapter + ": "@ + text
}

proof fn lemma_refused_chapter(style: PathStyle, chapters: Seq<(Seq<char>, bool)>, i: int)
    requires
        chapter_refusal(style, chapters) is None,
        0 <= i < chapters.len(),
    ensures
        names_extension(style, chapters[i].0, "cbz"@),
    decreases chapters.len(),
{
    if i > 0 {
        lemma_refused_chapter(style, chapters.drop_first(), i - 1);
    }
}

impl BatchRun {
    /// What always holds of a batch: the report fits what became of the chapters, a stopped batch
    /// has chapters left, and one that is over and was not stopped has none.
    pub closed spec fn well_formed(&self) -> bool {
        &&& self.settled == self.outcomes@.len()
        &&& self.settled <= self.chapters@.len()
        &&& self.report@ == report_of(self@.chapters, self.outcomes@, self.report.stopped)
        &&& forall|i: int|
            0 <= i < self.chapters@.len() ==> names_extension(
                self.style,
                (#[trigger] self.chapters@[i])@,
                "cbz"@,
            )
        &&& is_run(self.overwrite, self.existed@, self.outcomes@)
        &&& match self.phase {
            BatchPhase::Over => true,
            BatchPhase::Translating => self.existed@.len() == self.settled + 1 && (self.existed@.last()
                ==> self.overwrite),
            _ => self.existed@.len() == self.settled,
        }
        &&& match self.phase {
            BatchPhase::Over => self.report.stopped == (self.settled < self.chapters@.len()),
            BatchPhase::Output => !self.report.stopped && self.settled < self.chapters@.len(),
            BatchPhase::Translating => !self.report.stopped && self.settled < self.chapters@.len(),
            _ => !self.report.stopped,
        }
    }

    /// How far a batch is: it is through with no more chapters than it has, and all of them are
    /// archives; while it looks at an output or translates, a chapter is left, and once it is over,
    /// one is left if and only if it was stopped.
    pub proof fn law_run_state(&self)
        requires
            self.well_formed(),
        ensures
            self@.outcomes.len() <= self@.chapters.len(),
            forall|i: int|
                0 <= i < self@.chapters.len() ==> names_extension(
                    self@.style,
                    #[trigger] self@.chapters[i],
                    "cbz"@,
                ),
            is_run(self@.overwrite, self@.existed, self@.outcomes),
            match self@.phase {
                BatchPhase::Over => self@.stopped == (self@.outcomes.len() < self@.chapters.len()),
                BatchPhase::Output => !self@.stopped && self@.outcomes.len() < self@.chapters.len(),
                BatchPhase::Translating => !self@.stopped && self@.outcomes.len()
                    < self@.chapters.len(),
                _ => !self@.stopped,
            },
    {
        assert forall|i: int| 0 <= i < self@.chapters.len() implies names_extension(
            self@.style,
            #[trigger] self@.chapters[i],
            "cbz"@,
        ) by {
            assert(self@.chapters[i] == self.chapters@[i]@);
        }
    }

    /// Starts a batch, unless its chapters or its quality are refused.
    pub fn new(
        style: PathStyle,
        chapters: Vec<ChapterFile>,
        output_directory: String,
        jpeg_quality: u8,
        overwrite: bool,
    ) -> (run: Result<BatchRun, Error>)
        ensures
            match run {
                Ok(run) => {
                    &&& batch_refusal(style, chapter_files(chapters@), jpeg_quality) is None
                    &&& run.well_formed()
                    &&& run@ == (RunView {
                        style,
                        chapters: chapter_files(chapters@).map_values(
                            |chapter: (Seq<char>, bool)| chapter.0,
                        ),
                        output_directory: output_directory@,
                        overwrite,
                        phase: BatchPhase::Directory,
                        existed: Seq::empty(),
                        outcomes: Seq::empty(),
                        stopped: false,
                    })
                },
                Err(error) => batch_refusal(style, chapter_files(chapters@), jpeg_quality) == Some(
                    error@,
                ),
            },
    {
        match validate_chapters(style, &chapters, jpeg_quality) {
            Err(error) => {
                return Err(error);
            },
            Ok(()) => {},
        }
        let ghost files = chapter_files(chapters@);
        let mut paths: Vec<String> = Vec::new();
        let mut i: usize = 0;
        while i < chapters.len()
            invariant
                i <= chapters@.len(),
                paths@.len() == i,
                forall|k: int| 0 <= k < i ==> (#[trigger] paths@[k])@ == chapters@[k].path@,
            decreases chapters@.len() - i,
        {
            paths.push(chapters[i].path.clone());
            i = i + 1;
        }
        let run = BatchRun {
            style,
            chapters: paths,
            output_directory,
            overwrite,
            phase: BatchPhase::Directory,
            settled: 0,
            report: BatchReport::default(),
            existed: Ghost(Seq::empty()),
            outcomes: Ghost(Seq::empty()),
        };
        proof {
            assert(strings(run.chapters@) =~= files.map_values(
                |chapter: (Seq<char>, bool)| chapter.0,
            ));
            assert forall|k: int| 0 <= k < run.chapters@.len() implies names_extension(
                style,
                (#[trigger] run.chapters@[k])@,
                "cbz"@,
            ) by {
                lemma_refused_chapter(style, files, k);
                assert(files[k].0 == chapters@[k].path@);
            }
        }
        Ok(run)
    }

    /// Goes on once the directory for the outputs was made, or could not be.
    pub fn directory_created(&mut self, created: Result<(), String>) -> (begun: Result<
        BatchEvent,
        Error,
    >)
        requires
            old(self).well_formed(),
            old(self)@.phase == BatchPhase::Directory,
        ensures
            final(self).well_formed(),
            match created {
                Ok(()) => begun matches Ok(event) && event@ == (EventView::Started {
                    total_chapters: old(self)@.chapters.len(),
                }) && final(self)@ == (RunView { phase: BatchPhase::Next, ..old(self)@ }),
                Err(cause) => begun matches Err(error) && error@ == caused(
                    "failed to create output directory "@ + old(self)@.output_directory,
                    cause@,
                ) && final(self)@ == old(self)@,
            },
    {
        match created {
            Err(cause) => Err(
                Error::because_of(
                    "failed to create output directory ",
                    self.output_directory.as_str(),
                    cause.as_str(),
                ),
            ),
            Ok(()) => {
                self.phase = BatchPhase::Next;
                Ok(BatchEvent::Started { total_chapters: self.chapters.len() })
            },
        }
    }

    /// Takes the next chapter, if there is one and the batch was not asked to stop.
    pub fn next_chapter(&mut self, stop: bool) -> (pending: Option<PendingChapter>)
        requires
            old(self).well_formed(),
            old(self)@.phase == BatchPhase::Next,
        ensures
            final(self).well_formed(),
            ({
                let run = old(self)@;
                let settled = run.outcomes.len();
                match pending {
                    None => {
                        &&& settled == run.chapters.len() || stop
                        &&& final(self)@ == (RunView {
                            phase: BatchPhase::Over,
                            stopped: settled < run.chapters.len(),
                            ..run
                        })
                    },
                    Some(pending) => {
                        &&& settled < run.chapters.len() && !stop
                        &&& pending.index == settled
                        &&& pending.chapter@ == run.chapters[settled as int]
                        &&& names_extension(run.style, pending.chapter@, "cbz"@)
                        &&& pending.output@ == output_of(
                            run.style,
                            run.output_directory,
                            pending.chapter@,
                        )
                        &&& final(self)@ == (RunView { phase: BatchPhase::Output, ..run })
                    },
                }
            }),
    {
        if self.settled == self.chapters.len() {
            self.phase = BatchPhase::Over;
            return None;
        }
        if stop {
            self.report.stopped = true;
            self.phase = BatchPhase::Over;
            return None;
        }
        let index = self.settled;
        let chapter = self.chapters[index].clone();
        assert(self@.chapters[index as int] == self.chapters@[index as int]@);
        let name = file_name(self.style, chapter.as_str());
        self.phase = BatchPhase::Output;
        match name {
            Some(name) => {
                let output = join(self.style, self.output_directory.as_str(), name.as_str());
                Some(PendingChapter { index, chapter, output })
            },
            None => None,
        }
    }

    /// Goes on once it is known whether the output of the chapter exists, and whether it is the
    /// chapter itself.
    pub fn output_checked(&mut self, exists: bool, same_file: Result<bool, String>) -> (step: Result<
        ChapterStep,
        Error,
    >)
        requires
            old(self).well_formed(),
            old(self)@.phase == BatchPhase::Output,
        ensures
            final(self).well_formed(),
            ({
                let run = old(self)@;
                let settled = run.outcomes.len();
                let chapter = run.chapters[settled as int];
                match output_refusal(chapter, exists, plain_result(same_file)) {
                    Some(text) => step matches Err(error) && error@ == text && final(self)@ == run,
                    None => if exists && !run.overwrite {
                        &&& step matches Ok(ChapterStep::Skip { event, notice })
                        &&& event@ == (EventView::ChapterSkipped {
                            index: settled,
                            output: output_of(run.style, run.output_directory, chapter),
                        })
                        &&& notice@ == skip_notice(chapter)
                        &&& final(self)@ == (RunView {
                            phase: BatchPhase::Next,
                            existed: run.existed.push(exists),
                            outcomes: run.outcomes.push(Outcome::Skipped),
                            ..run
                        })
                    } else {
                        &&& step matches Ok(ChapterStep::Translate { notice })
                        &&& notice@ == translate_notice(settled, run.chapters.len(), chapter)
                        &&& final(self)@ == (RunView {
                            phase: BatchPhase::Translating,
                            existed: run.existed.push(exists),
                            ..run
                        })
                    },
                }
            }),
    {
        let index = self.settled;
        let total = self.chapters.len();
        let chapter = self.chapters[index].clone();
        assert(self@.chapters[index as int] == self.chapters@[index as int]@);
        match ensure_distinct_paths(chapter.as_str(), exists, same_file) {
            Err(error) => {
                return Err(error);
            },
            Ok(()) => {},
        }
        if exists && !self.overwrite {
            let output = self.output(chapter.as_str());
            let ghost before = self.outcomes@;
            let ghost pushed = before.push(Outcome::Skipped);
            proof {
                law_report_accounts_for_chapters(self@.chapters, before, false);
                assert(pushed.drop_last() =~= before);
            }
            self.report.skipped = self.report.skipped + 1;
            self.settled = index + 1;
            self.existed = Ghost(self.existed@.push(exists));
            self.outcomes = Ghost(pushed);
            self.phase = BatchPhase::Next;
            return Ok(
                ChapterStep::Skip {
                    event: BatchEvent::ChapterSkipped { index, output },
                    notice: concat3("skip ", chapter.as_str(), ": output already exists"),
                },
            );
        }
        self.existed = Ghost(self.existed@.push(exists));
        self.phase = BatchPhase::Translating;
        let place = concat4("[", decimal(index + 1).as_str(), "/", decimal(total).as_str());
        Ok(
            ChapterStep::Translate {
                notice: concat3(place.as_str(), "] translating ", chapter.as_str()),
            },
        )
    }

    /// The output of a chapter.
    fn output(&self, chapter: &str) -> (output: String)
        requires
            names_extension(self@.style, chapter@, "cbz"@),
        ensures
            output@ == output_of(self@.style, self@.output_directory, chapter@),
    {
        match file_name(self.style, chapter) {
            Some(name) => join(self.style, self.output_directory.as_str(), name.as_str()),
            None => String::new(),
        }
    }

    /// Goes on once the chapter is translated, or could not be; `stop` tells whether the batch was
    /// asked to stop by then.
    pub fn chapter_done(&mut self, result: Result<(), Error>, stop: bool) -> (end: ChapterEnd)
        requires
            old(self).well_formed(),
            old(self)@.phase == BatchPhase::Translating,
        ensures
            final(self).well_formed(),
            ({
                let run = old(self)@;
                let settled = run.outcomes.len();
                let chapter = run.chapters[settled as int];
                match result {
                    Ok(()) => {
                        &&& end matches ChapterEnd::Finished { event }
                        &&& event@ == (EventView::ChapterFinished {
                            index: settled,
                            output: output_of(run.style, run.output_directory, chapter),
                        })
                        &&& final(self)@ == (RunView {
                            phase: BatchPhase::Next,
                            outcomes: run.outcomes.push(Outcome::Completed),
                            ..run
                        })
                    },
                    Err(error) => if stop {
                        &&& end is Stopped
                        &&& final(self)@ == (RunView {
                            phase: BatchPhase::Over,
                            stopped: true,
                            ..run
                        })
                    } else {
                        &&& end matches ChapterEnd::Failed { event, notice }
                        &&& event@ == (EventView::ChapterFailed {
                            index: settled,
                            name: chapter_name_of(run.style, chapter),
                            error: error@,
                        })
                        &&& notice@ == failure_notice(chapter, error@)
                        &&& final(self)@ == (RunView {
                            phase: BatchPhase::Next,
                            outcomes: run.outcomes.push(Outcome::Failed(error@)),
                            ..run
                        })
                    },
                }
            }),
    {
        let index = self.settled;
        let total = self.chapters.len();
        let chapter = self.chapters[index].clone();
        assert(self@.chapters[index as int] == self.chapters@[index as int]@);
        assert(index < total);
        let ghost before = self.outcomes@;
        proof {
            law_report_accounts_for_chapters(self@.chapters, before, false);
        }
        match result {
            Ok(()) => {
                let output = self.output(chapter.as_str());
                let ghost pushed = before.push(Outcome::Completed);
                assert(pushed.drop_last() =~= before);
                self.report.completed = self.report.completed + 1;
                self.settled = index + 1;
                self.outcomes = Ghost(pushed);
                self.phase = BatchPhase::Next;
                ChapterEnd::Finished { event: BatchEvent::ChapterFinished { index, output } }
            },
            Err(error) => {
                if stop {
                    self.report.stopped = true;
                    self.phase = BatchPhase::Over;
                    return ChapterEnd::Stopped;
                }
                let name = chapter_name(self.style, chapter.as_str());
                let notice = concat4("failed ", chapter.as_str(), ": ", error.message.as_str());
                let ghost pushed = before.push(Outcome::Failed(error@));
                let ghost failures = self.report.failures@;
                assert(pushed.drop_last() =~= before);
                let message = error.message.clone();
                self.report.failures.push(BatchFailure { chapter, error: error.message });
                assert(failure_views(self.report.failures@) =~= failure_views(failures).push(
                    (self@.chapters[index as int], message@),
                ));
                self.settled = index + 1;
                self.outcomes = Ghost(pushed);
                self.phase = BatchPhase::Next;
                ChapterEnd::Failed {
                    event: BatchEvent::ChapterFailed { index, name, error: message },
                    notice,
                }
            },
        }
    }

    /// Reports on a batch that is over. Without a stop it has come to every chapter; with one, it
    /// has not.
    pub fn finish(self) -> (finished: (BatchEvent, BatchReport))
        requires
            self.well_formed(),
            self@.phase == BatchPhase::Over,
        ensures
            finished.1@ == report_of(self@.chapters, self@.outcomes, self@.stopped),
            finished.0@ == (EventView::Finished {
                completed: finished.1.completed as nat,
                skipped: finished.1.skipped as nat,
                failed: finished.1.failures@.len(),
                stopped: self@.stopped,
            }),
            is_run(self@.overwrite, self@.existed, self@.outcomes),
            self@.overwrite ==> finished.1.skipped == 0,
            !self@.stopped ==> finished.1.completed + finished.1.skipped
                + finished.1.failures@.len() == self@.chapters.len(),
            self@.stopped ==> finished.1.completed + finished.1.skipped
                + finished.1.failures@.len() < self@.chapters.len(),
    {
        proof {
            law_report_accounts_for_chapters(self@.chapters, self.outcomes@, self.report.stopped);
            if self.overwrite {
                law_overwriting_skips_nothing(self.existed@, self.outcomes@);
            }
            assert(failure_views(self.report.failures@).len() == self.report.failures@.len());
        }
        let report = self.report;
        let event = BatchEvent::Finished {
            completed: report.completed,
            skipped: report.skipped,
            failed: report.failures.len(),
            stopped: report.stopped,
        };
        (event, report)
    }
}

/// What the console shows of a batch that is over: the sums, then each failure.
pub open spec fn report_text(report: ReportView) -> Seq<Seq<char>> {
    seq![
        "batch finished: "@ + decimal_text(report.completed) + " completed, "@ + decimal_text(
            report.skipped,
        ) + " skipped, "@ + decimal_text(report.failures.len()) + " failed"@,
    ] + report.failures.map_values(
        |failure: (Seq<char>, Seq<char>)| "  "@ + failure.0 + ": "@ + failure.1,
    )
}

/// Writes what the console shows of a batch that is over.
pub fn report_lines(report: &BatchReport) -> (lines: Vec<String>)
    ensures
        strings(lines@) == report_text(report@),
{
    let ghost failures = failure_views(report.failures@);
    let ghost shown = failures.map_values(
        |failure: (Seq<char>, Seq<char>)| "  "@ + failure.0 + ": "@ + failure.1,
    );
    let mut sums = concat4(
        "batch finished: ",
        decimal(report.completed).as_str(),
        " completed, ",
        decimal(report.skipped).as_str(),
    );
    sums.append(" skipped, ");
    sums.append(decimal(report.failures.len()).as_str());
    sums.append(" failed");
    let ghost first = sums@;
    let mut lines: Vec<String> = Vec::new();
    lines.push(sums);
    let mut i: usize = 0;
    assert(strings(lines@) =~= seq![first] + shown.take(0));
    while i < report.failures.len()
        invariant
            i <= report.failures@.len(),
            failures == failure_views(report.failures@),
            shown == failures.map_values(
                |failure: (Seq<char>, Seq<char>)| "  "@ + failure.0 + ": "@ + failure.1,
            ),
            strings(lines@) == seq![first] + shown.take(i as int),
        decreases report.failures@.len() - i,
    {
        let failure = &report.failures[i];
        let line = concat4("  ", failure.chapter.as_str(), ": ", failure.error.as_str());
        let ghost before = strings(lines@);
        let ghost text = line@;
        lines.push(line);
        assert(strings(lines@) =~= before.push(text));
        assert(shown[i as int] == text);
        i = i + 1;
        assert(strings(lines@) =~= seq![first] + shown.take(i as int));
    }
    assert(shown.take(i as int) =~= shown);
    lines
}

/// Whether the program ends with a failure: it does where a chapter failed.
pub fn has_failures(report: &BatchReport) -> (failed: bool)
    ensures
        failed == (report@.failures.len() > 0),
{
    report.failures.len() > 0
}

/// What the console shows names the chapter; of one that is to be translated also its place, counted
/// from one, and the number of chapters; of one that failed also the message.
pub proof fn law_notices(chapter: Seq<char>, index: nat, total: nat, text: Seq<char>)
    ensures
        skip_notice(chapter) == "skip "@ + chapter + ": output already exists"@,
        translate_notice(index, total, chapter) == "["@ + decimal_text(index + 1) + "/"@
            + decimal_text(total) + "] translating "@ + chapter,
        failure_notice(chapter, text) == "failed "@ + chapter + ": "@ + text,
{
}

/// What the console shows of a batch that is over is a line with its sums, and one more line for each
/// failure, in their order.
pub proof fn law_report_text(report: ReportView, i: int)
    ensures
        report_text(report).len() == 1 + report.failures.len(),
        report_text(report)[0] == "batch finished: "@ + decimal_text(report.completed)
            + " completed, "@ + decimal_text(report.skipped) + " skipped, "@ + decimal_text(
            report.failures.len(),
        ) + " failed"@,
        0 <= i < report.failures.len() ==> report_text(report)[i + 1] == "  "@
            + report.failures[i].0 + ": "@ + report.failures[i].1,
{
}

/// A report counts what its fields count, and lists its failures at their places.
pub proof fn law_report_view(report: BatchReport, i: int)
    ensures
        report@.completed == report.completed,
        report@.skipped == report.skipped,
        report@.stopped == report.stopped,
        report@.failures.len() == report.failures@.len(),
        0 <= i < report.failures@.len() ==> report@.failures[i] == (
            report.failures@[i].chapter@,
            report.failures@[i].error@,
        ),
{
}

/// What was found before a batch is taken as it is.
pub proof fn law_chapters_result(result: Result<Vec<ChapterFile>, Error>)
    ensures
        match result {
            Ok(chapters) => chapters_result(result) == Ok::<Seq<(Seq<char>, bool)>, Seq<char>>(
                chapter_files(chapters@),
            ),
            Err(error) => chapters_result(result) == Err::<Seq<(Seq<char>, bool)>, Seq<char>>(
                error.message@,
            ),
        },
{
}

/// The outputs that are there after a batch are those that were there before, and those of the chapters
/// that were completed.
pub proof fn law_outputs_after(
    style: PathStyle,
    directory: Seq<char>,
    chapters: Seq<Seq<char>>,
    outcomes: Seq<Outcome>,
    files: Set<Seq<char>>,
    output: Seq<char>,
)
    ensures
        outputs_after(style, directory, chapters, outcomes, files).contains(output) <==> {
            ||| files.contains(output)
            ||| exists|i: int|
                0 <= i < outcomes.len() && (#[trigger] outcomes[i]) is Completed && output
                    == output_of(style, directory, chapters[i])
        },
    decreases outcomes.len(),
{
    if outcomes.len() > 0 {
        let before = outcomes.drop_last();
        let last = outcomes.len() - 1;
        law_outputs_after(style, directory, chapters, before, files, output);
        assert(outcomes[last] == outcomes.last());
        assert forall|i: int| 0 <= i < last implies #[trigger] outcomes[i] == before[i] by {}
        if exists|i: int|
            0 <= i < before.len() && (#[trigger] before[i]) is Completed && output == output_of(
                style,
                directory,
                chapters[i],
            ) {
            let i = choose|i: int|
                0 <= i < before.len() && (#[trigger] before[i]) is Completed && output == output_of(
                    style,
                    directory,
                    chapters[i],
                );
            assert(outcomes[i] is Completed);
        }
    }
}

} // verus!
