//! Exports: which pages are exported, and what their files are called.

use crate::error::Error;
use crate::paths::{
    file_name_of, is_file_name, join, joined, keeps_prefix, law_join_keeps_file_name, law_joined,
    lemma_joined, opened, PathStyle,
};
use crate::text::{
    all_white_space, concat3, control_char, decimal_value, drop_leading_space, drop_trailing,
    find_last, is_control_char, is_white_space, last_index_of, law_decimal_text, law_trim_end,
    law_trim_start, lemma_four_digits, lemma_last_index_is, lemma_padded_numbers_sort,
    lemma_padded_text, lemma_trim_end, lemma_trim_start, lemma_trim_start_of_space,
    lemma_trim_start_of_sum, padded_decimal, padded_text, sorts_before, to_chars, trim_end,
    trim_start,
};
use crate::views::{lemma_failure_stays, optional_text, text_result};
use vstd::prelude::*;

verus! {

/// The formats of an exported page.
#[derive(Clone, Copy, Debug, PartialEq, Eq, Structural)]
pub enum PageExportFormat {
    Png,
    Psd,
}

/// The formats of an exported project.
#[derive(Clone, Copy, Debug, PartialEq, Eq, Structural)]
pub enum ProjectExportFormat {
    Png,
    Psd,
    Cbz,
}

/// What to export, with pages by their numbers.
#[allow(inconsistent_fields)]
#[derive(Clone, Copy, Debug, PartialEq, Eq, Structural)]
pub enum ExportRequest {
    CurrentPage { page: u64, format: PageExportFormat },
    EntireProject { format: ProjectExportFormat },
}

/// A page to export, and what its file is called before the full stop.
#[derive(Debug)]
pub struct ExportPage {
    pub id: u64,
    pub stem: String,
}

/// Whether a character cannot stand in the name of a file on every system.
pub open spec fn is_unsafe_char(c: char) -> bool {
    ||| is_control_char(c)
    ||| c == '<' || c == '>' || c == ':' || c == '"' || c == '/' || c == '\\' || c == '|' || c
        == '?' || c == '*'
}

/// A character, or an underscore in place of one that cannot stand in the name of a file.
pub open spec fn safe_char(c: char) -> char {
    if is_unsafe_char(c) {
        '_'
    } else {
        c
    }
}

/// A label without white space around it, and without full stops at its end.
pub open spec fn trimmed_label(label: Seq<char>) -> Seq<char> {
    trim_end(trim_end(trim_start(label), false), true)
}

/// A text up to its last full stop.
pub open spec fn without_extension(name: Seq<char>) -> Seq<char> {
    let dot = last_index_of(name, '.');
    if dot < 0 {
        name
    } else {
        name.take(dot)
    }
}

/// What the file of a page is called before the full stop, by the label of the page.
pub open spec fn stem_of(label: Seq<char>) -> Seq<char> {
    let name = without_extension(trimmed_label(label));
    if name.len() == 0 {
        "page"@
    } else {
        name.map_values(|c: char| safe_char(c))
    }
}

fn unsafe_char(c: char) -> (r: bool)
    ensures
        r == is_unsafe_char(c),
{
    control_char(c) || c == '<' || c == '>' || c == ':' || c == '"' || c == '/' || c == '\\' || c
        == '|' || c == '?' || c == '*'
}

/// What the file of a page is called before the full stop.
pub fn page_stem(label: &str) -> (stem: String)
    ensures
        stem@ == stem_of(label@),
{
    let mut chars = drop_leading_space(&to_chars(label));
    drop_trailing(&mut chars, false);
    drop_trailing(&mut chars, true);
    let end: usize = match find_last(&chars, '.') {
        Some(dot) => dot,
        None => chars.len(),
    };
    let ghost name = without_extension(trimmed_label(label@));
    assert(name =~= chars@.take(end as int));
    if end == 0 {
        return "page".to_owned();
    }
    let mut stem = String::new();
    let mut i: usize = 0;
    while i < end
        invariant
            i <= end <= chars@.len(),
            name == chars@.take(end as int),
            stem@ == name.map_values(|c: char| safe_char(c)).take(i as int),
        decreases end - i,
    {
        assert(name[i as int] == chars@[i as int]);
        if unsafe_char(chars[i]) {
            stem.push('_');
        } else {
            stem.push(chars[i]);
        }
        i = i + 1;
        assert(stem@ =~= name.map_values(|c: char| safe_char(c)).take(i as int));
    }
    assert(name.map_values(|c: char| safe_char(c)).take(end as int) =~= name.map_values(
        |c: char| safe_char(c),
    ));
    stem
}

/// The stem of a page can stand in the name of a file: it is not empty, and holds no character that
/// some system refuses.
pub proof fn law_page_stem_is_safe(label: Seq<char>)
    ensures
        stem_of(label).len() > 0,
        forall|i: int| 0 <= i < stem_of(label).len() ==> !is_unsafe_char(#[trigger] stem_of(label)[i]),
{
    reveal_strlit("page");
}

/// The stem of a page depends neither on the extension of its label nor on white space around it.
pub proof fn law_page_stem_ignores(
    name: Seq<char>,
    a: Seq<char>,
    b: Seq<char>,
    before: Seq<char>,
    after: Seq<char>,
)
    requires
        is_plain_extension(a),
        is_plain_extension(b),
        all_white_space(before),
        all_white_space(after),
    ensures
        stem_of(name + "."@ + a) == stem_of(name + "."@ + b),
        stem_of(before + name + after) == stem_of(name),
{
    lemma_stem_without_extension(name, a);
    lemma_stem_without_extension(name, b);
    assert(before + name + after =~= before + (name + after));
    lemma_trim_start(before, name + after);
    if all_white_space(name) {
        lemma_trim_start(name, after);
        lemma_trim_start_of_space(after);
        lemma_trim_start_of_space(name);
        assert(trim_start(name + after) =~= trim_start(name));
    } else {
        lemma_trim_start_of_sum(name, after);
        lemma_trim_end(trim_start(name), after);
    }
}

/// Whether a text can stand after the full stop before an extension, and is left alone there.
pub open spec fn is_plain_extension(extension: Seq<char>) -> bool {
    &&& extension.len() > 0
    &&& !extension.contains('.')
    &&& !is_white_space(extension.last())
}

proof fn lemma_stem_without_extension(name: Seq<char>, extension: Seq<char>)
    requires
        is_plain_extension(extension),
    ensures
        without_extension(trimmed_label(name + "."@ + extension)) == trim_start(name),
{
    reveal_strlit(".");
    let tail = "."@ + extension;
    let kept = trim_start(name) + tail;
    assert(name + "."@ + extension =~= name + tail);
    lemma_trim_start_of_sum(name, tail);
    assert(kept.last() == extension.last());
    assert(extension.contains(extension.last()));
    assert(trimmed_label(name + tail) == kept);
    let dot = trim_start(name).len() as int;
    assert forall|i: int| dot < i < kept.len() implies kept[i] != '.' by {
        assert(kept[i] == extension[i - dot - 1]);
        assert(extension.contains(extension[i - dot - 1]));
    }
    lemma_last_index_is(kept, '.', dot);
    assert(kept.take(dot) =~= trim_start(name));
}

/// What a format is called, and the extension of its files.
pub open spec fn format_names(format: PageExportFormat) -> (Seq<char>, Seq<char>) {
    match format {
        PageExportFormat::Png => ("PNG Image"@, "png"@),
        PageExportFormat::Psd => ("Photoshop Document"@, "psd"@),
    }
}

/// What a format is called, and the extension of its files.
pub fn page_format(format: PageExportFormat) -> (names: (&'static str, &'static str))
    ensures
        (names.0@, names.1@) == format_names(format),
{
    match format {
        PageExportFormat::Png => ("PNG Image", "png"),
        PageExportFormat::Psd => ("Photoshop Document", "psd"),
    }
}

/// What the file of a page is called before the full stop: its stem, after its number in the
/// project where the project is exported.
pub open spec fn job_stem(label: Seq<char>, index: Option<nat>) -> Seq<char> {
    match index {
        Some(index) => padded_text(index + 1, 4) + "_"@ + stem_of(label),
        None => stem_of(label),
    }
}

/// Makes a job of a page, given its label and, where the project is exported, its place in it.
pub fn export_page_job(id: u64, label: &str, index: Option<usize>) -> (page: ExportPage)
    requires
        index matches Some(index) ==> index < usize::MAX,
    ensures
        page.id == id,
        page.stem@ == job_stem(
            label@,
            match index {
                Some(index) => Some(index as nat),
                None => None,
            },
        ),
{
    let stem = page_stem(label);
    match index {
        Some(index) => ExportPage {
            id,
            stem: concat3(padded_decimal(index + 1, 4).as_str(), "_", stem.as_str()),
        },
        None => ExportPage { id, stem },
    }
}

/// Pages at different places of a project never share a stem.
pub proof fn law_project_stems_are_distinct(a: Seq<char>, i: nat, b: Seq<char>, j: nat)
    requires
        i != j,
    ensures
        job_stem(a, Some(i)) != job_stem(b, Some(j)),
{
    reveal_strlit("_");
    lemma_padded_text(i + 1, 4);
    lemma_padded_text(j + 1, 4);
    let (s, t) = (padded_text(i + 1, 4), padded_text(j + 1, 4));
    let (x, y) = (job_stem(a, Some(i)), job_stem(b, Some(j)));
    if x == y {
        assert(x[s.len() as int] == '_');
        assert(y[t.len() as int] == '_');
        if s.len() < t.len() {
            assert(y[s.len() as int] == t[s.len() as int]);
        }
        if t.len() < s.len() {
            assert(x[t.len() as int] == s[t.len() as int]);
        }
        assert(s =~= x.take(s.len() as int));
        assert(t =~= y.take(t.len() as int));
    }
}

/// Up to 9999 pages, the stems of a project stand in a plain list of texts in the order of the pages.
pub proof fn law_project_stems_sort(a: Seq<char>, i: nat, b: Seq<char>, j: nat)
    requires
        i < j < 9999,
    ensures
        sorts_before(job_stem(a, Some(i)), job_stem(b, Some(j))),
{
    let (x, y) = ("_"@ + stem_of(a), "_"@ + stem_of(b));
    lemma_padded_numbers_sort(i + 1, x, j + 1, y);
    assert(job_stem(a, Some(i)) =~= padded_text(i + 1, 4) + x);
    assert(job_stem(b, Some(j)) =~= padded_text(j + 1, 4) + y);
}

/// The name of a file that holds a page.
pub open spec fn page_file_name(stem: Seq<char>, extension: Seq<char>) -> Seq<char> {
    stem + "."@ + extension
}

/// A page that was looked up in the project: its label, or why it has none.
#[derive(Debug)]
pub struct PageLookup {
    pub id: u64,
    pub label: Result<String, String>,
}

/// A page that was looked up, in terms of sequences.
pub open spec fn lookup_view(lookup: PageLookup) -> (u64, Result<Seq<char>, Seq<char>>) {
    (
        lookup.id,
        match lookup.label {
            Ok(label) => Ok(label@),
            Err(cause) => Err(cause@),
        },
    )
}

/// Pages that were looked up, in terms of sequences.
pub open spec fn lookup_views(lookups: Seq<PageLookup>) -> Seq<
    (u64, Result<Seq<char>, Seq<char>>),
> {
    lookups.map_values(|lookup: PageLookup| lookup_view(lookup))
}

/// Pages to export, each with its stem.
pub open spec fn job_views(pages: Seq<ExportPage>) -> Seq<(u64, Seq<char>)> {
    pages.map_values(|page: ExportPage| (page.id, page.stem@))
}

/// The jobs of all pages of a project, or why the first page that fails does.
pub open spec fn project_jobs(lookups: Seq<(u64, Result<Seq<char>, Seq<char>>)>) -> Result<
    Seq<(u64, Seq<char>)>,
    Seq<char>,
>
    decreases lookups.len(),
{
    if lookups.len() == 0 {
        Ok(Seq::empty())
    } else {
        match project_jobs(lookups.drop_last()) {
            Err(text) => Err(text),
            Ok(jobs) => match lookups.last().1 {
                Err(cause) => Err(cause),
                Ok(label) => Ok(
                    jobs.push(
                        (lookups.last().0, job_stem(label, Some((lookups.len() - 1) as nat))),
                    ),
                ),
            },
        }
    }
}

/// The jobs of all pages of a project, of which there must be one.
pub open spec fn all_jobs(lookups: Seq<(u64, Result<Seq<char>, Seq<char>>)>) -> Result<
    Seq<(u64, Seq<char>)>,
    Seq<char>,
> {
    match project_jobs(lookups) {
        Err(text) => Err(text),
        Ok(jobs) => if jobs.len() == 0 {
            Err("there are no pages to export"@)
        } else {
            Ok(jobs)
        },
    }
}

/// Jobs, or the message of the error, in terms of sequences.
pub open spec fn jobs_result(result: Result<Vec<ExportPage>, Error>) -> Result<
    Seq<(u64, Seq<char>)>,
    Seq<char>,
> {
    match result {
        Ok(pages) => Ok(job_views(pages@)),
        Err(error) => Err(error@),
    }
}

/// Makes jobs of all pages of a project, in their order.
pub fn export_jobs(lookups: &Vec<PageLookup>) -> (pages: Result<Vec<ExportPage>, Error>)
    ensures
        jobs_result(pages) == all_jobs(lookup_views(lookups@)),
{
    let ghost views = lookup_views(lookups@);
    let mut pages: Vec<ExportPage> = Vec::new();
    let mut index: usize = 0;
    assert(views.take(0) =~= Seq::empty());
    assert(job_views(pages@) =~= Seq::<(u64, Seq<char>)>::empty());
    while index < lookups.len()
        invariant
            index <= lookups@.len(),
            views == lookup_views(lookups@),
            project_jobs(views.take(index as int)) == Ok::<Seq<(u64, Seq<char>)>, Seq<char>>(
                job_views(pages@),
            ),
        decreases lookups@.len() - index,
    {
        assert(views.take(index + 1).drop_last() =~= views.take(index as int));
        assert(views.take(index + 1).last() == lookup_view(lookups@[index as int]));
        match &lookups[index].label {
            Err(cause) => {
                proof {
                    lemma_failure_stays(
                        |lookups: Seq<(u64, Result<Seq<char>, Seq<char>>)>| project_jobs(lookups),
                        views,
                        index + 1,
                    );
                }
                return Err(Error::new(cause.as_str()));
            },
            Ok(label) => {
                let ghost before = job_views(pages@);
                let page = export_page_job(lookups[index].id, label.as_str(), Some(index));
                let ghost view = (page.id, page.stem@);
                pages.push(page);
                assert(job_views(pages@) =~= before.push(view));
            },
        }
        index = index + 1;
    }
    assert(views.take(index as int) =~= views);
    if pages.len() == 0 {
        return Err(Error::new("there are no pages to export"));
    }
    Ok(pages)
}

/// What the user is asked for, and what is then written.
#[allow(inconsistent_fields)]
#[derive(Debug)]
pub enum ExportPlan {
    /// Ask where to save one page.
    SavePage {
        page: ExportPage,
        format: PageExportFormat,
        /// What files of the format are called.
        label: String,
        extension: String,
        /// The name that is offered.
        file_name: String,
    },
    /// Ask for a folder, and save the pages in a folder inside it.
    SaveFolder {
        pages: Vec<ExportPage>,
        format: PageExportFormat,
        /// The name of the folder inside.
        folder: String,
    },
    /// Ask where to save an archive of the pages.
    SaveArchive {
        pages: Vec<ExportPage>,
        /// What archives are called.
        label: String,
        extension: String,
        /// The name that is offered.
        file_name: String,
    },
}

/// The plan of an export, in terms of sequences.
pub enum PlanView {
    SavePage(
        (u64, Seq<char>),
        PageExportFormat,
        Seq<char>,
        Seq<char>,
        Seq<char>,
    ),
    SaveFolder(Seq<(u64, Seq<char>)>, PageExportFormat, Seq<char>),
    SaveArchive(Seq<(u64, Seq<char>)>, Seq<char>, Seq<char>, Seq<char>),
}

impl View for ExportPlan {
    type V = PlanView;

    open spec fn view(&self) -> PlanView {
        match self {
            ExportPlan::SavePage { page, format, label, extension, file_name } => PlanView::SavePage(
                (page.id, page.stem@),
                *format,
                label@,
                extension@,
                file_name@,
            ),
            ExportPlan::SaveFolder { pages, format, folder } => PlanView::SaveFolder(
                job_views(pages@),
                *format,
                folder@,
            ),
            ExportPlan::SaveArchive { pages, label, extension, file_name } => PlanView::SaveArchive(
                job_views(pages@),
                label@,
                extension@,
                file_name@,
            ),
        }
    }
}

/// The plan of an export, or why there is none.
pub open spec fn export_plan(
    request: ExportRequest,
    project: Option<Seq<char>>,
    label: Result<Seq<char>, Seq<char>>,
    lookups: Seq<(u64, Result<Seq<char>, Seq<char>>)>,
) -> Result<PlanView, Seq<char>> {
    match project {
        None => Err("no project is open"@),
        Some(name) => match request {
            ExportRequest::CurrentPage { page, format } => match label {
                Err(cause) => Err(cause),
                Ok(label) => {
                    let stem = job_stem(label, None);
                    let names = format_names(format);
                    Ok(
                        PlanView::SavePage(
                            (page, stem),
                            format,
                            names.0,
                            names.1,
                            page_file_name(stem, names.1),
                        ),
                    )
                },
            },
            ExportRequest::EntireProject { format } => match all_jobs(lookups) {
                Err(text) => Err(text),
                Ok(jobs) => match format {
                    ProjectExportFormat::Png => Ok(
                        PlanView::SaveFolder(jobs, PageExportFormat::Png, name),
                    ),
                    ProjectExportFormat::Psd => Ok(
                        PlanView::SaveFolder(jobs, PageExportFormat::Psd, name),
                    ),
                    ProjectExportFormat::Cbz => Ok(
                        PlanView::SaveArchive(
                            jobs,
                            "Comic Book Archive"@,
                            "cbz"@,
                            page_file_name(name, "cbz"@),
                        ),
                    ),
                },
            },
        },
    }
}

/// A plan, or the message of the error, in terms of sequences.
pub open spec fn plan_result(result: Result<ExportPlan, Error>) -> Result<PlanView, Seq<char>> {
    match result {
        Ok(plan) => Ok(plan@),
        Err(error) => Err(error@),
    }
}

/// Plans an export. `project` is the name of the open project, if one is open; `label` is what it
/// says of the page, where one page is exported; and `lookups` are its pages, in their order, where
/// all are.
pub fn plan_export(
    request: ExportRequest,
    project: Option<&str>,
    label: Result<String, String>,
    lookups: &Vec<PageLookup>,
) -> (plan: Result<ExportPlan, Error>)
    ensures
        plan_result(plan) == export_plan(
            request,
            optional_text(project),
            text_result(label),
            lookup_views(lookups@),
        ),
{
    let name = match project {
        None => {
            return Err(Error::new("no project is open"));
        },
        Some(name) => name,
    };
    match request {
        ExportRequest::CurrentPage { page, format } => match label {
            Err(cause) => Err(Error { message: cause }),
            Ok(label) => {
                let job = export_page_job(page, label.as_str(), None);
                let (label, extension) = page_format(format);
                let file_name = concat3(job.stem.as_str(), ".", extension);
                Ok(
                    ExportPlan::SavePage {
                        page: job,
                        format,
                        label: label.to_owned(),
                        extension: extension.to_owned(),
                        file_name,
                    },
                )
            },
        },
        ExportRequest::EntireProject { format } => {
            let pages = match export_jobs(lookups) {
                Err(error) => {
                    return Err(error);
                },
                Ok(pages) => pages,
            };
            match format {
                ProjectExportFormat::Png => Ok(
                    ExportPlan::SaveFolder {
                        pages,
                        format: PageExportFormat::Png,
                        folder: name.to_owned(),
                    },
                ),
                ProjectExportFormat::Psd => Ok(
                    ExportPlan::SaveFolder {
                        pages,
                        format: PageExportFormat::Psd,
                        folder: name.to_owned(),
                    },
                ),
                ProjectExportFormat::Cbz => Ok(
                    ExportPlan::SaveArchive {
                        pages,
                        label: "Comic Book Archive".to_owned(),
                        extension: "cbz".to_owned(),
                        file_name: concat3(name, ".", "cbz"),
                    },
                ),
            }
        },
    }
}

/// Where the file of a page goes.
pub open spec fn page_file_of(
    style: PathStyle,
    directory: Seq<char>,
    stem: Seq<char>,
    format: PageExportFormat,
) -> Seq<char> {
    joined(style, directory, page_file_name(stem, format_names(format).1))
}

/// Where the file of a page goes.
pub fn page_file(style: PathStyle, directory: &str, stem: &str, format: PageExportFormat) -> (path:
    String)
    ensures
        path@ == page_file_of(style, directory@, stem@, format),
{
    let (_, extension) = page_format(format);
    join(style, directory, concat3(stem, ".", extension).as_str())
}

/// The file of a page stands in the directory of the export, under the stem of the page, unless the
/// directory does not keep its prefix.
pub proof fn law_page_file_stays_in_directory(
    style: PathStyle,
    directory: Seq<char>,
    label: Seq<char>,
    index: Option<nat>,
    format: PageExportFormat,
)
    requires
        keeps_prefix(
            style,
            directory,
            page_file_name(job_stem(label, index), format_names(format).1),
        ),
    ensures
        page_file_of(style, directory, job_stem(label, index), format) == opened(style, directory)
            + page_file_name(job_stem(label, index), format_names(format).1),
        file_name_of(style, page_file_of(style, directory, job_stem(label, index), format)) == Some(
            page_file_name(job_stem(label, index), format_names(format).1),
        ),
{
    reveal_strlit("png");
    reveal_strlit("psd");
    let name = page_file_name(job_stem(label, index), format_names(format).1);
    lemma_page_file_name(style, label, index, format_names(format).1);
    lemma_joined(style, directory, name);
    law_join_keeps_file_name(style, directory, name);
}

/// The name of the file of a page is one component of a path.
pub proof fn lemma_page_file_name(
    style: PathStyle,
    label: Seq<char>,
    index: Option<nat>,
    extension: Seq<char>,
)
    requires
        extension.len() > 0,
        forall|i: int|
            0 <= i < extension.len() ==> !is_unsafe_char(#[trigger] extension[i]) && extension[i]
                != '.',
    ensures
        is_file_name(style, page_file_name(job_stem(label, index), extension)),
        job_stem(label, index).len() > 0,
{
    reveal_strlit("_");
    reveal_strlit(".");
    law_page_stem_is_safe(label);
    let stem = job_stem(label, index);
    let name = page_file_name(stem, extension);
    if let Some(index) = index {
        lemma_padded_text(index + 1, 4);
    }
    assert forall|i: int| 0 <= i < name.len() implies !is_unsafe_char(#[trigger] name[i]) by {
        if i < stem.len() {
            assert(name[i] == stem[i]);
            if let Some(index) = index {
                let digits = padded_text(index + 1, 4);
                if i < digits.len() {
                    assert(stem[i] == digits[i]);
                } else if i > digits.len() {
                    assert(stem[i] == stem_of(label)[i - digits.len() - 1]);
                }
            }
        } else if i > stem.len() {
            assert(name[i] == extension[i - stem.len() - 1]);
        }
    }
    assert(name.last() == extension.last());
    assert(name != seq!['.']);
    assert(name != seq!['.', '.']) by {
        assert(name.last() != '.');
    }
}

/// Pages at different places of a project never share a file.
pub proof fn law_project_files_are_distinct(
    style: PathStyle,
    directory: Seq<char>,
    a: Seq<char>,
    i: nat,
    b: Seq<char>,
    j: nat,
    format: PageExportFormat,
)
    requires
        i != j,
    ensures
        page_file_of(style, directory, job_stem(a, Some(i)), format) != page_file_of(
            style,
            directory,
            job_stem(b, Some(j)),
            format,
        ),
{
    let extension = format_names(format).1;
    reveal_strlit("png");
    reveal_strlit("psd");
    law_project_stems_are_distinct(a, i, b, j);
    lemma_page_file_name(style, a, Some(i), extension);
    lemma_page_file_name(style, b, Some(j), extension);
    let (s, t) = (job_stem(a, Some(i)), job_stem(b, Some(j)));
    let (x, y) = (page_file_name(s, extension), page_file_name(t, extension));
    lemma_joined(style, directory, x);
    lemma_joined(style, directory, y);
    lemma_file_names_keep_stems(s, t, extension);
    let above = opened(style, directory);
    if above + x == above + y {
        assert(x =~= (above + x).skip(above.len() as int));
        assert(y =~= (above + y).skip(above.len() as int));
    }
}

proof fn lemma_file_names_keep_stems(a: Seq<char>, b: Seq<char>, extension: Seq<char>)
    ensures
        page_file_name(a, extension) == page_file_name(b, extension) ==> a == b,
{
    let (x, y) = (page_file_name(a, extension), page_file_name(b, extension));
    if x == y {
        assert(x.len() == a.len() + "."@.len() + extension.len());
        assert(y.len() == b.len() + "."@.len() + extension.len());
        assert(a =~= x.take(a.len() as int));
        assert(b =~= y.take(b.len() as int));
    }
}

/// Whether a text is another one with an underscore in place of each control character and of each
/// of `<`, `>`, `:`, `"`, `/`, `\\`, `|`, `?` and `*`, and with every other character as it is.
pub open spec fn is_safe_copy(copy: Seq<char>, text: Seq<char>) -> bool {
    &&& copy.len() == text.len()
    &&& forall|i: int|
        0 <= i < text.len() ==> #[trigger] copy[i] == if text[i] < ' ' || ('\u{7f}' <= text[i]
            && text[i] <= '\u{9f}') || text[i] == '<' || text[i] == '>' || text[i] == ':' || text[i]
            == '"' || text[i] == '/' || text[i] == '\\' || text[i] == '|' || text[i] == '?'
            || text[i] == '*' {
            '_'
        } else {
            text[i]
        }
}

/// The stem of a page keeps the characters of its label at their places. White space around the label
/// does not count, nor do full stops at its end; of what is left, the part up to the last full stop is
/// kept, or all of it where there is none. Only characters that are not safe in the name of a file
/// become underscores. Where nothing is kept the stem is a word of its own.
#[verifier::rlimit(60)]
pub proof fn law_page_stem_keeps_characters(
    before: Seq<char>,
    core: Seq<char>,
    after: Seq<char>,
    name: Seq<char>,
    extension: Seq<char>,
)
    requires
        all_white_space(before),
        forall|i: int|
            0 <= i < after.len() ==> is_white_space(#[trigger] after[i]) || after[i] == '.',
        core.len() > 0 ==> !is_white_space(core[0]) && !is_white_space(core.last()) && core.last()
            != '.',
    ensures
        core.len() == 0 ==> stem_of(before + core + after) == "page"@,
        core.len() > 0 && !core.contains('.') ==> is_safe_copy(
            stem_of(before + core + after),
            core,
        ),
        core == name.push('.') + extension && !extension.contains('.') && name.len() > 0
            ==> is_safe_copy(stem_of(before + core + after), name),
        core == name.push('.') + extension && !extension.contains('.') && name.len() == 0
            ==> stem_of(before + core + after) == "page"@,
{
    let label = before + core + after;
    let inner = core + after;
    assert(label =~= before + inner);
    lemma_trim_start(before, inner);
    if core.len() > 0 {
        assert(inner[0] == core[0]);
        law_trim_start(inner, 0);
        assert(inner.skip(0) =~= inner);
        lemma_trim_to_core(core, after);
    } else {
        assert(inner =~= after);
        lemma_trim_of_dots(after);
    }
    assert(trimmed_label(label) == core);
    if !core.contains('.') {
        assert forall|i: int| 0 <= i < core.len() implies core[i] != '.' by {
            assert(core.contains(core[i]));
        }
        lemma_last_index_is(core, '.', -1);
    }
    if core == name.push('.') + extension && !extension.contains('.') {
        let dot = name.len() as int;
        assert(core[dot] == '.');
        assert forall|i: int| dot < i < core.len() implies core[i] != '.' by {
            assert(core[i] == extension[i - dot - 1]);
            assert(extension.contains(extension[i - dot - 1]));
        }
        lemma_last_index_is(core, '.', dot);
        assert(core.take(dot) =~= name);
    }
}

proof fn lemma_trim_to_core(core: Seq<char>, after: Seq<char>)
    requires
        forall|i: int|
            0 <= i < after.len() ==> is_white_space(#[trigger] after[i]) || after[i] == '.',
        core.len() > 0,
        !is_white_space(core.last()),
        core.last() != '.',
    ensures
        trim_end(trim_end(core + after, false), true) == core,
    decreases after.len(),
{
    let all = core + after;
    if after.len() == 0 {
        assert(all =~= core);
    } else {
        assert(all.last() == after.last());
        let fewer = after.drop_last();
        assert(all.drop_last() =~= core + fewer);
        assert forall|i: int| 0 <= i < fewer.len() implies is_white_space(#[trigger] fewer[i])
            || fewer[i] == '.' by {
            assert(fewer[i] == after[i]);
        }
        assert(is_white_space(after[after.len() - 1]) || after[after.len() - 1] == '.');
        lemma_trim_to_core(core, fewer);
        if !is_white_space(after.last()) {
            assert forall|i: int| core.len() <= i < all.len() implies is_white_space(
                #[trigger] all[i],
            ) || all[i] == '.' by {
                assert(all[i] == after[i - core.len()]);
            }
            law_trim_end(all, true, core.len() as int);
            assert(all.take(core.len() as int) =~= core);
        }
    }
}

proof fn lemma_trim_of_dots(after: Seq<char>)
    requires
        forall|i: int|
            0 <= i < after.len() ==> is_white_space(#[trigger] after[i]) || after[i] == '.',
    ensures
        trimmed_label(after).len() == 0,
    decreases after.len(),
{
    if after.len() > 0 && is_white_space(after[0]) {
        let rest = after.drop_first();
        assert forall|i: int| 0 <= i < rest.len() implies is_white_space(#[trigger] rest[i])
            || rest[i] == '.' by {
            assert(rest[i] == after[i + 1]);
        }
        lemma_trim_of_dots(rest);
    } else {
        lemma_trim_end_of_dots(after);
    }
}

proof fn lemma_trim_end_of_dots(after: Seq<char>)
    requires
        forall|i: int|
            0 <= i < after.len() ==> is_white_space(#[trigger] after[i]) || after[i] == '.',
    ensures
        trim_end(trim_end(after, false), true).len() == 0,
    decreases after.len(),
{
    if after.len() > 0 {
        if is_white_space(after.last()) {
            let fewer = after.drop_last();
            assert forall|i: int| 0 <= i < fewer.len() implies is_white_space(#[trigger] fewer[i])
                || fewer[i] == '.' by {
                assert(fewer[i] == after[i]);
            }
            lemma_trim_end_of_dots(fewer);
        } else {
            law_trim_end(after, true, 0);
        }
    }
}

/// A page that is exported with its project is named by its number, counted from one, in four digits
/// or more, an underscore and its stem; one that is exported alone, by its stem.
#[verifier::rlimit(60)]
pub proof fn law_job_stem(label: Seq<char>, index: nat)
    ensures
        job_stem(label, None) == stem_of(label),
        ({
            let stem = job_stem(label, Some(index));
            let digits = stem.len() - stem_of(label).len() - 1;
            &&& digits >= 4
            &&& index < 9999 ==> digits == 4
            &&& forall|i: int| 0 <= i < digits ==> '0' <= #[trigger] stem[i] <= '9'
            &&& decimal_value(stem.take(digits)) == index + 1
            &&& stem[digits] == '_'
            &&& stem.skip(digits + 1) == stem_of(label)
        }),
{
    reveal_strlit("_");
    law_decimal_text(index + 1, 4);
    let number = padded_text(index + 1, 4);
    let stem = job_stem(label, Some(index));
    assert(stem.take(number.len() as int) =~= number);
    assert(stem.skip(number.len() as int + 1) =~= stem_of(label));
    assert forall|i: int| 0 <= i < number.len() implies '0' <= #[trigger] stem[i] <= '9' by {
        assert(stem[i] == number[i]);
    }
    if index < 9999 {
        lemma_four_digits(index + 1);
    }
}

/// The jobs of a project are one for each page, in the order of the pages, each with the number of
/// the page and the stem for its place. There are jobs if and only if there are pages and each has a
/// label; of several that have none, the first counts.
pub proof fn law_project_jobs(lookups: Seq<(u64, Result<Seq<char>, Seq<char>>)>)
    ensures
        match all_jobs(lookups) {
            Ok(jobs) => {
                &&& jobs.len() == lookups.len() && jobs.len() > 0
                &&& forall|i: int|
                    0 <= i < lookups.len() ==> (#[trigger] lookups[i]).1 is Ok && jobs[i].0
                        == lookups[i].0 && jobs[i].1 == job_stem(
                        lookups[i].1->Ok_0,
                        Some(i as nat),
                    )
            },
            Err(text) => if lookups.len() == 0 {
                text == "there are no pages to export"@
            } else {
                exists|i: int|
                    0 <= i < lookups.len() && (#[trigger] lookups[i]).1 == Err::<
                        Seq<char>,
                        Seq<char>,
                    >(text) && forall|j: int| 0 <= j < i ==> (#[trigger] lookups[j]).1 is Ok
            },
        },
{
    lemma_project_jobs(lookups);
}

proof fn lemma_project_jobs(lookups: Seq<(u64, Result<Seq<char>, Seq<char>>)>)
    ensures
        match project_jobs(lookups) {
            Ok(jobs) => {
                &&& jobs.len() == lookups.len()
                &&& forall|i: int|
                    0 <= i < lookups.len() ==> (#[trigger] lookups[i]).1 is Ok && jobs[i].0
                        == lookups[i].0 && jobs[i].1 == job_stem(
                        lookups[i].1->Ok_0,
                        Some(i as nat),
                    )
            },
            Err(text) => exists|i: int|
                0 <= i < lookups.len() && (#[trigger] lookups[i]).1 == Err::<Seq<char>, Seq<char>>(
                    text,
                ) && forall|j: int| 0 <= j < i ==> (#[trigger] lookups[j]).1 is Ok,
        },
    decreases lookups.len(),
{
    if lookups.len() > 0 {
        let before = lookups.drop_last();
        let last = lookups.len() - 1;
        lemma_project_jobs(before);
        assert forall|i: int| 0 <= i < last implies #[trigger] lookups[i] == before[i] by {}
        match project_jobs(before) {
            Err(text) => {
                let i = choose|i: int|
                    0 <= i < before.len() && (#[trigger] before[i]).1 == Err::<
                        Seq<char>,
                        Seq<char>,
                    >(text) && forall|j: int| 0 <= j < i ==> (#[trigger] before[j]).1 is Ok;
                assert(lookups[i] == before[i]);
                assert forall|j: int| 0 <= j < i implies (#[trigger] lookups[j]).1 is Ok by {
                    assert(lookups[j] == before[j]);
                }
            },
            Ok(jobs) => {
                assert forall|i: int| 0 <= i < last implies (#[trigger] lookups[i]).1 is Ok by {
                    assert(lookups[i] == before[i]);
                }
                assert(lookups[last] == lookups.last());
            },
        }
    }
}

/// What an export asks for and writes: one page under its own name, in the format that was asked for;
/// all pages in a folder named like the project; or all pages in an archive named like the project.
/// Without an open project there is no export.
#[verifier::rlimit(60)]
pub proof fn law_export_plan(
    request: ExportRequest,
    name: Seq<char>,
    label: Result<Seq<char>, Seq<char>>,
    lookups: Seq<(u64, Result<Seq<char>, Seq<char>>)>,
)
    ensures
        export_plan(request, None, label, lookups) == Err::<PlanView, Seq<char>>(
            "no project is open"@,
        ),
        match request {
            ExportRequest::CurrentPage { page, format } => match export_plan(
                request,
                Some(name),
                label,
                lookups,
            ) {
                Ok(PlanView::SavePage(job, chosen, kind, extension, offered)) => {
                    &&& label is Ok
                    &&& job == (page, stem_of(label->Ok_0))
                    &&& chosen == format
                    &&& kind == if format == PageExportFormat::Png {
                        "PNG Image"@
                    } else {
                        "Photoshop Document"@
                    }
                    &&& extension == if format == PageExportFormat::Png {
                        "png"@
                    } else {
                        "psd"@
                    }
                    &&& offered == stem_of(label->Ok_0) + "."@ + extension
                },
                Ok(_) => false,
                Err(text) => label == Err::<Seq<char>, Seq<char>>(text),
            },
            ExportRequest::EntireProject { format } => match export_plan(
                request,
                Some(name),
                label,
                lookups,
            ) {
                Ok(PlanView::SavePage(_, _, _, _, _)) => false,
                Ok(PlanView::SaveFolder(jobs, chosen, folder)) => {
                    &&& all_jobs(lookups) == Ok::<Seq<(u64, Seq<char>)>, Seq<char>>(jobs)
                    &&& folder == name
                    &&& format == if chosen == PageExportFormat::Png {
                        ProjectExportFormat::Png
                    } else {
                        ProjectExportFormat::Psd
                    }
                },
                Ok(PlanView::SaveArchive(jobs, kind, extension, offered)) => {
                    &&& all_jobs(lookups) == Ok::<Seq<(u64, Seq<char>)>, Seq<char>>(jobs)
                    &&& format == ProjectExportFormat::Cbz
                    &&& kind == "Comic Book Archive"@
                    &&& extension == "cbz"@
                    &&& offered == name + "."@ + "cbz"@
                },
                Err(text) => all_jobs(lookups) == Err::<Seq<(u64, Seq<char>)>, Seq<char>>(text),
            },
        },
{
}

/// The file of a page stands directly in its directory: the path starts with all of the directory and
/// ends with the stem, a full stop and the extension of the format, with one separator before them
/// where the directory has none at its end.
pub proof fn law_page_file(directory: Seq<char>, stem: Seq<char>, format: PageExportFormat)
    requires
        stem.len() > 0,
        !stem.contains('/'),
    ensures
        ({
            let path = page_file_of(PathStyle::Slashes, directory, stem, format);
            let name = stem + if format == PageExportFormat::Png {
                ".png"@
            } else {
                ".psd"@
            };
            let gap = path.len() - directory.len() - name.len();
            &&& gap == if directory.len() > 0 && directory.last() != '/' {
                1int
            } else {
                0int
            }
            &&& path.take(directory.len() as int) == directory
            &&& path.skip(path.len() - name.len()) == name
            &&& gap == 1 ==> path[directory.len() as int] == '/'
        }),
{
    reveal_strlit(".");
    reveal_strlit("png");
    reveal_strlit("psd");
    reveal_strlit(".png");
    reveal_strlit(".psd");
    let name = page_file_name(stem, format_names(format).1);
    assert(name =~= stem + if format == PageExportFormat::Png {
        ".png"@
    } else {
        ".psd"@
    });
    assert(stem.contains(stem[0]));
    assert(name[0] == stem[0]);
    law_joined(directory, name);
}

/// What was looked up keeps its place, and so do the jobs.
pub proof fn law_lookup_views(lookups: Seq<PageLookup>, pages: Seq<ExportPage>, i: int)
    ensures
        lookup_views(lookups).len() == lookups.len(),
        0 <= i < lookups.len() ==> lookup_views(lookups)[i].0 == lookups[i].id,
        0 <= i < lookups.len() ==> match lookups[i].label {
            Ok(label) => lookup_views(lookups)[i].1 == Ok::<Seq<char>, Seq<char>>(label@),
            Err(cause) => lookup_views(lookups)[i].1 == Err::<Seq<char>, Seq<char>>(cause@),
        },
        job_views(pages).len() == pages.len(),
        0 <= i < pages.len() ==> job_views(pages)[i] == (pages[i].id, pages[i].stem@),
{
}

/// What comes back of an export is taken as it is.
pub proof fn law_export_results(
    jobs: Result<Vec<ExportPage>, Error>,
    plan: Result<ExportPlan, Error>,
)
    ensures
        match jobs {
            Ok(pages) => jobs_result(jobs) == Ok::<Seq<(u64, Seq<char>)>, Seq<char>>(
                job_views(pages@),
            ),
            Err(error) => jobs_result(jobs) == Err::<Seq<(u64, Seq<char>)>, Seq<char>>(
                error.message@,
            ),
        },
        match plan {
            Ok(ExportPlan::SavePage { page, format, label, extension, file_name }) => plan_result(
                plan,
            ) == Ok::<PlanView, Seq<char>>(
                PlanView::SavePage(
                    (page.id, page.stem@),
                    format,
                    label@,
                    extension@,
                    file_name@,
                ),
            ),
            Ok(ExportPlan::SaveFolder { pages, format, folder }) => plan_result(plan) == Ok::<
                PlanView,
                Seq<char>,
            >(PlanView::SaveFolder(job_views(pages@), format, folder@)),
            Ok(ExportPlan::SaveArchive { pages, label, extension, file_name }) => plan_result(plan)
                == Ok::<PlanView, Seq<char>>(
                PlanView::SaveArchive(job_views(pages@), label@, extension@, file_name@),
            ),
            Err(error) => plan_result(plan) == Err::<PlanView, Seq<char>>(error.message@),
        },
{
}

} // verus!
