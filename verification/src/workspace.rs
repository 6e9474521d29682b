//! The open project: what happens when another one takes its place.

use crate::error::{caused, Error};
use crate::text::equal_texts;
use crate::views::{optional_string, optional_text};
use vstd::prelude::*;

verus! {

/// Something that the application does for a change of the open project, in the given order. One
/// that fails keeps the later ones from being done.
#[derive(Debug)]
pub enum WorkspaceAction {
    /// The agent forgets its conversation.
    ResetAgent,
    /// A running job is told to stop.
    StopJob { job: u64 },
    /// The list of jobs is emptied.
    ClearJobs,
    /// The project becomes the open one.
    Open { name: String },
    /// The open project is closed.
    Close,
    /// The active page of the open project is shown.
    ShowPage,
    /// The canvas is emptied.
    ClearCanvas,
    /// Listeners are told what the canvas shows.
    PublishCanvas,
    /// Listeners are told which project is open.
    PublishProject { project: Option<String> },
    /// The project is deleted from the library.
    Delete { name: String },
}

/// Such an action, in terms of sequences.
pub enum ActionView {
    ResetAgent,
    StopJob(u64),
    ClearJobs,
    Open(Seq<char>),
    Close,
    ShowPage,
    ClearCanvas,
    PublishCanvas,
    PublishProject(Option<Seq<char>>),
    Delete(Seq<char>),
}

impl View for WorkspaceAction {
    type V = ActionView;

    open spec fn view(&self) -> ActionView {
        match self {
            WorkspaceAction::ResetAgent => ActionView::ResetAgent,
            WorkspaceAction::StopJob { job } => ActionView::StopJob(*job),
            WorkspaceAction::ClearJobs => ActionView::ClearJobs,
            WorkspaceAction::Open { name } => ActionView::Open(name@),
            WorkspaceAction::Close => ActionView::Close,
            WorkspaceAction::ShowPage => ActionView::ShowPage,
            WorkspaceAction::ClearCanvas => ActionView::ClearCanvas,
            WorkspaceAction::PublishCanvas => ActionView::PublishCanvas,
            WorkspaceAction::PublishProject { project } => ActionView::PublishProject(
                optional_string(*project),
            ),
            WorkspaceAction::Delete { name } => ActionView::Delete(name@),
        }
    }
}

/// Actions, in terms of sequences.
pub open spec fn action_views(actions: Seq<WorkspaceAction>) -> Seq<ActionView> {
    actions.map_values(|action: WorkspaceAction| action@)
}

/// What ends all work on the open project.
pub open spec fn settling(jobs: Seq<u64>) -> Seq<ActionView> {
    seq![ActionView::ResetAgent] + jobs.map_values(|job: u64| ActionView::StopJob(job)) + seq![
        ActionView::ClearJobs,
    ]
}

/// What happens when a project takes the place of the open one.
pub open spec fn replacing(jobs: Seq<u64>, name: Seq<char>) -> Seq<ActionView> {
    settling(jobs) + seq![
        ActionView::Open(name),
        ActionView::ShowPage,
        ActionView::PublishCanvas,
        ActionView::PublishProject(Some(name)),
    ]
}

/// What happens when the open project is closed.
pub open spec fn closing(jobs: Seq<u64>) -> Seq<ActionView> {
    settling(jobs) + seq![
        ActionView::Close,
        ActionView::ClearCanvas,
        ActionView::PublishCanvas,
        ActionView::PublishProject(None),
    ]
}

/// What happens when a project is deleted: it is closed first where it is the open one.
pub open spec fn deleting(jobs: Seq<u64>, open: Option<Seq<char>>, name: Seq<char>) -> Seq<
    ActionView,
> {
    if open == Some(name) {
        closing(jobs) + seq![ActionView::Delete(name)]
    } else {
        seq![ActionView::Delete(name)]
    }
}

/// Which project is open after some actions.
pub open spec fn open_after(open: Option<Seq<char>>, actions: Seq<ActionView>) -> Option<Seq<char>>
    decreases actions.len(),
{
    if actions.len() == 0 {
        open
    } else {
        match actions.last() {
            ActionView::Open(name) => Some(name),
            ActionView::Close => None,
            _ => open_after(open, actions.drop_last()),
        }
    }
}

fn settle(jobs: &Vec<u64>) -> (actions: Vec<WorkspaceAction>)
    ensures
        action_views(actions@) == settling(jobs@),
{
    let mut actions: Vec<WorkspaceAction> = Vec::new();
    actions.push(WorkspaceAction::ResetAgent);
    let mut i: usize = 0;
    assert(action_views(actions@) =~= seq![ActionView::ResetAgent] + jobs@.take(0).map_values(
        |job: u64| ActionView::StopJob(job),
    ));
    while i < jobs.len()
        invariant
            i <= jobs@.len(),
            action_views(actions@) == seq![ActionView::ResetAgent] + jobs@.take(
                i as int,
            ).map_values(|job: u64| ActionView::StopJob(job)),
        decreases jobs@.len() - i,
    {
        let ghost before = action_views(actions@);
        actions.push(WorkspaceAction::StopJob { job: jobs[i] });
        i = i + 1;
        assert(action_views(actions@) =~= before.push(ActionView::StopJob(jobs@[i - 1])));
        assert(action_views(actions@) =~= seq![ActionView::ResetAgent] + jobs@.take(
            i as int,
        ).map_values(|job: u64| ActionView::StopJob(job)));
    }
    assert(jobs@.take(i as int) =~= jobs@);
    actions.push(WorkspaceAction::ClearJobs);
    assert(action_views(actions@) =~= settling(jobs@));
    actions
}

/// Puts a project in the place of the open one; `jobs` are those that are running.
pub fn replace_project(jobs: &Vec<u64>, name: &str) -> (actions: Vec<WorkspaceAction>)
    ensures
        action_views(actions@) == replacing(jobs@, name@),
{
    let mut actions = settle(jobs);
    actions.push(WorkspaceAction::Open { name: name.to_owned() });
    actions.push(WorkspaceAction::ShowPage);
    actions.push(WorkspaceAction::PublishCanvas);
    actions.push(WorkspaceAction::PublishProject { project: Some(name.to_owned()) });
    assert(action_views(actions@) =~= replacing(jobs@, name@));
    actions
}

/// Closes the open project; `jobs` are those that are running.
pub fn close_current_project(jobs: &Vec<u64>) -> (actions: Vec<WorkspaceAction>)
    ensures
        action_views(actions@) == closing(jobs@),
{
    let mut actions = settle(jobs);
    actions.push(WorkspaceAction::Close);
    actions.push(WorkspaceAction::ClearCanvas);
    actions.push(WorkspaceAction::PublishCanvas);
    actions.push(WorkspaceAction::PublishProject { project: None });
    assert(action_views(actions@) =~= closing(jobs@));
    actions
}

/// Deletes a project; `open` is the name of the open one, and `jobs` are those that are running.
pub fn delete_project(jobs: &Vec<u64>, open: Option<&str>, name: &str) -> (actions: Vec<
    WorkspaceAction,
>)
    ensures
        action_views(actions@) == deleting(jobs@, optional_text(open), name@),
{
    let active = match open {
        Some(open) => equal_texts(open, name),
        None => false,
    };
    let mut actions = if active {
        close_current_project(jobs)
    } else {
        Vec::new()
    };
    actions.push(WorkspaceAction::Delete { name: name.to_owned() });
    assert(action_views(actions@) =~= deleting(jobs@, optional_text(open), name@));
    actions
}

/// A deleted project is not open any more, and deleting one leaves any other open.
pub proof fn law_deleted_project_is_not_open(
    jobs: Seq<u64>,
    open: Option<Seq<char>>,
    name: Seq<char>,
)
    ensures
        open_after(open, deleting(jobs, open, name)) == if open == Some(name) {
            None
        } else {
            open
        },
{
    reveal_with_fuel(open_after, 6);
    let actions = deleting(jobs, open, name);
    if open == Some(name) {
        let closed = closing(jobs);
        assert(actions.drop_last() =~= closed);
        assert(closed.drop_last().drop_last().drop_last().last() == ActionView::Close);
    } else {
        assert(actions.drop_last() =~= Seq::empty());
    }
}

/// After a project takes the place of the open one, it is the open one, and after closing none is.
pub proof fn law_replaced_project_is_open(
    jobs: Seq<u64>,
    open: Option<Seq<char>>,
    name: Seq<char>,
)
    ensures
        open_after(open, replacing(jobs, name)) == Some(name),
        open_after(open, closing(jobs)) is None,
{
    reveal_with_fuel(open_after, 5);
    assert(replacing(jobs, name).drop_last().drop_last().drop_last().last() == ActionView::Open(
        name,
    ));
    assert(closing(jobs).drop_last().drop_last().drop_last().last() == ActionView::Close);
}

/// Checks that a project is open.
pub fn require_project(open: bool) -> (checked: Result<(), Error>)
    ensures
        match checked {
            Ok(()) => open,
            Err(error) => !open && error@ == "no project is open"@,
        },
{
    if open {
        Ok(())
    } else {
        Err(Error::new("no project is open"))
    }
}

/// Decides whether the application can be used: it can once it is ready. Otherwise it is waited
/// for, unless it has gone away, for the given cause, without ever being ready.
pub fn startup_step(ready: bool, gone: Option<String>) -> (usable: Result<bool, Error>)
    ensures
        match usable {
            Ok(usable) => usable == ready && (ready || gone is None),
            Err(error) => !ready && (gone matches Some(cause) && error@ == caused(
                "startup state closed before initialization completed"@,
                cause@,
            )),
        },
{
    if ready {
        return Ok(true);
    }
    match gone {
        Some(cause) => Err(
            Error::because(
                "startup state closed before initialization completed",
                cause.as_str(),
            ),
        ),
        None => Ok(false),
    }
}

/// When a project takes the place of the open one, the agent is reset first, then each job that is
/// running is told to stop, in their order, and the list of jobs is emptied; only then does the project
/// become the open one, is shown and told of. Closing goes the same way, and leaves no project.
pub proof fn law_order_of_actions(jobs: Seq<u64>, name: Seq<char>, i: int)
    ensures
        replacing(jobs, name).len() == jobs.len() + 6,
        closing(jobs).len() == jobs.len() + 6,
        replacing(jobs, name)[0] == ActionView::ResetAgent,
        closing(jobs)[0] == ActionView::ResetAgent,
        0 <= i < jobs.len() ==> replacing(jobs, name)[i + 1] == ActionView::StopJob(jobs[i]),
        0 <= i < jobs.len() ==> closing(jobs)[i + 1] == ActionView::StopJob(jobs[i]),
        replacing(jobs, name).skip(jobs.len() as int + 1) == seq![
            ActionView::ClearJobs,
            ActionView::Open(name),
            ActionView::ShowPage,
            ActionView::PublishCanvas,
            ActionView::PublishProject(Some(name)),
        ],
        closing(jobs).skip(jobs.len() as int + 1) == seq![
            ActionView::ClearJobs,
            ActionView::Close,
            ActionView::ClearCanvas,
            ActionView::PublishCanvas,
            ActionView::PublishProject(None),
        ],
{
    assert(replacing(jobs, name).skip(jobs.len() as int + 1) =~= seq![
        ActionView::ClearJobs,
        ActionView::Open(name),
        ActionView::ShowPage,
        ActionView::PublishCanvas,
        ActionView::PublishProject(Some(name)),
    ]);
    assert(closing(jobs).skip(jobs.len() as int + 1) =~= seq![
        ActionView::ClearJobs,
        ActionView::Close,
        ActionView::ClearCanvas,
        ActionView::PublishCanvas,
        ActionView::PublishProject(None),
    ]);
}

/// A project is deleted last, and once: after it was closed where it is the open one, and at once
/// where it is not.
pub proof fn law_deletion_comes_last(jobs: Seq<u64>, open: Option<Seq<char>>, name: Seq<char>)
    ensures
        deleting(jobs, open, name).last() == ActionView::Delete(name),
        open == Some(name) ==> deleting(jobs, open, name).drop_last() == closing(jobs),
        open != Some(name) ==> deleting(jobs, open, name).len() == 1,
{
    if open == Some(name) {
        assert(deleting(jobs, open, name).drop_last() =~= closing(jobs));
    }
}

/// Actions keep their places, and each says what it does.
pub proof fn law_action_views(actions: Seq<WorkspaceAction>, i: int)
    requires
        0 <= i < actions.len(),
    ensures
        action_views(actions).len() == actions.len(),
        match actions[i] {
            WorkspaceAction::ResetAgent => action_views(actions)[i] == ActionView::ResetAgent,
            WorkspaceAction::StopJob { job } => action_views(actions)[i] == ActionView::StopJob(job),
            WorkspaceAction::ClearJobs => action_views(actions)[i] == ActionView::ClearJobs,
            WorkspaceAction::Open { name } => action_views(actions)[i] == ActionView::Open(name@),
            WorkspaceAction::Close => action_views(actions)[i] == ActionView::Close,
            WorkspaceAction::ShowPage => action_views(actions)[i] == ActionView::ShowPage,
            WorkspaceAction::ClearCanvas => action_views(actions)[i] == ActionView::ClearCanvas,
            WorkspaceAction::PublishCanvas => action_views(actions)[i]
                == ActionView::PublishCanvas,
            WorkspaceAction::PublishProject { project: Some(name) } => action_views(actions)[i]
                == ActionView::PublishProject(Some(name@)),
            WorkspaceAction::PublishProject { project: None } => action_views(actions)[i]
                == ActionView::PublishProject(None),
            WorkspaceAction::Delete { name } => action_views(actions)[i] == ActionView::Delete(
                name@,
            ),
        },
{
}

} // verus!
