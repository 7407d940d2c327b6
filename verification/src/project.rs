//! The projects that brokkr knows, and what is meant for which of them.

use crate::error::{DevError, ErrorView};
use crate::text::same;
use vstd::prelude::*;

verus! {

/// A project, by the repository that the tool runs in.
#[derive(Clone, Copy, Debug, PartialEq, Eq)]
pub enum Project {
    Pbfhogg,
    Elivagar,
    Nidhogg,
    Litehtml,
    Sluggrs,
    Ratatoskr,
    Piners,
    Mogwai,
    Dellingr,
    /// Any other repository, by its name; empty where there is none.
    Other(&'static str),
}

impl Project {
    /// The name of the project.
    pub open spec fn name_text(self) -> Seq<char> {
        match self {
            Project::Pbfhogg => "pbfhogg"@,
            Project::Elivagar => "elivagar"@,
            Project::Nidhogg => "nidhogg"@,
            Project::Litehtml => "litehtml"@,
            Project::Sluggrs => "sluggrs"@,
            Project::Ratatoskr => "ratatoskr"@,
            Project::Piners => "piners"@,
            Project::Mogwai => "mogwai"@,
            Project::Dellingr => "dellingr"@,
            Project::Other(name) => name@,
        }
    }

    /// Names the project.
    pub fn name(&self) -> (r: &'static str)
        ensures
            r@ == self.name_text(),
    {
        match self {
            Project::Pbfhogg => "pbfhogg",
            Project::Elivagar => "elivagar",
            Project::Nidhogg => "nidhogg",
            Project::Litehtml => "litehtml",
            Project::Sluggrs => "sluggrs",
            Project::Ratatoskr => "ratatoskr",
            Project::Piners => "piners",
            Project::Mogwai => "mogwai",
            Project::Dellingr => "dellingr",
            Project::Other(name) => name,
        }
    }
}

/// Whether two values stand for the same project.
pub open spec fn is_project(a: Project, b: Project) -> bool {
    match (a, b) {
        (Project::Pbfhogg, Project::Pbfhogg) => true,
        (Project::Elivagar, Project::Elivagar) => true,
        (Project::Nidhogg, Project::Nidhogg) => true,
        (Project::Litehtml, Project::Litehtml) => true,
        (Project::Sluggrs, Project::Sluggrs) => true,
        (Project::Ratatoskr, Project::Ratatoskr) => true,
        (Project::Piners, Project::Piners) => true,
        (Project::Mogwai, Project::Mogwai) => true,
        (Project::Dellingr, Project::Dellingr) => true,
        (Project::Other(x), Project::Other(y)) => x@ == y@,
        _ => false,
    }
}

/// Compares two projects.
pub fn same_project(a: Project, b: Project) -> (r: bool)
    ensures
        r == is_project(a, b),
{
    match (a, b) {
        (Project::Pbfhogg, Project::Pbfhogg) => true,
        (Project::Elivagar, Project::Elivagar) => true,
        (Project::Nidhogg, Project::Nidhogg) => true,
        (Project::Litehtml, Project::Litehtml) => true,
        (Project::Sluggrs, Project::Sluggrs) => true,
        (Project::Ratatoskr, Project::Ratatoskr) => true,
        (Project::Piners, Project::Piners) => true,
        (Project::Mogwai, Project::Mogwai) => true,
        (Project::Dellingr, Project::Dellingr) => true,
        (Project::Other(x), Project::Other(y)) => same(x, y),
        _ => false,
    }
}

/// For which projects something is meant.
#[derive(Debug)]
pub enum Visibility {
    /// For all.
    Any,
    /// For those in the list.
    Only(Vec<Project>),
}

/// Whether a list has the project.
pub open spec fn has_project(list: Seq<Project>, project: Project) -> bool {
    exists|i: int| 0 <= i < list.len() && is_project(#[trigger] list[i], project)
}

/// Whether a list of projects, where there is one, has the project.
pub open spec fn is_visible(only: Option<Seq<Project>>, project: Project) -> bool {
    match only {
        None => true,
        Some(list) => has_project(list, project),
    }
}

impl View for Visibility {
    type V = Option<Seq<Project>>;

    open spec fn view(&self) -> Option<Seq<Project>> {
        match self {
            Visibility::Any => None,
            Visibility::Only(list) => Some(list@),
        }
    }
}

/// Tests whether something is meant for the project.
pub fn visible_to(visibility: &Visibility, project: Project) -> (r: bool)
    ensures
        r == is_visible(visibility@, project),
{
    match visibility {
        Visibility::Any => true,
        Visibility::Only(list) => {
            let mut i: usize = 0;
            while i < list.len()
                invariant
                    i <= list@.len(),
                    visibility@ == Some(list@),
                    forall|k: int| 0 <= k < i ==> !is_project(#[trigger] list@[k], project),
                decreases list@.len() - i,
            {
                if same_project(list[i], project) {
                    assert(is_project(list@[i as int], project));
                    return true;
                }
                i += 1;
            }
            false
        },
    }
}

/// For one project.
pub fn only_one(a: Project) -> (r: Visibility)
    ensures
        r@ == Some(seq![a]),
{
    let list = vec![a];
    assert(list@ =~= seq![a]);
    Visibility::Only(list)
}

/// For two projects.
pub fn only_two(a: Project, b: Project) -> (r: Visibility)
    ensures
        r@ == Some(seq![a, b]),
{
    let list = vec![a, b];
    assert(list@ =~= seq![a, b]);
    Visibility::Only(list)
}

/// For three projects.
pub fn only_three(a: Project, b: Project, c: Project) -> (r: Visibility)
    ensures
        r@ == Some(seq![a, b, c]),
{
    let list = vec![a, b, c];
    assert(list@ =~= seq![a, b, c]);
    Visibility::Only(list)
}

/// Refuses a command outside the project that it belongs to.
pub fn require(project: Project, wanted: Project, command: &str) -> (r: Result<(), DevError>)
    ensures
        is_project(project, wanted) <==> r is Ok,
        r matches Err(e) ==> e@ == ErrorView::Config(
            "'brokkr "@ + command@ + "' is only available in "@ + wanted.name_text()
                + " projects (current: "@ + project.name_text() + ")"@,
        ),
{
    if same_project(project, wanted) {
        return Ok(());
    }
    let mut m = "'brokkr ".to_owned();
    m.append(command);
    m.append("' is only available in ");
    m.append(wanted.name());
    m.append(" projects (current: ");
    m.append(project.name());
    m.append(")");
    Err(DevError::Config(m))
}

/// A topic or a rule for some projects is for just those; one without a list is for
/// all.
pub proof fn visible_to_those_listed(list: Seq<Project>, project: Project)
    ensures
        is_visible(None, project),
        list.contains(project) ==> is_visible(Some(list), project),
        is_visible(Some(list), project) <==> exists|i: int|
            0 <= i < list.len() && is_project(#[trigger] list[i], project),
{
    if list.contains(project) {
        let i = choose|i: int| 0 <= i < list.len() && list[i] == project;
        assert(is_project(list[i], project));
    }
}

} // verus!
