use crate::config::Config;
use vstd::prelude::*;
use vstd::string::StringExecFns;

verus! {

/// The kinds of object that the registry holds, one directory for each.
#[derive(Clone, Copy, Debug, PartialEq, Eq, Structural)]
pub enum ResourceKind {
    Autnum,
    Domain,
    Inetnum,
    Inet6num,
    Route,
    Route6,
}

impl ResourceKind {
    /// The name of the directory that holds the objects of a kind.
    pub open spec fn directory_spec(self) -> Seq<char> {
        match self {
            ResourceKind::Autnum => "autnum"@,
            ResourceKind::Domain => "domain"@,
            ResourceKind::Inetnum => "inetnum"@,
            ResourceKind::Inet6num => "inet6num"@,
            ResourceKind::Route => "route"@,
            ResourceKind::Route6 => "route6"@,
        }
    }

    /// The name of the directory that holds the objects of a kind.
    pub fn directory(self) -> (r: &'static str)
        ensures
            r@ == self.directory_spec(),
    {
        match self {
            ResourceKind::Autnum => "autnum",
            ResourceKind::Domain => "domain",
            ResourceKind::Inetnum => "inetnum",
            ResourceKind::Inet6num => "inet6num",
            ResourceKind::Route => "route",
            ResourceKind::Route6 => "route6",
        }
    }
}

/// The kinds in the order in which their directories are loaded.
pub open spec fn load_order_spec() -> Seq<ResourceKind> {
    seq![
        ResourceKind::Autnum,
        ResourceKind::Domain,
        ResourceKind::Inetnum,
        ResourceKind::Inet6num,
        ResourceKind::Route,
        ResourceKind::Route6,
    ]
}

/// The kinds in the order in which their directories are loaded.
pub fn load_order() -> (r: Vec<ResourceKind>)
    ensures
        r@ == load_order_spec(),
{
    let r = vec![
        ResourceKind::Autnum,
        ResourceKind::Domain,
        ResourceKind::Inetnum,
        ResourceKind::Inet6num,
        ResourceKind::Route,
        ResourceKind::Route6,
    ];
    proof {
        assert(r@ =~= load_order_spec());
    }
    r
}

/// Whether a file of a directory is left out of the load: one whose name
/// begins with a dot.
pub fn is_hidden(file_name: &str) -> (r: bool)
    ensures
        r == (file_name@.len() > 0 && file_name@[0] == '.'),
{
    file_name.unicode_len() > 0 && file_name.get_char(0) == '.'
}

/// What the loader learned in the course of an update.
#[derive(Debug)]
pub enum UpdateEvent {
    /// Whether the directory of the mirror exists.
    Probed { mirror_present: bool },
    /// The mirror was cloned from the upstream.
    Cloned,
    /// The branch was fetched from the upstream, or could not be.
    Fetched { ok: bool },
    /// The commit that the local branch stands at and the commit that was
    /// fetched, where there is one.
    Tips { local: Option<String>, fetched: Option<String> },
    /// The local branch and the working tree were brought to a commit.
    Advanced,
}

/// What the loader does next in the course of an update.
#[derive(Debug)]
pub enum UpdateAction {
    /// Clone the mirror from the upstream.
    CloneMirror,
    /// Fetch the branch from the upstream.
    Fetch,
    /// Read the commits of the local branch and of what was fetched.
    ReadTips,
    /// Bring the local branch and the working tree to a commit, with force.
    AdvanceTo(String),
    /// End the update and report whether the mirror changed.
    Finish { changed: bool },
}

/// What an event holds.
pub enum UpdateEventView {
    Probed { mirror_present: bool },
    Cloned,
    Fetched { ok: bool },
    Tips { local: Option<Seq<char>>, fetched: Option<Seq<char>> },
    Advanced,
}

/// What an action holds.
pub enum UpdateActionView {
    CloneMirror,
    Fetch,
    ReadTips,
    AdvanceTo(Seq<char>),
    Finish { changed: bool },
}

/// What an optional commit holds.
pub open spec fn tip_of(tip: Option<String>) -> Option<Seq<char>> {
    match tip {
        Some(t) => Some(t@),
        None => None,
    }
}

impl View for UpdateEvent {
    type V = UpdateEventView;

    open spec fn view(&self) -> UpdateEventView {
        match self {
            UpdateEvent::Probed { mirror_present } => UpdateEventView::Probed {
                mirror_present: *mirror_present,
            },
            UpdateEvent::Cloned => UpdateEventView::Cloned,
            UpdateEvent::Fetched { ok } => UpdateEventView::Fetched { ok: *ok },
            UpdateEvent::Tips { local, fetched } => UpdateEventView::Tips {
                local: tip_of(*local),
                fetched: tip_of(*fetched),
            },
            UpdateEvent::Advanced => UpdateEventView::Advanced,
        }
    }
}

impl View for UpdateAction {
    type V = UpdateActionView;

    open spec fn view(&self) -> UpdateActionView {
        match self {
            UpdateAction::CloneMirror => UpdateActionView::CloneMirror,
            UpdateAction::Fetch => UpdateActionView::Fetch,
            UpdateAction::ReadTips => UpdateActionView::ReadTips,
            UpdateAction::AdvanceTo(tip) => UpdateActionView::AdvanceTo(tip@),
            UpdateAction::Finish { changed } => UpdateActionView::Finish { changed: *changed },
        }
    }
}

/// An update can go on after every event but one: that the local branch and
/// what was fetched differ and nothing was fetched to advance to.
pub open spec fn can_go_on(event: UpdateEventView) -> bool {
    match event {
        UpdateEventView::Tips { local, fetched } => local == fetched || fetched is Some,
        _ => true,
    }
}

/// What follows an event: a missing mirror is cloned, and that is a change; a
/// mirror that is there is fetched into; a fetch that failed ends the update
/// without a change; after a fetch the commits are compared, equal commits end
/// the update without a change, and others advance the mirror to what was
/// fetched, which is a change.
pub open spec fn next_action(event: UpdateEventView) -> UpdateActionView {
    match event {
        UpdateEventView::Probed { mirror_present } => if mirror_present {
            UpdateActionView::Fetch
        } else {
            UpdateActionView::CloneMirror
        },
        UpdateEventView::Cloned => UpdateActionView::Finish { changed: true },
        UpdateEventView::Fetched { ok } => if ok {
            UpdateActionView::ReadTips
        } else {
            UpdateActionView::Finish { changed: false }
        },
        UpdateEventView::Tips { local, fetched } => if local == fetched {
            UpdateActionView::Finish { changed: false }
        } else {
            UpdateActionView::AdvanceTo(fetched.unwrap())
        },
        UpdateEventView::Advanced => UpdateActionView::Finish { changed: true },
    }
}

/// Whether two optional commits are the same.
pub fn same_tip(a: &Option<String>, b: &Option<String>) -> (r: bool)
    ensures
        r == (tip_of(*a) == tip_of(*b)),
{
    match (a, b) {
        (Some(x), Some(y)) => *x == *y,
        (None, None) => true,
        _ => false,
    }
}

/// The registry's repository as a source of objects: the directory of the
/// local mirror, the branch that is followed, and the upstream's address.
#[derive(Debug)]
pub struct GitDataSource {
    pub git_path: String,
    pub git_branch: String,
    pub git_repo: String,
}

impl GitDataSource {
    /// The source that the options name.
    pub fn new(config: Config) -> (r: Self)
        ensures
            r.git_path@ == config.git_path@,
            r.git_branch@ == config.git_branch@,
            r.git_repo@ == config.git_repo@,
    {
        Self {
            git_path: config.git_path,
            git_branch: config.git_branch,
            git_repo: config.git_repo,
        }
    }

    /// The full name of the local branch.
    pub fn ref_name(&self) -> (r: String)
        ensures
            r@ == "refs/heads/"@ + self.git_branch@,
    {
        let mut name: String = String::from_str("refs/heads/");
        name.append(self.git_branch.as_str());
        name
    }

    /// What the loader does after `event` in the course of an update.
    pub fn next(&self, event: UpdateEvent) -> (r: UpdateAction)
        requires
            can_go_on(event@),
        ensures
            r@ == next_action(event@),
    {
        match event {
            UpdateEvent::Probed { mirror_present } => if mirror_present {
                UpdateAction::Fetch
            } else {
                UpdateAction::CloneMirror
            },
            UpdateEvent::Cloned => UpdateAction::Finish { changed: true },
            UpdateEvent::Fetched { ok } => if ok {
                UpdateAction::ReadTips
            } else {
                UpdateAction::Finish { changed: false }
            },
            UpdateEvent::Tips { local, fetched } => {
                if same_tip(&local, &fetched) {
                    UpdateAction::Finish { changed: false }
                } else {
                    match fetched {
                        Some(tip) => UpdateAction::AdvanceTo(tip),
                        None => UpdateAction::Finish { changed: false },
                    }
                }
            },
            UpdateEvent::Advanced => UpdateAction::Finish { changed: true },
        }
    }
}

/// The mirror as an update finds it: whether it is there, and the commit that
/// its branch stands at.
pub struct Mirror {
    pub present: bool,
    pub tip: Option<Seq<char>>,
}

/// The event that follows an action on a mirror, with `upstream` as the commit
/// of the upstream's branch and `fetch_ok` saying whether a fetch succeeds;
/// `None` where the action ends the update.
pub open spec fn event_after(
    mirror: Mirror,
    action: UpdateActionView,
    upstream: Option<Seq<char>>,
    fetch_ok: bool,
) -> Option<UpdateEventView> {
    match action {
        UpdateActionView::CloneMirror => Some(UpdateEventView::Cloned),
        UpdateActionView::Fetch => Some(UpdateEventView::Fetched { ok: fetch_ok }),
        UpdateActionView::ReadTips => Some(
            UpdateEventView::Tips { local: mirror.tip, fetched: upstream },
        ),
        UpdateActionView::AdvanceTo(_) => Some(UpdateEventView::Advanced),
        UpdateActionView::Finish { .. } => None,
    }
}

/// The mirror after an action: a clone and an advance leave it at the commit
/// they bring, the other actions as it was.
pub open spec fn mirror_after(
    mirror: Mirror,
    action: UpdateActionView,
    upstream: Option<Seq<char>>,
) -> Mirror {
    match action {
        UpdateActionView::CloneMirror => Mirror { present: true, tip: upstream },
        UpdateActionView::AdvanceTo(tip) => Mirror { present: true, tip: Some(tip) },
        _ => mirror,
    }
}

/// An update, run from `event` on for at most `fuel` steps: the mirror it
/// leaves and whether it reports a change.
pub open spec fn run_update(
    mirror: Mirror,
    event: UpdateEventView,
    upstream: Option<Seq<char>>,
    fetch_ok: bool,
    fuel: nat,
) -> (Mirror, bool)
    decreases fuel,
{
    let action = next_action(event);
    let reached = mirror_after(mirror, action, upstream);
    match action {
        UpdateActionView::Finish { changed } => (reached, changed),
        _ => if fuel == 0 {
            (reached, false)
        } else {
            run_update(
                reached,
                event_after(mirror, action, upstream, fetch_ok).unwrap(),
                upstream,
                fetch_ok,
                (fuel - 1) as nat,
            )
        },
    }
}

/// A whole update of a mirror: it begins with the probe for the mirror, and
/// no update takes more than four steps.
pub open spec fn update_of(mirror: Mirror, upstream: Option<Seq<char>>, fetch_ok: bool) -> (
    Mirror,
    bool,
) {
    run_update(
        mirror,
        UpdateEventView::Probed { mirror_present: mirror.present },
        upstream,
        fetch_ok,
        4,
    )
}

/// Of two updates in a row with no change upstream between them, at most one
/// reports a change: after an update that reported one, the next reports none,
/// whether its fetch succeeds or not.
pub proof fn lemma_refresh_is_idempotent(
    mirror: Mirror,
    upstream: Seq<char>,
    first_fetch_ok: bool,
    second_fetch_ok: bool,
)
    ensures
        ({
            let first = update_of(mirror, Some(upstream), first_fetch_ok);
            let second = update_of(first.0, Some(upstream), second_fetch_ok);
            !(first.1 && second.1)
        }),
{
    let up = Some(upstream);
    let first = update_of(mirror, up, first_fetch_ok);
    reveal_with_fuel(run_update, 5);
    if first.1 {
        assert(first.0.present);
        assert(first.0.tip == up);
        let second = update_of(first.0, up, second_fetch_ok);
        assert(!second.1);
    }
}

} // verus!
