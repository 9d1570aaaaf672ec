//! One request, step by step.
//!
//! Serving a request takes questions to the file system: what the requested
//! path leads to, what stands there, whether a file opens, what a directory
//! holds. The handler asks them one at a time. Each step takes the state of
//! the request and the answer to the last question, and gives the next state
//! together with the next question, or with the reply that ends the request.
//! The caller does what the action says and comes back with the answer.

use vstd::prelude::*;
use crate::auth::{authenticate, challenge, login};
use crate::credentials::{AuthenticatedIdentity, CredentialStore, IdentityView, UserRecordView};
use crate::path::{has_parent_dir, has_parent_segment, join_request, request_target};
use crate::reply::{
    not_found, not_found_reply, server_error, server_error_reply, unauthorized_reply, Reply,
    ReplyView,
};
use crate::resolver::{
    confine, confined, lies_under_root, resolution, PathError, ResolvedPath, ResolvedView,
};
use crate::responder::{
    file_reply, guessed_mime, handle_dir, handle_file, listing_reply, response, EntryView,
};
use crate::text::{opt_text, string_texts};

verus! {

/// How a request ended.
#[derive(Debug, Clone, Copy, PartialEq, Eq)]
pub enum Outcome {
    /// The request did not authenticate: 401.
    Unauthorized,
    /// A file was opened and is sent: 200.
    FileServed,
    /// A directory is listed: 200.
    DirectoryListed,
    /// Nothing is there, or it went away before it could be opened or read:
    /// 404.
    NotFound,
    /// The path may not be served. The client is told 404, as for a path
    /// that is absent.
    Forbidden,
    /// What is there is neither a file nor a directory, or the caller came
    /// back with an answer to a question that was not asked: 500.
    ServerError,
}

/// What the file system says stands at a path.
#[derive(Debug, Clone, Copy, PartialEq, Eq)]
pub enum EntryKind {
    Missing,
    File,
    Directory,
    Other,
}

/// Where a request stands.
#[derive(Debug, PartialEq, Eq)]
pub enum State {
    /// The user is known; the canonical form of the requested path is
    /// awaited.
    Authenticated { identity: AuthenticatedIdentity },
    /// The path lies under the user's root; what stands there is awaited.
    PathResolved { resolved: ResolvedPath },
    /// A file stands there; whether it opens is awaited.
    Opening { resolved: ResolvedPath },
    /// A directory stands there; the names of its entries are awaited.
    Listing { resolved: ResolvedPath },
    /// The reply was given.
    Finished { outcome: Outcome },
}

/// A `State` as text.
pub enum StateView {
    Authenticated { identity: IdentityView },
    PathResolved { resolved: ResolvedView },
    Opening { resolved: ResolvedView },
    Listing { resolved: ResolvedView },
    Finished { outcome: Outcome },
}

impl View for State {
    type V = StateView;

    open spec fn view(&self) -> StateView {
        match self {
            State::Authenticated { identity } => StateView::Authenticated { identity: identity@ },
            State::PathResolved { resolved } => StateView::PathResolved { resolved: resolved@ },
            State::Opening { resolved } => StateView::Opening { resolved: resolved@ },
            State::Listing { resolved } => StateView::Listing { resolved: resolved@ },
            State::Finished { outcome } => StateView::Finished { outcome: *outcome },
        }
    }
}

/// An answer of the file system.
#[derive(Debug, Clone, PartialEq, Eq)]
pub enum Event {
    /// The canonical form of the path, or `None` where there is none.
    Canonical(Option<String>),
    /// What stands at the path.
    Kind(EntryKind),
    /// Whether the file could be opened.
    Opened(bool),
    /// The names of the entries of the directory that could be read.
    Children(Vec<String>),
    /// The directory could not be read.
    Unreadable,
}

/// An `Event` as text.
pub enum EventView {
    Canonical(Option<Seq<char>>),
    Kind(EntryKind),
    Opened(bool),
    Children(Seq<Seq<char>>),
    Unreadable,
}

impl View for Event {
    type V = EventView;

    open spec fn view(&self) -> EventView {
        match self {
            Event::Canonical(Some(path)) => EventView::Canonical(Some(path@)),
            Event::Canonical(None) => EventView::Canonical(None),
            Event::Kind(kind) => EventView::Kind(*kind),
            Event::Opened(opened) => EventView::Opened(*opened),
            Event::Children(names) => EventView::Children(string_texts(names@)),
            Event::Unreadable => EventView::Unreadable,
        }
    }
}

/// What the caller is to do next.
#[derive(Debug, Clone, PartialEq, Eq)]
pub enum Action {
    /// Make the path canonical and answer with `Event::Canonical`.
    Canonicalize(String),
    /// Look what stands at the path and answer with `Event::Kind`.
    Inspect(String),
    /// Open the file at the path and answer with `Event::Opened`.
    Open(String),
    /// Read the directory at the path and answer with `Event::Children`, or
    /// with `Event::Unreadable` where it cannot be read.
    List(String),
    /// Send the reply. The request is over.
    Send(Reply),
}

/// An `Action` as text.
pub enum ActionView {
    Canonicalize(Seq<char>),
    Inspect(Seq<char>),
    Open(Seq<char>),
    List(Seq<char>),
    Send(ReplyView),
}

impl View for Action {
    type V = ActionView;

    open spec fn view(&self) -> ActionView {
        match self {
            Action::Canonicalize(path) => ActionView::Canonicalize(path@),
            Action::Inspect(path) => ActionView::Inspect(path@),
            Action::Open(path) => ActionView::Open(path@),
            Action::List(path) => ActionView::List(path@),
            Action::Send(reply) => ActionView::Send(reply@),
        }
    }
}

/// The state after a step, and what the caller is to do.
#[derive(Debug, PartialEq, Eq)]
pub struct Step {
    pub state: State,
    pub action: Action,
}

/// A `Step` as text.
pub struct StepView {
    pub state: StateView,
    pub action: ActionView,
}

impl View for Step {
    type V = StepView;

    open spec fn view(&self) -> StepView {
        StepView { state: self.state@, action: self.action@ }
    }
}

/// Whether every resolved path that a state holds lies under its root.
pub open spec fn state_is_sound(state: StateView) -> bool {
    match state {
        StateView::PathResolved { resolved } => lies_under_root(resolved),
        StateView::Opening { resolved } => lies_under_root(resolved),
        StateView::Listing { resolved } => lies_under_root(resolved),
        _ => true,
    }
}

/// The path that an action has the caller look at, open or list, if the
/// action is one of these.
pub open spec fn path_read(action: ActionView) -> Option<Seq<char>> {
    match action {
        ActionView::Inspect(path) => Some(path),
        ActionView::Open(path) => Some(path),
        ActionView::List(path) => Some(path),
        _ => None,
    }
}

/// The resolved path that a state holds, if it holds one.
pub open spec fn resolved_in(state: StateView) -> Option<ResolvedView> {
    match state {
        StateView::PathResolved { resolved } => Some(resolved),
        StateView::Opening { resolved } => Some(resolved),
        StateView::Listing { resolved } => Some(resolved),
        _ => None,
    }
}

/// The step that ends a request with `reply`.
pub open spec fn finish(outcome: Outcome, reply: ReplyView) -> StepView {
    StepView { state: StateView::Finished { outcome }, action: ActionView::Send(reply) }
}

/// The first step for an authenticated user: a request with a `..` segment
/// ends here, before the file system is asked anything; any other goes on to
/// ask for the canonical form of the path under the user's root.
pub open spec fn first_step(identity: IdentityView, requested: Option<Seq<char>>) -> StepView {
    let target = request_target(identity.root_directory, requested);
    if has_parent_segment(target) {
        finish(Outcome::Forbidden, not_found_reply())
    } else {
        StepView {
            state: StateView::Authenticated { identity },
            action: ActionView::Canonicalize(target),
        }
    }
}

/// The step that follows `state` on `event`.
pub open spec fn next_step(state: StateView, event: EventView) -> StepView {
    match (state, event) {
        (StateView::Authenticated { identity }, EventView::Canonical(canonical)) => match confined(
            identity.root_directory,
            canonical,
        ) {
            Ok(resolved) => StepView {
                state: StateView::PathResolved { resolved },
                action: ActionView::Inspect(resolved.path),
            },
            Err(PathError::Escape) => finish(Outcome::Forbidden, not_found_reply()),
            Err(_) => finish(Outcome::NotFound, not_found_reply()),
        },
        (StateView::PathResolved { resolved }, EventView::Kind(kind)) => match kind {
            EntryKind::Missing => finish(Outcome::NotFound, not_found_reply()),
            EntryKind::File => StepView {
                state: StateView::Opening { resolved },
                action: ActionView::Open(resolved.path),
            },
            EntryKind::Directory => StepView {
                state: StateView::Listing { resolved },
                action: ActionView::List(resolved.path),
            },
            EntryKind::Other => finish(Outcome::ServerError, server_error_reply()),
        },
        (StateView::Opening { resolved }, EventView::Opened(opened)) => if opened {
            finish(Outcome::FileServed, file_reply(resolved.path, guessed_mime(resolved.path)))
        } else {
            finish(Outcome::NotFound, not_found_reply())
        },
        (StateView::Listing { resolved }, EventView::Children(names)) => finish(
            Outcome::DirectoryListed,
            listing_reply(resolved.path, resolved.root, names),
        ),
        (StateView::Listing { resolved }, EventView::Unreadable) => finish(
            Outcome::NotFound,
            not_found_reply(),
        ),
        _ => finish(Outcome::ServerError, server_error_reply()),
    }
}

/// The first step for a request as it arrives: one that does not authenticate
/// ends with the challenge.
pub open spec fn reception(
    store: Map<Seq<char>, UserRecordView>,
    header: Option<Seq<char>>,
    requested: Option<Seq<char>>,
) -> StepView {
    match login(store, header) {
        Ok(identity) => first_step(identity, requested),
        Err(_) => finish(Outcome::Unauthorized, unauthorized_reply()),
    }
}

/// Builds the step that ends a request with `reply`.
fn finished(outcome: Outcome, reply: Reply) -> (step: Step)
    ensures
        step@ == finish(outcome, reply@),
{
    Step { state: State::Finished { outcome }, action: Action::Send(reply) }
}

/// Takes up the request of an authenticated user for the path `requested`
/// under their root; `None` asks for the root itself.
pub fn request_handler(identity: AuthenticatedIdentity, requested: Option<&str>) -> (step: Step)
    ensures
        step@ == first_step(identity@, opt_text(requested)),
        state_is_sound(step@.state),
{
    let target = join_request(identity.root_directory.as_str(), requested);
    if has_parent_dir(target.as_str()) {
        finished(Outcome::Forbidden, not_found())
    } else {
        Step { state: State::Authenticated { identity }, action: Action::Canonicalize(target) }
    }
}

/// Takes a request one step further on the answer to the last action.
pub fn advance(state: State, event: Event) -> (step: Step)
    ensures
        step@ == next_step(state@, event@),
        state_is_sound(step@.state),
{
    match (state, event) {
        (State::Authenticated { identity }, Event::Canonical(canonical)) => {
            let root = identity.root_directory.as_str();
            let confinement = match &canonical {
                Some(path) => confine(root, Some(path.as_str())),
                None => confine(root, None),
            };
            match confinement {
                Ok(resolved) => {
                    let path = resolved.path().to_owned();
                    Step { state: State::PathResolved { resolved }, action: Action::Inspect(path) }
                },
                Err(PathError::Escape) => finished(Outcome::Forbidden, not_found()),
                Err(_) => finished(Outcome::NotFound, not_found()),
            }
        },
        (State::PathResolved { resolved }, Event::Kind(kind)) => match kind {
            EntryKind::Missing => finished(Outcome::NotFound, not_found()),
            EntryKind::File => {
                let path = resolved.path().to_owned();
                Step { state: State::Opening { resolved }, action: Action::Open(path) }
            },
            EntryKind::Directory => {
                let path = resolved.path().to_owned();
                Step { state: State::Listing { resolved }, action: Action::List(path) }
            },
            EntryKind::Other => finished(Outcome::ServerError, server_error()),
        },
        (State::Opening { resolved }, Event::Opened(opened)) => {
            if opened {
                finished(Outcome::FileServed, handle_file(&resolved))
            } else {
                finished(Outcome::NotFound, not_found())
            }
        },
        (State::Listing { resolved }, Event::Children(names)) => finished(
            Outcome::DirectoryListed,
            handle_dir(&resolved, names),
        ),
        (State::Listing { resolved }, Event::Unreadable) => finished(
            Outcome::NotFound,
            not_found(),
        ),
        _ => finished(Outcome::ServerError, server_error()),
    }
}

/// Takes up a request as it arrives: checks its authorization against the
/// store and, where it passes, begins to handle it.
pub fn receive(store: &CredentialStore, header: Option<&str>, requested: Option<&str>) -> (step:
    Step)
    ensures
        step@ == reception(store@, opt_text(header), opt_text(requested)),
        state_is_sound(step@.state),
{
    match authenticate(store, header) {
        Ok(identity) => request_handler(identity, requested),
        Err(rejection) => finished(Outcome::Unauthorized, challenge(rejection)),
    }
}

/// The file system is read only at resolved paths: a step that has the caller
/// look at, open or list a path leaves a state that holds this very path as
/// resolved, under the root of the user who asked. The one question before
/// that, for the canonical form, is asked of a path without a `..` segment.
pub proof fn lemma_reads_stay_under_the_root(state: StateView, event: EventView)
    requires
        state_is_sound(state),
    ensures
        ({
            let step = next_step(state, event);
            &&& state_is_sound(step.state)
            &&& path_read(step.action) matches Some(path) ==> {
                &&& resolved_in(step.state) matches Some(resolved)
                &&& resolved.path == path
                &&& lies_under_root(resolved)
            }
            &&& state matches StateView::Authenticated { identity } ==> (resolved_in(
                step.state,
            ) matches Some(resolved) ==> resolved.root == identity.root_directory)
            &&& resolved_in(state) matches Some(before) ==> (resolved_in(
                step.state,
            ) matches Some(after) ==> after == before)
        }),
{
}

/// The first question of a request is asked of a path without a `..`
/// segment, and no path is read before it is answered.
pub proof fn lemma_first_step_reads_nothing(identity: IdentityView, requested: Option<Seq<char>>)
    ensures
        ({
            let step = first_step(identity, requested);
            &&& state_is_sound(step.state)
            &&& path_read(step.action) is None
            &&& step.action matches ActionView::Canonicalize(target) ==> !has_parent_segment(
                target,
            )
        }),
{
}

/// What the file system answers to the questions of one request.
pub struct Answers {
    pub canonical: Option<Seq<char>>,
    pub kind: EntryKind,
    pub opened: bool,
    pub listed: bool,
    pub children: Seq<Seq<char>>,
}

/// The answer to an action.
pub open spec fn answer(action: ActionView, answers: Answers) -> EventView {
    match action {
        ActionView::Canonicalize(_) => EventView::Canonical(answers.canonical),
        ActionView::Inspect(_) => EventView::Kind(answers.kind),
        ActionView::Open(_) => EventView::Opened(answers.opened),
        _ => if answers.listed {
            EventView::Children(answers.children)
        } else {
            EventView::Unreadable
        },
    }
}

/// The reply at the end of the steps that begin with `step`, each action
/// answered from `answers`. `limit` bounds the number of actions; no request
/// takes more than three.
pub open spec fn run_from(step: StepView, answers: Answers, limit: nat) -> ReplyView
    decreases limit,
{
    match step.action {
        ActionView::Send(reply) => reply,
        _ => if limit == 0 {
            server_error_reply()
        } else {
            run_from(
                next_step(step.state, answer(step.action, answers)),
                answers,
                (limit - 1) as nat,
            )
        },
    }
}

/// The reply that the steps of one request end with.
pub open spec fn run(
    store: Map<Seq<char>, UserRecordView>,
    header: Option<Seq<char>>,
    requested: Option<Seq<char>>,
    answers: Answers,
) -> ReplyView {
    run_from(reception(store, header, requested), answers, 3)
}

/// What stands at a path, as the responder takes it.
pub open spec fn entry_of(answers: Answers) -> EntryView {
    match answers.kind {
        EntryKind::Missing => EntryView::Missing,
        EntryKind::File => EntryView::File { opened: answers.opened },
        EntryKind::Directory => if answers.listed {
            EntryView::Directory { children: answers.children }
        } else {
            EntryView::Unreadable
        },
        EntryKind::Other => EntryView::Other,
    }
}

/// The reply that a request is owed: the challenge where it does not
/// authenticate, 404 where its path does not resolve, else the response for
/// what stands at the resolved path.
pub open spec fn served(
    store: Map<Seq<char>, UserRecordView>,
    header: Option<Seq<char>>,
    requested: Option<Seq<char>>,
    answers: Answers,
) -> ReplyView {
    match login(store, header) {
        Err(_) => unauthorized_reply(),
        Ok(identity) => match resolution(identity.root_directory, requested, answers.canonical) {
            Err(_) => not_found_reply(),
            Ok(resolved) => response(resolved, entry_of(answers)),
        },
    }
}

/// The steps of a request end with the reply that the request is owed.
pub proof fn lemma_run_serves(
    store: Map<Seq<char>, UserRecordView>,
    header: Option<Seq<char>>,
    requested: Option<Seq<char>>,
    answers: Answers,
)
    ensures
        run(store, header, requested, answers) == served(store, header, requested, answers),
{
    reveal_with_fuel(run_from, 4);
}

/// A request that is made again gets the same reply, as long as the file
/// system answers alike where it is asked: the canonical path and what stands
/// there, whether the file opens where it is a file, and whether the
/// directory can be read and what it holds where it is a directory.
pub proof fn lemma_same_request_same_reply(
    store: Map<Seq<char>, UserRecordView>,
    header: Option<Seq<char>>,
    requested: Option<Seq<char>>,
    first: Answers,
    second: Answers,
)
    requires
        first.canonical == second.canonical,
        first.kind == second.kind,
        first.kind == EntryKind::File ==> first.opened == second.opened,
        first.kind == EntryKind::Directory ==> first.listed == second.listed,
        first.kind == EntryKind::Directory && first.listed ==> first.children == second.children,
    ensures
        run(store, header, requested, first) == run(store, header, requested, second),
{
    lemma_run_serves(store, header, requested, first);
    lemma_run_serves(store, header, requested, second);
}

/// A request without authorization is challenged, whatever it asks for.
pub proof fn lemma_no_authorization_is_challenged(
    store: Map<Seq<char>, UserRecordView>,
    requested: Option<Seq<char>>,
    answers: Answers,
)
    ensures
        run(store, None, requested, answers) == unauthorized_reply(),
{
    lemma_run_serves(store, None, requested, answers);
}

} // verus!
