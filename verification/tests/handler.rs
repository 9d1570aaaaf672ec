use fileserve::credentials::{AuthenticatedIdentity, CredentialStore, UserRecord};
use fileserve::handler::{
    advance, receive, request_handler, Action, EntryKind, Event, Outcome, State, Step,
};
use fileserve::reply::{not_found, server_error, unauthorized, Body, Header, Reply};

fn users() -> CredentialStore {
    CredentialStore::from_records(vec![UserRecord {
        username: "alice".to_string(),
        password_hash: bcrypt::hash("wonderland", 4).unwrap(),
        root_directory: "/srv/alice".to_string(),
    }])
}

fn alice_header() -> String {
    let encoded =
        base64::Engine::encode(&base64::engine::general_purpose::STANDARD, "alice:wonderland");
    format!("Basic {}", encoded)
}

fn alice() -> AuthenticatedIdentity {
    AuthenticatedIdentity {
        username: "alice".to_string(),
        root_directory: "/srv/alice".to_string(),
    }
}

fn sent(step: Step) -> (Outcome, Reply) {
    match (step.state, step.action) {
        (State::Finished { outcome }, Action::Send(reply)) => (outcome, reply),
        other => panic!("the request is not over: {:?}", other),
    }
}

fn serve(requested: Option<&str>, events: Vec<Event>) -> (Outcome, Reply) {
    let mut step = receive(&users(), Some(&alice_header()), requested);
    for event in events {
        step = advance(step.state, event);
    }
    sent(step)
}

#[test]
fn get_of_a_file_returns_200_with_its_name() {
    let store = users();
    let step = receive(&store, Some(&alice_header()), Some("notes.txt"));
    assert_eq!(step.action, Action::Canonicalize("/srv/alice/notes.txt".to_string()));
    assert_eq!(step.state, State::Authenticated { identity: alice() });

    let step = advance(step.state, Event::Canonical(Some("/srv/alice/notes.txt".to_string())));
    assert_eq!(step.action, Action::Inspect("/srv/alice/notes.txt".to_string()));

    let step = advance(step.state, Event::Kind(EntryKind::File));
    assert_eq!(step.action, Action::Open("/srv/alice/notes.txt".to_string()));

    let step = advance(step.state, Event::Opened(true));
    let (outcome, reply) = sent(step);
    assert_eq!(outcome, Outcome::FileServed);
    assert_eq!(reply.status, 200);
    assert!(reply.headers.contains(&Header {
        name: "Content-Disposition".to_string(),
        value: "attachment; filename=\"notes.txt\"".to_string(),
    }));
    assert_eq!(reply.body, Body::File("/srv/alice/notes.txt".to_string()));
}

#[test]
fn get_with_parent_segments_returns_404() {
    let step = receive(&users(), Some(&alice_header()), Some("../../etc/passwd"));
    let (outcome, reply) = sent(step);
    assert_eq!(outcome, Outcome::Forbidden);
    assert_eq!(reply.status, 404);
    assert_eq!(reply, not_found());
}

#[test]
fn get_without_authorization_returns_401() {
    let step = receive(&users(), None, Some("notes.txt"));
    let (outcome, reply) = sent(step);
    assert_eq!(outcome, Outcome::Unauthorized);
    assert_eq!(reply.status, 401);
    assert_eq!(
        reply.headers,
        vec![Header {
            name: "WWW-Authenticate".to_string(),
            value: "Basic realm=\"Files\"".to_string()
        }]
    );
    assert_eq!(reply.body, Body::Text("Unauthorized".to_string()));
}

#[test]
fn wrong_password_and_unknown_user_get_the_same_reply() {
    let store = users();
    let encode =
        |text: &str| base64::Engine::encode(&base64::engine::general_purpose::STANDARD, text);
    let wrong = format!("Basic {}", encode("alice:guess"));
    let unknown = format!("Basic {}", encode("mallory:wonderland"));
    let first = sent(receive(&store, Some(&wrong), Some("notes.txt")));
    let second = sent(receive(&store, Some(&unknown), Some("notes.txt")));
    assert_eq!(first, second);
    assert_eq!(first, (Outcome::Unauthorized, unauthorized()));
}

#[test]
fn authorization_is_checked_before_the_path() {
    let (outcome, reply) = sent(receive(&users(), None, Some("../../etc/passwd")));
    assert_eq!(outcome, Outcome::Unauthorized);
    assert_eq!(reply.status, 401);
}

#[test]
fn link_out_of_the_root_returns_404() {
    let (outcome, reply) =
        serve(Some("shortcut"), vec![Event::Canonical(Some("/etc/passwd".to_string()))]);
    assert_eq!(outcome, Outcome::Forbidden);
    assert_eq!(reply, not_found());
}

#[test]
fn absent_path_returns_404() {
    let (outcome, reply) = serve(Some("absent"), vec![Event::Canonical(None)]);
    assert_eq!(outcome, Outcome::NotFound);
    assert_eq!(reply, not_found());
}

#[test]
fn path_that_went_away_returns_404() {
    let (outcome, reply) = serve(
        Some("a"),
        vec![Event::Canonical(Some("/srv/alice/a".to_string())), Event::Kind(EntryKind::Missing)],
    );
    assert_eq!(outcome, Outcome::NotFound);
    assert_eq!(reply, not_found());
}

#[test]
fn file_that_does_not_open_returns_404() {
    let (outcome, reply) = serve(
        Some("a"),
        vec![
            Event::Canonical(Some("/srv/alice/a".to_string())),
            Event::Kind(EntryKind::File),
            Event::Opened(false),
        ],
    );
    assert_eq!(outcome, Outcome::NotFound);
    assert_eq!(reply, not_found());
}

#[test]
fn neither_file_nor_directory_returns_500() {
    let (outcome, reply) = serve(
        Some("socket"),
        vec![
            Event::Canonical(Some("/srv/alice/socket".to_string())),
            Event::Kind(EntryKind::Other),
        ],
    );
    assert_eq!(outcome, Outcome::ServerError);
    assert_eq!(reply.status, 500);
    assert_eq!(reply, server_error());
}

#[test]
fn directory_is_listed() {
    let store = users();
    let step = receive(&store, Some(&alice_header()), Some("sub"));
    let step = advance(step.state, Event::Canonical(Some("/srv/alice/sub".to_string())));
    let step = advance(step.state, Event::Kind(EntryKind::Directory));
    assert_eq!(step.action, Action::List("/srv/alice/sub".to_string()));
    let step =
        advance(step.state, Event::Children(vec!["b.txt".to_string(), "a.txt".to_string()]));
    let (outcome, reply) = sent(step);
    assert_eq!(outcome, Outcome::DirectoryListed);
    assert_eq!(reply.status, 200);
    assert_eq!(
        reply.body,
        Body::Text(
            "<a href=\"/files/\">..</a><br>\n\
             <a href=\"/files/sub/a.txt\">sub/a.txt</a><br>\n\
             <a href=\"/files/sub/b.txt\">sub/b.txt</a><br>\n"
                .to_string()
        )
    );
}

#[test]
fn directory_that_cannot_be_read_returns_404() {
    let (outcome, reply) = serve(
        Some("sub"),
        vec![
            Event::Canonical(Some("/srv/alice/sub".to_string())),
            Event::Kind(EntryKind::Directory),
            Event::Unreadable,
        ],
    );
    assert_eq!(outcome, Outcome::NotFound);
    assert_eq!(reply.status, 404);
    assert_eq!(reply, not_found());
}

#[test]
fn deeper_directory_links_upwards_with_two_dots() {
    let (outcome, reply) = serve(
        Some("a/b"),
        vec![
            Event::Canonical(Some("/srv/alice/a/b".to_string())),
            Event::Kind(EntryKind::Directory),
            Event::Children(Vec::new()),
        ],
    );
    assert_eq!(outcome, Outcome::DirectoryListed);
    assert_eq!(reply.body, Body::Text("<a href=\"/files/a\">..</a><br>\n".to_string()));
}

#[test]
fn request_for_the_root_lists_it() {
    let step = request_handler(alice(), None);
    assert_eq!(step.action, Action::Canonicalize("/srv/alice".to_string()));
    let step = advance(step.state, Event::Canonical(Some("/srv/alice".to_string())));
    let step = advance(step.state, Event::Kind(EntryKind::Directory));
    let step = advance(step.state, Event::Children(vec!["notes.txt".to_string()]));
    let (outcome, reply) = sent(step);
    assert_eq!(outcome, Outcome::DirectoryListed);
    assert_eq!(
        reply.body,
        Body::Text("<a href=\"/files/notes.txt\">notes.txt</a><br>\n".to_string())
    );
}

#[test]
fn same_request_twice_gets_the_same_reply() {
    let events = || {
        vec![
            Event::Canonical(Some("/srv/alice/sub".to_string())),
            Event::Kind(EntryKind::Directory),
            Event::Children(vec!["b".to_string(), "a".to_string()]),
        ]
    };
    let first = serve(Some("sub"), events());
    let second = serve(Some("sub"), events());
    assert_eq!(first, second);
    let events = || {
        vec![
            Event::Canonical(Some("/srv/alice/notes.txt".to_string())),
            Event::Kind(EntryKind::File),
            Event::Opened(true),
        ]
    };
    assert_eq!(serve(Some("notes.txt"), events()), serve(Some("notes.txt"), events()));
}

#[test]
fn answer_to_a_question_not_asked_returns_500() {
    let step = request_handler(alice(), Some("notes.txt"));
    let (outcome, reply) = sent(advance(step.state, Event::Opened(true)));
    assert_eq!(outcome, Outcome::ServerError);
    assert_eq!(reply, server_error());
    let step = request_handler(alice(), Some("notes.txt"));
    let (outcome, reply) = sent(advance(step.state, Event::Unreadable));
    assert_eq!(outcome, Outcome::ServerError);
    assert_eq!(reply, server_error());
    let over = State::Finished { outcome: Outcome::NotFound };
    let (outcome, reply) = sent(advance(over, Event::Kind(EntryKind::File)));
    assert_eq!(outcome, Outcome::ServerError);
    assert_eq!(reply, server_error());
}
