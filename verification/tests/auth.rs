use fileserve::auth::{
    authenticate, basic_payload, challenge, grant, read_credentials, split_user_pass, Rejection,
};
use fileserve::credentials::{AuthenticatedIdentity, CredentialStore, UserRecord};
use fileserve::reply::{unauthorized, Body, Header};

fn record(username: &str, password: &str, root: &str) -> UserRecord {
    UserRecord {
        username: username.to_string(),
        password_hash: bcrypt::hash(password, 4).unwrap(),
        root_directory: root.to_string(),
    }
}

fn store() -> CredentialStore {
    CredentialStore::from_records(vec![
        record("alice", "wonderland", "/srv/alice"),
        record("bob", "builder:two", "/srv/bob"),
        record("carol", "", "/srv/carol"),
    ])
}

fn basic(text: &[u8]) -> String {
    let encoded = base64::Engine::encode(&base64::engine::general_purpose::STANDARD, text);
    format!("Basic {}", encoded)
}

#[test]
fn correct_password_yields_the_users_root() {
    let header = basic(b"alice:wonderland");
    let identity = authenticate(&store(), Some(&header)).unwrap();
    assert_eq!(
        identity,
        AuthenticatedIdentity {
            username: "alice".to_string(),
            root_directory: "/srv/alice".to_string()
        }
    );
}

#[test]
fn every_configured_user_gets_their_own_root() {
    let users = store();
    for (name, password, root) in
        [("alice", "wonderland", "/srv/alice"), ("bob", "builder:two", "/srv/bob")]
    {
        let header = basic(format!("{}:{}", name, password).as_bytes());
        let identity = authenticate(&users, Some(&header)).unwrap();
        assert_eq!(identity.username, name);
        assert_eq!(identity.root_directory, root);
    }
}

#[test]
fn known_header_value_authenticates() {
    let users = CredentialStore::from_records(vec![record("Aladdin", "open sesame", "/cave")]);
    let identity = authenticate(&users, Some("Basic QWxhZGRpbjpvcGVuIHNlc2FtZQ==")).unwrap();
    assert_eq!(identity.username, "Aladdin");
    assert_eq!(identity.root_directory, "/cave");
}

#[test]
fn wrong_password_is_rejected() {
    let header = basic(b"alice:looking-glass");
    assert_eq!(authenticate(&store(), Some(&header)), Err(Rejection::BadPassword));
}

#[test]
fn unknown_user_is_rejected() {
    let header = basic(b"mallory:wonderland");
    assert_eq!(authenticate(&store(), Some(&header)), Err(Rejection::UnknownUser));
}

#[test]
fn another_users_password_is_rejected() {
    let header = basic(b"alice:builder:two");
    assert_eq!(authenticate(&store(), Some(&header)), Err(Rejection::BadPassword));
}

#[test]
fn missing_header_is_rejected() {
    assert_eq!(authenticate(&store(), None), Err(Rejection::MissingHeader));
}

#[test]
fn other_schemes_are_rejected() {
    assert_eq!(authenticate(&store(), Some("Bearer abc")), Err(Rejection::MalformedHeader));
    assert_eq!(authenticate(&store(), Some("basic YWxpY2U6")), Err(Rejection::MalformedHeader));
    assert_eq!(authenticate(&store(), Some("Basic")), Err(Rejection::MalformedHeader));
    assert_eq!(authenticate(&store(), Some("")), Err(Rejection::MalformedHeader));
}

#[test]
fn what_is_not_base64_is_rejected() {
    assert_eq!(authenticate(&store(), Some("Basic !!!")), Err(Rejection::DecodeError));
    assert_eq!(authenticate(&store(), Some("Basic YWxpY2U6d29uZGVybGFuZA")), Err(Rejection::DecodeError));
}

#[test]
fn what_is_not_utf8_is_rejected() {
    let header = basic(&[0xff, 0xfe, b':', b'x']);
    assert_eq!(authenticate(&store(), Some(&header)), Err(Rejection::DecodeError));
}

#[test]
fn password_may_hold_colons() {
    let header = basic(b"bob:builder:two");
    let identity = authenticate(&store(), Some(&header)).unwrap();
    assert_eq!(identity.username, "bob");
    assert_eq!(identity.root_directory, "/srv/bob");
}

#[test]
fn missing_colon_means_empty_password() {
    let users = store();
    assert_eq!(authenticate(&users, Some(&basic(b"alice"))), Err(Rejection::BadPassword));
    let identity = authenticate(&users, Some(&basic(b"carol"))).unwrap();
    assert_eq!(identity.root_directory, "/srv/carol");
    let identity = authenticate(&users, Some(&basic(b"carol:"))).unwrap();
    assert_eq!(identity.root_directory, "/srv/carol");
}

#[test]
fn unusable_hash_is_rejected() {
    let users = CredentialStore::from_records(vec![UserRecord {
        username: "dave".to_string(),
        password_hash: "not a hash".to_string(),
        root_directory: "/srv/dave".to_string(),
    }]);
    assert_eq!(authenticate(&users, Some(&basic(b"dave:not a hash"))), Err(Rejection::BadPassword));
}

#[test]
fn later_record_replaces_earlier() {
    let users = CredentialStore::from_records(vec![
        record("alice", "first", "/srv/one"),
        record("bob", "builder", "/srv/bob"),
        record("alice", "second", "/srv/two"),
    ]);
    assert_eq!(users.lookup("alice").unwrap().root_directory, "/srv/two");
    assert_eq!(users.lookup("bob").unwrap().root_directory, "/srv/bob");
    assert!(users.lookup("carol").is_none());
    assert_eq!(authenticate(&users, Some(&basic(b"alice:first"))), Err(Rejection::BadPassword));
    let identity = authenticate(&users, Some(&basic(b"alice:second"))).unwrap();
    assert_eq!(identity.root_directory, "/srv/two");
}

#[test]
fn empty_store_knows_nobody() {
    let users = CredentialStore::from_records(Vec::new());
    assert!(users.lookup("alice").is_none());
    assert_eq!(authenticate(&users, Some(&basic(b"alice:x"))), Err(Rejection::UnknownUser));
}

#[test]
fn payload_is_what_follows_the_scheme() {
    assert_eq!(basic_payload(Some("Basic YWxpY2U6")), Ok("YWxpY2U6".to_string()));
    assert_eq!(basic_payload(Some("Basic ")), Ok(String::new()));
    assert_eq!(basic_payload(Some("Basic  x")), Ok(" x".to_string()));
    assert_eq!(basic_payload(Some("Basic")), Err(Rejection::MalformedHeader));
    assert_eq!(basic_payload(Some(" Basic x")), Err(Rejection::MalformedHeader));
    assert_eq!(basic_payload(None), Err(Rejection::MissingHeader));
}

#[test]
fn credentials_split_at_the_first_colon() {
    assert_eq!(split_user_pass("alice:secret"), ("alice".to_string(), "secret".to_string()));
    assert_eq!(split_user_pass("alice:se:cr:et"), ("alice".to_string(), "se:cr:et".to_string()));
    assert_eq!(split_user_pass("alice"), ("alice".to_string(), String::new()));
    assert_eq!(split_user_pass("alice:"), ("alice".to_string(), String::new()));
    assert_eq!(split_user_pass(":secret"), (String::new(), "secret".to_string()));
    assert_eq!(split_user_pass(""), (String::new(), String::new()));
    assert_eq!(split_user_pass("\u{e9}l\u{e8}ve:mot"), ("\u{e9}l\u{e8}ve".to_string(), "mot".to_string()));
}

#[test]
fn credentials_are_read_from_decoded_bytes() {
    assert_eq!(
        read_credentials(Ok(b"alice:secret".to_vec())),
        Ok(("alice".to_string(), "secret".to_string()))
    );
    assert_eq!(read_credentials(Ok(vec![0xc3, 0x28])), Err(Rejection::DecodeError));
    assert_eq!(
        read_credentials(Err(base64::DecodeError::InvalidPadding)),
        Err(Rejection::DecodeError)
    );
}

#[test]
fn access_is_granted_on_a_match_only() {
    let alice = UserRecord {
        username: "alice".to_string(),
        password_hash: "unused".to_string(),
        root_directory: "/srv/alice".to_string(),
    };
    assert_eq!(
        grant(&alice, Ok(true)),
        Ok(AuthenticatedIdentity {
            username: "alice".to_string(),
            root_directory: "/srv/alice".to_string()
        })
    );
    assert_eq!(grant(&alice, Ok(false)), Err(Rejection::BadPassword));
    assert_eq!(
        grant(&alice, Err(bcrypt::BcryptError::InvalidHash("unreadable"))),
        Err(Rejection::BadPassword)
    );
}

#[test]
fn challenge_is_401_with_basic_realm() {
    let reply = challenge(Rejection::MissingHeader);
    assert_eq!(reply.status, 401);
    assert_eq!(
        reply.headers,
        vec![Header {
            name: "WWW-Authenticate".to_string(),
            value: "Basic realm=\"Files\"".to_string()
        }]
    );
    assert_eq!(reply.body, Body::Text("Unauthorized".to_string()));
    assert_eq!(reply, unauthorized());
}

#[test]
fn every_rejection_looks_the_same() {
    let rejections = [
        Rejection::MissingHeader,
        Rejection::MalformedHeader,
        Rejection::DecodeError,
        Rejection::UnknownUser,
        Rejection::BadPassword,
    ];
    for rejection in rejections {
        assert_eq!(challenge(rejection), challenge(Rejection::UnknownUser));
    }
}

#[test]
fn stored_hash_is_checked_by_bcrypt() {
    let users = CredentialStore::from_records(vec![UserRecord {
        username: "pat".to_string(),
        password_hash: "$2a$04$UuTkLRZZ6QofpDOlMz32MuuxEHA43WOemOYHPz6.SjsVsyO1tDU96".to_string(),
        root_directory: "/srv/pat".to_string(),
    }]);
    let identity = authenticate(&users, Some(&basic(b"pat:password"))).unwrap();
    assert_eq!(identity.root_directory, "/srv/pat");
    assert_eq!(authenticate(&users, Some(&basic(b"pat:Password"))), Err(Rejection::BadPassword));
    assert_eq!(authenticate(&users, Some(&basic(b"pat:"))), Err(Rejection::BadPassword));
}
