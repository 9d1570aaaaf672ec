//! Basic authentication against the credential store.
//!
//! A request carries `Basic ` and the base64 form of `username:password`. The
//! request is let through where the user is known and bcrypt accepts the
//! password for the stored hash. Every other request gets the same challenge,
//! whatever was wrong with it.

use vstd::prelude::*;
use vstd::utf8::{decode_utf8, valid_utf8};
use crate::credentials::{AuthenticatedIdentity, CredentialStore, IdentityView, UserRecord, UserRecordView};
use crate::reply::{unauthorized, unauthorized_reply, Reply};
use crate::text::{
    chars_of, copy_range, find_first, first_index_of, has_prefix, lemma_first_index_of, opt_text,
    string_of,
};

verus! {

/// The error of the `base64` crate's decoder.
#[verifier::external_type_specification]
#[verifier::external_body]
pub struct ExDecodeError(base64::DecodeError);

/// The error of the `bcrypt` crate.
#[verifier::external_type_specification]
#[verifier::external_body]
pub struct ExBcryptError(bcrypt::BcryptError);

/// The error of `String::from_utf8`.
#[verifier::external_type_specification]
#[verifier::external_body]
pub struct ExFromUtf8Error(std::string::FromUtf8Error);

/// `String::from_utf8` succeeds exactly on valid UTF-8, and then yields the
/// text that the bytes encode. This is taken from its documentation, not
/// proved.
pub assume_specification[ String::from_utf8 ](bytes: Vec<u8>) -> (r: Result<
    String,
    std::string::FromUtf8Error,
>)
    ensures
        r is Ok <==> valid_utf8(bytes@),
        r matches Ok(text) ==> text@ == decode_utf8(bytes@),
;

/// The bytes that the `base64` crate's standard engine decodes a text to, or
/// `None` where it refuses the text.
pub uninterp spec fn base64_decoded(encoded: Seq<char>) -> Option<Seq<u8>>;

/// Calls `Engine::decode` of the `base64` crate on its `STANDARD` engine. The
/// outcome depends on the text alone; the contract names it and claims
/// nothing more of it. The body is not verified.
#[verifier::external_body]
fn decode_base64(encoded: &str) -> (r: Result<Vec<u8>, base64::DecodeError>)
    ensures
        match r {
            Ok(bytes) => base64_decoded(encoded@) == Some(bytes@),
            Err(_) => base64_decoded(encoded@) is None,
        },
{
    base64::Engine::decode(&base64::engine::general_purpose::STANDARD, encoded)
}

/// What `bcrypt` says of a password and a stored hash: whether the password
/// matches, or `None` where it cannot read the hash.
pub uninterp spec fn bcrypt_verdict(password: Seq<char>, hash: Seq<char>) -> Option<bool>;

/// Calls `bcrypt::verify`. The outcome depends on the password and the hash
/// alone; the contract names it and claims nothing more of it. The body is
/// not verified.
#[verifier::external_body]
fn bcrypt_verify(password: &str, hash: &str) -> (r: Result<bool, bcrypt::BcryptError>)
    ensures
        match r {
            Ok(matches) => bcrypt_verdict(password@, hash@) == Some(matches),
            Err(_) => bcrypt_verdict(password@, hash@) is None,
        },
{
    bcrypt::verify(password, hash)
}

/// Why a request did not authenticate. The client is never told which.
#[derive(Debug, Clone, Copy, PartialEq, Eq)]
pub enum Rejection {
    /// The request carries no authorization that can be read as text.
    MissingHeader,
    /// The authorization does not begin with `Basic `.
    MalformedHeader,
    /// What follows `Basic ` is not base64, or does not decode to UTF-8.
    DecodeError,
    /// No user of that name is configured.
    UnknownUser,
    /// The password does not match the stored hash, or the hash is unusable.
    BadPassword,
}

/// The word and the space that begin a Basic authorization.
pub open spec fn scheme() -> Seq<char> {
    "Basic "@
}

/// What follows the scheme in an authorization.
pub open spec fn payload(header: Option<Seq<char>>) -> Result<Seq<char>, Rejection> {
    match header {
        None => Err(Rejection::MissingHeader),
        Some(text) => if scheme().is_prefix_of(text) {
            Ok(text.skip(scheme().len() as int))
        } else {
            Err(Rejection::MalformedHeader)
        },
    }
}

/// Username and password of `username:password`: the text is split at its
/// first colon, and a text without a colon is a username with an empty
/// password.
pub open spec fn split_credentials(text: Seq<char>) -> (Seq<char>, Seq<char>) {
    let colon = first_index_of(text, ':');
    (
        text.take(colon),
        if colon < text.len() {
            text.skip(colon + 1)
        } else {
            Seq::empty()
        },
    )
}

/// Username and password in what the base64 decoder gave.
pub open spec fn credentials(decoded: Option<Seq<u8>>) -> Result<
    (Seq<char>, Seq<char>),
    Rejection,
> {
    match decoded {
        None => Err(Rejection::DecodeError),
        Some(bytes) => if valid_utf8(bytes) {
            Ok(split_credentials(decode_utf8(bytes)))
        } else {
            Err(Rejection::DecodeError)
        },
    }
}

/// The identity that a record gives where the password was accepted.
pub open spec fn granted(record: UserRecordView, verdict: Option<bool>) -> Result<
    IdentityView,
    Rejection,
> {
    if verdict == Some(true) {
        Ok(IdentityView { username: record.username, root_directory: record.root_directory })
    } else {
        Err(Rejection::BadPassword)
    }
}

/// Who an authorization authenticates against a store, if anyone.
pub open spec fn login(store: Map<Seq<char>, UserRecordView>, header: Option<Seq<char>>) -> Result<
    IdentityView,
    Rejection,
> {
    match payload(header) {
        Err(e) => Err(e),
        Ok(encoded) => match credentials(base64_decoded(encoded)) {
            Err(e) => Err(e),
            Ok((username, password)) => if store.contains_key(username) {
                granted(
                    store[username],
                    bcrypt_verdict(password, store[username].password_hash),
                )
            } else {
                Err(Rejection::UnknownUser)
            },
        },
    }
}

/// The text form of what the base64 decoder gave.
pub open spec fn decoded_view(decoded: Result<Vec<u8>, base64::DecodeError>) -> Option<Seq<u8>> {
    match decoded {
        Ok(bytes) => Some(bytes@),
        Err(_) => None,
    }
}

/// The text form of what bcrypt gave.
pub open spec fn verdict_view(verdict: Result<bool, bcrypt::BcryptError>) -> Option<bool> {
    match verdict {
        Ok(matches) => Some(matches),
        Err(_) => None,
    }
}

/// The text form of the outcome of an authentication.
pub open spec fn login_view(r: Result<AuthenticatedIdentity, Rejection>) -> Result<
    IdentityView,
    Rejection,
> {
    match r {
        Ok(identity) => Ok(identity@),
        Err(e) => Err(e),
    }
}

/// What follows `Basic ` in an authorization.
pub fn basic_payload(header: Option<&str>) -> (r: Result<String, Rejection>)
    ensures
        match r {
            Ok(encoded) => payload(opt_text(header)) == Ok::<Seq<char>, Rejection>(encoded@),
            Err(e) => payload(opt_text(header)) == Err::<Seq<char>, Rejection>(e),
        },
{
    match header {
        None => Err(Rejection::MissingHeader),
        Some(text) => {
            let chars = chars_of(text);
            let prefix = chars_of("Basic ");
            if has_prefix(&chars, &prefix) {
                let rest = copy_range(&chars, prefix.len(), chars.len());
                Ok(string_of(&rest))
            } else {
                Err(Rejection::MalformedHeader)
            }
        },
    }
}

/// Splits `username:password` at its first colon.
pub fn split_user_pass(text: &str) -> (r: (String, String))
    ensures
        (r.0@, r.1@) == split_credentials(text@),
{
    let chars = chars_of(text);
    let colon = find_first(&chars, ':');
    let username = string_of(&copy_range(&chars, 0, colon));
    let password = if colon < chars.len() {
        string_of(&copy_range(&chars, colon + 1, chars.len()))
    } else {
        String::new()
    };
    (username, password)
}

/// Reads username and password out of what the base64 decoder gave.
pub fn read_credentials(decoded: Result<Vec<u8>, base64::DecodeError>) -> (r: Result<
    (String, String),
    Rejection,
>)
    ensures
        match r {
            Ok(pair) => credentials(decoded_view(decoded)) == Ok::<
                (Seq<char>, Seq<char>),
                Rejection,
            >((pair.0@, pair.1@)),
            Err(e) => credentials(decoded_view(decoded)) == Err::<
                (Seq<char>, Seq<char>),
                Rejection,
            >(e),
        },
{
    match decoded {
        Err(_) => Err(Rejection::DecodeError),
        Ok(bytes) => match String::from_utf8(bytes) {
            Err(_) => Err(Rejection::DecodeError),
            Ok(text) => Ok(split_user_pass(text.as_str())),
        },
    }
}

/// Lets the user of `record` in where bcrypt accepted the password.
pub fn grant(record: &UserRecord, verdict: Result<bool, bcrypt::BcryptError>) -> (r: Result<
    AuthenticatedIdentity,
    Rejection,
>)
    ensures
        login_view(r) == granted(record@, verdict_view(verdict)),
{
    match verdict {
        Ok(true) => Ok(
            AuthenticatedIdentity {
                username: record.username.clone(),
                root_directory: record.root_directory.clone(),
            },
        ),
        _ => Err(Rejection::BadPassword),
    }
}

/// Checks the authorization of a request against the store.
pub fn authenticate(store: &CredentialStore, header: Option<&str>) -> (r: Result<
    AuthenticatedIdentity,
    Rejection,
>)
    ensures
        login_view(r) == login(store@, opt_text(header)),
{
    let encoded = match basic_payload(header) {
        Ok(encoded) => encoded,
        Err(e) => {
            return Err(e);
        },
    };
    let decoded = decode_base64(encoded.as_str());
    let (username, password) = match read_credentials(decoded) {
        Ok(pair) => pair,
        Err(e) => {
            return Err(e);
        },
    };
    match store.lookup(username.as_str()) {
        None => Err(Rejection::UnknownUser),
        Some(record) => {
            let verdict = bcrypt_verify(password.as_str(), record.password_hash.as_str());
            grant(record, verdict)
        },
    }
}

/// The reply to a request that did not authenticate. It is the same for every
/// rejection.
pub fn challenge(rejection: Rejection) -> (r: Reply)
    ensures
        r@ == unauthorized_reply(),
{
    unauthorized()
}

/// `username:password` splits back into the username and the password, as
/// long as the username holds no colon.
pub proof fn lemma_split_credentials(username: Seq<char>, password: Seq<char>)
    requires
        !username.contains(':'),
    ensures
        split_credentials(username + seq![':'] + password) == (username, password),
{
    let text = username + seq![':'] + password;
    assert forall|j: int| 0 <= j < username.len() implies text[j] != ':' by {
        assert(username.contains(username[j]));
    }
    lemma_first_index_of(text, ':', username.len() as int);
    assert(text.take(username.len() as int) == username);
    assert(text.skip(username.len() as int + 1) == password);
}

/// A configured user who sends the right password is let in, and is given
/// the root directory of their own record. Here `encoded` is what follows
/// `Basic ` in the authorization, and `bytes` what it decodes to.
pub proof fn lemma_correct_password_is_let_in(
    store: Map<Seq<char>, UserRecordView>,
    encoded: Seq<char>,
    bytes: Seq<u8>,
    username: Seq<char>,
    password: Seq<char>,
)
    requires
        base64_decoded(encoded) == Some(bytes),
        valid_utf8(bytes),
        decode_utf8(bytes) == username + seq![':'] + password,
        !username.contains(':'),
        store.contains_key(username),
        bcrypt_verdict(password, store[username].password_hash) == Some(true),
    ensures
        login(store, Some(scheme() + encoded)) == Ok::<IdentityView, Rejection>(
            IdentityView {
                username: store[username].username,
                root_directory: store[username].root_directory,
            },
        ),
{
    lemma_split_credentials(username, password);
    assert((scheme() + encoded).skip(scheme().len() as int) == encoded);
    assert((scheme() + encoded).subrange(0, scheme().len() as int) == scheme());
}

/// An unknown user and a wrong password are both turned away.
pub proof fn lemma_wrong_credentials_are_rejected(
    store: Map<Seq<char>, UserRecordView>,
    encoded: Seq<char>,
    bytes: Seq<u8>,
    username: Seq<char>,
    password: Seq<char>,
)
    requires
        base64_decoded(encoded) == Some(bytes),
        valid_utf8(bytes),
        decode_utf8(bytes) == username + seq![':'] + password,
        !username.contains(':'),
        !store.contains_key(username) || bcrypt_verdict(password, store[username].password_hash)
            != Some(true),
    ensures
        login(store, Some(scheme() + encoded)) is Err,
{
    lemma_split_credentials(username, password);
    assert((scheme() + encoded).skip(scheme().len() as int) == encoded);
    assert((scheme() + encoded).subrange(0, scheme().len() as int) == scheme());
}

} // verus!
