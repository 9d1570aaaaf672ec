//! The users the server knows: who they are, how their password is checked
//! and which directory is theirs.

use vstd::prelude::*;

verus! {

/// One configured user.
#[derive(Debug, Clone, PartialEq, Eq)]
pub struct UserRecord {
    pub username: String,
    pub password_hash: String,
    pub root_directory: String,
}

/// A `UserRecord` as text.
pub struct UserRecordView {
    pub username: Seq<char>,
    pub password_hash: Seq<char>,
    pub root_directory: Seq<char>,
}

impl View for UserRecord {
    type V = UserRecordView;

    open spec fn view(&self) -> UserRecordView {
        UserRecordView {
            username: self.username@,
            password_hash: self.password_hash@,
            root_directory: self.root_directory@,
        }
    }
}

/// Who a request was made by, once its credentials were checked, and the
/// directory that the request may read.
#[derive(Debug, Clone, PartialEq, Eq)]
pub struct AuthenticatedIdentity {
    pub username: String,
    pub root_directory: String,
}

/// An `AuthenticatedIdentity` as text.
pub struct IdentityView {
    pub username: Seq<char>,
    pub root_directory: Seq<char>,
}

impl View for AuthenticatedIdentity {
    type V = IdentityView;

    open spec fn view(&self) -> IdentityView {
        IdentityView { username: self.username@, root_directory: self.root_directory@ }
    }
}

/// The records of a list, each as text.
pub open spec fn record_views(records: Seq<UserRecord>) -> Seq<UserRecordView> {
    Seq::new(records.len(), |i: int| records[i]@)
}

/// The mapping from username to record that a list of records stands for.
/// Where a username occurs more than once, the last record with it counts.
pub open spec fn table(records: Seq<UserRecordView>) -> Map<Seq<char>, UserRecordView>
    decreases records.len(),
{
    if records.len() == 0 {
        Map::empty()
    } else {
        table(records.drop_last()).insert(records.last().username, records.last())
    }
}

/// A username that no record from index `from` on carries is found, or not
/// found, among the records before `from` alone.
pub proof fn lemma_table_skips_others(records: Seq<UserRecordView>, name: Seq<char>, from: int)
    requires
        0 <= from <= records.len(),
        forall|j: int| from <= j < records.len() ==> records[j].username != name,
    ensures
        table(records).contains_key(name) == table(records.take(from)).contains_key(name),
        table(records).contains_key(name) ==> table(records)[name] == table(
            records.take(from),
        )[name],
    decreases records.len(),
{
    if from == records.len() {
        assert(records.take(from) == records);
    } else {
        let init = records.drop_last();
        assert(init.take(from) == records.take(from));
        lemma_table_skips_others(init, name, from);
    }
}

/// Every record is filed under its own username.
pub proof fn lemma_table_keys(records: Seq<UserRecordView>, name: Seq<char>)
    requires
        table(records).contains_key(name),
    ensures
        table(records)[name].username == name,
    decreases records.len(),
{
    if records.len() > 0 && records.last().username != name {
        lemma_table_keys(records.drop_last(), name);
    }
}

/// The users the server knows. It is built once and only read afterwards.
#[derive(Debug, Clone)]
pub struct CredentialStore {
    records: Vec<UserRecord>,
}

impl View for CredentialStore {
    type V = Map<Seq<char>, UserRecordView>;

    closed spec fn view(&self) -> Map<Seq<char>, UserRecordView> {
        table(record_views(self.records@))
    }
}

impl CredentialStore {
    /// The store that holds the given records. Of two records with one
    /// username the later replaces the earlier.
    pub fn from_records(records: Vec<UserRecord>) -> (store: CredentialStore)
        ensures
            store@ == table(record_views(records@)),
    {
        CredentialStore { records }
    }

    /// Every record of the store is filed under its own username.
    pub proof fn lemma_keys_are_usernames(&self, name: Seq<char>)
        requires
            self@.contains_key(name),
        ensures
            self@[name].username == name,
    {
        lemma_table_keys(record_views(self.records@), name);
    }

    /// The record of the user called `username`, if there is one.
    pub fn lookup(&self, username: &str) -> (found: Option<&UserRecord>)
        ensures
            match found {
                Some(record) => self@.contains_key(username@) && self@[username@] == record@,
                None => !self@.contains_key(username@),
            },
    {
        let wanted: String = username.to_owned();
        let ghost all = record_views(self.records@);
        let mut i: usize = self.records.len();
        while i > 0
            invariant
                i <= self.records.len(),
                all == record_views(self.records@),
                wanted@ == username@,
                forall|j: int| i <= j < all.len() ==> all[j].username != username@,
            decreases i,
        {
            i -= 1;
            if self.records[i].username == wanted {
                proof {
                    lemma_table_skips_others(all, username@, i + 1);
                    assert(all.take(i + 1).drop_last() == all.take(i as int));
                    assert(all.take(i + 1).last() == self.records@[i as int]@);
                }
                return Some(&self.records[i]);
            }
        }
        proof {
            lemma_table_skips_others(all, username@, 0);
        }
        None
    }
}

} // verus!
