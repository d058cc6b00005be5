//! The metadata store model: accounts, mailboxes, and the MBOX file
//! registry, each a table with a unique primary key. Writes are single
//! operations on the owned store value, mirroring the single-writer
//! transactional store they stand for.

use crate::envelope::DataPage;
use crate::error::BichonError;
use crate::error::ErrorCode;
use vstd::prelude::*;
use vstd::string::StringExecFns;

verus! {

/// Whether an account is synchronized over IMAP or only holds imports.
#[derive(Clone, Copy, Debug, PartialEq, Eq, Structural)]
pub enum AccountType {
    IMAP,
    NoSync,
}

/// One account record.
#[derive(Clone, Debug, PartialEq, Eq)]
pub struct Account {
    pub id: u64,
    pub email: String,
    pub name: Option<String>,
    pub enabled: bool,
    pub account_type: AccountType,
    /// Sync only mail since this instant; never set together with
    /// `date_before`.
    pub date_since: Option<i64>,
    /// Sync only mail before this instant.
    pub date_before: Option<i64>,
    /// The folder allow-list, where one is configured.
    pub sync_folders: Option<Vec<String>>,
    /// The folders discovered so far, in discovery order.
    pub known_folders: Vec<String>,
    pub sync_interval_min: Option<i64>,
    pub sync_batch_size: Option<u32>,
    /// The IMAP password, encrypted at rest.
    pub encrypted_password: Option<String>,
    pub created_at: i64,
    pub updated_at: i64,
    /// The owning user.
    pub created_by: u64,
}

impl Account {
    /// The windowing invariant: at most one of the two date bounds is set.
    pub open spec fn window_wf(&self) -> bool {
        !(self.date_since is Some && self.date_before is Some)
    }

    /// A copy that agrees with this record field for field.
    pub fn duplicate(&self) -> (r: Account)
        ensures
            account_eq(r, *self),
    {
        Account {
            id: self.id,
            email: self.email.clone(),
            name: match &self.name {
                Some(n) => Some(n.clone()),
                None => None,
            },
            enabled: self.enabled,
            account_type: self.account_type,
            date_since: self.date_since,
            date_before: self.date_before,
            sync_folders: match &self.sync_folders {
                Some(v) => Some(crate::envelope::clone_string_vec(v)),
                None => None,
            },
            known_folders: crate::envelope::clone_string_vec(&self.known_folders),
            sync_interval_min: self.sync_interval_min,
            sync_batch_size: self.sync_batch_size,
            encrypted_password: match &self.encrypted_password {
                Some(p) => Some(p.clone()),
                None => None,
            },
            created_at: self.created_at,
            updated_at: self.updated_at,
            created_by: self.created_by,
        }
    }
}

/// Field-for-field agreement of two account records.
pub open spec fn account_eq(a: Account, b: Account) -> bool {
    &&& a.id == b.id
    &&& a.email@ == b.email@
    &&& a.name.deep_view() == b.name.deep_view()
    &&& a.enabled == b.enabled
    &&& a.account_type == b.account_type
    &&& a.date_since == b.date_since
    &&& a.date_before == b.date_before
    &&& a.sync_folders.deep_view() == b.sync_folders.deep_view()
    &&& a.known_folders.deep_view() == b.known_folders.deep_view()
    &&& a.sync_interval_min == b.sync_interval_min
    &&& a.sync_batch_size == b.sync_batch_size
    &&& a.encrypted_password.deep_view() == b.encrypted_password.deep_view()
    &&& a.created_at == b.created_at
    &&& a.updated_at == b.updated_at
    &&& a.created_by == b.created_by
}

/// One mailbox record.
#[derive(Clone, Debug, PartialEq, Eq)]
pub struct Mailbox {
    /// A hash of the account id and the name.
    pub id: u64,
    pub account_id: u64,
    pub name: String,
    pub delimiter: Option<String>,
    /// Attribute markers, such as the extension a synthetic mailbox is
    /// created with.
    pub attributes: Vec<String>,
    pub exists: u32,
    pub unseen: Option<u32>,
    pub uid_next: Option<u32>,
    /// The change token: when the server reports a different value, every
    /// cached uid of this mailbox is stale.
    pub uid_validity: Option<u32>,
}

/// One MBOX registry entry. Paths are unique; registering a path twice is
/// idempotent.
#[derive(Clone, Debug, PartialEq, Eq)]
pub struct MboxFileRec {
    pub id: u64,
    pub path: String,
    pub account_id: u64,
}

/// The metadata store.
pub struct MetaStore {
    pub accounts: Vec<Account>,
    pub mailboxes: Vec<Mailbox>,
    pub mbox_files: Vec<MboxFileRec>,
}

/// Whether an account id occurs in a table.
pub open spec fn acct_has_id(s: Seq<Account>, id: u64) -> bool {
    exists|i: int| 0 <= i < s.len() && (#[trigger] s[i]).id == id
}

/// Whether a mailbox id occurs.
pub open spec fn mb_has_id(s: Seq<Mailbox>, id: u64) -> bool {
    exists|i: int| 0 <= i < s.len() && (#[trigger] s[i]).id == id
}

/// Whether the account under this id is an IMAP account.
pub open spec fn acct_is_imap(s: Seq<Account>, id: u64) -> bool {
    exists|i: int|
        0 <= i < s.len() && (#[trigger] s[i]).id == id && s[i].account_type == AccountType::IMAP
}

/// Whether the account under this id is disabled.
pub open spec fn acct_disabled(s: Seq<Account>, id: u64) -> bool {
    exists|i: int| 0 <= i < s.len() && (#[trigger] s[i]).id == id && !s[i].enabled
}

/// Whether the account owns a mailbox of this name.
pub open spec fn mb_named(s: Seq<Mailbox>, account_id: u64, name: Seq<char>) -> bool {
    exists|i: int|
        0 <= i < s.len() && (#[trigger] s[i]).account_id == account_id && s[i].name@ == name
}

/// With unique ids, any id-keyed predicate over the table agrees with the
/// one record that carries the id.
pub proof fn lemma_acct_unique(s: Seq<Account>, a: Account, id: u64)
    requires
        forall|i: int, j: int| 0 <= i < j < s.len() ==> (#[trigger] s[i]).id != (#[trigger] s[j]).id,
        s.contains(a),
        a.id == id,
    ensures
        acct_is_imap(s, id) <==> a.account_type == AccountType::IMAP,
        acct_disabled(s, id) <==> !a.enabled,
{
    let j = choose|j: int| 0 <= j < s.len() && s[j] == a;
    assert(s[j].id == id);
    if acct_is_imap(s, id) {
        let i = choose|i: int|
            0 <= i < s.len() && (#[trigger] s[i]).id == id && s[i].account_type
                == AccountType::IMAP;
        assert(i == j);
    }
    if acct_disabled(s, id) {
        let i = choose|i: int| 0 <= i < s.len() && (#[trigger] s[i]).id == id && !s[i].enabled;
        assert(i == j);
    }
}

/// Whether an MBOX registry id occurs.
pub open spec fn mbox_has_id(s: Seq<MboxFileRec>, id: u64) -> bool {
    exists|i: int| 0 <= i < s.len() && (#[trigger] s[i]).id == id
}

/// Whether an MBOX path occurs.
pub open spec fn mbox_has_path(s: Seq<MboxFileRec>, path: Seq<char>) -> bool {
    exists|i: int| 0 <= i < s.len() && (#[trigger] s[i]).path@ == path
}

/// Whether the registry holds this id under this account.
pub open spec fn mbox_id_of_account(s: Seq<MboxFileRec>, id: u64, account_id: u64) -> bool {
    exists|i: int| 0 <= i < s.len() && (#[trigger] s[i]).id == id && s[i].account_id == account_id
}

impl MetaStore {
    /// Ids are unique in every table, and so are registered paths.
    pub open spec fn wf(&self) -> bool {
        &&& forall|i: int, j: int|
            0 <= i < j < self.accounts@.len() ==> (#[trigger] self.accounts@[i]).id
                != (#[trigger] self.accounts@[j]).id
        &&& forall|i: int, j: int|
            0 <= i < j < self.mailboxes@.len() ==> (#[trigger] self.mailboxes@[i]).id
                != (#[trigger] self.mailboxes@[j]).id
        &&& forall|i: int, j: int|
            0 <= i < j < self.mbox_files@.len() ==> (#[trigger] self.mbox_files@[i]).id
                != (#[trigger] self.mbox_files@[j]).id && self.mbox_files@[i].path@
                != self.mbox_files@[j].path@
    }

    pub fn new() -> (r: MetaStore)
        ensures
            r.wf(),
            r.accounts@ =~= Seq::<Account>::empty(),
            r.mailboxes@ =~= Seq::<Mailbox>::empty(),
            r.mbox_files@ =~= Seq::<MboxFileRec>::empty(),
    {
        MetaStore { accounts: Vec::new(), mailboxes: Vec::new(), mbox_files: Vec::new() }
    }

    /// The account with this id, if present.
    pub fn find_account(&self, id: u64) -> (r: Option<&Account>)
        ensures
            match r {
                Some(a) => a.id == id && self.accounts@.contains(*a),
                None => !acct_has_id(self.accounts@, id),
            },
    {
        let mut i: usize = 0;
        while i < self.accounts.len()
            invariant
                i <= self.accounts@.len(),
                forall|k: int| 0 <= k < i ==> (#[trigger] self.accounts@[k]).id != id,
            decreases self.accounts@.len() - i,
        {
            if self.accounts[i].id == id {
                return Some(&self.accounts[i]);
            }
            i = i + 1;
        }
        None
    }

    /// The account with this id, or a not-found error: exactly when the id
    /// is absent.
    pub fn check_account_exists(&self, id: u64) -> (r: Result<&Account, BichonError>)
        ensures
            r is Ok <==> acct_has_id(self.accounts@, id),
            r matches Ok(a) ==> a.id == id && self.accounts@.contains(*a),
            r matches Err(e) ==> e.code == ErrorCode::ResourceNotFound,
    {
        match self.find_account(id) {
            Some(a) => Result::Ok(a),
            None => Result::Err(
                BichonError::new(ErrorCode::ResourceNotFound, String::from_str("account not found")),
            ),
        }
    }

    /// Adds an account; an already-used id is a conflict, and nothing
    /// changes then. The record must satisfy the windowing invariant.
    pub fn insert_account(&mut self, account: Account) -> (r: Result<(), BichonError>)
        requires
            old(self).wf(),
            account.window_wf(),
        ensures
            final(self).wf(),
            r is Ok <==> !acct_has_id(old(self).accounts@, account.id),
            r is Ok ==> final(self).accounts@ =~= old(self).accounts@.push(account),
            r is Err ==> final(self).accounts@ == old(self).accounts@,
            r matches Err(e) ==> e.code == ErrorCode::AlreadyExists,
            final(self).mailboxes@ == old(self).mailboxes@,
            final(self).mbox_files@ == old(self).mbox_files@,
    {
        let existing = self.find_account(account.id);
        if existing.is_some() {
            proof {
                assert(acct_has_id(self.accounts@, account.id));
            }
            return Result::Err(
                BichonError::new(
                    ErrorCode::AlreadyExists,
                    String::from_str("an account with this id is already registered"),
                ),
            );
        }
        let ghost pre = self.accounts@;
        self.accounts.push(account);
        proof {
            assert forall|i: int, j: int|
                0 <= i < j < self.accounts@.len() implies (#[trigger] self.accounts@[i]).id
                != (#[trigger] self.accounts@[j]).id by {
                if j == pre.len() {
                    assert(self.accounts@[i] == pre[i]);
                }
            }
        }
        Result::Ok(())
    }

    /// Deletes the account row, failing exactly when it is absent; the
    /// other tables are untouched (the full cleanup chain is sequenced by
    /// the caller).
    pub fn delete_account(&mut self, id: u64) -> (r: Result<(), BichonError>)
        requires
            old(self).wf(),
        ensures
            final(self).wf(),
            r is Ok <==> acct_has_id(old(self).accounts@, id),
            r matches Err(e) ==> e.code == ErrorCode::ResourceNotFound && final(self).accounts@
                == old(self).accounts@,
            r is Ok ==> exists|i: int|
                0 <= i < old(self).accounts@.len() && (#[trigger] old(self).accounts@[i]).id == id
                    && final(self).accounts@ =~= old(self).accounts@.remove(i),
            final(self).mailboxes@ == old(self).mailboxes@,
            final(self).mbox_files@ == old(self).mbox_files@,
    {
        let mut i: usize = 0;
        while i < self.accounts.len()
            invariant
                old(self).wf(),
                self == old(self),
                i <= self.accounts@.len(),
                forall|k: int| 0 <= k < i ==> (#[trigger] self.accounts@[k]).id != id,
            decreases self.accounts@.len() - i,
        {
            if self.accounts[i].id == id {
                let ghost pre = self.accounts@;
                let _removed = self.accounts.remove(i);
                proof {
                    assert forall|x: int, y: int|
                        0 <= x < y < self.accounts@.len() implies (#[trigger] self.accounts@[x]).id
                        != (#[trigger] self.accounts@[y]).id by {
                        assert(self.accounts@[x] == pre[if x < i {
                            x
                        } else {
                            x + 1
                        }]);
                        assert(self.accounts@[y] == pre[if y < i {
                            y
                        } else {
                            y + 1
                        }]);
                    }
                }
                return Result::Ok(());
            }
            i = i + 1;
        }
        Result::Err(
            BichonError::new(ErrorCode::ResourceNotFound, String::from_str("account not found")),
        )
    }

    /// Replaces the account with the same id by the given record; fails
    /// exactly when no account carries that id. The record must satisfy
    /// the windowing invariant.
    pub fn replace_account(&mut self, account: Account) -> (r: Result<(), BichonError>)
        requires
            old(self).wf(),
            account.window_wf(),
        ensures
            final(self).wf(),
            r is Ok <==> acct_has_id(old(self).accounts@, account.id),
            r matches Err(e) ==> e.code == ErrorCode::ResourceNotFound && final(self).accounts@
                == old(self).accounts@,
            r is Ok ==> exists|i: int|
                0 <= i < old(self).accounts@.len() && (#[trigger] old(self).accounts@[i]).id
                    == account.id && final(self).accounts@ =~= old(self).accounts@.update(
                    i,
                    account,
                ),
            final(self).mailboxes@ == old(self).mailboxes@,
            final(self).mbox_files@ == old(self).mbox_files@,
    {
        let ghost aid = account.id;
        let mut i: usize = 0;
        while i < self.accounts.len()
            invariant
                old(self).wf(),
                self == old(self),
                aid == account.id,
                i <= self.accounts@.len(),
                forall|k: int| 0 <= k < i ==> (#[trigger] self.accounts@[k]).id != aid,
            decreases self.accounts@.len() - i,
        {
            if self.accounts[i].id == account.id {
                let ghost pre = self.accounts@;
                self.accounts.set(i, account);
                proof {
                    assert forall|x: int, y: int|
                        0 <= x < y < self.accounts@.len() implies (#[trigger] self.accounts@[x]).id
                        != (#[trigger] self.accounts@[y]).id by {
                        assert(pre[x].id == self.accounts@[x].id || x == i);
                        assert(pre[y].id == self.accounts@[y].id || y == i);
                        assert(pre[i as int].id == aid);
                    }
                }
                return Result::Ok(());
            }
            i = i + 1;
        }
        Result::Err(
            BichonError::new(ErrorCode::ResourceNotFound, String::from_str("account not found")),
        )
    }

    /// Every account id with its email, for resolution in aggregations.
    pub fn account_emails(&self) -> (r: Vec<(u64, String)>)
        ensures
            r@.len() == self.accounts@.len(),
            forall|i: int|
                0 <= i < r@.len() ==> (#[trigger] r@[i]).0 == self.accounts@[i].id && r@[i].1@
                    == self.accounts@[i].email@,
    {
        let mut out: Vec<(u64, String)> = Vec::new();
        let mut i: usize = 0;
        while i < self.accounts.len()
            invariant
                i <= self.accounts@.len(),
                out@.len() == i,
                forall|k: int|
                    0 <= k < i ==> (#[trigger] out@[k]).0 == self.accounts@[k].id && out@[k].1@
                        == self.accounts@[k].email@,
            decreases self.accounts@.len() - i,
        {
            out.push((self.accounts[i].id, self.accounts[i].email.clone()));
            i = i + 1;
        }
        out
    }

    /// The mailbox of an account with this name, if present.
    pub fn find_mailbox_by_name(&self, account_id: u64, name: &String) -> (r: Option<&Mailbox>)
        ensures
            match r {
                Some(m) => m.account_id == account_id && m.name@ == name@
                    && self.mailboxes@.contains(*m),
                None => forall|i: int|
                    0 <= i < self.mailboxes@.len() ==> !((#[trigger] self.mailboxes@[i]).account_id
                        == account_id && self.mailboxes@[i].name@ == name@),
            },
    {
        let mut i: usize = 0;
        while i < self.mailboxes.len()
            invariant
                i <= self.mailboxes@.len(),
                forall|k: int|
                    0 <= k < i ==> !((#[trigger] self.mailboxes@[k]).account_id == account_id
                        && self.mailboxes@[k].name@ == name@),
            decreases self.mailboxes@.len() - i,
        {
            if self.mailboxes[i].account_id == account_id && crate::query::string_eq(
                &self.mailboxes[i].name,
                name,
            ) {
                return Some(&self.mailboxes[i]);
            }
            i = i + 1;
        }
        None
    }

    /// The mailbox with this id, if present.
    pub fn find_mailbox(&self, id: u64) -> (r: Option<&Mailbox>)
        ensures
            match r {
                Some(m) => m.id == id && self.mailboxes@.contains(*m),
                None => !mb_has_id(self.mailboxes@, id),
            },
    {
        let mut i: usize = 0;
        while i < self.mailboxes.len()
            invariant
                i <= self.mailboxes@.len(),
                forall|k: int| 0 <= k < i ==> (#[trigger] self.mailboxes@[k]).id != id,
            decreases self.mailboxes@.len() - i,
        {
            if self.mailboxes[i].id == id {
                return Some(&self.mailboxes[i]);
            }
            i = i + 1;
        }
        None
    }

    /// Writes a mailbox under its id, replacing an existing record.
    pub fn upsert_mailbox(&mut self, mb: Mailbox)
        requires
            old(self).wf(),
        ensures
            final(self).wf(),
            mb_has_id(final(self).mailboxes@, mb.id),
            (if mb_has_id(old(self).mailboxes@, mb.id) {
                exists|i: int|
                    0 <= i < old(self).mailboxes@.len() && old(self).mailboxes@[i].id == mb.id
                        && final(self).mailboxes@ =~= old(self).mailboxes@.update(i, mb)
            } else {
                final(self).mailboxes@ =~= old(self).mailboxes@.push(mb)
            }),
            final(self).accounts@ == old(self).accounts@,
            final(self).mbox_files@ == old(self).mbox_files@,
    {
        let ghost mid = mb.id;
        let mut i: usize = 0;
        while i < self.mailboxes.len()
            invariant
                old(self).wf(),
                self == old(self),
                mid == mb.id,
                i <= self.mailboxes@.len(),
                forall|k: int| 0 <= k < i ==> (#[trigger] self.mailboxes@[k]).id != mid,
            decreases self.mailboxes@.len() - i,
        {
            if self.mailboxes[i].id == mb.id {
                let ghost pre = self.mailboxes@;
                self.mailboxes.set(i, mb);
                proof {
                    assert forall|x: int, y: int|
                        0 <= x < y < self.mailboxes@.len() implies (#[trigger] self.mailboxes@[x]).id
                        != (#[trigger] self.mailboxes@[y]).id by {
                        assert(pre[x].id == self.mailboxes@[x].id || x == i);
                        assert(pre[y].id == self.mailboxes@[y].id || y == i);
                        assert(pre[i as int].id == mid);
                    }
                    assert(self.mailboxes@[i as int].id == mid);
                }
                return ;
            }
            i = i + 1;
        }
        let ghost pre = self.mailboxes@;
        self.mailboxes.push(mb);
        proof {
            assert(self.mailboxes@[pre.len() as int].id == mid);
            assert forall|x: int, y: int|
                0 <= x < y < self.mailboxes@.len() implies (#[trigger] self.mailboxes@[x]).id
                != (#[trigger] self.mailboxes@[y]).id by {
                if y == pre.len() {
                    assert(self.mailboxes@[x] == pre[x]);
                    assert(!mb_has_id(pre, mid));
                }
            }
        }
    }

    /// Registers an MBOX file: idempotent by path. An already-registered
    /// path leaves the store unchanged and yields the existing id;
    /// otherwise a record with the given fresh id is added.
    pub fn register_mbox_file(&mut self, path: String, account_id: u64, new_id: u64) -> (r: u64)
        requires
            old(self).wf(),
            !mbox_has_id(old(self).mbox_files@, new_id),
        ensures
            final(self).wf(),
            (if mbox_has_path(old(self).mbox_files@, path@) {
                final(self).mbox_files@ == old(self).mbox_files@ && exists|i: int|
                    0 <= i < old(self).mbox_files@.len()
                        && (#[trigger] old(self).mbox_files@[i]).path@ == path@
                        && old(self).mbox_files@[i].id == r
            } else {
                r == new_id && final(self).mbox_files@ =~= old(self).mbox_files@.push(
                    MboxFileRec { id: new_id, path, account_id },
                )
            }),
            final(self).accounts@ == old(self).accounts@,
            final(self).mailboxes@ == old(self).mailboxes@,
    {
        let mut i: usize = 0;
        while i < self.mbox_files.len()
            invariant
                old(self).wf(),
                self == old(self),
                i <= self.mbox_files@.len(),
                forall|k: int| 0 <= k < i ==> (#[trigger] self.mbox_files@[k]).path@ != path@,
            decreases self.mbox_files@.len() - i,
        {
            if crate::query::string_eq(&self.mbox_files[i].path, &path) {
                return self.mbox_files[i].id;
            }
            i = i + 1;
        }
        let ghost pre = self.mbox_files@;
        let rec = MboxFileRec { id: new_id, path, account_id };
        let ghost recg = rec;
        self.mbox_files.push(rec);
        proof {
            assert forall|x: int, y: int|
                0 <= x < y < self.mbox_files@.len() implies (#[trigger] self.mbox_files@[x]).id
                != (#[trigger] self.mbox_files@[y]).id && self.mbox_files@[x].path@
                != self.mbox_files@[y].path@ by {
                if y == pre.len() {
                    assert(self.mbox_files@[x] == pre[x]);
                    assert(!mbox_has_id(pre, new_id));
                    assert(self.mbox_files@[y] == recg);
                }
            }
        }
        new_id
    }

    /// The registry entry with this id, if present.
    pub fn find_mbox_by_id(&self, id: u64) -> (r: Option<&MboxFileRec>)
        ensures
            match r {
                Some(f) => f.id == id && self.mbox_files@.contains(*f),
                None => !mbox_has_id(self.mbox_files@, id),
            },
    {
        let mut i: usize = 0;
        while i < self.mbox_files.len()
            invariant
                i <= self.mbox_files@.len(),
                forall|k: int| 0 <= k < i ==> (#[trigger] self.mbox_files@[k]).id != id,
            decreases self.mbox_files@.len() - i,
        {
            if self.mbox_files[i].id == id {
                return Some(&self.mbox_files[i]);
            }
            i = i + 1;
        }
        None
    }

    /// The ids of the registry entries of one account, in stored order.
    pub fn list_mbox_ids_by_account(&self, account_id: u64) -> (r: Vec<u64>)
        ensures
            forall|k: int|
                0 <= k < r@.len() ==> mbox_id_of_account(
                    self.mbox_files@,
                    #[trigger] r@[k],
                    account_id,
                ),
            forall|i: int|
                0 <= i < self.mbox_files@.len() && (#[trigger] self.mbox_files@[i]).account_id
                    == account_id ==> r@.contains(self.mbox_files@[i].id),
    {
        let mut out: Vec<u64> = Vec::new();
        let mut i: usize = 0;
        while i < self.mbox_files.len()
            invariant
                i <= self.mbox_files@.len(),
                forall|k: int|
                    0 <= k < out@.len() ==> mbox_id_of_account(
                        self.mbox_files@,
                        #[trigger] out@[k],
                        account_id,
                    ),
                forall|x: int|
                    0 <= x < i && (#[trigger] self.mbox_files@[x]).account_id == account_id
                        ==> out@.contains(self.mbox_files@[x].id),
            decreases self.mbox_files@.len() - i,
        {
            let ghost pre = out@;
            if self.mbox_files[i].account_id == account_id {
                out.push(self.mbox_files[i].id);
                proof {
                    assert(mbox_id_of_account(
                        self.mbox_files@,
                        self.mbox_files@[i as int].id,
                        account_id,
                    ));
                    assert forall|x: int|
                        0 <= x < i + 1 && (#[trigger] self.mbox_files@[x]).account_id == account_id
                        implies out@.contains(self.mbox_files@[x].id) by {
                        if x < i {
                            let w = choose|w: int|
                                0 <= w < pre.len() && pre[w] == self.mbox_files@[x].id;
                            assert(out@[w] == self.mbox_files@[x].id);
                        } else {
                            assert(out@[pre.len() as int] == self.mbox_files@[i as int].id);
                        }
                    }
                }
            } else {
                proof {
                    assert forall|x: int|
                        0 <= x < i + 1 && (#[trigger] self.mbox_files@[x]).account_id == account_id
                        implies out@.contains(self.mbox_files@[x].id) by {
                        if x < i {
                            let w = choose|w: int|
                                0 <= w < pre.len() && pre[w] == self.mbox_files@[x].id;
                            assert(out@[w] == self.mbox_files@[x].id);
                        }
                    }
                }
            }
            i = i + 1;
        }
        out
    }

    /// Removes the registry entry with this id, failing exactly when it is
    /// absent. Index entries built from the file are untouched.
    pub fn delete_mbox_by_id(&mut self, id: u64) -> (r: Result<(), BichonError>)
        requires
            old(self).wf(),
        ensures
            final(self).wf(),
            r is Ok <==> mbox_has_id(old(self).mbox_files@, id),
            r matches Err(e) ==> e.code == ErrorCode::ResourceNotFound && final(self).mbox_files@
                == old(self).mbox_files@,
            r is Ok ==> exists|i: int|
                0 <= i < old(self).mbox_files@.len() && (#[trigger] old(self).mbox_files@[i]).id
                    == id && final(self).mbox_files@ =~= old(self).mbox_files@.remove(i),
            final(self).accounts@ == old(self).accounts@,
            final(self).mailboxes@ == old(self).mailboxes@,
    {
        let mut i: usize = 0;
        while i < self.mbox_files.len()
            invariant
                old(self).wf(),
                self == old(self),
                i <= self.mbox_files@.len(),
                forall|k: int| 0 <= k < i ==> (#[trigger] self.mbox_files@[k]).id != id,
            decreases self.mbox_files@.len() - i,
        {
            if self.mbox_files[i].id == id {
                let ghost pre = self.mbox_files@;
                let _removed = self.mbox_files.remove(i);
                proof {
                    assert forall|x: int, y: int|
                        0 <= x < y < self.mbox_files@.len() implies (#[trigger] self.mbox_files@[x]).id
                        != (#[trigger] self.mbox_files@[y]).id && self.mbox_files@[x].path@
                        != self.mbox_files@[y].path@ by {
                        assert(self.mbox_files@[x] == pre[if x < i {
                            x
                        } else {
                            x + 1
                        }]);
                        assert(self.mbox_files@[y] == pre[if y < i {
                            y
                        } else {
                            y + 1
                        }]);
                    }
                }
                return Result::Ok(());
            }
            i = i + 1;
        }
        Result::Err(
            BichonError::new(
                ErrorCode::ResourceNotFound,
                String::from_str("the registry holds no file with this id"),
            ),
        )
    }
}

impl MetaStore {
    /// Deletes every mailbox of an account: afterwards none of the
    /// account's mailboxes remains, and every other mailbox survives.
    pub fn delete_account_mailboxes(&mut self, account_id: u64)
        requires
            old(self).wf(),
        ensures
            final(self).wf(),
            final(self).accounts@ == old(self).accounts@,
            final(self).mbox_files@ == old(self).mbox_files@,
            forall|i: int|
                0 <= i < final(self).mailboxes@.len() ==> (#[trigger] final(self).mailboxes@[i]).account_id != account_id,
            forall|i: int|
                0 <= i < old(self).mailboxes@.len() && (#[trigger] old(self).mailboxes@[i]).account_id != account_id ==> final(self).mailboxes@.contains(
                    old(self).mailboxes@[i],
                ),
    {
        let ghost pre = self.mailboxes@;
        let mut kept: Vec<Mailbox> = Vec::new();
        let n0 = self.mailboxes.len();
        let mut done: usize = 0;
        proof {
            assert(self.mailboxes@ =~= pre.subrange(0, pre.len() as int));
        }
        while self.mailboxes.len() > 0
            invariant
                pre.len() == n0,
                forall|x: int, y: int|
                    0 <= x < y < pre.len() ==> (#[trigger] pre[x]).id != (#[trigger] pre[y]).id,
                done + self.mailboxes@.len() == pre.len(),
                self.mailboxes@ =~= pre.subrange(done as int, pre.len() as int),
                forall|x: int|
                    0 <= x < kept@.len() ==> (#[trigger] kept@[x]).account_id != account_id,
                forall|k: int|
                    0 <= k < done && (#[trigger] pre[k]).account_id != account_id
                        ==> kept@.contains(pre[k]),
                forall|x: int, y: int|
                    0 <= x < y < kept@.len() ==> (#[trigger] kept@[x]).id
                        != (#[trigger] kept@[y]).id,
                forall|x: int, r: int|
                    0 <= x < kept@.len() && 0 <= r < self.mailboxes@.len() ==> (#[trigger] kept@[
                        x
                    ]).id != (#[trigger] self.mailboxes@[r]).id,
                self.accounts@ == old(self).accounts@,
                self.mbox_files@ == old(self).mbox_files@,
            decreases self.mailboxes@.len(),
        {
            let ghost before = self.mailboxes@;
            let ghost kept_before = kept@;
            let m = self.mailboxes.remove(0);
            proof {
                assert(m == before[0]);
                assert(before[0] == pre[done as int]);
                assert(self.mailboxes@ =~= before.drop_first());
                assert(before.drop_first() =~= pre.subrange(done + 1, pre.len() as int));
            }
            if m.account_id != account_id {
                kept.push(m);
            }
            proof {
                assert forall|x: int, r: int|
                    0 <= x < kept@.len() && 0 <= r < self.mailboxes@.len() implies (
                #[trigger] kept@[x]).id != (#[trigger] self.mailboxes@[r]).id by {
                    assert(self.mailboxes@[r] == pre[done + 1 + r]);
                    if x < kept_before.len() {
                        assert(kept@[x] == kept_before[x]);
                        assert(kept_before[x].id != before[r + 1].id);
                    } else {
                        assert(kept@[x] == pre[done as int]);
                    }
                }
                assert forall|x: int, y: int|
                    0 <= x < y < kept@.len() implies (#[trigger] kept@[x]).id != (#[trigger] kept@[
                    y
                ]).id by {
                    if y < kept_before.len() {
                        assert(kept@[x] == kept_before[x]);
                        assert(kept@[y] == kept_before[y]);
                    } else {
                        assert(kept@[y] == pre[done as int]);
                        assert(kept@[x] == kept_before[x]);
                        assert(kept_before[x].id != before[0].id);
                    }
                }
                assert forall|k: int|
                    0 <= k < done + 1 && (#[trigger] pre[k]).account_id != account_id
                        implies kept@.contains(pre[k]) by {
                    if k < done {
                        assert(kept_before.contains(pre[k]));
                        let w = choose|w: int| 0 <= w < kept_before.len() && kept_before[w] == pre[k];
                        assert(kept@[w] == pre[k]);
                    } else {
                        assert(kept@[kept@.len() - 1] == pre[done as int]);
                    }
                }
            }
            done = done + 1;
        }
        let mut swapped = kept;
        core::mem::swap(&mut self.mailboxes, &mut swapped);
        proof {
            assert(pre.subrange(0, pre.len() as int) =~= pre);
        }
    }

    /// Deletes every MBOX registry entry of an account: afterwards none of
    /// the account's entries remains, and every other entry survives.
    pub fn delete_account_mbox_files(&mut self, account_id: u64)
        requires
            old(self).wf(),
        ensures
            final(self).wf(),
            final(self).accounts@ == old(self).accounts@,
            final(self).mailboxes@ == old(self).mailboxes@,
            forall|i: int|
                0 <= i < final(self).mbox_files@.len() ==> (#[trigger] final(self).mbox_files@[i]).account_id != account_id,
            forall|i: int|
                0 <= i < old(self).mbox_files@.len() && (#[trigger] old(self).mbox_files@[i]).account_id != account_id ==> final(self).mbox_files@.contains(
                    old(self).mbox_files@[i],
                ),
    {
        let ghost pre = self.mbox_files@;
        let mut kept: Vec<MboxFileRec> = Vec::new();
        let n0 = self.mbox_files.len();
        let mut done: usize = 0;
        proof {
            assert(self.mbox_files@ =~= pre.subrange(0, pre.len() as int));
        }
        while self.mbox_files.len() > 0
            invariant
                pre.len() == n0,
                forall|x: int, y: int|
                    0 <= x < y < pre.len() ==> (#[trigger] pre[x]).id != (#[trigger] pre[y]).id
                        && pre[x].path@ != pre[y].path@,
                done + self.mbox_files@.len() == pre.len(),
                self.mbox_files@ =~= pre.subrange(done as int, pre.len() as int),
                forall|x: int|
                    0 <= x < kept@.len() ==> (#[trigger] kept@[x]).account_id != account_id,
                forall|k: int|
                    0 <= k < done && (#[trigger] pre[k]).account_id != account_id
                        ==> kept@.contains(pre[k]),
                forall|x: int, y: int|
                    0 <= x < y < kept@.len() ==> (#[trigger] kept@[x]).id
                        != (#[trigger] kept@[y]).id && kept@[x].path@ != kept@[y].path@,
                forall|x: int, r: int|
                    0 <= x < kept@.len() && 0 <= r < self.mbox_files@.len() ==> (#[trigger] kept@[
                        x
                    ]).id != (#[trigger] self.mbox_files@[r]).id && kept@[x].path@
                        != self.mbox_files@[r].path@,
                self.accounts@ == old(self).accounts@,
                self.mailboxes@ == old(self).mailboxes@,
            decreases self.mbox_files@.len(),
        {
            let ghost before = self.mbox_files@;
            let ghost kept_before = kept@;
            let f = self.mbox_files.remove(0);
            proof {
                assert(f == before[0]);
                assert(before[0] == pre[done as int]);
                assert(self.mbox_files@ =~= before.drop_first());
                assert(before.drop_first() =~= pre.subrange(done + 1, pre.len() as int));
            }
            if f.account_id != account_id {
                kept.push(f);
            }
            proof {
                assert forall|x: int, r: int|
                    0 <= x < kept@.len() && 0 <= r < self.mbox_files@.len() implies (
                #[trigger] kept@[x]).id != (#[trigger] self.mbox_files@[r]).id && kept@[x].path@
                    != self.mbox_files@[r].path@ by {
                    assert(self.mbox_files@[r] == pre[done + 1 + r]);
                    if x < kept_before.len() {
                        assert(kept@[x] == kept_before[x]);
                        assert(kept_before[x].id != before[r + 1].id && kept_before[x].path@
                            != before[r + 1].path@);
                    } else {
                        assert(kept@[x] == pre[done as int]);
                    }
                }
                assert forall|x: int, y: int|
                    0 <= x < y < kept@.len() implies (#[trigger] kept@[x]).id != (#[trigger] kept@[
                    y
                ]).id && kept@[x].path@ != kept@[y].path@ by {
                    if y < kept_before.len() {
                        assert(kept@[x] == kept_before[x]);
                        assert(kept@[y] == kept_before[y]);
                    } else {
                        assert(kept@[y] == pre[done as int]);
                        assert(kept@[x] == kept_before[x]);
                        assert(kept_before[x].id != before[0].id && kept_before[x].path@
                            != before[0].path@);
                    }
                }
                assert forall|k: int|
                    0 <= k < done + 1 && (#[trigger] pre[k]).account_id != account_id
                        implies kept@.contains(pre[k]) by {
                    if k < done {
                        assert(kept_before.contains(pre[k]));
                        let w = choose|w: int| 0 <= w < kept_before.len() && kept_before[w] == pre[k];
                        assert(kept@[w] == pre[k]);
                    } else {
                        assert(kept@[kept@.len() - 1] == pre[done as int]);
                    }
                }
            }
            done = done + 1;
        }
        let mut swapped = kept;
        core::mem::swap(&mut self.mbox_files, &mut swapped);
        proof {
            assert(pre.subrange(0, pre.len() as int) =~= pre);
        }
    }
}

/// The sequenced cleanup of an account: its envelopes and raw locators
/// leave both indexes, its mailboxes and registered MBOX files leave the
/// store, every user's grant on it is revoked, and finally the account row
/// itself is deleted. Fails exactly when the account is absent, and then
/// nothing changes.
pub fn cleanup_account(
    store: &mut MetaStore,
    env_index: &mut crate::index::EnvelopeIndex,
    eml_index: &mut crate::eml_index::EmlIndex,
    users: &mut Vec<crate::auth::User>,
    account_id: u64,
) -> (r: Result<(), BichonError>)
    requires
        old(store).wf(),
        old(env_index).wf(),
        old(eml_index).wf(),
    ensures
        final(store).wf(),
        final(env_index).wf(),
        final(eml_index).wf(),
        r is Ok <==> acct_has_id(old(store).accounts@, account_id),
        r matches Err(e) ==> e.code == ErrorCode::ResourceNotFound,
        r is Err ==> final(store).accounts@ == old(store).accounts@ && final(store).mailboxes@
            == old(store).mailboxes@ && final(store).mbox_files@ == old(store).mbox_files@
            && final(env_index)@ == old(env_index)@ && final(eml_index)@ == old(eml_index)@
            && final(users)@ == old(users)@,
        r is Ok ==> ({
            &&& !acct_has_id(final(store).accounts@, account_id)
            &&& forall|i: int|
                0 <= i < old(store).accounts@.len() && (#[trigger] old(store).accounts@[i]).id
                    != account_id ==> final(store).accounts@.contains(old(store).accounts@[i])
            &&& forall|i: int|
                0 <= i < final(env_index)@.len() ==> (#[trigger] final(env_index)@[i]).account_id != account_id
            &&& forall|i: int|
                0 <= i < final(eml_index)@.len() ==> (#[trigger] final(eml_index)@[i]).account_id != account_id
            &&& forall|i: int|
                0 <= i < final(store).mailboxes@.len() ==> (#[trigger] final(store).mailboxes@[i]).account_id != account_id
            &&& forall|i: int|
                0 <= i < final(store).mbox_files@.len() ==> (#[trigger] final(store).mbox_files@[i]).account_id != account_id
            &&& final(users)@.len() == old(users)@.len()
            &&& forall|i: int|
                0 <= i < old(users)@.len() ==> crate::users::ungranted(
                    old(users)@[i],
                    #[trigger] final(users)@[i],
                    account_id,
                )
        }),
{
    if store.find_account(account_id).is_none() {
        return Result::Err(
            BichonError::new(ErrorCode::ResourceNotFound, String::from_str("account not found")),
        );
    }
    env_index.delete_account_envelopes(account_id);
    proof {
        broadcast use vstd::seq_lib::group_filter_ensures;

        assert forall|i: int|
            0 <= i < env_index@.len() implies (#[trigger] env_index@[i]).account_id != account_id by {
            assert(env_index@.contains(env_index@[i]));
        }
    }
    eml_index.delete_account_envelopes(account_id);
    proof {
        broadcast use vstd::seq_lib::group_filter_ensures;

        assert forall|i: int|
            0 <= i < eml_index@.len() implies (#[trigger] eml_index@[i]).account_id != account_id by {
            assert(eml_index@.contains(eml_index@[i]));
        }
    }
    store.delete_account_mailboxes(account_id);
    store.delete_account_mbox_files(account_id);
    crate::users::strip_account_grants(users, account_id);
    let ghost accounts_pre = store.accounts@;
    let outcome = store.delete_account(account_id);
    proof {
        assert(outcome is Ok);
        let i = choose|i: int|
            0 <= i < accounts_pre.len() && (#[trigger] accounts_pre[i]).id == account_id
                && store.accounts@ =~= accounts_pre.remove(i);
        assert forall|j: int|
            0 <= j < store.accounts@.len() implies (#[trigger] store.accounts@[j]).id
            != account_id by {
            if j < i {
                assert(store.accounts@[j] == accounts_pre[j]);
            } else {
                assert(store.accounts@[j] == accounts_pre[j + 1]);
            }
        }
        assert forall|j: int|
            0 <= j < accounts_pre.len() && (#[trigger] accounts_pre[j]).id != account_id
                implies store.accounts@.contains(accounts_pre[j]) by {
            if j < i {
                assert(store.accounts@[j] == accounts_pre[j]);
            } else {
                assert(j != i);
                assert(store.accounts@[j - 1] == accounts_pre[j]);
            }
        }
    }
    Result::Ok(())
}

/// The half-open index window of one page over a table of `total` rows.
pub open spec fn page_window(total: int, page: int, page_size: int) -> (int, int) {
    let start = if (page - 1) * page_size <= total {
        (page - 1) * page_size
    } else {
        total
    };
    let end = if start + page_size <= total {
        start + page_size
    } else {
        total
    };
    (start, end)
}

/// One page of the account table, in table order: rejects a zero page or
/// page size, and otherwise returns copies of exactly the rows of the
/// requested window, with the total row and page counts.
pub fn paginate_accounts(store: &MetaStore, page: u64, page_size: u64) -> (r: Result<
    DataPage<Account>,
    BichonError,
>)
    ensures
        r is Err <==> (page == 0 || page_size == 0),
        r matches Err(e) ==> e.code == ErrorCode::InvalidParameter,
        r matches Ok(pg) ==> ({
            let w = page_window(store.accounts@.len() as int, page as int, page_size as int);
            &&& pg.total_items == store.accounts@.len()
            &&& pg.current_page == Some(page)
            &&& pg.page_size == Some(page_size)
            &&& (pg.total_pages matches Some(tp) && tp == crate::index::div_ceil_spec(
                store.accounts@.len() as int,
                page_size as int,
            ))
            &&& pg.items@.len() == w.1 - w.0
            &&& forall|i: int|
                0 <= i < pg.items@.len() ==> account_eq(
                    #[trigger] pg.items@[i],
                    store.accounts@[w.0 + i],
                )
        }),
{
    if page == 0 || page_size == 0 {
        return Result::Err(
            BichonError::new(
                ErrorCode::InvalidParameter,
                String::from_str("page and page_size must be greater than 0"),
            ),
        );
    }
    let total_usize = store.accounts.len();
    let total: u64 = total_usize as u64;
    let q: u64 = total / page_size;
    let rem_q: u64 = total % page_size;
    proof {
        assert(q * page_size + rem_q == total && q <= q * page_size) by (nonlinear_arith)
            requires
                page_size >= 1,
                q == total / page_size,
                rem_q == total % page_size,
        ;
    }
    let total_pages: u64 = if total == 0 {
        0
    } else if rem_q == 0 {
        q
    } else {
        q + 1
    };
    proof {
        assert(total_pages == crate::index::div_ceil_spec(total as int, page_size as int));
        assert(((page - 1) as u128) * (page_size as u128) <= 0xffffffffffffffffu128
            * 0xffffffffffffffffu128) by (nonlinear_arith)
            requires
                ((page - 1) as u128) <= 0xffffffffffffffffu128,
                ((page_size) as u128) <= 0xffffffffffffffffu128,
        ;
    }
    let off128: u128 = ((page - 1) as u128) * (page_size as u128);
    let ghost woff = (page - 1) as int * page_size as int;
    proof {
        assert(off128 == woff);
    }
    let start: usize = if off128 >= total_usize as u128 {
        total_usize
    } else {
        off128 as usize
    };
    let ghost w = page_window(store.accounts@.len() as int, page as int, page_size as int);
    proof {
        assert(start == w.0);
    }
    let mut items: Vec<Account> = Vec::new();
    let mut i: usize = start;
    while i < total_usize && (items.len() as u64) < page_size
        invariant
            total_usize == store.accounts@.len(),
            start <= i <= total_usize,
            items@.len() == i - start,
            i - start <= page_size,
            forall|k: int|
                0 <= k < items@.len() ==> account_eq(#[trigger] items@[k], store.accounts@[
                    start + k
                ]),
        decreases total_usize - i,
    {
        items.push(store.accounts[i].duplicate());
        i = i + 1;
    }
    Result::Ok(
        DataPage {
            current_page: Some(page),
            page_size: Some(page_size),
            total_items: total,
            total_pages: Some(total_pages),
            items,
        },
    )
}

/// Whether `granted` is `u` with one more access-map entry: manager rights
/// on the new account, stamped at `now_ms`.
pub open spec fn with_manager_grant(
    u: crate::auth::User,
    granted: crate::auth::User,
    account_id: u64,
    now_ms: i64,
) -> bool {
    &&& granted.account_access_map@ == u.account_access_map@.push(
        (account_id, crate::auth::DEFAULT_ACCOUNT_MANAGER_ROLE_ID),
    )
    &&& granted.updated_at == now_ms
    &&& granted.id == u.id
    &&& granted.username == u.username
    &&& granted.email == u.email
    &&& granted.password == u.password
    &&& granted.global_roles == u.global_roles
    &&& granted.ip_whitelist == u.ip_whitelist
    &&& granted.rate_limit == u.rate_limit
    &&& granted.created_at == u.created_at
}

/// The whole composition of account creation: the record must keep the
/// date-window invariant and carry an unused id, the creating user must
/// exist and receives manager rights on the new account, and an IMAP
/// account gets its sync worker started. Nothing changes on any failure.
pub fn create_account(
    store: &mut MetaStore,
    users: &mut Vec<crate::auth::User>,
    controller: &mut crate::sync::SyncController,
    creator_id: u64,
    account: Account,
    now_ms: i64,
) -> (r: Result<(), BichonError>)
    requires
        old(store).wf(),
        old(controller).wf(),
    ensures
        final(store).wf(),
        final(controller).wf(),
        final(store).mailboxes@ == old(store).mailboxes@,
        final(store).mbox_files@ == old(store).mbox_files@,
        r is Err <==> (!account.window_wf() || acct_has_id(old(store).accounts@, account.id)
            || !crate::users::user_id_exists(old(users)@, creator_id)),
        r matches Err(e) ==> e.code == (if !account.window_wf() {
            ErrorCode::InvalidParameter
        } else if acct_has_id(old(store).accounts@, account.id) {
            ErrorCode::AlreadyExists
        } else {
            ErrorCode::ResourceNotFound
        }),
        r is Err ==> final(store).accounts@ == old(store).accounts@ && final(users)@ == old(
            users,
        )@ && *final(controller) == *old(controller),
        r is Ok ==> final(store).accounts@ =~= old(store).accounts@.push(account),
        r is Ok ==> exists|ci: int|
            0 <= ci < old(users)@.len() && (#[trigger] old(users)@[ci]).id == creator_id
                && final(users)@.len() == old(users)@.len() && (forall|j: int|
                0 <= j < old(users)@.len() && j != ci ==> final(users)@[j] == old(users)@[j])
                && with_manager_grant(old(users)@[ci], final(users)@[ci], account.id, now_ms),
        r is Ok && account.account_type == AccountType::IMAP ==> final(controller).is_running(
            account.id,
        ),
        r is Ok && account.account_type != AccountType::IMAP ==> *final(controller) == *old(
            controller,
        ),
{
    if account.date_since.is_some() && account.date_before.is_some() {
        return Result::Err(
            BichonError::new(
                ErrorCode::InvalidParameter,
                String::from_str("date_since and date_before cannot both be set"),
            ),
        );
    }
    if store.find_account(account.id).is_some() {
        return Result::Err(
            BichonError::new(
                ErrorCode::AlreadyExists,
                String::from_str("an account with this id is already registered"),
            ),
        );
    }
    let mut ci: usize = 0;
    let mut found = false;
    while ci < users.len() && !found
        invariant
            users@ == old(users)@,
            ci <= users@.len(),
            found ==> ci < users@.len() && users@[ci as int].id == creator_id,
            !found ==> forall|k: int| 0 <= k < ci ==> (#[trigger] users@[k]).id != creator_id,
        decreases users@.len() - ci, (if found {
            0int
        } else {
            1int
        }),
    {
        if users[ci].id == creator_id {
            found = true;
        } else {
            ci = ci + 1;
        }
    }
    if !found {
        return Result::Err(
            BichonError::new(
                ErrorCode::ResourceNotFound,
                String::from_str("the creating user was not found"),
            ),
        );
    }
    let account_id = account.id;
    let is_imap = match account.account_type {
        AccountType::IMAP => true,
        AccountType::NoSync => false,
    };
    let insert_outcome = store.insert_account(account);
    proof {
        assert(insert_outcome is Ok);
    }
    let ghost upre = users@;
    let mut creator = users.remove(ci);
    creator.account_access_map.push((account_id, crate::auth::DEFAULT_ACCOUNT_MANAGER_ROLE_ID));
    creator.updated_at = now_ms;
    users.insert(ci, creator);
    proof {
        assert(users@.len() == upre.len());
        assert(forall|j: int| 0 <= j < upre.len() && j != ci ==> users@[j] == upre[j]);
        assert(with_manager_grant(upre[ci as int], users@[ci as int], account_id, now_ms));
    }
    if is_imap {
        let _ = controller.trigger_start(account_id);
    }
    Result::Ok(())
}

} // verus!
