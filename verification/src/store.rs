//! The model of the backing user table: the semantics the data-access
//! operations are proved against — idempotent schema creation, inserts
//! guarded by the identity-key constraint, and reads by key or by name.

use vstd::prelude::*;
use crate::codec::views_of;
use crate::entities::{User, UserView};
use crate::errors::AppError;
use crate::strutil::str_eq;

verus! {

/// The mathematical model of the table: whether the schema exists, and the
/// stored rows in insertion order.
#[verifier::ext_equal]
pub ghost struct TableView {
    pub initialized: bool,
    pub rows: Seq<UserView>,
}

/// Whether some stored row carries the given identity key.
pub open spec fn has_id(rows: Seq<UserView>, id: Seq<char>) -> bool {
    exists|i: int| 0 <= i < rows.len() && rows[i].id == id
}

/// The rows that carry the given display name, in stored order.
pub open spec fn rows_with_name(rows: Seq<UserView>, name: Seq<char>) -> Seq<UserView>
    decreases rows.len(),
{
    if rows.len() == 0 {
        Seq::empty()
    } else if rows.last().name == name {
        rows_with_name(rows.drop_last(), name) + seq![rows.last()]
    } else {
        rows_with_name(rows.drop_last(), name)
    }
}

/// What schema initialization does to a table: it makes the schema exist
/// and touches no row.
pub open spec fn init_spec(t: TableView) -> TableView {
    TableView { initialized: true, rows: t.rows }
}

/// Schema initialization is idempotent: running it against an already
/// initialized table changes nothing and keeps every row.
pub proof fn lemma_init_db_idempotent(t: TableView)
    ensures
        init_spec(init_spec(t)) == init_spec(t),
        init_spec(t).rows == t.rows,
{
    assert(init_spec(init_spec(t)) =~= init_spec(t));
}

/// The identity-key constraint: once a row with a key is stored, a second
/// record under the same key collides, whatever its other fields.
pub proof fn lemma_duplicate_insert_rejected(t: TableView, v: UserView, w: UserView)
    requires
        w.id == v.id,
    ensures
        has_id(t.rows.push(v), w.id),
{
    assert(t.rows.push(v)[t.rows.len() as int] == v);
}

/// The user table. Executably it is an in-process table; it models the
/// store the service runs against, and its contracts are what the service
/// relies on.
pub struct UserTable {
    initialized: bool,
    rows: Vec<User>,
}

impl View for UserTable {
    type V = TableView;

    closed spec fn view(&self) -> TableView {
        TableView { initialized: self.initialized, rows: views_of(self.rows@) }
    }
}

impl UserTable {
    /// No two stored rows share an identity key.
    pub open spec fn inv(&self) -> bool {
        forall|i: int, j: int|
            0 <= i < j < self@.rows.len() ==> self@.rows[i].id != self@.rows[j].id
    }

    /// A fresh table: no schema yet, no rows.
    pub fn new() -> (r: UserTable)
        ensures
            r.inv(),
            !r@.initialized,
            r@.rows.len() == 0,
    {
        UserTable { initialized: false, rows: Vec::new() }
    }

    /// Creates the schema if it does not exist yet; never fails, never
    /// touches stored rows, and a second run changes nothing.
    pub fn init_db(&mut self)
        ensures
            final(self)@ == init_spec(old(self)@),
            old(self).inv() ==> final(self).inv(),
    {
        self.initialized = true;
        proof {
            assert(final(self)@ =~= init_spec(old(self)@));
        }
    }

    /// Inserts one record. Succeeds exactly when the schema exists and no
    /// stored row carries the record's identity key; the store's constraint
    /// rejects a duplicate key with a uniform query-failure error.
    pub fn insert_user(&mut self, user: &User) -> (r: Result<(), AppError>)
        requires
            old(self).inv(),
        ensures
            final(self).inv(),
            match r {
                Ok(()) => old(self)@.initialized && !has_id(old(self)@.rows, user@.id)
                    && final(self)@.initialized
                    && final(self)@.rows == old(self)@.rows.push(user@),
                Err(e) => final(self)@ == old(self)@ && ((!old(self)@.initialized && e.message@
                    == "no users table"@) || (old(self)@.initialized && has_id(
                    old(self)@.rows,
                    user@.id,
                ) && e.message@ == "duplicate user id"@)),
            },
    {
        if !self.initialized {
            return Err(AppError::new("no users table".to_owned()));
        }
        let ghost rows = self@.rows;
        let mut k: usize = 0;
        while k < self.rows.len()
            invariant
                old(self).inv(),
                self@ == old(self)@,
                self@.initialized,
                rows == self@.rows,
                rows.len() == self.rows@.len(),
                k <= self.rows@.len(),
                forall|t: int| 0 <= t < k ==> #[trigger] rows[t].id != user@.id,
            decreases self.rows@.len() - k,
        {
            let row = &self.rows[k];
            if str_eq(row.id.as_str(), user.id.as_str()) {
                proof {
                    assert(rows[k as int].id == user@.id);
                }
                return Err(AppError::new("duplicate user id".to_owned()));
            }
            k = k + 1;
        }
        proof {
            assert(!has_id(rows, user@.id));
        }
        self.rows.push(user.clone());
        proof {
            assert(final(self)@.rows =~= old(self)@.rows.push(user@));
            assert forall|i: int, j: int|
                0 <= i < j < final(self)@.rows.len() implies final(self)@.rows[i].id
                != final(self)@.rows[j].id by {
                if j == final(self)@.rows.len() - 1 {
                    assert(final(self)@.rows[i] == rows[i]);
                    assert(final(self)@.rows[j] == user@);
                } else {
                    assert(final(self)@.rows[i] == rows[i]);
                    assert(final(self)@.rows[j] == rows[j]);
                }
            }
        }
        Ok(())
    }

    /// Looks one record up by its identity key. Absence is a normal
    /// negative result, never an error; with the schema in place the
    /// operation cannot fail.
    pub fn get_user_by_id(&self, user_id: &str) -> (r: Result<Option<User>, AppError>)
        requires
            self.inv(),
        ensures
            match r {
                Ok(Some(u)) => self@.initialized && u@.id == user_id@ && exists|i: int|
                    0 <= i < self@.rows.len() && self@.rows[i] == u@,
                Ok(None) => self@.initialized && !has_id(self@.rows, user_id@),
                Err(e) => !self@.initialized && e.message@ == "no users table"@,
            },
    {
        if !self.initialized {
            return Err(AppError::new("no users table".to_owned()));
        }
        let ghost rows = self@.rows;
        let mut k: usize = 0;
        while k < self.rows.len()
            invariant
                self@.initialized,
                self.inv(),
                rows == self@.rows,
                rows.len() == self.rows@.len(),
                k <= self.rows@.len(),
                forall|t: int| 0 <= t < k ==> #[trigger] rows[t].id != user_id@,
            decreases self.rows@.len() - k,
        {
            let row = &self.rows[k];
            if str_eq(row.id.as_str(), user_id) {
                let found = row.clone();
                proof {
                    assert(rows[k as int] == found@);
                }
                return Ok(Some(found));
            }
            k = k + 1;
        }
        proof {
            assert(!has_id(rows, user_id@));
        }
        Ok(None)
    }

    /// Returns every record that carries the given display name, in stored
    /// order; possibly none. With the schema in place the operation cannot
    /// fail.
    pub fn get_users_by_name(&self, name: &str) -> (r: Result<Vec<User>, AppError>)
        requires
            self.inv(),
        ensures
            match r {
                Ok(us) => self@.initialized && views_of(us@) == rows_with_name(
                    self@.rows,
                    name@,
                ),
                Err(e) => !self@.initialized && e.message@ == "no users table"@,
            },
    {
        if !self.initialized {
            return Err(AppError::new("no users table".to_owned()));
        }
        let ghost rows = self@.rows;
        let mut out: Vec<User> = Vec::new();
        proof {
            assert(rows.subrange(0, 0) =~= Seq::<UserView>::empty());
            assert(views_of(out@) =~= rows_with_name(rows.subrange(0, 0), name@));
        }
        let mut k: usize = 0;
        while k < self.rows.len()
            invariant
                rows == self@.rows,
                rows.len() == self.rows@.len(),
                k <= self.rows@.len(),
                views_of(out@) == rows_with_name(rows.subrange(0, k as int), name@),
            decreases self.rows@.len() - k,
        {
            let row = &self.rows[k];
            let ghost pre = rows.subrange(0, k as int);
            let ghost cur = rows.subrange(0, k + 1 as int);
            proof {
                assert(cur.drop_last() =~= pre);
                assert(cur.last() == rows[k as int]);
            }
            if str_eq(row.name.as_str(), name) {
                out.push(row.clone());
                proof {
                    assert(views_of(out@) =~= rows_with_name(cur, name@));
                }
            } else {
                proof {
                    assert(views_of(out@) =~= rows_with_name(cur, name@));
                }
            }
            k = k + 1;
        }
        proof {
            assert(rows.subrange(0, rows.len() as int) =~= rows);
        }
        Ok(out)
    }
}

} // verus!
