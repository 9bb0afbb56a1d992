//! Credential store: maps an owner identifier to an (email, password)
//! pair, unique by owner, with last-write-wins upsert semantics.

use vstd::prelude::*;
use vstd::pervasive::VecAdditionalExecFns;

verus! {

/// One stored credential row.
pub struct Credential {
    pub owner_id: String,
    pub email: String,
    pub password: String,
}

/// Mathematical model of a row: the three fields as character sequences.
pub struct CredentialV {
    pub owner_id: Seq<char>,
    pub email: Seq<char>,
    pub password: Seq<char>,
}

impl View for Credential {
    type V = CredentialV;

    open spec fn view(&self) -> CredentialV {
        CredentialV {
            owner_id: self.owner_id@,
            email: self.email@,
            password: self.password@,
        }
    }
}

/// The first row whose owner is `owner`, if any.
pub open spec fn lookup(rows: Seq<CredentialV>, owner: Seq<char>) -> Option<CredentialV>
    decreases rows.len(),
{
    if rows.len() == 0 {
        None
    } else if rows[0].owner_id == owner {
        Some(rows[0])
    } else {
        lookup(rows.drop_first(), owner)
    }
}

/// How many rows belong to `owner`.
pub open spec fn count_owner(rows: Seq<CredentialV>, owner: Seq<char>) -> nat
    decreases rows.len(),
{
    if rows.len() == 0 {
        0
    } else {
        (if rows[0].owner_id == owner {
            1nat
        } else {
            0nat
        }) + count_owner(rows.drop_first(), owner)
    }
}

/// The table after storing `c`: the first row owned by `c.owner_id`
/// is replaced, or `c` is appended when no row has that owner.
pub open spec fn spec_upsert(rows: Seq<CredentialV>, c: CredentialV) -> Seq<CredentialV>
    decreases rows.len(),
{
    if rows.len() == 0 {
        seq![c]
    } else if rows[0].owner_id == c.owner_id {
        seq![c] + rows.drop_first()
    } else {
        seq![rows[0]] + spec_upsert(rows.drop_first(), c)
    }
}

proof fn lemma_upsert_absent(rows: Seq<CredentialV>, c: CredentialV)
    requires
        forall|k: int| 0 <= k < rows.len() ==> rows[k].owner_id != c.owner_id,
    ensures
        spec_upsert(rows, c) == rows.push(c),
    decreases rows.len(),
{
    if rows.len() == 0 {
        assert(spec_upsert(rows, c) =~= rows.push(c));
    } else {
        assert(forall|k: int|
            0 <= k < rows.drop_first().len() ==> rows.drop_first()[k].owner_id != c.owner_id);
        lemma_upsert_absent(rows.drop_first(), c);
        assert(seq![rows[0]] + rows.drop_first().push(c) =~= rows.push(c));
    }
}

proof fn lemma_upsert_found(rows: Seq<CredentialV>, c: CredentialV, i: int)
    requires
        0 <= i < rows.len(),
        rows[i].owner_id == c.owner_id,
        forall|k: int| 0 <= k < i ==> rows[k].owner_id != c.owner_id,
    ensures
        spec_upsert(rows, c) == rows.update(i, c),
    decreases i,
{
    if i == 0 {
        assert(seq![c] + rows.drop_first() =~= rows.update(0, c));
    } else {
        assert(forall|k: int|
            0 <= k < i - 1 ==> rows.drop_first()[k].owner_id != c.owner_id);
        lemma_upsert_found(rows.drop_first(), c, i - 1);
        assert(seq![rows[0]] + rows.drop_first().update(i - 1, c) =~= rows.update(i, c));
    }
}

/// With no row owned by `owner`, its count is zero.
proof fn lemma_count_zero(rows: Seq<CredentialV>, owner: Seq<char>)
    requires
        forall|k: int| 0 <= k < rows.len() ==> rows[k].owner_id != owner,
    ensures
        count_owner(rows, owner) == 0,
    decreases rows.len(),
{
    if rows.len() > 0 {
        assert(forall|k: int|
            0 <= k < rows.drop_first().len() ==> rows.drop_first()[k].owner_id != owner);
        lemma_count_zero(rows.drop_first(), owner);
    }
}

/// In a table with pairwise-distinct owners, each owner has at most one row.
proof fn lemma_distinct_count(rows: Seq<CredentialV>, owner: Seq<char>)
    requires
        forall|i: int, j: int| 0 <= i < j < rows.len() ==> rows[i].owner_id != rows[j].owner_id,
    ensures
        count_owner(rows, owner) <= 1,
    decreases rows.len(),
{
    if rows.len() > 0 {
        let rest = rows.drop_first();
        assert(forall|i: int, j: int|
            0 <= i < j < rest.len() ==> rest[i].owner_id != rest[j].owner_id) by {
            assert(forall|i: int, j: int| 0 <= i < j < rest.len() ==> {
                &&& rest[i] == rows[i + 1]
                &&& rest[j] == rows[j + 1]
            });
        }
        if rows[0].owner_id == owner {
            assert(forall|k: int| 0 <= k < rest.len() ==> rest[k] == rows[k + 1]);
            assert(forall|k: int| 0 <= k < rest.len() ==> rest[k].owner_id != owner);
            lemma_count_zero(rest, owner);
        } else {
            lemma_distinct_count(rest, owner);
        }
    }
}

/// After an upsert, the stored row for that owner is exactly the new one.
proof fn lemma_upsert_lookup(rows: Seq<CredentialV>, c: CredentialV)
    ensures
        lookup(spec_upsert(rows, c), c.owner_id) == Some(c),
    decreases rows.len(),
{
    if rows.len() == 0 {
        assert(spec_upsert(rows, c)[0] == c);
    } else if rows[0].owner_id == c.owner_id {
        assert(spec_upsert(rows, c)[0] == c);
    } else {
        lemma_upsert_lookup(rows.drop_first(), c);
        let up = seq![rows[0]] + spec_upsert(rows.drop_first(), c);
        assert(up[0] == rows[0]);
        assert(up.drop_first() =~= spec_upsert(rows.drop_first(), c));
    }
}

/// After an upsert into a table whose owners are pairwise distinct,
/// the owner has exactly one row.
proof fn lemma_upsert_count(rows: Seq<CredentialV>, c: CredentialV)
    requires
        count_owner(rows, c.owner_id) <= 1,
    ensures
        count_owner(spec_upsert(rows, c), c.owner_id) == 1,
    decreases rows.len(),
{
    let up = spec_upsert(rows, c);
    if rows.len() == 0 {
        assert(up =~= seq![c]);
        assert(up[0] == c);
        assert(up.drop_first() =~= Seq::<CredentialV>::empty());
        assert(count_owner(up.drop_first(), c.owner_id) == 0);
        assert(count_owner(up, c.owner_id) == 1);
    } else if rows[0].owner_id == c.owner_id {
        assert(up =~= seq![c] + rows.drop_first());
        assert(up[0] == c);
        assert(up.drop_first() =~= rows.drop_first());
        assert(count_owner(rows, c.owner_id) == 1 + count_owner(rows.drop_first(), c.owner_id));
        assert(count_owner(rows.drop_first(), c.owner_id) == 0);
        assert(count_owner(up, c.owner_id) == 1 + count_owner(up.drop_first(), c.owner_id));
    } else {
        assert(count_owner(rows, c.owner_id) == count_owner(rows.drop_first(), c.owner_id));
        lemma_upsert_count(rows.drop_first(), c);
        assert(up =~= seq![rows[0]] + spec_upsert(rows.drop_first(), c));
        assert(up[0] == rows[0]);
        assert(up.drop_first() =~= spec_upsert(rows.drop_first(), c));
        assert(count_owner(up, c.owner_id) == count_owner(up.drop_first(), c.owner_id));
    }
}

/// Upsert is idempotent by owner: storing a pair for one owner twice,
/// with any two passwords, leaves exactly one row for that owner, and
/// that row carries the password stored last.
pub proof fn law_upsert_idempotent_by_owner(
    rows: Seq<CredentialV>,
    owner: Seq<char>,
    email: Seq<char>,
    p1: Seq<char>,
    p2: Seq<char>,
)
    requires
        forall|i: int, j: int| 0 <= i < j < rows.len() ==> rows[i].owner_id != rows[j].owner_id,
    ensures
        ({
            let c1 = CredentialV { owner_id: owner, email, password: p1 };
            let c2 = CredentialV { owner_id: owner, email, password: p2 };
            let twice = spec_upsert(spec_upsert(rows, c1), c2);
            count_owner(twice, owner) == 1 && lookup(twice, owner) == Some(c2)
        }),
{
    let c1 = CredentialV { owner_id: owner, email, password: p1 };
    let c2 = CredentialV { owner_id: owner, email, password: p2 };
    lemma_distinct_count(rows, owner);
    lemma_upsert_count(rows, c1);
    lemma_upsert_count(spec_upsert(rows, c1), c2);
    lemma_upsert_lookup(spec_upsert(rows, c1), c2);
}

/// An in-memory credential table, unique by owner identifier.
pub struct CredentialStore {
    pub rows: Vec<Credential>,
}

impl View for CredentialStore {
    type V = Seq<CredentialV>;

    open spec fn view(&self) -> Seq<CredentialV> {
        Seq::new(self.rows@.len(), |i: int| self.rows@[i]@)
    }
}

impl CredentialStore {
    /// No two rows share an owner identifier.
    pub open spec fn wf(&self) -> bool {
        forall|i: int, j: int|
            0 <= i < j < self@.len() ==> self@[i].owner_id != self@[j].owner_id
    }

    /// An empty store.
    pub fn new() -> (r: CredentialStore)
        ensures
            r@ == Seq::<CredentialV>::empty(),
            r.wf(),
    {
        let r = CredentialStore { rows: Vec::new() };
        proof {
            assert(r@ =~= Seq::<CredentialV>::empty());
        }
        r
    }

    /// The stored (email, password) pair of `owner`, if any.
    pub fn get(&self, owner: &String) -> (r: Option<(String, String)>)
        ensures
            match r {
                Some(p) => lookup(self@, owner@) matches Some(c) && c.email == p.0@
                    && c.password == p.1@,
                None => lookup(self@, owner@) is None,
            },
    {
        let n: usize = self.rows.len();
        let mut i: usize = 0;
        proof {
            assert(self@.skip(0) =~= self@);
        }
        while i < n
            invariant
                n == self.rows.len(),
                0 <= i <= n,
                lookup(self@, owner@) == lookup(self@.skip(i as int), owner@),
            decreases n - i,
        {
            let row = &self.rows[i];
            if row.owner_id == *owner {
                proof {
                    assert(self@.skip(i as int)[0] == self@[i as int]);
                }
                return Some((row.email.clone(), row.password.clone()));
            }
            proof {
                assert(self@.skip(i as int)[0] == self@[i as int]);
                assert(self@.skip(i as int).drop_first() =~= self@.skip(i as int + 1));
            }
            i = i + 1;
        }
        proof {
            assert(self@.skip(n as int) =~= Seq::<CredentialV>::empty());
        }
        None
    }

    /// Index of the row owned by `owner`, if any.
    fn find_owner(&self, owner: &String) -> (r: Option<usize>)
        ensures
            match r {
                Some(i) => i < self@.len() && self@[i as int].owner_id == owner@ && forall|k: int|
                    0 <= k < i ==> self@[k].owner_id != owner@,
                None => forall|k: int| 0 <= k < self@.len() ==> self@[k].owner_id != owner@,
            },
    {
        let n: usize = self.rows.len();
        let mut i: usize = 0;
        while i < n
            invariant
                n == self.rows.len(),
                0 <= i <= n,
                forall|k: int| 0 <= k < i ==> self@[k].owner_id != owner@,
            decreases n - i,
        {
            if self.rows[i].owner_id == *owner {
                return Some(i);
            }
            i = i + 1;
        }
        None
    }

    /// Store `(email, password)` for `owner`, replacing any earlier
    /// pair for the same owner (last write wins).
    pub fn upsert(&mut self, owner: String, email: String, password: String)
        requires
            old(self).wf(),
        ensures
            final(self)@ == spec_upsert(
                old(self)@,
                CredentialV { owner_id: owner@, email: email@, password: password@ },
            ),
            final(self).wf(),
            count_owner(final(self)@, owner@) == 1,
            lookup(final(self)@, owner@) == Some(
                CredentialV { owner_id: owner@, email: email@, password: password@ },
            ),
    {
        let ghost c = CredentialV { owner_id: owner@, email: email@, password: password@ };
        let ghost rows0 = self@;
        let idx = self.find_owner(&owner);
        let cred = Credential { owner_id: owner, email, password };
        match idx {
            Some(i) => {
                self.rows.set(i, cred);
                proof {
                    assert(self@ =~= rows0.update(i as int, c));
                    lemma_upsert_found(rows0, c, i as int);
                    assert(forall|k: int|
                        0 <= k < self@.len() ==> self@[k].owner_id == rows0[k].owner_id);
                }
            },
            None => {
                self.rows.push(cred);
                proof {
                    assert(self@ =~= rows0.push(c));
                    lemma_upsert_absent(rows0, c);
                }
            },
        }
        proof {
            lemma_distinct_count(rows0, c.owner_id);
            lemma_upsert_count(rows0, c);
            lemma_upsert_lookup(rows0, c);
        }
    }
}

/// The stored (email, password) pair of `id`, or `None` when no
/// credentials are stored for that owner: a missing owner is an
/// ordinary outcome, never an abort.
pub fn getuser(store: &CredentialStore, id: String) -> (r: Option<(String, String)>)
    ensures
        match r {
            Some(p) => lookup(store@, id@) matches Some(c) && c.email == p.0@ && c.password
                == p.1@,
            None => lookup(store@, id@) is None,
        },
{
    store.get(&id)
}

} // verus!
