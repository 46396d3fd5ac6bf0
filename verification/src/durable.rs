//! Model of the durable store: the config table and one score table per
//! leaderboard.
//!
//! The real deployment keeps this state in a relational database; this
//! model carries its semantics: the config table is unique on
//! `(appid, rank_key)`, a leaderboard's score table exists exactly while
//! its config row does, each table is keyed by `openid`, and a page scan
//! walks a table in a stable order.

use vstd::prelude::*;
use vstd::pervasive::VecAdditionalExecFns;
use vstd::string::StringExecFns;
use crate::dto::{RankTableConfig, UserScoreInfo, UpdateScoreRequest, AddRankConfigReq};
use crate::errors::DbError;
use crate::registry::{cfgs_has_pair, cfg_is_pair, cfgs_distinct_pairs, ConfigV};

verus! {

/// Mathematical image of one durable score row.
pub struct UserScoreV {
    pub appid: Seq<char>,
    pub openid: Seq<char>,
    pub nick_name: Seq<char>,
    pub score: i32,
}

impl View for UserScoreInfo {
    type V = UserScoreV;

    open spec fn view(&self) -> UserScoreV {
        UserScoreV {
            appid: self.appid@,
            openid: self.openid@,
            nick_name: self.nick_name@,
            score: self.score,
        }
    }
}

/// Every row's score is a legitimate raw score.
pub open spec fn rows_scores_in_range(s: Seq<UserScoreV>) -> bool {
    forall|i: int|
        0 <= i < s.len() ==> 0 <= (#[trigger] s[i]).score <= crate::codec::MAX_RAW_SCORE
}

/// No user has two rows.
pub open spec fn rows_distinct(s: Seq<UserScoreV>) -> bool {
    forall|i: int, j: int|
        0 <= i < j < s.len() ==> (#[trigger] s[i]).openid != (#[trigger] s[j]).openid
}

/// Whether user `o` has a row.
pub open spec fn rows_has(s: Seq<UserScoreV>, o: Seq<char>) -> bool {
    exists|i: int| 0 <= i < s.len() && (#[trigger] s[i]).openid == o
}

/// The position of user `o`'s row; meaningful only under `rows_has` with
/// distinct rows.
pub open spec fn rows_index_of(s: Seq<UserScoreV>, o: Seq<char>) -> int {
    choose|i: int| 0 <= i < s.len() && (#[trigger] s[i]).openid == o
}

/// User `o`'s row.
pub open spec fn row_of(s: Seq<UserScoreV>, o: Seq<char>) -> UserScoreV {
    s[rows_index_of(s, o)]
}

/// With distinct rows, every row of user `o` sits at `rows_index_of`.
pub proof fn lemma_row_index_unique(s: Seq<UserScoreV>, o: Seq<char>, i: int)
    requires
        rows_distinct(s),
        0 <= i < s.len(),
        s[i].openid == o,
    ensures
        rows_index_of(s, o) == i,
        row_of(s, o) == s[i],
        rows_has(s, o),
{
    let j = rows_index_of(s, o);
    assert(0 <= j < s.len() && s[j].openid == o);
}

/// Replacing user `o`'s row in place keeps every other row.
proof fn lemma_rows_update(s: Seq<UserScoreV>, i: int, r: UserScoreV)
    requires
        rows_distinct(s),
        0 <= i < s.len(),
        r.openid == s[i].openid,
    ensures
        rows_distinct(s.update(i, r)),
        rows_has(s.update(i, r), r.openid),
        row_of(s.update(i, r), r.openid) == r,
        forall|o: Seq<char>|
            o != r.openid ==> #[trigger] rows_has(s.update(i, r), o) == rows_has(s, o),
        forall|o: Seq<char>|
            o != r.openid && #[trigger] rows_has(s, o) ==> row_of(s.update(i, r), o) == row_of(
                s,
                o,
            ),
{
    let t = s.update(i, r);
    assert(t[i] == r);
    lemma_row_index_unique(t, r.openid, i);
    assert forall|o: Seq<char>| o != r.openid implies #[trigger] rows_has(t, o) == rows_has(s, o)
        by {
        if rows_has(s, o) {
            let k = choose|k: int| 0 <= k < s.len() && (#[trigger] s[k]).openid == o;
            assert(t[k].openid == o);
        }
        if rows_has(t, o) {
            let k = choose|k: int| 0 <= k < t.len() && (#[trigger] t[k]).openid == o;
            assert(s[k].openid == o);
        }
    }
    assert forall|o: Seq<char>| o != r.openid && #[trigger] rows_has(s, o) implies row_of(t, o)
        == row_of(s, o) by {
        let k = rows_index_of(s, o);
        assert(0 <= k < s.len() && s[k].openid == o);
        assert(t[k].openid == o);
        lemma_row_index_unique(t, o, k);
        lemma_row_index_unique(s, o, k);
    }
}

/// Appending a new user's row keeps every other row.
proof fn lemma_rows_push(s: Seq<UserScoreV>, r: UserScoreV)
    requires
        rows_distinct(s),
        !rows_has(s, r.openid),
    ensures
        rows_distinct(s.push(r)),
        rows_has(s.push(r), r.openid),
        row_of(s.push(r), r.openid) == r,
        forall|o: Seq<char>| o != r.openid ==> #[trigger] rows_has(s.push(r), o) == rows_has(s, o),
        forall|o: Seq<char>|
            o != r.openid && #[trigger] rows_has(s, o) ==> row_of(s.push(r), o) == row_of(s, o),
{
    let t = s.push(r);
    assert forall|a: int, b: int| 0 <= a < b < t.len() implies (#[trigger] t[a]).openid != (
    #[trigger] t[b]).openid by {
        if b < s.len() {
            assert(t[a] == s[a] && t[b] == s[b]);
        } else {
            assert(t[a] == s[a] && t[b] == r);
        }
    }
    assert(t[s.len() as int] == r);
    lemma_row_index_unique(t, r.openid, s.len() as int);
    assert forall|o: Seq<char>| o != r.openid implies #[trigger] rows_has(t, o) == rows_has(s, o)
        by {
        if rows_has(s, o) {
            let k = choose|k: int| 0 <= k < s.len() && (#[trigger] s[k]).openid == o;
            assert(t[k].openid == o);
        }
        if rows_has(t, o) {
            let k = choose|k: int| 0 <= k < t.len() && (#[trigger] t[k]).openid == o;
            assert(k < s.len());
            assert(s[k].openid == o);
        }
    }
    assert forall|o: Seq<char>| o != r.openid && #[trigger] rows_has(s, o) implies row_of(t, o)
        == row_of(s, o) by {
        let k = rows_index_of(s, o);
        assert(0 <= k < s.len() && s[k].openid == o);
        assert(t[k].openid == o);
        lemma_row_index_unique(t, o, k);
        lemma_row_index_unique(s, o, k);
    }
}

/// One leaderboard's durable score table.
#[derive(Debug)]
pub struct RankTable {
    pub appid: String,
    pub rank_key: String,
    pub rows: Vec<UserScoreInfo>,
}

/// Whether slot `t` is the table of `(appid, rank_key)`.
pub open spec fn tbl_is(t: RankTable, appid: Seq<char>, rank_key: Seq<char>) -> bool {
    t.appid@ == appid && t.rank_key@ == rank_key
}

/// Whether some slot is the table of `(appid, rank_key)`.
pub open spec fn tbl_has(s: Seq<RankTable>, appid: Seq<char>, rank_key: Seq<char>) -> bool {
    exists|i: int| 0 <= i < s.len() && tbl_is(#[trigger] s[i], appid, rank_key)
}

/// The position of the table of `(appid, rank_key)`; meaningful only
/// under `tbl_has` with distinct slots.
pub open spec fn tbl_index(s: Seq<RankTable>, appid: Seq<char>, rank_key: Seq<char>) -> int {
    choose|i: int| 0 <= i < s.len() && tbl_is(#[trigger] s[i], appid, rank_key)
}

/// No two slots share an identity.
pub open spec fn tbl_distinct(s: Seq<RankTable>) -> bool {
    forall|i: int, j: int|
        0 <= i < j < s.len() ==> !((#[trigger] s[i]).appid@ == (#[trigger] s[j]).appid@
            && s[i].rank_key@ == s[j].rank_key@)
}

/// The rows of the table of `(appid, rank_key)`, in their stable scan
/// order; empty when the table does not exist.
pub open spec fn tbl_rows(s: Seq<RankTable>, appid: Seq<char>, rank_key: Seq<char>) -> Seq<
    UserScoreV,
> {
    if tbl_has(s, appid, rank_key) {
        s[tbl_index(s, appid, rank_key)].rows@.map_values(|r: UserScoreInfo| r@)
    } else {
        Seq::empty()
    }
}

/// With distinct slots, every slot of an identity sits at `tbl_index`.
proof fn lemma_tbl_index_unique(s: Seq<RankTable>, appid: Seq<char>, rank_key: Seq<char>, i: int)
    requires
        tbl_distinct(s),
        0 <= i < s.len(),
        tbl_is(s[i], appid, rank_key),
    ensures
        tbl_has(s, appid, rank_key),
        tbl_index(s, appid, rank_key) == i,
        tbl_rows(s, appid, rank_key) == s[i].rows@.map_values(|r: UserScoreInfo| r@),
{
    let j = tbl_index(s, appid, rank_key);
    assert(tbl_has(s, appid, rank_key));
    assert(0 <= j < s.len() && tbl_is(s[j], appid, rank_key));
}

/// Appending a slot with a fresh identity leaves every other identity's
/// rows unchanged.
proof fn lemma_tbl_push(s: Seq<RankTable>, t: RankTable)
    requires
        tbl_distinct(s),
        !tbl_has(s, t.appid@, t.rank_key@),
    ensures
        tbl_distinct(s.push(t)),
        tbl_rows(s.push(t), t.appid@, t.rank_key@) == t.rows@.map_values(|r: UserScoreInfo| r@),
        forall|a: Seq<char>, rk: Seq<char>|
            !(a == t.appid@ && rk == t.rank_key@) ==> #[trigger] tbl_rows(s.push(t), a, rk)
                == tbl_rows(s, a, rk),
{
    let u = s.push(t);
    assert forall|i: int, j: int| 0 <= i < j < u.len() implies !((#[trigger] u[i]).appid@ == (
    #[trigger] u[j]).appid@ && u[i].rank_key@ == u[j].rank_key@) by {
        if j < s.len() {
            assert(u[i] == s[i] && u[j] == s[j]);
        } else {
            assert(u[i] == s[i] && u[j] == t);
            if u[i].appid@ == t.appid@ && u[i].rank_key@ == t.rank_key@ {
                assert(tbl_is(s[i], t.appid@, t.rank_key@));
            }
        }
    }
    assert(u[s.len() as int] == t);
    lemma_tbl_index_unique(u, t.appid@, t.rank_key@, s.len() as int);
    assert forall|a: Seq<char>, rk: Seq<char>| !(a == t.appid@ && rk == t.rank_key@) implies
        #[trigger] tbl_rows(u, a, rk) == tbl_rows(s, a, rk) by {
        if tbl_has(s, a, rk) {
            let k = choose|k: int| 0 <= k < s.len() && tbl_is(#[trigger] s[k], a, rk);
            assert(tbl_is(u[k], a, rk));
            lemma_tbl_index_unique(u, a, rk, k);
            lemma_tbl_index_unique(s, a, rk, k);
        } else {
            if tbl_has(u, a, rk) {
                let k = choose|k: int| 0 <= k < u.len() && tbl_is(#[trigger] u[k], a, rk);
                assert(k < s.len());
                assert(tbl_is(s[k], a, rk));
            }
        }
    }
}

/// Removing a slot empties its identity and leaves every other
/// identity's rows unchanged.
proof fn lemma_tbl_remove(s: Seq<RankTable>, i: int)
    requires
        tbl_distinct(s),
        0 <= i < s.len(),
    ensures
        tbl_distinct(s.remove(i)),
        tbl_rows(s.remove(i), s[i].appid@, s[i].rank_key@) == Seq::<UserScoreV>::empty(),
        forall|a: Seq<char>, rk: Seq<char>|
            !(a == s[i].appid@ && rk == s[i].rank_key@) ==> #[trigger] tbl_rows(s.remove(i), a, rk)
                == tbl_rows(s, a, rk),
{
    let u = s.remove(i);
    assert forall|a: int, b: int| 0 <= a < b < u.len() implies !((#[trigger] u[a]).appid@ == (
    #[trigger] u[b]).appid@ && u[a].rank_key@ == u[b].rank_key@) by {
        let sa = if a < i {
            a
        } else {
            a + 1
        };
        let sb = if b < i {
            b
        } else {
            b + 1
        };
        assert(u[a] == s[sa] && u[b] == s[sb]);
    }
    assert(!tbl_has(u, s[i].appid@, s[i].rank_key@)) by {
        if tbl_has(u, s[i].appid@, s[i].rank_key@) {
            let k = choose|k: int|
                0 <= k < u.len() && tbl_is(#[trigger] u[k], s[i].appid@, s[i].rank_key@);
            let sk = if k < i {
                k
            } else {
                k + 1
            };
            assert(u[k] == s[sk]);
        }
    }
    assert forall|a: Seq<char>, rk: Seq<char>| !(a == s[i].appid@ && rk == s[i].rank_key@) implies
        #[trigger] tbl_rows(u, a, rk) == tbl_rows(s, a, rk) by {
        if tbl_has(s, a, rk) {
            let k = choose|k: int| 0 <= k < s.len() && tbl_is(#[trigger] s[k], a, rk);
            assert(k != i);
            if k < i {
                assert(u[k] == s[k]);
                lemma_tbl_index_unique(u, a, rk, k);
            } else {
                assert(u[k - 1] == s[k]);
                lemma_tbl_index_unique(u, a, rk, k - 1);
            }
            lemma_tbl_index_unique(s, a, rk, k);
        } else {
            if tbl_has(u, a, rk) {
                let k = choose|k: int| 0 <= k < u.len() && tbl_is(#[trigger] u[k], a, rk);
                let sk = if k < i {
                    k
                } else {
                    k + 1
                };
                assert(u[k] == s[sk]);
                assert(tbl_is(s[sk], a, rk));
            }
        }
    }
}

/// Replacing a slot with one of the same identity changes only that
/// identity's rows.
proof fn lemma_tbl_update(s: Seq<RankTable>, i: int, t: RankTable)
    requires
        tbl_distinct(s),
        0 <= i < s.len(),
        t.appid@ == s[i].appid@,
        t.rank_key@ == s[i].rank_key@,
    ensures
        tbl_distinct(s.update(i, t)),
        tbl_rows(s.update(i, t), t.appid@, t.rank_key@) == t.rows@.map_values(
            |r: UserScoreInfo| r@,
        ),
        forall|a: Seq<char>, rk: Seq<char>|
            !(a == t.appid@ && rk == t.rank_key@) ==> #[trigger] tbl_rows(s.update(i, t), a, rk)
                == tbl_rows(s, a, rk),
{
    let u = s.update(i, t);
    assert forall|a: int, b: int| 0 <= a < b < u.len() implies !((#[trigger] u[a]).appid@ == (
    #[trigger] u[b]).appid@ && u[a].rank_key@ == u[b].rank_key@) by {
        assert(u[a] == if a == i {
            t
        } else {
            s[a]
        });
        assert(u[b] == if b == i {
            t
        } else {
            s[b]
        });
    }
    assert(u[i] == t);
    lemma_tbl_index_unique(u, t.appid@, t.rank_key@, i);
    assert forall|a: Seq<char>, rk: Seq<char>| !(a == t.appid@ && rk == t.rank_key@) implies
        #[trigger] tbl_rows(u, a, rk) == tbl_rows(s, a, rk) by {
        if tbl_has(s, a, rk) {
            let k = choose|k: int| 0 <= k < s.len() && tbl_is(#[trigger] s[k], a, rk);
            assert(k != i);
            assert(u[k] == s[k]);
            lemma_tbl_index_unique(u, a, rk, k);
            lemma_tbl_index_unique(s, a, rk, k);
        } else {
            if tbl_has(u, a, rk) {
                let k = choose|k: int| 0 <= k < u.len() && tbl_is(#[trigger] u[k], a, rk);
                assert(k != i);
                assert(u[k] == s[k]);
                assert(tbl_is(s[k], a, rk));
            }
        }
    }
}

/// A durable read that found no data.
#[derive(Debug, Clone, PartialEq, Eq, Structural)]
pub enum DurableError {
    /// The table exists but the user has no row.
    RowNotFound,
    /// The leaderboard's table does not exist.
    TableMissing,
}

/// The durable store: config table plus one score table per leaderboard.
#[derive(Debug)]
pub struct DurableStore {
    config_rows: Vec<RankTableConfig>,
    tables: Vec<RankTable>,
}

impl DurableStore {
    /// The config table as mathematical values.
    pub closed spec fn spec_configs(&self) -> Seq<ConfigV> {
        self.config_rows@.map_values(|c: RankTableConfig| c@)
    }

    /// The score table slots.
    pub closed spec fn spec_tables(&self) -> Seq<RankTable> {
        self.tables@
    }

    /// Whether the leaderboard's score table exists.
    pub open spec fn table_exists(&self, appid: Seq<char>, rank_key: Seq<char>) -> bool {
        cfgs_has_pair(self.spec_configs(), appid, rank_key)
    }

    /// The rows of the leaderboard's score table, in stable scan order;
    /// empty when the table does not exist.
    pub open spec fn spec_rows(&self, appid: Seq<char>, rank_key: Seq<char>) -> Seq<UserScoreV> {
        tbl_rows(self.spec_tables(), appid, rank_key)
    }

    /// Invariant of every store value: config rows unique on identity, a
    /// table slot exactly for each config row, slots unique, and each
    /// table unique on `openid`.
    #[verifier::type_invariant]
    pub open spec fn type_inv(self) -> bool {
        &&& cfgs_distinct_pairs(self.spec_configs())
        &&& tbl_distinct(self.spec_tables())
        &&& forall|i: int|
            0 <= i < self.spec_tables().len() ==> cfgs_has_pair(
                self.spec_configs(),
                (#[trigger] self.spec_tables()[i]).appid@,
                self.spec_tables()[i].rank_key@,
            )
        &&& forall|i: int|
            0 <= i < self.spec_configs().len() ==> tbl_has(
                self.spec_tables(),
                (#[trigger] self.spec_configs()[i]).appid,
                self.spec_configs()[i].rank_key,
            )
        &&& forall|i: int|
            0 <= i < self.spec_tables().len() ==> rows_distinct(
                (#[trigger] self.spec_tables()[i]).rows@.map_values(|r: UserScoreInfo| r@),
            )
        &&& forall|i: int|
            0 <= i < self.spec_tables().len() ==> rows_scores_in_range(
                (#[trigger] self.spec_tables()[i]).rows@.map_values(|r: UserScoreInfo| r@),
            )
    }

    /// An empty durable store.
    pub fn new() -> (s: DurableStore)
        ensures
            s.spec_configs() == Seq::<ConfigV>::empty(),
            forall|a: Seq<char>, rk: Seq<char>| #[trigger] s.spec_rows(a, rk) == Seq::<
                UserScoreV,
            >::empty(),
    {
        let s = DurableStore { config_rows: Vec::new(), tables: Vec::new() };
        proof {
            assert(s.spec_configs() =~= Seq::<ConfigV>::empty());
            assert forall|a: Seq<char>, rk: Seq<char>| #[trigger] s.spec_rows(a, rk) == Seq::<
                UserScoreV,
            >::empty() by {
                assert(!tbl_has(s.spec_tables(), a, rk));
            }
        }
        s
    }

    /// Position of the score table of `(appid, rank_key)`, if any.
    fn find_table(&self, appid: &String, rank_key: &String) -> (r: Option<usize>)
        ensures
            match r {
                Some(i) => i < self.spec_tables().len() && tbl_is(
                    self.spec_tables()[i as int],
                    appid@,
                    rank_key@,
                ),
                None => !tbl_has(self.spec_tables(), appid@, rank_key@),
            },
    {
        let n = self.tables.len();
        let mut i: usize = 0;
        while i < n
            invariant
                i <= n,
                n == self.tables@.len(),
                forall|k: int| 0 <= k < i ==> !tbl_is(#[trigger] self.tables@[k], appid@, rank_key@),
            decreases n - i,
        {
            if self.tables[i].appid == *appid && self.tables[i].rank_key == *rank_key {
                return Some(i);
            }
            i = i + 1;
        }
        None
    }

    /// Position of the config row of `(appid, rank_key)`, if any.
    fn find_config_row(&self, appid: &String, rank_key: &String) -> (r: Option<usize>)
        ensures
            match r {
                Some(i) => i < self.spec_configs().len() && cfg_is_pair(
                    self.spec_configs()[i as int],
                    appid@,
                    rank_key@,
                ),
                None => !cfgs_has_pair(self.spec_configs(), appid@, rank_key@),
            },
    {
        let n = self.config_rows.len();
        let mut i: usize = 0;
        while i < n
            invariant
                i <= n,
                n == self.config_rows@.len(),
                forall|k: int|
                    0 <= k < i ==> !cfg_is_pair(
                        #[trigger] self.spec_configs()[k],
                        appid@,
                        rank_key@,
                    ),
            decreases n - i,
        {
            if self.config_rows[i].appid == *appid && self.config_rows[i].rank_key == *rank_key {
                assert(cfg_is_pair(self.spec_configs()[i as int], appid@, rank_key@));
                return Some(i);
            }
            assert(!cfg_is_pair(self.spec_configs()[i as int], appid@, rank_key@));
            i = i + 1;
        }
        None
    }

    /// Loads the whole config table, as the startup of every node does.
    pub fn get_rank_table_config(&self) -> (r: Vec<RankTableConfig>)
        ensures
            r@.map_values(|c: RankTableConfig| c@) == self.spec_configs(),
    {
        let n = self.config_rows.len();
        let mut r: Vec<RankTableConfig> = Vec::new();
        let mut i: usize = 0;
        while i < n
            invariant
                i <= n,
                n == self.config_rows@.len(),
                r@.len() == i,
                forall|k: int| 0 <= k < i ==> #[trigger] r@[k]@ == self.config_rows@[k]@,
            decreases n - i,
        {
            r.push(self.config_rows[i].duplicate());
            i = i + 1;
        }
        proof {
            assert(r@.map_values(|c: RankTableConfig| c@) =~= self.spec_configs());
        }
        r
    }

    /// The config row an add request inserts: its fields, no handle.
    pub open spec fn spec_config_of_add(payload: AddRankConfigReq) -> ConfigV {
        ConfigV {
            appid: payload.appid@,
            rank_key: payload.rank_key@,
            app_secret: payload.app_secret@,
            cron_expression: payload.cron_expression@,
            cron_uuid: Seq::empty(),
        }
    }

    /// Number of rows of one leaderboard's table; `0` when it does not
    /// exist.
    pub fn table_len(&self, appid: &String, rank_key: &String) -> (n: usize)
        ensures
            n == self.spec_rows(appid@, rank_key@).len(),
    {
        proof {
            use_type_invariant(&*self);
        }
        match self.find_table(appid, rank_key) {
            Some(i) => {
                proof {
                    lemma_tbl_index_unique(self.spec_tables(), appid@, rank_key@, i as int);
                }
                self.tables[i].rows.len()
            },
            None => {
                proof {
                    assert(self.spec_rows(appid@, rank_key@) =~= Seq::<UserScoreV>::empty());
                }
                0
            },
        }
    }

    /// The add transaction: inserts the config row and provisions the
    /// leaderboard's empty table, both or neither. A second config for
    /// the same identity is refused with the distinguishable
    /// unique-constraint error and changes nothing.
    pub fn add_rank_config_to_mysql(&mut self, payload: &AddRankConfigReq) -> (r: Result<
        (),
        DbError,
    >)
        ensures
            r is Err <==> cfgs_has_pair(old(self).spec_configs(), payload.appid@, payload.rank_key@),
            r matches Err(e) ==> e is UniqueConstraintViolation,
            r is Err ==> final (self).spec_configs() == old(self).spec_configs(),
            r is Err ==> forall|a: Seq<char>, rk: Seq<char>| #[trigger] final (self).spec_rows(
                a,
                rk,
            ) == old(self).spec_rows(a, rk),
            r is Ok ==> final (self).spec_configs() == old(self).spec_configs().push(
                Self::spec_config_of_add(*payload),
            ),
            r is Ok ==> final (self).spec_rows(payload.appid@, payload.rank_key@) == Seq::<
                UserScoreV,
            >::empty(),
            r is Ok ==> forall|a: Seq<char>, rk: Seq<char>|
                !(a == payload.appid@ && rk == payload.rank_key@) ==> #[trigger] final (self).spec_rows(a, rk) == old(self).spec_rows(a, rk),
    {
        proof {
            use_type_invariant(&*self);
        }
        if self.find_config_row(&payload.appid, &payload.rank_key).is_some() {
            return Err(
                DbError::UniqueConstraintViolation(
                    String::from_str("Duplicate entry for the rank config key"),
                ),
            );
        }
        let ghost pre_cfgs = self.spec_configs();
        let ghost pre_tbls = self.spec_tables();
        let row = RankTableConfig {
            appid: payload.appid.clone(),
            rank_key: payload.rank_key.clone(),
            app_secret: payload.app_secret.clone(),
            cron_expression: payload.cron_expression.clone(),
            cron_uuid: String::new(),
        };
        let table = RankTable {
            appid: payload.appid.clone(),
            rank_key: payload.rank_key.clone(),
            rows: Vec::new(),
        };
        let ghost gt = table;
        let mut tmp = DurableStore { config_rows: Vec::new(), tables: Vec::new() };
        std::mem::swap(&mut tmp, self);
        let DurableStore { config_rows: mut cr, tables: mut tb } = tmp;
        proof {
            assert(!tbl_has(pre_tbls, payload.appid@, payload.rank_key@)) by {
                if tbl_has(pre_tbls, payload.appid@, payload.rank_key@) {
                    let k = choose|k: int|
                        0 <= k < pre_tbls.len() && tbl_is(
                            #[trigger] pre_tbls[k],
                            payload.appid@,
                            payload.rank_key@,
                        );
                }
            }
            lemma_tbl_push(pre_tbls, gt);
            crate::registry::lemma_cfgs_push_wf(pre_cfgs, Self::spec_config_of_add(*payload));
        }
        cr.push(row);
        tb.push(table);
        proof {
            let new_cfgs = cr@.map_values(|c: RankTableConfig| c@);
            assert(new_cfgs =~= pre_cfgs.push(Self::spec_config_of_add(*payload)));
            assert(tb@ =~= pre_tbls.push(gt));
            let new_tbls = tb@;
            assert forall|i: int| 0 <= i < new_tbls.len() implies cfgs_has_pair(
                new_cfgs,
                (#[trigger] new_tbls[i]).appid@,
                new_tbls[i].rank_key@,
            ) by {
                if i < pre_tbls.len() {
                    assert(new_tbls[i] == pre_tbls[i]);
                    let k = choose|k: int|
                        0 <= k < pre_cfgs.len() && cfg_is_pair(
                            #[trigger] pre_cfgs[k],
                            pre_tbls[i].appid@,
                            pre_tbls[i].rank_key@,
                        );
                    assert(cfg_is_pair(new_cfgs[k], new_tbls[i].appid@, new_tbls[i].rank_key@));
                } else {
                    assert(new_tbls[i] == gt);
                    assert(cfg_is_pair(
                        new_cfgs[pre_cfgs.len() as int],
                        gt.appid@,
                        gt.rank_key@,
                    ));
                }
            }
            assert forall|i: int| 0 <= i < new_cfgs.len() implies tbl_has(
                new_tbls,
                (#[trigger] new_cfgs[i]).appid,
                new_cfgs[i].rank_key,
            ) by {
                if i < pre_cfgs.len() {
                    assert(new_cfgs[i] == pre_cfgs[i]);
                    let k = choose|k: int|
                        0 <= k < pre_tbls.len() && tbl_is(
                            #[trigger] pre_tbls[k],
                            pre_cfgs[i].appid,
                            pre_cfgs[i].rank_key,
                        );
                    assert(tbl_is(new_tbls[k], new_cfgs[i].appid, new_cfgs[i].rank_key));
                } else {
                    assert(tbl_is(new_tbls[pre_tbls.len() as int], new_cfgs[i].appid, new_cfgs[i].rank_key));
                }
            }
            assert forall|i: int| 0 <= i < new_tbls.len() implies rows_distinct(
                (#[trigger] new_tbls[i]).rows@.map_values(|r: UserScoreInfo| r@),
            ) by {
                if i < pre_tbls.len() {
                    assert(new_tbls[i] == pre_tbls[i]);
                } else {
                    assert(new_tbls[i] == gt);
                    assert(gt.rows@.map_values(|r: UserScoreInfo| r@) =~= Seq::<
                        UserScoreV,
                    >::empty());
                }
            }
            assert forall|i: int| 0 <= i < new_tbls.len() implies rows_scores_in_range(
                (#[trigger] new_tbls[i]).rows@.map_values(|r: UserScoreInfo| r@),
            ) by {
                if i < pre_tbls.len() {
                    assert(new_tbls[i] == pre_tbls[i]);
                } else {
                    assert(new_tbls[i] == gt);
                    assert(gt.rows@.map_values(|r: UserScoreInfo| r@) =~= Seq::<
                        UserScoreV,
                    >::empty());
                }
            }
        }
        *self = DurableStore { config_rows: cr, tables: tb };
        proof {
            assert(self.spec_rows(payload.appid@, payload.rank_key@) =~= Seq::<
                UserScoreV,
            >::empty());
        }
        Ok(())
    }

    /// Deletes the config row of `(appid, rank_key)` and with it the
    /// leaderboard's table; deleting an absent row changes nothing and is
    /// not an error, as a durable delete touching no rows is not.
    pub fn delete_rank_config_from_mysql(&mut self, appid: &String, rank_key: &String)
        ensures
            !cfgs_has_pair(old(self).spec_configs(), appid@, rank_key@) ==> final (self).spec_configs() == old(self).spec_configs(),
            !cfgs_has_pair(old(self).spec_configs(), appid@, rank_key@) ==> forall|
                a: Seq<char>,
                rk: Seq<char>,
            | #[trigger] final (self).spec_rows(a, rk) == old(self).spec_rows(a, rk),
            cfgs_has_pair(old(self).spec_configs(), appid@, rank_key@) ==> final (self).spec_configs() == old(self).spec_configs().remove(
                crate::registry::cfgs_index_of_pair(old(self).spec_configs(), appid@, rank_key@),
            ),
            final (self).spec_rows(appid@, rank_key@) == Seq::<UserScoreV>::empty(),
            forall|a: Seq<char>, rk: Seq<char>|
                !(a == appid@ && rk == rank_key@) ==> #[trigger] final (self).spec_rows(a, rk)
                    == old(self).spec_rows(a, rk),
            !final (self).table_exists(appid@, rank_key@),
    {
        proof {
            use_type_invariant(&*self);
        }
        let ghost pre_cfgs = self.spec_configs();
        let ghost pre_tbls = self.spec_tables();
        let ci = match self.find_config_row(appid, rank_key) {
            None => {
                proof {
                    assert(!tbl_has(pre_tbls, appid@, rank_key@)) by {
                        if tbl_has(pre_tbls, appid@, rank_key@) {
                            let k = choose|k: int|
                                0 <= k < pre_tbls.len() && tbl_is(
                                    #[trigger] pre_tbls[k],
                                    appid@,
                                    rank_key@,
                                );
                        }
                    }
                    assert(self.spec_rows(appid@, rank_key@) =~= Seq::<UserScoreV>::empty());
                }
                return ;
            },
            Some(i) => i,
        };
        proof {
            crate::registry::lemma_pair_index_unique(pre_cfgs, appid@, rank_key@, ci as int);
        }
        let ti = match self.find_table(appid, rank_key) {
            None => {
                proof {
                    assert(false);
                }
                0
            },
            Some(i) => i,
        };
        proof {
            lemma_tbl_index_unique(pre_tbls, appid@, rank_key@, ti as int);
        }
        let mut tmp = DurableStore { config_rows: Vec::new(), tables: Vec::new() };
        std::mem::swap(&mut tmp, self);
        let DurableStore { config_rows: mut cr, tables: mut tb } = tmp;
        cr.remove(ci);
        tb.remove(ti);
        proof {
            let new_cfgs = cr@.map_values(|c: RankTableConfig| c@);
            let new_tbls = tb@;
            assert(new_cfgs =~= pre_cfgs.remove(ci as int));
            assert(new_tbls =~= pre_tbls.remove(ti as int));
            crate::registry::lemma_cfgs_remove_wf(pre_cfgs, ci as int);
            lemma_tbl_remove(pre_tbls, ti as int);
            assert forall|i: int| 0 <= i < new_tbls.len() implies cfgs_has_pair(
                new_cfgs,
                (#[trigger] new_tbls[i]).appid@,
                new_tbls[i].rank_key@,
            ) by {
                let src = if i < ti as int {
                    i
                } else {
                    i + 1
                };
                assert(new_tbls[i] == pre_tbls[src]);
                let k = choose|k: int|
                    0 <= k < pre_cfgs.len() && cfg_is_pair(
                        #[trigger] pre_cfgs[k],
                        pre_tbls[src].appid@,
                        pre_tbls[src].rank_key@,
                    );
                assert(k != ci as int) by {
                    if k == ci as int {
                        assert(tbl_is(pre_tbls[src], appid@, rank_key@));
                        assert(src != ti as int);
                    }
                }
                let dst = if k < ci as int {
                    k
                } else {
                    k - 1
                };
                assert(new_cfgs[dst] == pre_cfgs[k]);
            }
            assert forall|i: int| 0 <= i < new_cfgs.len() implies tbl_has(
                new_tbls,
                (#[trigger] new_cfgs[i]).appid,
                new_cfgs[i].rank_key,
            ) by {
                let src = if i < ci as int {
                    i
                } else {
                    i + 1
                };
                assert(new_cfgs[i] == pre_cfgs[src]);
                let k = choose|k: int|
                    0 <= k < pre_tbls.len() && tbl_is(
                        #[trigger] pre_tbls[k],
                        pre_cfgs[src].appid,
                        pre_cfgs[src].rank_key,
                    );
                assert(k != ti as int) by {
                    if k == ti as int {
                        assert(cfg_is_pair(pre_cfgs[src], appid@, rank_key@));
                        assert(src != ci as int);
                    }
                }
                let dst = if k < ti as int {
                    k
                } else {
                    k - 1
                };
                assert(new_tbls[dst] == pre_tbls[k]);
                assert(tbl_is(new_tbls[dst], new_cfgs[i].appid, new_cfgs[i].rank_key));
            }
            assert forall|i: int| 0 <= i < new_tbls.len() implies rows_distinct(
                (#[trigger] new_tbls[i]).rows@.map_values(|r: UserScoreInfo| r@),
            ) by {
                let src = if i < ti as int {
                    i
                } else {
                    i + 1
                };
                assert(new_tbls[i] == pre_tbls[src]);
            }
            assert forall|i: int| 0 <= i < new_tbls.len() implies rows_scores_in_range(
                (#[trigger] new_tbls[i]).rows@.map_values(|r: UserScoreInfo| r@),
            ) by {
                let src = if i < ti as int {
                    i
                } else {
                    i + 1
                };
                assert(new_tbls[i] == pre_tbls[src]);
            }
        }
        *self = DurableStore { config_rows: cr, tables: tb };
    }

    /// The row an upsert writes for a submission.
    pub open spec fn spec_row_of_payload(payload: UpdateScoreRequest) -> UserScoreV {
        UserScoreV {
            appid: payload.appid@,
            openid: payload.openid@,
            nick_name: payload.nick_name@,
            score: payload.score,
        }
    }

    /// The durable half of a score submission: insert-or-update on
    /// `openid` in the leaderboard's table. Writing into a leaderboard
    /// whose table does not exist fails and changes nothing; a repeated
    /// submission of the same values leaves the table as it was.
    pub fn update_rank_score_to_mysql(&mut self, payload: &UpdateScoreRequest) -> (r: Result<
        (),
        DurableError,
    >)
        requires
            0 <= payload.score <= crate::codec::MAX_RAW_SCORE,
        ensures
            r is Err <==> !old(self).table_exists(payload.appid@, payload.rank_key@),
            r matches Err(e) ==> e == DurableError::TableMissing,
            r is Err ==> final (self).spec_configs() == old(self).spec_configs(),
            r is Err ==> forall|a: Seq<char>, rk: Seq<char>| #[trigger] final (self).spec_rows(
                a,
                rk,
            ) == old(self).spec_rows(a, rk),
            r is Ok ==> ({
                let pre = old(self).spec_rows(payload.appid@, payload.rank_key@);
                let post = final (self).spec_rows(payload.appid@, payload.rank_key@);
                &&& rows_has(post, payload.openid@)
                &&& row_of(post, payload.openid@) == Self::spec_row_of_payload(*payload)
                &&& forall|o: Seq<char>|
                    o != payload.openid@ ==> #[trigger] rows_has(post, o) == rows_has(pre, o)
                &&& forall|o: Seq<char>|
                    o != payload.openid@ && #[trigger] rows_has(pre, o) ==> row_of(post, o)
                        == row_of(pre, o)
                &&& post.len() == pre.len() + (if rows_has(pre, payload.openid@) {
                    0int
                } else {
                    1int
                })
            }),
            r is Ok ==> forall|a: Seq<char>, rk: Seq<char>|
                !(a == payload.appid@ && rk == payload.rank_key@) ==> #[trigger] final (self).spec_rows(a, rk) == old(self).spec_rows(a, rk),
            final (self).spec_configs() == old(self).spec_configs(),
    {
        proof {
            use_type_invariant(&*self);
        }
        let ghost pre_cfgs = self.spec_configs();
        let ghost pre_tbls = self.spec_tables();
        let ti = match self.find_table(&payload.appid, &payload.rank_key) {
            None => {
                proof {
                    if cfgs_has_pair(pre_cfgs, payload.appid@, payload.rank_key@) {
                        let k = choose|k: int|
                            0 <= k < pre_cfgs.len() && cfg_is_pair(
                                #[trigger] pre_cfgs[k],
                                payload.appid@,
                                payload.rank_key@,
                            );
                    }
                }
                return Err(DurableError::TableMissing);
            },
            Some(i) => i,
        };
        proof {
            lemma_tbl_index_unique(pre_tbls, payload.appid@, payload.rank_key@, ti as int);
        }
        let new_row = UserScoreInfo {
            appid: payload.appid.clone(),
            openid: payload.openid.clone(),
            nick_name: payload.nick_name.clone(),
            score: payload.score,
        };
        let ghost grow = new_row@;
        let mut tmp = DurableStore { config_rows: Vec::new(), tables: Vec::new() };
        std::mem::swap(&mut tmp, self);
        let DurableStore { config_rows: cr, tables: mut tb } = tmp;
        let mut slot = tb.remove(ti);
        let ghost pre_rows = slot.rows@.map_values(|r: UserScoreInfo| r@);
        match find_row(&slot.rows, &payload.openid) {
            Some(ri) => {
                proof {
                    assert(pre_rows[ri as int].openid == payload.openid@);
                    lemma_rows_update(pre_rows, ri as int, grow);
                }
                slot.rows.set(ri, new_row);
                proof {
                    assert(slot.rows@.map_values(|r: UserScoreInfo| r@) =~= pre_rows.update(
                        ri as int,
                        grow,
                    ));
                }
            },
            None => {
                proof {
                    lemma_rows_push(pre_rows, grow);
                }
                slot.rows.push(new_row);
                proof {
                    assert(slot.rows@.map_values(|r: UserScoreInfo| r@) =~= pre_rows.push(grow));
                }
            },
        }
        let ghost gslot = slot;
        proof {
            lemma_tbl_update(pre_tbls, ti as int, gslot);
        }
        tb.insert(ti, slot);
        proof {
            assert(tb@ =~= pre_tbls.update(ti as int, gslot));
            let new_tbls = tb@;
            assert forall|i: int| 0 <= i < new_tbls.len() implies cfgs_has_pair(
                pre_cfgs,
                (#[trigger] new_tbls[i]).appid@,
                new_tbls[i].rank_key@,
            ) by {
                assert(new_tbls[i].appid@ == pre_tbls[i].appid@ && new_tbls[i].rank_key@
                    == pre_tbls[i].rank_key@);
            }
            assert forall|i: int| 0 <= i < pre_cfgs.len() implies tbl_has(
                new_tbls,
                (#[trigger] pre_cfgs[i]).appid,
                pre_cfgs[i].rank_key,
            ) by {
                let k = choose|k: int|
                    0 <= k < pre_tbls.len() && tbl_is(
                        #[trigger] pre_tbls[k],
                        pre_cfgs[i].appid,
                        pre_cfgs[i].rank_key,
                    );
                assert(tbl_is(new_tbls[k], pre_cfgs[i].appid, pre_cfgs[i].rank_key));
            }
            assert forall|i: int| 0 <= i < new_tbls.len() implies rows_distinct(
                (#[trigger] new_tbls[i]).rows@.map_values(|r: UserScoreInfo| r@),
            ) by {
                if i != ti as int {
                    assert(new_tbls[i] == pre_tbls[i]);
                }
            }
            assert forall|i: int| 0 <= i < new_tbls.len() implies rows_scores_in_range(
                (#[trigger] new_tbls[i]).rows@.map_values(|r: UserScoreInfo| r@),
            ) by {
                if i != ti as int {
                    assert(new_tbls[i] == pre_tbls[i]);
                }
            }
        }
        *self = DurableStore { config_rows: cr, tables: tb };
        Ok(())
    }

    /// Reads one user's durable row, telling a missing row apart from a
    /// missing table.
    pub fn get_user_score_info_from_mysql(
        &self,
        appid: &String,
        openid: &String,
        rank_key: &String,
    ) -> (r: Result<UserScoreInfo, DurableError>)
        ensures
            r is Ok <==> (self.table_exists(appid@, rank_key@) && rows_has(
                self.spec_rows(appid@, rank_key@),
                openid@,
            )),
            r matches Ok(row) ==> row@ == row_of(self.spec_rows(appid@, rank_key@), openid@),
            r matches Err(e) ==> (e == DurableError::TableMissing <==> !self.table_exists(
                appid@,
                rank_key@,
            )),
            r matches Ok(row) ==> 0 <= row@.score <= crate::codec::MAX_RAW_SCORE,
    {
        proof {
            use_type_invariant(&*self);
        }
        let ti = match self.find_table(appid, rank_key) {
            None => {
                proof {
                    if cfgs_has_pair(self.spec_configs(), appid@, rank_key@) {
                        let k = choose|k: int|
                            0 <= k < self.spec_configs().len() && cfg_is_pair(
                                #[trigger] self.spec_configs()[k],
                                appid@,
                                rank_key@,
                            );
                    }
                }
                return Err(DurableError::TableMissing);
            },
            Some(i) => i,
        };
        proof {
            lemma_tbl_index_unique(self.spec_tables(), appid@, rank_key@, ti as int);
            let k = choose|k: int|
                0 <= k < self.spec_tables().len() && tbl_is(
                    #[trigger] self.spec_tables()[k],
                    appid@,
                    rank_key@,
                );
        }
        let ghost rows = self.spec_rows(appid@, rank_key@);
        match find_row(&self.tables[ti].rows, openid) {
            Some(ri) => {
                proof {
                    lemma_row_index_unique(rows, openid@, ri as int);
                }
                Ok(self.tables[ti].rows[ri].duplicate())
            },
            None => Err(DurableError::RowNotFound),
        }
    }

    /// One page of the leaderboard's table, `page_size` rows from
    /// `start_index` in the stable scan order, clipped to the table.
    pub fn get_pagination_all_users_score_info_from_mysql(
        &self,
        appid: &String,
        rank_key: &String,
        start_index: u64,
        page_size: u64,
    ) -> (r: Result<Vec<UserScoreInfo>, DurableError>)
        ensures
            r is Err <==> !self.table_exists(appid@, rank_key@),
            r matches Err(e) ==> e == DurableError::TableMissing,
            r matches Ok(v) ==> ({
                let rows = self.spec_rows(appid@, rank_key@);
                let lo: int = if start_index as int <= rows.len() as int {
                    start_index as int
                } else {
                    rows.len() as int
                };
                let hi: int = if start_index as int + page_size as int <= rows.len() as int {
                    start_index as int + page_size as int
                } else {
                    rows.len() as int
                };
                v@.map_values(|x: UserScoreInfo| x@) == rows.subrange(lo, hi)
            }),
            r is Ok ==> rows_distinct(self.spec_rows(appid@, rank_key@)) && rows_scores_in_range(
                self.spec_rows(appid@, rank_key@),
            ),
    {
        proof {
            use_type_invariant(&*self);
        }
        let ti = match self.find_table(appid, rank_key) {
            None => {
                proof {
                    if cfgs_has_pair(self.spec_configs(), appid@, rank_key@) {
                        let k = choose|k: int|
                            0 <= k < self.spec_configs().len() && cfg_is_pair(
                                #[trigger] self.spec_configs()[k],
                                appid@,
                                rank_key@,
                            );
                    }
                }
                return Err(DurableError::TableMissing);
            },
            Some(i) => i,
        };
        proof {
            lemma_tbl_index_unique(self.spec_tables(), appid@, rank_key@, ti as int);
            let k = choose|k: int|
                0 <= k < self.spec_tables().len() && tbl_is(
                    #[trigger] self.spec_tables()[k],
                    appid@,
                    rank_key@,
                );
        }
        let ghost rows = self.spec_rows(appid@, rank_key@);
        let n = self.tables[ti].rows.len();
        let lo: usize = if start_index >= n as u64 {
            n
        } else {
            start_index as usize
        };
        let rest: u64 = (n - lo) as u64;
        let take: u64 = if page_size >= rest {
            rest
        } else {
            page_size
        };
        let hi: usize = lo + (take as usize);
        let mut v: Vec<UserScoreInfo> = Vec::new();
        let mut i: usize = lo;
        while i < hi
            invariant
                lo <= i <= hi <= n,
                n == self.tables@[ti as int].rows@.len(),
                ti < self.tables@.len(),
                rows == self.tables@[ti as int].rows@.map_values(|x: UserScoreInfo| x@),
                v@.len() == i - lo,
                forall|k: int| 0 <= k < v@.len() ==> #[trigger] v@[k]@ == rows[lo + k],
            decreases hi - i,
        {
            v.push(self.tables[ti].rows[i].duplicate());
            i = i + 1;
        }
        proof {
            assert(v@.map_values(|x: UserScoreInfo| x@) =~= rows.subrange(lo as int, hi as int));
        }
        Ok(v)
    }

    /// Truncates the leaderboard's durable table; the reset path of the
    /// scheduler and of the admin delete.
    pub fn clear_all_users_score_info_from_mysql(&mut self, appid: &String, rank_key: &String) -> (r:
        Result<(), DurableError>)
        ensures
            r is Err <==> !old(self).table_exists(appid@, rank_key@),
            r matches Err(e) ==> e == DurableError::TableMissing,
            r is Err ==> forall|a: Seq<char>, rk: Seq<char>| #[trigger] final (self).spec_rows(
                a,
                rk,
            ) == old(self).spec_rows(a, rk),
            r is Ok ==> final (self).spec_rows(appid@, rank_key@) == Seq::<UserScoreV>::empty(),
            r is Ok ==> forall|a: Seq<char>, rk: Seq<char>|
                !(a == appid@ && rk == rank_key@) ==> #[trigger] final (self).spec_rows(a, rk)
                    == old(self).spec_rows(a, rk),
            final (self).spec_configs() == old(self).spec_configs(),
            r is Err ==> old(self).spec_rows(appid@, rank_key@) == Seq::<UserScoreV>::empty(),
    {
        proof {
            use_type_invariant(&*self);
        }
        let ghost pre_cfgs = self.spec_configs();
        let ghost pre_tbls = self.spec_tables();
        let ti = match self.find_table(appid, rank_key) {
            None => {
                proof {
                    if cfgs_has_pair(pre_cfgs, appid@, rank_key@) {
                        let k = choose|k: int|
                            0 <= k < pre_cfgs.len() && cfg_is_pair(
                                #[trigger] pre_cfgs[k],
                                appid@,
                                rank_key@,
                            );
                    }
                }
                proof {
                    assert(self.spec_rows(appid@, rank_key@) =~= Seq::<UserScoreV>::empty());
                }
                return Err(DurableError::TableMissing);
            },
            Some(i) => i,
        };
        proof {
            lemma_tbl_index_unique(pre_tbls, appid@, rank_key@, ti as int);
        }
        let mut tmp = DurableStore { config_rows: Vec::new(), tables: Vec::new() };
        std::mem::swap(&mut tmp, self);
        let DurableStore { config_rows: cr, tables: mut tb } = tmp;
        let mut slot = tb.remove(ti);
        slot.rows.clear();
        let ghost gslot = slot;
        proof {
            lemma_tbl_update(pre_tbls, ti as int, gslot);
            assert(gslot.rows@.map_values(|r: UserScoreInfo| r@) =~= Seq::<UserScoreV>::empty());
        }
        tb.insert(ti, slot);
        proof {
            assert(tb@ =~= pre_tbls.update(ti as int, gslot));
            let new_tbls = tb@;
            assert forall|i: int| 0 <= i < new_tbls.len() implies cfgs_has_pair(
                pre_cfgs,
                (#[trigger] new_tbls[i]).appid@,
                new_tbls[i].rank_key@,
            ) by {
                assert(new_tbls[i].appid@ == pre_tbls[i].appid@ && new_tbls[i].rank_key@
                    == pre_tbls[i].rank_key@);
            }
            assert forall|i: int| 0 <= i < pre_cfgs.len() implies tbl_has(
                new_tbls,
                (#[trigger] pre_cfgs[i]).appid,
                pre_cfgs[i].rank_key,
            ) by {
                let k = choose|k: int|
                    0 <= k < pre_tbls.len() && tbl_is(
                        #[trigger] pre_tbls[k],
                        pre_cfgs[i].appid,
                        pre_cfgs[i].rank_key,
                    );
                assert(tbl_is(new_tbls[k], pre_cfgs[i].appid, pre_cfgs[i].rank_key));
            }
            assert forall|i: int| 0 <= i < new_tbls.len() implies rows_distinct(
                (#[trigger] new_tbls[i]).rows@.map_values(|r: UserScoreInfo| r@),
            ) by {
                if i != ti as int {
                    assert(new_tbls[i] == pre_tbls[i]);
                }
            }
            assert forall|i: int| 0 <= i < new_tbls.len() implies rows_scores_in_range(
                (#[trigger] new_tbls[i]).rows@.map_values(|r: UserScoreInfo| r@),
            ) by {
                if i != ti as int {
                    assert(new_tbls[i] == pre_tbls[i]);
                }
            }
        }
        *self = DurableStore { config_rows: cr, tables: tb };
        Ok(())
    }
}

/// Position of user `openid`'s row in a table, if any.
fn find_row(rows: &Vec<UserScoreInfo>, openid: &String) -> (r: Option<usize>)
    ensures
        match r {
            Some(i) => i < rows@.len() && rows@[i as int].openid@ == openid@,
            None => !rows_has(rows@.map_values(|x: UserScoreInfo| x@), openid@),
        },
{
    let n = rows.len();
    let mut i: usize = 0;
    while i < n
        invariant
            i <= n,
            n == rows@.len(),
            forall|k: int| 0 <= k < i ==> (#[trigger] rows@[k]).openid@ != openid@,
        decreases n - i,
    {
        if rows[i].openid == *openid {
            return Some(i);
        }
        i = i + 1;
    }
    proof {
        let rv = rows@.map_values(|x: UserScoreInfo| x@);
        if rows_has(rv, openid@) {
            let k = choose|k: int| 0 <= k < rv.len() && (#[trigger] rv[k]).openid == openid@;
        }
    }
    None
}

} // verus!
