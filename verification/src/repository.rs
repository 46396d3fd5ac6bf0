//! The repository: composes the durable store and the index store, hides
//! the naming scheme, and owns the score encoding.
//!
//! The write path is durable first, then index, then nickname; the three
//! writes are not one transaction, and a caller learns which stage
//! failed. The durable store is the source of truth, the index a cache
//! that can be rebuilt from it page by page.

use vstd::prelude::*;
use crate::board::{ScoreEntry, has_member, score_of_member, index_of_member, board_wf};
use crate::codec::{
    encode_score,
    spec_encode_score,
    spec_decode_score,
    BASE_TIMESTAMP,
    MAX_RAW_SCORE,
};
use crate::dto::{AddRankConfigReq, RankTableConfig, UpdateScoreRequest, UserScoreInfo};
use crate::durable::{DurableStore, DurableError, UserScoreV, rows_has, row_of, rows_distinct};
use crate::errors::DbError;
use crate::index_store::IndexStore;
use crate::registry::ConfigV;

verus! {

/// The two stores behind one surface.
#[derive(Debug)]
pub struct RankRepository {
    durable: DurableStore,
    index: IndexStore,
}

impl RankRepository {
    /// The durable config table.
    pub open spec fn spec_configs(&self) -> Seq<ConfigV> {
        self.spec_durable().spec_configs()
    }

    /// The durable store.
    pub closed spec fn spec_durable(&self) -> DurableStore {
        self.durable
    }

    /// The index store.
    pub closed spec fn spec_index(&self) -> IndexStore {
        self.index
    }

    /// The durable rows of one leaderboard.
    pub open spec fn spec_rows(&self, appid: Seq<char>, rank_key: Seq<char>) -> Seq<UserScoreV> {
        self.spec_durable().spec_rows(appid, rank_key)
    }

    /// The index board of one leaderboard.
    pub open spec fn spec_board(&self, appid: Seq<char>, rank_key: Seq<char>) -> Seq<ScoreEntry> {
        self.spec_index().spec_board(appid, rank_key)
    }

    /// The stored nickname of one user of one tenant.
    pub open spec fn spec_nick(&self, appid: Seq<char>, openid: Seq<char>) -> Option<Seq<char>> {
        self.spec_index().spec_nick(appid, openid)
    }

    /// Whether the leaderboard's durable table exists.
    pub open spec fn table_exists(&self, appid: Seq<char>, rank_key: Seq<char>) -> bool {
        self.spec_durable().table_exists(appid, rank_key)
    }

    /// A repository over empty stores.
    pub fn new() -> (r: RankRepository)
        ensures
            r.spec_configs() == Seq::<ConfigV>::empty(),
            forall|a: Seq<char>, rk: Seq<char>| #[trigger] r.spec_rows(a, rk) == Seq::<
                UserScoreV,
            >::empty(),
            forall|a: Seq<char>, rk: Seq<char>| #[trigger] r.spec_board(a, rk) == Seq::<
                ScoreEntry,
            >::empty(),
            forall|a: Seq<char>, o: Seq<char>| #[trigger] r.spec_nick(a, o) is None,
    {
        RankRepository { durable: DurableStore::new(), index: IndexStore::new() }
    }

    /// Number of ranked members of one board.
    pub fn board_len(&self, appid: &String, rank_key: &String) -> (n: usize)
        ensures
            n == self.spec_board(appid@, rank_key@).len(),
    {
        self.index.board_len(appid, rank_key)
    }

    /// Number of durable rows of one leaderboard.
    pub fn table_len(&self, appid: &String, rank_key: &String) -> (n: usize)
        ensures
            n == self.spec_rows(appid@, rank_key@).len(),
    {
        self.durable.table_len(appid, rank_key)
    }

    /// The durable half of a score submission.
    pub fn update_rank_score_to_mysql(&mut self, payload: &UpdateScoreRequest) -> (r: Result<
        (),
        DurableError,
    >)
        requires
            0 <= payload.score <= MAX_RAW_SCORE,
        ensures
            r is Err <==> !old(self).table_exists(payload.appid@, payload.rank_key@),
            r matches Err(e) ==> e == DurableError::TableMissing,
            r is Err ==> forall|a: Seq<char>, rk: Seq<char>| #[trigger] final (self).spec_rows(
                a,
                rk,
            ) == old(self).spec_rows(a, rk),
            r is Ok ==> ({
                let pre = old(self).spec_rows(payload.appid@, payload.rank_key@);
                let post = final (self).spec_rows(payload.appid@, payload.rank_key@);
                &&& rows_has(post, payload.openid@)
                &&& row_of(post, payload.openid@) == DurableStore::spec_row_of_payload(*payload)
                &&& forall|o: Seq<char>|
                    o != payload.openid@ ==> #[trigger] rows_has(post, o) == rows_has(pre, o)
                &&& forall|o: Seq<char>|
                    o != payload.openid@ && #[trigger] rows_has(pre, o) ==> row_of(post, o)
                        == row_of(pre, o)
            }),
            r is Ok ==> forall|a: Seq<char>, rk: Seq<char>|
                !(a == payload.appid@ && rk == payload.rank_key@) ==> #[trigger] final (
                self).spec_rows(a, rk) == old(self).spec_rows(a, rk),
            final (self).spec_configs() == old(self).spec_configs(),
            final (self).spec_index() == old(self).spec_index(),
    {
        self.durable.update_rank_score_to_mysql(payload)
    }

    /// The index half of a score submission: the member takes the encoded
    /// value of its raw score at clock reading `now_seconds`.
    pub fn update_rank_score_to_redis(&mut self, payload: &UpdateScoreRequest, now_seconds: u64)
        requires
            0 <= payload.score <= MAX_RAW_SCORE,
            1 <= now_seconds < BASE_TIMESTAMP,
        ensures
            ({
                let pre = old(self).spec_board(payload.appid@, payload.rank_key@);
                let post = final (self).spec_board(payload.appid@, payload.rank_key@);
                &&& has_member(post, payload.openid@)
                &&& score_of_member(post, payload.openid@) == spec_encode_score(
                    payload.score as int,
                    now_seconds as int,
                )
                &&& spec_decode_score(score_of_member(post, payload.openid@) as int)
                    == payload.score
                &&& forall|o: Seq<char>|
                    o != payload.openid@ ==> #[trigger] has_member(post, o) == has_member(pre, o)
                &&& forall|o: Seq<char>|
                    o != payload.openid@ && #[trigger] has_member(pre, o) ==> score_of_member(
                        post,
                        o,
                    ) == score_of_member(pre, o)
                &&& post.len() == pre.len() + (if has_member(pre, payload.openid@) {
                    0int
                } else {
                    1int
                })
                &&& board_wf(post)
            }),
            forall|a: Seq<char>, rk: Seq<char>|
                !(a == payload.appid@ && rk == payload.rank_key@) ==> #[trigger] final (
                self).spec_board(a, rk) == old(self).spec_board(a, rk),
            final (self).spec_index().spec_nicks() == old(self).spec_index().spec_nicks(),
            final (self).spec_durable() == old(self).spec_durable(),
    {
        let encoded = encode_score(payload.score, now_seconds);
        self.index.zadd(&payload.appid, &payload.rank_key, &payload.openid, encoded);
    }

    /// The nickname half of a score submission.
    pub fn update_user_info_to_redis(&mut self, payload: &UpdateScoreRequest)
        ensures
            final (self).spec_nick(payload.appid@, payload.openid@) == Some(payload.nick_name@),
            forall|a: Seq<char>, o: Seq<char>|
                !(a == payload.appid@ && o == payload.openid@) ==> #[trigger] final (
                self).spec_nick(a, o) == old(self).spec_nick(a, o),
            final (self).spec_index().spec_boards() == old(self).spec_index().spec_boards(),
            final (self).spec_durable() == old(self).spec_durable(),
    {
        self.index.hset_nick(&payload.appid, &payload.openid, &payload.nick_name);
    }

    /// One user's durable row.
    pub fn get_user_score_info_from_mysql(
        &self,
        appid: &String,
        openid: &String,
        rank_key: &String,
    ) -> (r: Result<UserScoreInfo, DurableError>)
        ensures
            r is Ok <==> (self.table_exists(appid@, rank_key@) && rows_has(
                self.spec_rows(appid@, rank_key@),
                openid@,
            )),
            r matches Ok(row) ==> row@ == row_of(self.spec_rows(appid@, rank_key@), openid@),
            r matches Err(e) ==> (e == DurableError::TableMissing <==> !self.table_exists(
                appid@,
                rank_key@,
            )),
            r matches Ok(row) ==> 0 <= row@.score <= MAX_RAW_SCORE,
    {
        self.durable.get_user_score_info_from_mysql(appid, openid, rank_key)
    }

    /// One user's nickname from the hash.
    pub fn get_user_info_from_redis(&self, appid: &String, openid: &String) -> (r: Option<String>)
        ensures
            r is Some <==> self.spec_nick(appid@, openid@) is Some,
            r matches Some(n) ==> Some(n@) == self.spec_nick(appid@, openid@),
    {
        self.index.hget_nick(appid, openid)
    }

    /// One user's raw score from the index, `-1` when absent.
    pub fn get_user_score_from_redis(&self, appid: &String, openid: &String, rank_key: &String) -> (
        r: i32)
        ensures
            has_member(self.spec_board(appid@, rank_key@), openid@) ==> r == spec_decode_score(
                score_of_member(self.spec_board(appid@, rank_key@), openid@) as int,
            ) && r >= 0,
            !has_member(self.spec_board(appid@, rank_key@), openid@) ==> r == -1,
    {
        self.index.member_score(appid, rank_key, openid)
    }

    /// One user's 1-based rank from the index, `0` when absent.
    pub fn get_user_ranking(&self, appid: &String, openid: &String, rank_key: &String) -> (r: i32)
        requires
            self.spec_board(appid@, rank_key@).len() < i32::MAX,
        ensures
            has_member(self.spec_board(appid@, rank_key@), openid@) ==> r == index_of_member(
                self.spec_board(appid@, rank_key@),
                openid@,
            ) + 1 && r >= 1,
            !has_member(self.spec_board(appid@, rank_key@), openid@) ==> r == 0,
    {
        let rank = self.index.rank_of(appid, rank_key, openid);
        rank as i32
    }

    /// The first `min(top, len)` members of the board, best first, with
    /// raw scores; `top <= 0` is answered with the empty list, not an
    /// error.
    pub fn get_top_user_rank(&self, appid: &String, rank_key: &String, top: i32) -> (r: Vec<
        (String, i32),
    >)
        ensures
            top <= 0 ==> r@.len() == 0,
            top > 0 ==> ({
                let entries = self.spec_board(appid@, rank_key@);
                &&& r@.len() == (if top as int <= entries.len() {
                    top as int
                } else {
                    entries.len() as int
                })
                &&& forall|i: int|
                    0 <= i < r@.len() ==> (#[trigger] r@[i]).0@ == entries[i].openid@ && r@[i].1
                        == spec_decode_score(entries[i].encoded as int)
            }),
    {
        if top <= 0 {
            return Vec::new();
        }
        self.index.top_n(appid, rank_key, top as usize)
    }

    /// The whole config table.
    pub fn get_rank_table_config_from_mysql(&self) -> (r: Vec<RankTableConfig>)
        ensures
            r@.map_values(|c: RankTableConfig| c@) == self.spec_configs(),
    {
        self.durable.get_rank_table_config()
    }

    /// One page of a leaderboard's durable rows.
    pub fn get_pagination_all_users_score_info_from_mysql(
        &self,
        appid: &String,
        rank_key: &String,
        start_index: u64,
        page_size: u64,
    ) -> (r: Result<Vec<UserScoreInfo>, DurableError>)
        ensures
            r is Err <==> !self.table_exists(appid@, rank_key@),
            r matches Ok(v) ==> ({
                let rows = self.spec_rows(appid@, rank_key@);
                let lo: int = if start_index as int <= rows.len() as int {
                    start_index as int
                } else {
                    rows.len() as int
                };
                let hi: int = if start_index as int + page_size as int <= rows.len() as int {
                    start_index as int + page_size as int
                } else {
                    rows.len() as int
                };
                v@.map_values(|x: UserScoreInfo| x@) == rows.subrange(lo, hi)
            }),
            r is Ok ==> rows_distinct(self.spec_rows(appid@, rank_key@))
                && crate::durable::rows_scores_in_range(self.spec_rows(appid@, rank_key@)),
    {
        self.durable.get_pagination_all_users_score_info_from_mysql(
            appid,
            rank_key,
            start_index,
            page_size,
        )
    }

    /// Truncates a leaderboard's durable table.
    pub fn clear_all_users_score_info_from_mysql(&mut self, appid: &String, rank_key: &String) -> (r:
        Result<(), DurableError>)
        ensures
            r is Err <==> !old(self).table_exists(appid@, rank_key@),
            final (self).spec_rows(appid@, rank_key@) == Seq::<UserScoreV>::empty(),
            forall|a: Seq<char>, rk: Seq<char>|
                !(a == appid@ && rk == rank_key@) ==> #[trigger] final (self).spec_rows(a, rk)
                    == old(self).spec_rows(a, rk),
            final (self).spec_configs() == old(self).spec_configs(),
            final (self).spec_index() == old(self).spec_index(),
    {
        self.durable.clear_all_users_score_info_from_mysql(appid, rank_key)
    }

    /// Deletes a leaderboard's board key from the index.
    pub fn clear_all_users_score_info_from_redis(&mut self, appid: &String, rank_key: &String)
        ensures
            final (self).spec_board(appid@, rank_key@) == Seq::<ScoreEntry>::empty(),
            forall|a: Seq<char>, rk: Seq<char>|
                !(a == appid@ && rk == rank_key@) ==> #[trigger] final (self).spec_board(a, rk)
                    == old(self).spec_board(a, rk),
            final (self).spec_index().spec_nicks() == old(self).spec_index().spec_nicks(),
            final (self).spec_durable() == old(self).spec_durable(),
    {
        self.index.del_board(appid, rank_key);
    }

    /// The add transaction: config row plus provisioned table, both or
    /// neither; a taken identity is refused with the distinguishable
    /// unique-constraint error.
    pub fn add_rank_config_to_mysql(&mut self, payload: &AddRankConfigReq) -> (r: Result<
        (),
        DbError,
    >)
        ensures
            r is Err <==> crate::registry::cfgs_has_pair(
                old(self).spec_configs(),
                payload.appid@,
                payload.rank_key@,
            ),
            r matches Err(e) ==> e is UniqueConstraintViolation,
            r is Err ==> final (self).spec_configs() == old(self).spec_configs(),
            r is Err ==> forall|a: Seq<char>, rk: Seq<char>| #[trigger] final (self).spec_rows(
                a,
                rk,
            ) == old(self).spec_rows(a, rk),
            r is Ok ==> final (self).spec_configs() == old(self).spec_configs().push(
                DurableStore::spec_config_of_add(*payload),
            ),
            r is Ok ==> final (self).spec_rows(payload.appid@, payload.rank_key@) == Seq::<
                UserScoreV,
            >::empty(),
            r is Ok ==> forall|a: Seq<char>, rk: Seq<char>|
                !(a == payload.appid@ && rk == payload.rank_key@) ==> #[trigger] final (
                self).spec_rows(a, rk) == old(self).spec_rows(a, rk),
            final (self).spec_index() == old(self).spec_index(),
    {
        self.durable.add_rank_config_to_mysql(payload)
    }

    /// Deletes a leaderboard's config row (and with it its table);
    /// deleting an absent identity changes nothing.
    pub fn delete_rank_config_from_mysql(&mut self, appid: &String, rank_key: &String)
        ensures
            !crate::registry::cfgs_has_pair(old(self).spec_configs(), appid@, rank_key@) ==> final (
            self).spec_configs() == old(self).spec_configs(),
            crate::registry::cfgs_has_pair(old(self).spec_configs(), appid@, rank_key@) ==> final (
            self).spec_configs() == old(self).spec_configs().remove(
                crate::registry::cfgs_index_of_pair(old(self).spec_configs(), appid@, rank_key@),
            ),
            final (self).spec_rows(appid@, rank_key@) == Seq::<UserScoreV>::empty(),
            !final (self).table_exists(appid@, rank_key@),
            forall|a: Seq<char>, rk: Seq<char>|
                !(a == appid@ && rk == rank_key@) ==> #[trigger] final (self).spec_rows(a, rk)
                    == old(self).spec_rows(a, rk),
            final (self).spec_index() == old(self).spec_index(),
    {
        self.durable.delete_rank_config_from_mysql(appid, rank_key);
    }
}

} // verus!
