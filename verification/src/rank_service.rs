//! The query-path service over the repository, and the maintenance
//! walks: the dual-store write of a submission, the score read with its
//! durable fallback and index backfill, rank and top-N queries with
//! nickname hydration, the leaderboard reset, and the page-driven
//! rehydration of the index from the durable store.

use vstd::prelude::*;
use vstd::string::StringExecFns;
use crate::board::{has_member, score_of_member, index_of_member};
use crate::codec::{spec_encode_score, spec_decode_score, BASE_TIMESTAMP, MAX_RAW_SCORE};
use crate::dto::{UpdateScoreRequest, UserScoreInfo, UserScoreRes};
use crate::durable::{DurableError, DurableStore, rows_has, row_of, UserScoreV};
use crate::errors::{ApiError, DbError};
use crate::repository::RankRepository;

verus! {

/// The nickname a top-N reply shows for user `o` of tenant `a`: the
/// stored one, or the sentinel when none is stored.
pub open spec fn spec_hydrated_nick(repo: RankRepository, a: Seq<char>, o: Seq<char>) -> Seq<char> {
    match repo.spec_nick(a, o) {
        Some(n) => n,
        None => "momo"@,
    }
}

/// The user-facing scoring service. The repository is shared with the
/// admin flows, which reach it directly.
#[derive(Debug)]
pub struct RankService {
    pub rank_repo: RankRepository,
}

impl RankService {
    /// The repository behind the service.
    pub open spec fn spec_repo(&self) -> RankRepository {
        self.rank_repo
    }

    /// A service over the given repository.
    pub fn new(rank_repo: RankRepository) -> (s: RankService)
        ensures
            s.spec_repo() == rank_repo,
    {
        RankService { rank_repo }
    }

    /// A score submission: durable write first, then the index, then the
    /// nickname hash. It succeeds exactly when the leaderboard exists
    /// durably; afterwards the durable row holds the submitted values and
    /// the index ranks the user under the submission's encoded score.
    pub fn update_rank_score(&mut self, payload: &UpdateScoreRequest, now_seconds: u64) -> (r:
        Result<(), ApiError>)
        requires
            0 <= payload.score <= MAX_RAW_SCORE,
            1 <= now_seconds < BASE_TIMESTAMP,
        ensures
            r is Ok <==> old(self).spec_repo().table_exists(payload.appid@, payload.rank_key@),
            r matches Err(e) ==> e matches ApiError::DbError(d) && d is SomethingWentWrong,
            r is Err ==> final (self).spec_repo().spec_index() == old(self).spec_repo().spec_index(),
            r is Err ==> forall|a: Seq<char>, rk: Seq<char>| #[trigger] final (
            self).spec_repo().spec_rows(a, rk) == old(self).spec_repo().spec_rows(a, rk),
            r is Ok ==> ({
                let repo = final (self).spec_repo();
                let rows = repo.spec_rows(payload.appid@, payload.rank_key@);
                let entries = repo.spec_board(payload.appid@, payload.rank_key@);
                &&& rows_has(rows, payload.openid@)
                &&& row_of(rows, payload.openid@) == DurableStore::spec_row_of_payload(*payload)
                &&& has_member(entries, payload.openid@)
                &&& score_of_member(entries, payload.openid@) == spec_encode_score(
                    payload.score as int,
                    now_seconds as int,
                )
                &&& repo.spec_nick(payload.appid@, payload.openid@) == Some(payload.nick_name@)
            }),
    {
        match self.rank_repo.update_rank_score_to_mysql(payload) {
            Err(_) => Err(
                ApiError::DbError(
                    DbError::SomethingWentWrong(String::from_str("rank table is not exist")),
                ),
            ),
            Ok(()) => {
                self.rank_repo.update_rank_score_to_redis(payload, now_seconds);
                self.rank_repo.update_user_info_to_redis(payload);
                Ok(())
            },
        }
    }

    /// A score submission against the wall clock. A usable clock reading
    /// (positive, below the base timestamp) drives the submission like
    /// `update_rank_score`; whatever the clock said, on success the
    /// durable row holds the submitted values and the index entry
    /// decodes back to the submitted score.
    pub fn update_rank_score_now(&mut self, payload: &UpdateScoreRequest) -> (r: Result<
        (),
        ApiError,
    >)
        requires
            0 <= payload.score <= MAX_RAW_SCORE,
        ensures
            !old(self).spec_repo().table_exists(payload.appid@, payload.rank_key@) ==> r is Err,
            r matches Err(e) ==> e matches ApiError::DbError(d) && d is SomethingWentWrong,
            r is Ok ==> ({
                let repo = final (self).spec_repo();
                let rows = repo.spec_rows(payload.appid@, payload.rank_key@);
                let entries = repo.spec_board(payload.appid@, payload.rank_key@);
                &&& rows_has(rows, payload.openid@)
                &&& row_of(rows, payload.openid@) == DurableStore::spec_row_of_payload(*payload)
                &&& has_member(entries, payload.openid@)
                &&& spec_decode_score(score_of_member(entries, payload.openid@) as int)
                    == payload.score
                &&& repo.spec_nick(payload.appid@, payload.openid@) == Some(payload.nick_name@)
            }),
    {
        let t = crate::clock::now_unix_seconds();
        if !crate::clock::clock_usable_for_encoding(t) {
            return Err(
                ApiError::DbError(
                    DbError::SomethingWentWrong(String::from_str("clock out of range")),
                ),
            );
        }
        let now = t as u64;
        let r = self.update_rank_score(payload, now);
        proof {
            if r is Ok {
                let entries = self.spec_repo().spec_board(payload.appid@, payload.rank_key@);
                crate::codec::lemma_encode_decode_round_trip(payload.score as int, now as int);
            }
        }
        r
    }

    /// A user's score: answered from the index when ranked there; else
    /// from the durable row, which is then opportunistically backfilled
    /// into the index; a user known to neither store is a database
    /// failure.
    pub fn get_user_score(
        &mut self,
        appid: &String,
        openid: &String,
        rank_key: &String,
        now_seconds: u64,
    ) -> (r: Result<i32, ApiError>)
        requires
            1 <= now_seconds < BASE_TIMESTAMP,
        ensures
            ({
                let board0 = old(self).spec_repo().spec_board(appid@, rank_key@);
                let rows0 = old(self).spec_repo().spec_rows(appid@, rank_key@);
                &&& r is Ok <==> (has_member(board0, openid@) || (old(
                    self,
                ).spec_repo().table_exists(appid@, rank_key@) && rows_has(rows0, openid@)))
                &&& has_member(board0, openid@) ==> r == Ok::<i32, ApiError>(
                    spec_decode_score(score_of_member(board0, openid@) as int) as i32,
                ) && final (self).spec_repo() == old(self).spec_repo()
                &&& (!has_member(board0, openid@) && old(self).spec_repo().table_exists(
                    appid@,
                    rank_key@,
                ) && rows_has(rows0, openid@)) ==> ({
                    let row = row_of(rows0, openid@);
                    let board1 = final (self).spec_repo().spec_board(appid@, rank_key@);
                    &&& r == Ok::<i32, ApiError>(row.score)
                    &&& has_member(board1, openid@)
                    &&& score_of_member(board1, openid@) == spec_encode_score(
                        row.score as int,
                        now_seconds as int,
                    )
                })
                &&& r matches Err(e) ==> e matches ApiError::DbError(d) && d is SomethingWentWrong
                &&& r is Err ==> final (self).spec_repo() == old(self).spec_repo()
            }),
    {
        let cur = self.rank_repo.get_user_score_from_redis(appid, openid, rank_key);
        if cur != -1 {
            return Ok(cur);
        }
        match self.rank_repo.get_user_score_info_from_mysql(appid, openid, rank_key) {
            Ok(user_info) => {
                let backfill = UpdateScoreRequest {
                    appid: appid.clone(),
                    rank_key: rank_key.clone(),
                    openid: openid.clone(),
                    nick_name: user_info.nick_name,
                    score: user_info.score,
                };
                self.rank_repo.update_rank_score_to_redis(&backfill, now_seconds);
                Ok(user_info.score)
            },
            Err(DurableError::RowNotFound) => Err(
                ApiError::DbError(
                    DbError::SomethingWentWrong(String::from_str("openid is not exist")),
                ),
            ),
            Err(DurableError::TableMissing) => Err(
                ApiError::DbError(
                    DbError::SomethingWentWrong(String::from_str("rank table is not exist")),
                ),
            ),
        }
    }

    /// A user's rank: 1-based from the index, `0` for a user (or a whole
    /// leaderboard) absent from the index.
    pub fn get_user_ranking(&self, appid: &String, openid: &String, rank_key: &String) -> (r:
        Result<i32, ApiError>)
        requires
            self.spec_repo().spec_board(appid@, rank_key@).len() < i32::MAX,
        ensures
            ({
                let entries = self.spec_repo().spec_board(appid@, rank_key@);
                &&& has_member(entries, openid@) ==> r == Ok::<i32, ApiError>(
                    (index_of_member(entries, openid@) + 1) as i32,
                )
                &&& !has_member(entries, openid@) ==> r == Ok::<i32, ApiError>(0)
            }),
    {
        Ok(self.rank_repo.get_user_ranking(appid, openid, rank_key))
    }

    /// The top of a leaderboard: the first `min(top, len)` members of the
    /// index, best first, each row carrying the user, the decoded raw
    /// score, the rank `1..=k` in returned order, and the stored nickname
    /// (the sentinel when none is stored).
    pub fn get_top_user_rank(&self, appid: &String, rank_key: &String, top: i32) -> (r: Result<
        Vec<UserScoreRes>,
        ApiError,
    >)
        ensures
            r is Ok,
            r matches Ok(v) ==> ({
                let entries = self.spec_repo().spec_board(appid@, rank_key@);
                &&& top <= 0 ==> v@.len() == 0
                &&& top > 0 ==> v@.len() == (if top as int <= entries.len() {
                    top as int
                } else {
                    entries.len() as int
                })
                &&& forall|i: int|
                    0 <= i < v@.len() ==> ({
                        let row = #[trigger] v@[i];
                        &&& row.openid matches Some(o) && o@ == entries[i].openid@
                        &&& row.score == Some(spec_decode_score(entries[i].encoded as int) as i32)
                        &&& row.ranking == Some((i + 1) as i32)
                        &&& row.nick_name matches Some(n) && n@ == spec_hydrated_nick(
                            self.spec_repo(),
                            appid@,
                            entries[i].openid@,
                        )
                    })
            }),
    {
        let users = self.rank_repo.get_top_user_rank(appid, rank_key, top);
        let count = users.len();
        let mut res: Vec<UserScoreRes> = Vec::new();
        let ghost entries = self.spec_repo().spec_board(appid@, rank_key@);
        let mut i: usize = 0;
        while i < count
            invariant
                i <= count,
                count == users@.len(),
                count <= i32::MAX,
                entries == self.spec_repo().spec_board(appid@, rank_key@),
                forall|k: int|
                    0 <= k < count ==> (#[trigger] users@[k]).0@ == entries[k].openid@ && users@[k].1
                        == spec_decode_score(entries[k].encoded as int),
                res@.len() == i,
                forall|k: int|
                    0 <= k < i ==> ({
                        let row = #[trigger] res@[k];
                        &&& row.openid matches Some(o) && o@ == entries[k].openid@
                        &&& row.score == Some(spec_decode_score(entries[k].encoded as int) as i32)
                        &&& row.ranking == Some((k + 1) as i32)
                        &&& row.nick_name matches Some(n) && n@ == spec_hydrated_nick(
                            self.spec_repo(),
                            appid@,
                            entries[k].openid@,
                        )
                    }),
            decreases count - i,
        {
            let nick_name = match self.rank_repo.get_user_info_from_redis(appid, &users[i].0) {
                Some(n) => n,
                None => String::from_str("momo"),
            };
            proof {
                reveal_strlit("momo");
            }
            let rank: i32 = (i as i32) + 1;
            res.push(
                UserScoreRes {
                    openid: Some(users[i].0.clone()),
                    nick_name: Some(nick_name),
                    score: Some(users[i].1),
                    ranking: Some(rank),
                },
            );
            i = i + 1;
        }
        Ok(res)
    }

    /// The reset of one leaderboard, as the scheduler's job or the admin
    /// delete runs it: both stores are cleared, each independently of the
    /// other, and a missing durable table does not keep the index key
    /// from going.
    pub fn clear_rank_data(&mut self, appid: &String, rank_key: &String)
        ensures
            final (self).spec_repo().spec_rows(appid@, rank_key@) == Seq::<UserScoreV>::empty(),
            final (self).spec_repo().spec_board(appid@, rank_key@) == Seq::<
                crate::board::ScoreEntry,
            >::empty(),
            forall|a: Seq<char>, rk: Seq<char>|
                !(a == appid@ && rk == rank_key@) ==> #[trigger] final (self).spec_repo().spec_rows(
                    a,
                    rk,
                ) == old(self).spec_repo().spec_rows(a, rk),
            forall|a: Seq<char>, rk: Seq<char>|
                !(a == appid@ && rk == rank_key@) ==> #[trigger] final (
                self).spec_repo().spec_board(a, rk) == old(self).spec_repo().spec_board(a, rk),
            final (self).spec_repo().spec_configs() == old(self).spec_repo().spec_configs(),
    {
        let _ = self.rank_repo.clear_all_users_score_info_from_mysql(appid, rank_key);
        let ghost mid = self.rank_repo;
        self.rank_repo.clear_all_users_score_info_from_redis(appid, rank_key);
        proof {
            assert forall|a: Seq<char>, rk: Seq<char>|
                !(a == appid@ && rk == rank_key@) implies #[trigger] self.rank_repo.spec_rows(a, rk)
                == old(self).rank_repo.spec_rows(a, rk) by {
                assert(mid.spec_rows(a, rk) == old(self).rank_repo.spec_rows(a, rk));
                assert(self.rank_repo.spec_rows(a, rk) == mid.spec_rows(a, rk));
            }
        }
    }

    /// The page-driven rehydration of one leaderboard's index from its
    /// durable table, as the explicit startup flag runs it: every durable
    /// row is written into the board under the encoding at `now_seconds`,
    /// and its nickname into the hash. It reports failure exactly when
    /// the leaderboard does not exist durably; every other board is left
    /// untouched, and the durable store is only read.
    pub fn read_mysql_rank_write_to_redis(
        &mut self,
        appid: &String,
        rank_key: &String,
        now_seconds: u64,
    ) -> (ok: bool)
        requires
            1 <= now_seconds < BASE_TIMESTAMP,
            old(self).spec_repo().spec_rows(appid@, rank_key@).len() + 100 < u64::MAX,
        ensures
            ok <==> old(self).spec_repo().table_exists(appid@, rank_key@),
            ok ==> ({
                let rows = old(self).spec_repo().spec_rows(appid@, rank_key@);
                let post = final (self).spec_repo().spec_board(appid@, rank_key@);
                &&& forall|k: int|
                    0 <= k < rows.len() ==> has_member(post, (#[trigger] rows[k]).openid)
                        && score_of_member(post, rows[k].openid) == spec_encode_score(
                        rows[k].score as int,
                        now_seconds as int,
                    )
                &&& forall|k: int|
                    0 <= k < rows.len() ==> final (self).spec_repo().spec_nick(
                        appid@,
                        (#[trigger] rows[k]).openid,
                    ) == Some(rows[k].nick_name)
            }),
            final (self).spec_repo().spec_durable() == old(self).spec_repo().spec_durable(),
            forall|a: Seq<char>, rk: Seq<char>|
                !(a == appid@ && rk == rank_key@) ==> #[trigger] final (
                self).spec_repo().spec_board(a, rk) == old(self).spec_repo().spec_board(a, rk),
    {
        let ghost rows = old(self).spec_repo().spec_rows(appid@, rank_key@);
        let mut start_index: u64 = 0;
        loop
            invariant
                1 <= now_seconds < BASE_TIMESTAMP,
                self.rank_repo.spec_durable() == old(self).spec_repo().spec_durable(),
                rows == self.rank_repo.spec_rows(appid@, rank_key@),
                start_index as int <= rows.len(),
                rows.len() + 100 < u64::MAX,
                forall|k: int|
                    0 <= k < start_index as int ==> has_member(
                        self.rank_repo.spec_board(appid@, rank_key@),
                        (#[trigger] rows[k]).openid,
                    ) && score_of_member(
                        self.rank_repo.spec_board(appid@, rank_key@),
                        rows[k].openid,
                    ) == spec_encode_score(rows[k].score as int, now_seconds as int),
                forall|k: int|
                    0 <= k < start_index as int ==> self.rank_repo.spec_nick(
                        appid@,
                        (#[trigger] rows[k]).openid,
                    ) == Some(rows[k].nick_name),
                forall|a: Seq<char>, rk: Seq<char>|
                    !(a == appid@ && rk == rank_key@) ==> #[trigger] self.rank_repo.spec_board(
                        a,
                        rk,
                    ) == old(self).spec_repo().spec_board(a, rk),
            decreases rows.len() - start_index,
        {
            let page = match self.rank_repo.get_pagination_all_users_score_info_from_mysql(
                appid,
                rank_key,
                start_index,
                100,
            ) {
                Err(_) => {
                    return false;
                },
                Ok(page) => page,
            };
            let page_len = page.len();
            let ghost pv = page@.map_values(|x: UserScoreInfo| x@);
            proof {
                assert(pv =~= rows.subrange(
                    start_index as int,
                    if start_index as int + 100 <= rows.len() as int {
                        start_index as int + 100
                    } else {
                        rows.len() as int
                    },
                ));
            }
            let mut j: usize = 0;
            while j < page_len
                invariant
                    1 <= now_seconds < BASE_TIMESTAMP,
                    page_len == page@.len(),
                    pv == page@.map_values(|x: UserScoreInfo| x@),
                    pv.len() == page_len,
                    start_index as int + page_len as int <= rows.len(),
                    rows.len() + 100 < u64::MAX,
                    forall|k: int| 0 <= k < page_len ==> pv[k] == rows[start_index as int + k],
                    crate::durable::rows_distinct(rows),
                    crate::durable::rows_scores_in_range(rows),
                    self.rank_repo.spec_durable() == old(self).spec_repo().spec_durable(),
                    rows == self.rank_repo.spec_rows(appid@, rank_key@),
                    j <= page_len,
                    forall|k: int|
                        0 <= k < start_index as int + j ==> has_member(
                            self.rank_repo.spec_board(appid@, rank_key@),
                            (#[trigger] rows[k]).openid,
                        ) && score_of_member(
                            self.rank_repo.spec_board(appid@, rank_key@),
                            rows[k].openid,
                        ) == spec_encode_score(rows[k].score as int, now_seconds as int),
                    forall|k: int|
                        0 <= k < start_index as int + j ==> self.rank_repo.spec_nick(
                            appid@,
                            (#[trigger] rows[k]).openid,
                        ) == Some(rows[k].nick_name),
                    forall|a: Seq<char>, rk: Seq<char>|
                        !(a == appid@ && rk == rank_key@) ==> #[trigger] self.rank_repo.spec_board(
                            a,
                            rk,
                        ) == old(self).spec_repo().spec_board(a, rk),
                decreases page_len - j,
            {
                let row = page[j].duplicate();
                let payload = UpdateScoreRequest {
                    appid: appid.clone(),
                    rank_key: rank_key.clone(),
                    openid: row.openid,
                    nick_name: row.nick_name,
                    score: row.score,
                };
                let ghost at = start_index as int + j;
                proof {
                    assert(pv[j as int] == rows[at]);
                    assert(payload.openid@ == rows[at].openid);
                    assert(0 <= rows[at].score <= MAX_RAW_SCORE);
                }
                let ghost mid0 = self.rank_repo;
                self.rank_repo.update_rank_score_to_redis(&payload, now_seconds);
                let ghost mid1 = self.rank_repo;
                self.rank_repo.update_user_info_to_redis(&payload);
                proof {
                    assert(self.rank_repo.spec_board(appid@, rank_key@) == mid1.spec_board(
                        appid@,
                        rank_key@,
                    ));
                    assert forall|k: int| 0 <= k < at + 1 implies has_member(
                        self.rank_repo.spec_board(appid@, rank_key@),
                        (#[trigger] rows[k]).openid,
                    ) && score_of_member(
                        self.rank_repo.spec_board(appid@, rank_key@),
                        rows[k].openid,
                    ) == spec_encode_score(rows[k].score as int, now_seconds as int) by {
                        if k < at {
                            assert(rows[k].openid != rows[at].openid);
                            assert(has_member(mid0.spec_board(appid@, rank_key@), rows[k].openid));
                        }
                    }
                    assert forall|k: int| 0 <= k < at + 1 implies self.rank_repo.spec_nick(
                        appid@,
                        (#[trigger] rows[k]).openid,
                    ) == Some(rows[k].nick_name) by {
                        if k < at {
                            assert(rows[k].openid != rows[at].openid);
                            assert(mid1.spec_nick(appid@, rows[k].openid) == Some(
                                rows[k].nick_name,
                            ));
                        }
                    }
                    assert forall|a: Seq<char>, rk: Seq<char>|
                        !(a == appid@ && rk == rank_key@) implies
                        #[trigger] self.rank_repo.spec_board(a, rk) == old(
                        self).spec_repo().spec_board(a, rk) by {
                        assert(mid1.spec_board(a, rk) == mid0.spec_board(a, rk));
                        assert(self.rank_repo.spec_board(a, rk) == mid1.spec_board(a, rk));
                        assert(mid0.spec_board(a, rk) == old(self).spec_repo().spec_board(a, rk));
                    }
                }
                j = j + 1;
            }
            if page_len < 100 {
                proof {
                    assert(start_index as int + page_len as int == rows.len());
                }
                return true;
            }
            start_index = start_index + 100;
        }
    }
}

} // verus!
