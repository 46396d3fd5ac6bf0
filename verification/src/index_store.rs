//! Model of the in-memory index store: one sorted ranking board per
//! leaderboard key and one nickname hash per tenant.
//!
//! The real deployment keeps this state in a networked key/value store;
//! this model carries its semantics: a missing board key reads as an
//! empty board, adding a member creates the key, deleting the key empties
//! the board, and the nickname hash maps `(appid, openid)` to the last
//! nickname written.

use vstd::prelude::*;
use crate::board::{RankBoard, ScoreEntry, board_wf, has_member, score_of_member, index_of_member};
use crate::codec::{spec_decode_score, valid_encoded_score};

verus! {

/// One leaderboard's board under its key.
#[derive(Debug)]
pub struct BoardSlot {
    pub appid: String,
    pub rank_key: String,
    pub board: RankBoard,
}

/// One nickname hash field: tenant, user, nickname.
#[derive(Debug, Clone)]
pub struct NickEntry {
    pub appid: String,
    pub openid: String,
    pub nick_name: String,
}

/// Whether slot `t` is the board of `(appid, rank_key)`.
pub open spec fn slot_is(t: BoardSlot, appid: Seq<char>, rank_key: Seq<char>) -> bool {
    t.appid@ == appid && t.rank_key@ == rank_key
}

/// Whether some slot is the board of `(appid, rank_key)`.
pub open spec fn slots_has(s: Seq<BoardSlot>, appid: Seq<char>, rank_key: Seq<char>) -> bool {
    exists|i: int| 0 <= i < s.len() && slot_is(#[trigger] s[i], appid, rank_key)
}

/// The position of the board of `(appid, rank_key)`; meaningful only
/// under `slots_has` with distinct slots.
pub open spec fn slots_index(s: Seq<BoardSlot>, appid: Seq<char>, rank_key: Seq<char>) -> int {
    choose|i: int| 0 <= i < s.len() && slot_is(#[trigger] s[i], appid, rank_key)
}

/// No two slots share a key.
pub open spec fn slots_distinct(s: Seq<BoardSlot>) -> bool {
    forall|i: int, j: int|
        0 <= i < j < s.len() ==> !((#[trigger] s[i]).appid@ == (#[trigger] s[j]).appid@
            && s[i].rank_key@ == s[j].rank_key@)
}

/// The entries of the board of `(appid, rank_key)`; a missing key reads
/// as an empty board.
pub open spec fn board_at(s: Seq<BoardSlot>, appid: Seq<char>, rank_key: Seq<char>) -> Seq<
    ScoreEntry,
> {
    if slots_has(s, appid, rank_key) {
        s[slots_index(s, appid, rank_key)].board@
    } else {
        Seq::empty()
    }
}

/// With distinct slots, every slot of a key sits at `slots_index`.
proof fn lemma_slot_index_unique(s: Seq<BoardSlot>, appid: Seq<char>, rank_key: Seq<char>, i: int)
    requires
        slots_distinct(s),
        0 <= i < s.len(),
        slot_is(s[i], appid, rank_key),
    ensures
        slots_has(s, appid, rank_key),
        slots_index(s, appid, rank_key) == i,
        board_at(s, appid, rank_key) == s[i].board@,
{
    let j = slots_index(s, appid, rank_key);
    assert(slots_has(s, appid, rank_key));
    assert(0 <= j < s.len() && slot_is(s[j], appid, rank_key));
}

/// Appending a slot with a fresh key leaves every other key's board
/// unchanged.
proof fn lemma_slots_push(s: Seq<BoardSlot>, t: BoardSlot)
    requires
        slots_distinct(s),
        !slots_has(s, t.appid@, t.rank_key@),
    ensures
        slots_distinct(s.push(t)),
        board_at(s.push(t), t.appid@, t.rank_key@) == t.board@,
        forall|a: Seq<char>, rk: Seq<char>|
            !(a == t.appid@ && rk == t.rank_key@) ==> #[trigger] board_at(s.push(t), a, rk)
                == board_at(s, a, rk),
{
    let u = s.push(t);
    assert forall|i: int, j: int| 0 <= i < j < u.len() implies !((#[trigger] u[i]).appid@ == (
    #[trigger] u[j]).appid@ && u[i].rank_key@ == u[j].rank_key@) by {
        if j < s.len() {
            assert(u[i] == s[i] && u[j] == s[j]);
        } else {
            assert(u[i] == s[i] && u[j] == t);
            if u[i].appid@ == t.appid@ && u[i].rank_key@ == t.rank_key@ {
                assert(slot_is(s[i], t.appid@, t.rank_key@));
            }
        }
    }
    assert(u[s.len() as int] == t);
    lemma_slot_index_unique(u, t.appid@, t.rank_key@, s.len() as int);
    assert forall|a: Seq<char>, rk: Seq<char>| !(a == t.appid@ && rk == t.rank_key@) implies
        #[trigger] board_at(u, a, rk) == board_at(s, a, rk) by {
        if slots_has(s, a, rk) {
            let k = choose|k: int| 0 <= k < s.len() && slot_is(#[trigger] s[k], a, rk);
            assert(slot_is(u[k], a, rk));
            lemma_slot_index_unique(u, a, rk, k);
            lemma_slot_index_unique(s, a, rk, k);
        } else {
            if slots_has(u, a, rk) {
                let k = choose|k: int| 0 <= k < u.len() && slot_is(#[trigger] u[k], a, rk);
                assert(k < s.len());
                assert(slot_is(s[k], a, rk));
            }
        }
    }
}

/// Removing a slot empties its key and leaves every other key's board
/// unchanged.
proof fn lemma_slots_remove(s: Seq<BoardSlot>, i: int)
    requires
        slots_distinct(s),
        0 <= i < s.len(),
    ensures
        slots_distinct(s.remove(i)),
        board_at(s.remove(i), s[i].appid@, s[i].rank_key@) == Seq::<ScoreEntry>::empty(),
        forall|a: Seq<char>, rk: Seq<char>|
            !(a == s[i].appid@ && rk == s[i].rank_key@) ==> #[trigger] board_at(s.remove(i), a, rk)
                == board_at(s, a, rk),
{
    let u = s.remove(i);
    assert forall|a: int, b: int| 0 <= a < b < u.len() implies !((#[trigger] u[a]).appid@ == (
    #[trigger] u[b]).appid@ && u[a].rank_key@ == u[b].rank_key@) by {
        let sa = if a < i {
            a
        } else {
            a + 1
        };
        let sb = if b < i {
            b
        } else {
            b + 1
        };
        assert(u[a] == s[sa] && u[b] == s[sb]);
    }
    assert(!slots_has(u, s[i].appid@, s[i].rank_key@)) by {
        if slots_has(u, s[i].appid@, s[i].rank_key@) {
            let k = choose|k: int|
                0 <= k < u.len() && slot_is(#[trigger] u[k], s[i].appid@, s[i].rank_key@);
            let sk = if k < i {
                k
            } else {
                k + 1
            };
            assert(u[k] == s[sk]);
        }
    }
    assert forall|a: Seq<char>, rk: Seq<char>| !(a == s[i].appid@ && rk == s[i].rank_key@) implies
        #[trigger] board_at(u, a, rk) == board_at(s, a, rk) by {
        if slots_has(s, a, rk) {
            let k = choose|k: int| 0 <= k < s.len() && slot_is(#[trigger] s[k], a, rk);
            assert(k != i);
            if k < i {
                assert(u[k] == s[k]);
                lemma_slot_index_unique(u, a, rk, k);
            } else {
                assert(u[k - 1] == s[k]);
                lemma_slot_index_unique(u, a, rk, k - 1);
            }
            lemma_slot_index_unique(s, a, rk, k);
        } else {
            if slots_has(u, a, rk) {
                let k = choose|k: int| 0 <= k < u.len() && slot_is(#[trigger] u[k], a, rk);
                let sk = if k < i {
                    k
                } else {
                    k + 1
                };
                assert(u[k] == s[sk]);
                assert(slot_is(s[sk], a, rk));
            }
        }
    }
}

/// Replacing a slot with one of the same key changes only that key's
/// board.
proof fn lemma_slots_update(s: Seq<BoardSlot>, i: int, t: BoardSlot)
    requires
        slots_distinct(s),
        0 <= i < s.len(),
        t.appid@ == s[i].appid@,
        t.rank_key@ == s[i].rank_key@,
    ensures
        slots_distinct(s.update(i, t)),
        board_at(s.update(i, t), t.appid@, t.rank_key@) == t.board@,
        forall|a: Seq<char>, rk: Seq<char>|
            !(a == t.appid@ && rk == t.rank_key@) ==> #[trigger] board_at(s.update(i, t), a, rk)
                == board_at(s, a, rk),
{
    let u = s.update(i, t);
    assert forall|a: int, b: int| 0 <= a < b < u.len() implies !((#[trigger] u[a]).appid@ == (
    #[trigger] u[b]).appid@ && u[a].rank_key@ == u[b].rank_key@) by {
        assert(u[a] == if a == i {
            t
        } else {
            s[a]
        });
        assert(u[b] == if b == i {
            t
        } else {
            s[b]
        });
    }
    assert(u[i] == t);
    lemma_slot_index_unique(u, t.appid@, t.rank_key@, i);
    assert forall|a: Seq<char>, rk: Seq<char>| !(a == t.appid@ && rk == t.rank_key@) implies
        #[trigger] board_at(u, a, rk) == board_at(s, a, rk) by {
        if slots_has(s, a, rk) {
            let k = choose|k: int| 0 <= k < s.len() && slot_is(#[trigger] s[k], a, rk);
            assert(k != i);
            assert(u[k] == s[k]);
            lemma_slot_index_unique(u, a, rk, k);
            lemma_slot_index_unique(s, a, rk, k);
        } else {
            if slots_has(u, a, rk) {
                let k = choose|k: int| 0 <= k < u.len() && slot_is(#[trigger] u[k], a, rk);
                assert(k != i);
                assert(u[k] == s[k]);
                assert(slot_is(s[k], a, rk));
            }
        }
    }
}

/// Whether entry `e` is the nickname field of `(appid, openid)`.
pub open spec fn nick_is(e: NickEntry, appid: Seq<char>, openid: Seq<char>) -> bool {
    e.appid@ == appid && e.openid@ == openid
}

/// Whether the hash holds a nickname for `(appid, openid)`.
pub open spec fn nicks_has(s: Seq<NickEntry>, appid: Seq<char>, openid: Seq<char>) -> bool {
    exists|i: int| 0 <= i < s.len() && nick_is(#[trigger] s[i], appid, openid)
}

/// The position of the nickname field; meaningful only under `nicks_has`
/// with distinct fields.
pub open spec fn nicks_index(s: Seq<NickEntry>, appid: Seq<char>, openid: Seq<char>) -> int {
    choose|i: int| 0 <= i < s.len() && nick_is(#[trigger] s[i], appid, openid)
}

/// No `(appid, openid)` field occurs twice.
pub open spec fn nicks_distinct(s: Seq<NickEntry>) -> bool {
    forall|i: int, j: int|
        0 <= i < j < s.len() ==> !((#[trigger] s[i]).appid@ == (#[trigger] s[j]).appid@
            && s[i].openid@ == s[j].openid@)
}

/// The stored nickname of `(appid, openid)`, if any.
pub open spec fn nick_at(s: Seq<NickEntry>, appid: Seq<char>, openid: Seq<char>) -> Option<
    Seq<char>,
> {
    if nicks_has(s, appid, openid) {
        Some(s[nicks_index(s, appid, openid)].nick_name@)
    } else {
        None
    }
}

/// With distinct fields, every field of a key sits at `nicks_index`.
proof fn lemma_nick_index_unique(s: Seq<NickEntry>, appid: Seq<char>, openid: Seq<char>, i: int)
    requires
        nicks_distinct(s),
        0 <= i < s.len(),
        nick_is(s[i], appid, openid),
    ensures
        nicks_has(s, appid, openid),
        nicks_index(s, appid, openid) == i,
        nick_at(s, appid, openid) == Some(s[i].nick_name@),
{
    let j = nicks_index(s, appid, openid);
    assert(nicks_has(s, appid, openid));
    assert(0 <= j < s.len() && nick_is(s[j], appid, openid));
}

/// The in-memory index store: boards and nickname hashes.
#[derive(Debug)]
pub struct IndexStore {
    boards: Vec<BoardSlot>,
    nicks: Vec<NickEntry>,
}

impl IndexStore {
    /// The board slots.
    pub closed spec fn spec_boards(&self) -> Seq<BoardSlot> {
        self.boards@
    }

    /// The nickname fields.
    pub closed spec fn spec_nicks(&self) -> Seq<NickEntry> {
        self.nicks@
    }

    /// The entries of one leaderboard's board; a missing key reads as
    /// empty.
    pub open spec fn spec_board(&self, appid: Seq<char>, rank_key: Seq<char>) -> Seq<ScoreEntry> {
        board_at(self.spec_boards(), appid, rank_key)
    }

    /// The stored nickname of `(appid, openid)`, if any.
    pub open spec fn spec_nick(&self, appid: Seq<char>, openid: Seq<char>) -> Option<Seq<char>> {
        nick_at(self.spec_nicks(), appid, openid)
    }

    /// Invariant of every store value: one slot per key, one field per
    /// `(appid, openid)`, every board well-formed.
    #[verifier::type_invariant]
    pub open spec fn type_inv(self) -> bool {
        &&& slots_distinct(self.spec_boards())
        &&& nicks_distinct(self.spec_nicks())
        &&& forall|i: int|
            0 <= i < self.spec_boards().len() ==> board_wf((#[trigger] self.spec_boards()[i]).board@)
    }

    /// An empty index store.
    pub fn new() -> (s: IndexStore)
        ensures
            forall|a: Seq<char>, rk: Seq<char>| #[trigger] s.spec_board(a, rk) == Seq::<
                ScoreEntry,
            >::empty(),
            forall|a: Seq<char>, o: Seq<char>| #[trigger] s.spec_nick(a, o) is None,
    {
        let s = IndexStore { boards: Vec::new(), nicks: Vec::new() };
        proof {
            assert forall|a: Seq<char>, rk: Seq<char>| #[trigger] s.spec_board(a, rk) == Seq::<
                ScoreEntry,
            >::empty() by {
                assert(!slots_has(s.spec_boards(), a, rk));
            }
            assert forall|a: Seq<char>, o: Seq<char>| #[trigger] s.spec_nick(a, o) is None by {
                assert(!nicks_has(s.spec_nicks(), a, o));
            }
        }
        s
    }

    /// Position of the board of `(appid, rank_key)`, if any.
    fn find_board(&self, appid: &String, rank_key: &String) -> (r: Option<usize>)
        ensures
            match r {
                Some(i) => i < self.spec_boards().len() && slot_is(
                    self.spec_boards()[i as int],
                    appid@,
                    rank_key@,
                ),
                None => !slots_has(self.spec_boards(), appid@, rank_key@),
            },
    {
        let n = self.boards.len();
        let mut i: usize = 0;
        while i < n
            invariant
                i <= n,
                n == self.boards@.len(),
                forall|k: int| 0 <= k < i ==> !slot_is(#[trigger] self.boards@[k], appid@, rank_key@),
            decreases n - i,
        {
            if self.boards[i].appid == *appid && self.boards[i].rank_key == *rank_key {
                return Some(i);
            }
            i = i + 1;
        }
        None
    }

    /// Adds or updates one member of one leaderboard's board, creating
    /// the board key on first use. Afterwards the member holds exactly
    /// `encoded`; every other member of that board, every other board,
    /// and every nickname stay as they were.
    pub fn zadd(&mut self, appid: &String, rank_key: &String, openid: &String, encoded: u128)
        requires
            valid_encoded_score(encoded as int),
        ensures
            ({
                let pre = old(self).spec_board(appid@, rank_key@);
                let post = final (self).spec_board(appid@, rank_key@);
                &&& has_member(post, openid@)
                &&& score_of_member(post, openid@) == encoded
                &&& forall|o: Seq<char>|
                    o != openid@ ==> #[trigger] has_member(post, o) == has_member(pre, o)
                &&& forall|o: Seq<char>|
                    o != openid@ && #[trigger] has_member(pre, o) ==> score_of_member(post, o)
                        == score_of_member(pre, o)
                &&& post.len() == pre.len() + (if has_member(pre, openid@) {
                    0int
                } else {
                    1int
                })
                &&& board_wf(post)
            }),
            forall|a: Seq<char>, rk: Seq<char>|
                !(a == appid@ && rk == rank_key@) ==> #[trigger] final (self).spec_board(a, rk)
                    == old(self).spec_board(a, rk),
            final (self).spec_nicks() == old(self).spec_nicks(),
    {
        proof {
            use_type_invariant(&*self);
        }
        let ghost pre_slots = self.spec_boards();
        let found = self.find_board(appid, rank_key);
        let mut tmp = IndexStore { boards: Vec::new(), nicks: Vec::new() };
        std::mem::swap(&mut tmp, self);
        let IndexStore { boards: mut bs, nicks } = tmp;
        match found {
            Some(i) => {
                proof {
                    lemma_slot_index_unique(pre_slots, appid@, rank_key@, i as int);
                }
                let mut slot = bs.remove(i);
                slot.board.zadd(openid, encoded);
                proof {
                    use_type_invariant(&slot.board);
                }
                let ghost gslot = slot;
                proof {
                    lemma_slots_update(pre_slots, i as int, gslot);
                }
                bs.insert(i, slot);
                proof {
                    assert(bs@ =~= pre_slots.update(i as int, gslot));
                    assert forall|k: int| 0 <= k < bs@.len() implies board_wf(
                        (#[trigger] bs@[k]).board@,
                    ) by {
                        if k != i as int {
                            assert(bs@[k] == pre_slots[k]);
                        }
                    }
                }
            },
            None => {
                let mut board = RankBoard::new();
                board.zadd(openid, encoded);
                proof {
                    use_type_invariant(&board);
                }
                let slot = BoardSlot {
                    appid: appid.clone(),
                    rank_key: rank_key.clone(),
                    board,
                };
                let ghost gslot = slot;
                proof {
                    lemma_slots_push(pre_slots, gslot);
                }
                bs.push(slot);
                proof {
                    assert(bs@ =~= pre_slots.push(gslot));
                    assert forall|k: int| 0 <= k < bs@.len() implies board_wf(
                        (#[trigger] bs@[k]).board@,
                    ) by {
                        if k < pre_slots.len() {
                            assert(bs@[k] == pre_slots[k]);
                        }
                    }
                }
            },
        }
        *self = IndexStore { boards: bs, nicks };
    }

    /// The raw score of one member, or `-1` when the member (or the whole
    /// board key) is absent from the index.
    pub fn member_score(&self, appid: &String, rank_key: &String, openid: &String) -> (r: i32)
        ensures
            has_member(self.spec_board(appid@, rank_key@), openid@) ==> r == spec_decode_score(
                score_of_member(self.spec_board(appid@, rank_key@), openid@) as int,
            ) && r >= 0,
            !has_member(self.spec_board(appid@, rank_key@), openid@) ==> r == -1,
    {
        proof {
            use_type_invariant(&*self);
        }
        match self.find_board(appid, rank_key) {
            Some(i) => {
                proof {
                    lemma_slot_index_unique(self.spec_boards(), appid@, rank_key@, i as int);
                }
                self.boards[i].board.member_score(openid)
            },
            None => {
                proof {
                    assert(self.spec_board(appid@, rank_key@) =~= Seq::<ScoreEntry>::empty());
                }
                -1
            },
        }
    }

    /// The 1-based rank of one member, or `0` when the member (or the
    /// whole board key) is absent from the index.
    pub fn rank_of(&self, appid: &String, rank_key: &String, openid: &String) -> (r: usize)
        ensures
            has_member(self.spec_board(appid@, rank_key@), openid@) ==> r == index_of_member(
                self.spec_board(appid@, rank_key@),
                openid@,
            ) + 1 && 1 <= r <= self.spec_board(appid@, rank_key@).len(),
            !has_member(self.spec_board(appid@, rank_key@), openid@) ==> r == 0,
    {
        proof {
            use_type_invariant(&*self);
        }
        match self.find_board(appid, rank_key) {
            Some(i) => {
                proof {
                    lemma_slot_index_unique(self.spec_boards(), appid@, rank_key@, i as int);
                }
                self.boards[i].board.rank_of(openid)
            },
            None => {
                proof {
                    assert(self.spec_board(appid@, rank_key@) =~= Seq::<ScoreEntry>::empty());
                }
                0
            },
        }
    }

    /// The first `min(n, len)` members of one board, best first, each
    /// with its decoded raw score; a missing board key gives the empty
    /// list.
    pub fn top_n(&self, appid: &String, rank_key: &String, n: usize) -> (r: Vec<(String, i32)>)
        ensures
            ({
                let entries = self.spec_board(appid@, rank_key@);
                &&& r@.len() == (if n <= entries.len() {
                    n as int
                } else {
                    entries.len() as int
                })
                &&& forall|i: int|
                    0 <= i < r@.len() ==> (#[trigger] r@[i]).0@ == entries[i].openid@ && r@[i].1
                        == spec_decode_score(entries[i].encoded as int)
            }),
    {
        proof {
            use_type_invariant(&*self);
        }
        match self.find_board(appid, rank_key) {
            Some(i) => {
                proof {
                    lemma_slot_index_unique(self.spec_boards(), appid@, rank_key@, i as int);
                }
                self.boards[i].board.top_n(n)
            },
            None => {
                proof {
                    assert(self.spec_board(appid@, rank_key@) =~= Seq::<ScoreEntry>::empty());
                }
                Vec::new()
            },
        }
    }

    /// Number of members of one board; `0` for a missing key.
    pub fn board_len(&self, appid: &String, rank_key: &String) -> (n: usize)
        ensures
            n == self.spec_board(appid@, rank_key@).len(),
    {
        proof {
            use_type_invariant(&*self);
        }
        match self.find_board(appid, rank_key) {
            Some(i) => {
                proof {
                    lemma_slot_index_unique(self.spec_boards(), appid@, rank_key@, i as int);
                }
                self.boards[i].board.len()
            },
            None => {
                proof {
                    assert(self.spec_board(appid@, rank_key@) =~= Seq::<ScoreEntry>::empty());
                }
                0
            },
        }
    }

    /// Deletes one board key: afterwards that board reads as empty;
    /// every other board and every nickname stay as they were.
    pub fn del_board(&mut self, appid: &String, rank_key: &String)
        ensures
            final (self).spec_board(appid@, rank_key@) == Seq::<ScoreEntry>::empty(),
            forall|a: Seq<char>, rk: Seq<char>|
                !(a == appid@ && rk == rank_key@) ==> #[trigger] final (self).spec_board(a, rk)
                    == old(self).spec_board(a, rk),
            final (self).spec_nicks() == old(self).spec_nicks(),
    {
        proof {
            use_type_invariant(&*self);
        }
        let ghost pre_slots = self.spec_boards();
        let found = self.find_board(appid, rank_key);
        let i = match found {
            None => {
                proof {
                    assert(self.spec_board(appid@, rank_key@) =~= Seq::<ScoreEntry>::empty());
                }
                return ;
            },
            Some(i) => i,
        };
        proof {
            lemma_slot_index_unique(pre_slots, appid@, rank_key@, i as int);
        }
        let mut tmp = IndexStore { boards: Vec::new(), nicks: Vec::new() };
        std::mem::swap(&mut tmp, self);
        let IndexStore { boards: mut bs, nicks } = tmp;
        bs.remove(i);
        proof {
            lemma_slots_remove(pre_slots, i as int);
            assert(bs@ =~= pre_slots.remove(i as int));
            assert forall|k: int| 0 <= k < bs@.len() implies board_wf((#[trigger] bs@[k]).board@)
                by {
                let src = if k < i as int {
                    k
                } else {
                    k + 1
                };
                assert(bs@[k] == pre_slots[src]);
            }
        }
        *self = IndexStore { boards: bs, nicks };
    }

    /// Position of the nickname field of `(appid, openid)`, if any.
    fn find_nick(&self, appid: &String, openid: &String) -> (r: Option<usize>)
        ensures
            match r {
                Some(i) => i < self.spec_nicks().len() && nick_is(
                    self.spec_nicks()[i as int],
                    appid@,
                    openid@,
                ),
                None => !nicks_has(self.spec_nicks(), appid@, openid@),
            },
    {
        let n = self.nicks.len();
        let mut i: usize = 0;
        while i < n
            invariant
                i <= n,
                n == self.nicks@.len(),
                forall|k: int| 0 <= k < i ==> !nick_is(#[trigger] self.nicks@[k], appid@, openid@),
            decreases n - i,
        {
            if self.nicks[i].appid == *appid && self.nicks[i].openid == *openid {
                return Some(i);
            }
            i = i + 1;
        }
        None
    }

    /// Writes one nickname field: afterwards `(appid, openid)` maps to
    /// `nick_name`; every other field and every board stay as they were.
    pub fn hset_nick(&mut self, appid: &String, openid: &String, nick_name: &String)
        ensures
            final (self).spec_nick(appid@, openid@) == Some(nick_name@),
            forall|a: Seq<char>, o: Seq<char>|
                !(a == appid@ && o == openid@) ==> #[trigger] final (self).spec_nick(a, o) == old(
                    self,
                ).spec_nick(a, o),
            final (self).spec_boards() == old(self).spec_boards(),
    {
        proof {
            use_type_invariant(&*self);
        }
        let ghost pre = self.spec_nicks();
        let found = self.find_nick(appid, openid);
        let entry = NickEntry {
            appid: appid.clone(),
            openid: openid.clone(),
            nick_name: nick_name.clone(),
        };
        let ghost ge = entry;
        let mut tmp = IndexStore { boards: Vec::new(), nicks: Vec::new() };
        std::mem::swap(&mut tmp, self);
        let IndexStore { boards, nicks: mut ns } = tmp;
        match found {
            Some(i) => {
                ns.set(i, entry);
                proof {
                    assert(ns@ =~= pre.update(i as int, ge));
                    lemma_nicks_update(pre, i as int, ge);
                }
            },
            None => {
                ns.push(entry);
                proof {
                    assert(ns@ =~= pre.push(ge));
                    lemma_nicks_push(pre, ge);
                }
            },
        }
        *self = IndexStore { boards, nicks: ns };
    }

    /// Reads one nickname field.
    pub fn hget_nick(&self, appid: &String, openid: &String) -> (r: Option<String>)
        ensures
            r is Some <==> self.spec_nick(appid@, openid@) is Some,
            r matches Some(n) ==> Some(n@) == self.spec_nick(appid@, openid@),
    {
        proof {
            use_type_invariant(&*self);
        }
        match self.find_nick(appid, openid) {
            Some(i) => {
                proof {
                    lemma_nick_index_unique(self.spec_nicks(), appid@, openid@, i as int);
                }
                Some(self.nicks[i].nick_name.clone())
            },
            None => None,
        }
    }
}

/// Overwriting a nickname field in place keeps every other field.
proof fn lemma_nicks_update(s: Seq<NickEntry>, i: int, e: NickEntry)
    requires
        nicks_distinct(s),
        0 <= i < s.len(),
        e.appid@ == s[i].appid@,
        e.openid@ == s[i].openid@,
    ensures
        nicks_distinct(s.update(i, e)),
        nick_at(s.update(i, e), e.appid@, e.openid@) == Some(e.nick_name@),
        forall|a: Seq<char>, o: Seq<char>|
            !(a == e.appid@ && o == e.openid@) ==> #[trigger] nick_at(s.update(i, e), a, o)
                == nick_at(s, a, o),
{
    let u = s.update(i, e);
    assert forall|a: int, b: int| 0 <= a < b < u.len() implies !((#[trigger] u[a]).appid@ == (
    #[trigger] u[b]).appid@ && u[a].openid@ == u[b].openid@) by {
        assert(u[a] == if a == i {
            e
        } else {
            s[a]
        });
        assert(u[b] == if b == i {
            e
        } else {
            s[b]
        });
    }
    assert(u[i] == e);
    lemma_nick_index_unique(u, e.appid@, e.openid@, i);
    assert forall|a: Seq<char>, o: Seq<char>| !(a == e.appid@ && o == e.openid@) implies
        #[trigger] nick_at(u, a, o) == nick_at(s, a, o) by {
        if nicks_has(s, a, o) {
            let k = choose|k: int| 0 <= k < s.len() && nick_is(#[trigger] s[k], a, o);
            assert(k != i);
            assert(u[k] == s[k]);
            lemma_nick_index_unique(u, a, o, k);
            lemma_nick_index_unique(s, a, o, k);
        } else {
            if nicks_has(u, a, o) {
                let k = choose|k: int| 0 <= k < u.len() && nick_is(#[trigger] u[k], a, o);
                assert(k != i);
                assert(u[k] == s[k]);
                assert(nick_is(s[k], a, o));
            }
        }
    }
}

/// Writing a fresh nickname field keeps every other field.
proof fn lemma_nicks_push(s: Seq<NickEntry>, e: NickEntry)
    requires
        nicks_distinct(s),
        !nicks_has(s, e.appid@, e.openid@),
    ensures
        nicks_distinct(s.push(e)),
        nick_at(s.push(e), e.appid@, e.openid@) == Some(e.nick_name@),
        forall|a: Seq<char>, o: Seq<char>|
            !(a == e.appid@ && o == e.openid@) ==> #[trigger] nick_at(s.push(e), a, o) == nick_at(
                s,
                a,
                o,
            ),
{
    let u = s.push(e);
    assert forall|a: int, b: int| 0 <= a < b < u.len() implies !((#[trigger] u[a]).appid@ == (
    #[trigger] u[b]).appid@ && u[a].openid@ == u[b].openid@) by {
        if b < s.len() {
            assert(u[a] == s[a] && u[b] == s[b]);
        } else {
            assert(u[a] == s[a] && u[b] == e);
            if u[a].appid@ == e.appid@ && u[a].openid@ == e.openid@ {
                assert(nick_is(s[a], e.appid@, e.openid@));
            }
        }
    }
    assert(u[s.len() as int] == e);
    lemma_nick_index_unique(u, e.appid@, e.openid@, s.len() as int);
    assert forall|a: Seq<char>, o: Seq<char>| !(a == e.appid@ && o == e.openid@) implies
        #[trigger] nick_at(u, a, o) == nick_at(s, a, o) by {
        if nicks_has(s, a, o) {
            let k = choose|k: int| 0 <= k < s.len() && nick_is(#[trigger] s[k], a, o);
            assert(nick_is(u[k], a, o));
            lemma_nick_index_unique(u, a, o, k);
            lemma_nick_index_unique(s, a, o, k);
        } else {
            if nicks_has(u, a, o) {
                let k = choose|k: int| 0 <= k < u.len() && nick_is(#[trigger] u[k], a, o);
                assert(k < s.len());
                assert(nick_is(s[k], a, o));
            }
        }
    }
}

} // verus!
