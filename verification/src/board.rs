//! The sorted ranking index of one leaderboard.
//!
//! A board holds one entry per member, ordered by weakly descending
//! encoded score; the position of an entry is its rank. Because the
//! encoding breaks ties by submission time, equal encoded values can only
//! come from equal raw scores submitted in the same second; among those,
//! insertion order decides.

use vstd::prelude::*;
use crate::codec::{spec_decode_score, valid_encoded_score, decode_score};

verus! {

/// One member of a board: user and encoded score.
#[derive(Debug, Clone)]
pub struct ScoreEntry {
    pub openid: String,
    pub encoded: u128,
}

/// Entries are ordered by weakly descending encoded score.
pub open spec fn sorted_desc(s: Seq<ScoreEntry>) -> bool {
    forall|i: int, j: int|
        0 <= i < j < s.len() ==> (#[trigger] s[i]).encoded >= (#[trigger] s[j]).encoded
}

/// No user appears twice.
pub open spec fn distinct_members(s: Seq<ScoreEntry>) -> bool {
    forall|i: int, j: int|
        0 <= i < j < s.len() ==> (#[trigger] s[i]).openid@ != (#[trigger] s[j]).openid@
}

/// Every stored encoded value decodes to a legitimate raw score.
pub open spec fn all_scores_valid(s: Seq<ScoreEntry>) -> bool {
    forall|i: int| 0 <= i < s.len() ==> valid_encoded_score((#[trigger] s[i]).encoded as int)
}

/// Well-formedness of a board's entry sequence.
pub open spec fn board_wf(s: Seq<ScoreEntry>) -> bool {
    sorted_desc(s) && distinct_members(s) && all_scores_valid(s)
}

/// Whether user `o` has an entry.
pub open spec fn has_member(s: Seq<ScoreEntry>, o: Seq<char>) -> bool {
    exists|i: int| 0 <= i < s.len() && (#[trigger] s[i]).openid@ == o
}

/// The position of user `o`'s entry; meaningful only under `has_member`
/// with distinct members.
pub open spec fn index_of_member(s: Seq<ScoreEntry>, o: Seq<char>) -> int {
    choose|i: int| 0 <= i < s.len() && (#[trigger] s[i]).openid@ == o
}

/// The encoded score of user `o`'s entry.
pub open spec fn score_of_member(s: Seq<ScoreEntry>, o: Seq<char>) -> u128 {
    s[index_of_member(s, o)].encoded
}

/// With distinct members, every entry of user `o` sits at
/// `index_of_member`.
pub proof fn lemma_member_index_unique(s: Seq<ScoreEntry>, o: Seq<char>, i: int)
    requires
        distinct_members(s),
        0 <= i < s.len(),
        s[i].openid@ == o,
    ensures
        index_of_member(s, o) == i,
        score_of_member(s, o) == s[i].encoded,
{
    let j = index_of_member(s, o);
    assert(0 <= j < s.len() && s[j].openid@ == o);
}

/// The first `k` entries of a sorted board carry the `k` highest raw
/// scores: each of them decodes at least as high as every later entry.
pub proof fn lemma_top_entries_dominate(s: Seq<ScoreEntry>, k: int, i: int, j: int)
    requires
        sorted_desc(s),
        all_scores_valid(s),
        0 <= i < k <= j < s.len(),
    ensures
        s[i].encoded >= s[j].encoded,
        spec_decode_score(s[i].encoded as int) >= spec_decode_score(s[j].encoded as int),
{
    vstd::arithmetic::div_mod::lemma_div_is_ordered(
        s[j].encoded as int,
        s[i].encoded as int,
        crate::codec::BASE_TIMESTAMP as int,
    );
}

/// A member with the strictly larger encoded value is ranked strictly
/// ahead.
pub proof fn lemma_higher_encoded_ranks_ahead(s: Seq<ScoreEntry>, o1: Seq<char>, o2: Seq<char>)
    requires
        board_wf(s),
        has_member(s, o1),
        has_member(s, o2),
        score_of_member(s, o1) > score_of_member(s, o2),
    ensures
        index_of_member(s, o1) < index_of_member(s, o2),
{
    let i1 = index_of_member(s, o1);
    let i2 = index_of_member(s, o2);
    assert(0 <= i1 < s.len() && s[i1].openid@ == o1);
    assert(0 <= i2 < s.len() && s[i2].openid@ == o2);
    if i1 >= i2 {
        if i1 == i2 {
        } else {
            assert(s[i2].encoded >= s[i1].encoded);
        }
    }
}

/// For equal raw scores, the member that submitted at the earlier second
/// is ranked strictly ahead of one that submitted later.
pub proof fn lemma_earlier_equal_score_ranks_ahead(
    s: Seq<ScoreEntry>,
    o1: Seq<char>,
    o2: Seq<char>,
    raw: int,
    t1: int,
    t2: int,
)
    requires
        board_wf(s),
        has_member(s, o1),
        has_member(s, o2),
        score_of_member(s, o1) == crate::codec::spec_encode_score(raw, t1),
        score_of_member(s, o2) == crate::codec::spec_encode_score(raw, t2),
        t1 < t2,
    ensures
        index_of_member(s, o1) < index_of_member(s, o2),
{
    crate::codec::lemma_encode_tie_break(raw, t1, t2);
    lemma_higher_encoded_ranks_ahead(s, o1, o2);
}

/// The sorted ranking index of one leaderboard.
#[derive(Debug)]
pub struct RankBoard {
    entries: Vec<ScoreEntry>,
}

impl View for RankBoard {
    type V = Seq<ScoreEntry>;

    closed spec fn view(&self) -> Seq<ScoreEntry> {
        self.entries@
    }
}

impl RankBoard {
    /// Invariant of every board value: the entry sequence is well-formed.
    /// Callers recover it with `use_type_invariant`.
    #[verifier::type_invariant]
    pub open spec fn type_inv(self) -> bool {
        board_wf(self.view())
    }

    /// An empty board.
    pub fn new() -> (b: RankBoard)
        ensures
            b@ == Seq::<ScoreEntry>::empty(),
    {
        RankBoard { entries: Vec::new() }
    }

    /// Number of ranked members.
    pub fn len(&self) -> (n: usize)
        ensures
            n == self@.len(),
    {
        self.entries.len()
    }

    /// Position of user `openid`'s entry, if any.
    fn find_member(&self, openid: &String) -> (r: Option<usize>)
        ensures
            match r {
                Some(i) => i < self@.len() && self@[i as int].openid@ == openid@,
                None => !has_member(self@, openid@),
            },
    {
        let n = self.entries.len();
        let mut i: usize = 0;
        while i < n
            invariant
                i <= n,
                n == self@.len(),
                forall|k: int| 0 <= k < i ==> (#[trigger] self@[k]).openid@ != openid@,
            decreases n - i,
        {
            if self.entries[i].openid == *openid {
                return Some(i);
            }
            i = i + 1;
        }
        None
    }

    /// Inserts or updates user `openid` with encoded score `encoded`:
    /// afterwards the user is ranked with exactly that score, every other
    /// member keeps its score, and the board grew by one entry iff the
    /// user was new.
    pub fn zadd(&mut self, openid: &String, encoded: u128)
        requires
            valid_encoded_score(encoded as int),
        ensures
            has_member(final (self)@, openid@),
            score_of_member(final (self)@, openid@) == encoded,
            forall|o: Seq<char>|
                o != openid@ ==> #[trigger] has_member(final (self)@, o) == has_member(
                    old(self)@,
                    o,
                ),
            forall|o: Seq<char>|
                o != openid@ && #[trigger] has_member(old(self)@, o) ==> score_of_member(
                    final (self)@,
                    o,
                ) == score_of_member(old(self)@, o),
            final (self)@.len() == old(self)@.len() + (if has_member(old(self)@, openid@) {
                0int
            } else {
                1int
            }),
    {
        proof {
            use_type_invariant(&*self);
        }
        let ghost pre = self.entries@;
        let found = self.find_member(openid);
        let mut v: Vec<ScoreEntry> = Vec::new();
        std::mem::swap(&mut v, &mut self.entries);
        let ghost mid: Seq<ScoreEntry>;
        match found {
            Some(i) => {
                v.remove(i);
                proof {
                    mid = v@;
                    lemma_member_index_unique(pre, openid@, i as int);
                    assert forall|o: Seq<char>| o != openid@ implies #[trigger] has_member(mid, o)
                        == has_member(pre, o) by {
                        lemma_remove_keeps_others(pre, i as int, o);
                    }
                    assert forall|o: Seq<char>|
                        o != openid@ && #[trigger] has_member(pre, o) implies score_of_member(
                        mid,
                        o,
                    ) == score_of_member(pre, o) by {
                        lemma_remove_keeps_scores(pre, i as int, o);
                    }
                    lemma_remove_only_member_gone(pre, i as int, openid@);
                    lemma_remove_preserves_wf(pre, i as int);
                }
            },
            None => {
                proof {
                    mid = v@;
                }
            },
        }
        // `mid` holds every member but `openid`, with unchanged scores.
        let n = v.len();
        let mut p: usize = 0;
        while p < n && v[p].encoded >= encoded
            invariant
                p <= n,
                n == v@.len(),
                v@ == mid,
                forall|k: int| 0 <= k < p ==> (#[trigger] v@[k]).encoded >= encoded,
            decreases n - p,
        {
            p = p + 1;
        }
        let entry = ScoreEntry { openid: openid.clone(), encoded };
        let ghost ge = entry;
        proof {
            assert(ge.openid@ == openid@);
            lemma_insert_sorted_wf(mid, p as int, ge);
        }
        v.insert(p, entry);
        self.entries = v;
        proof {
            let fin = self.entries@;
            assert(fin == mid.insert(p as int, ge));
            assert(fin[p as int].openid@ == openid@);
            lemma_member_index_unique(fin, openid@, p as int);
            assert forall|o: Seq<char>| o != openid@ implies #[trigger] has_member(fin, o)
                == has_member(mid, o) by {
                lemma_insert_keeps_others(mid, p as int, ge, o);
            }
            assert forall|o: Seq<char>|
                o != openid@ && #[trigger] has_member(mid, o) implies score_of_member(fin, o)
                == score_of_member(mid, o) by {
                lemma_insert_keeps_scores(mid, p as int, ge, o);
            }
            assert forall|o: Seq<char>|
                o != openid@ && #[trigger] has_member(pre, o) implies score_of_member(fin, o)
                == score_of_member(pre, o) by {
                assert(has_member(mid, o));
                assert(score_of_member(mid, o) == score_of_member(pre, o));
                assert(score_of_member(fin, o) == score_of_member(mid, o));
            }
        }
    }

    /// Raw score of user `openid`, or `-1` if the user is not in the
    /// index; `-1` is never a legitimate raw score.
    pub fn member_score(&self, openid: &String) -> (r: i32)
        ensures
            has_member(self@, openid@) ==> r == spec_decode_score(
                score_of_member(self@, openid@) as int,
            ) && r >= 0,
            !has_member(self@, openid@) ==> r == -1,
    {
        proof {
            use_type_invariant(&*self);
        }
        match self.find_member(openid) {
            Some(i) => {
                proof {
                    lemma_member_index_unique(self@, openid@, i as int);
                }
                decode_score(self.entries[i].encoded)
            },
            None => -1,
        }
    }

    /// 1-based rank of user `openid` (highest encoded score is rank 1),
    /// or `0` if the user is not in the index.
    pub fn rank_of(&self, openid: &String) -> (r: usize)
        ensures
            has_member(self@, openid@) ==> r == index_of_member(self@, openid@) + 1 && 1 <= r
                <= self@.len(),
            !has_member(self@, openid@) ==> r == 0,
    {
        proof {
            use_type_invariant(&*self);
        }
        let n = self.entries.len();
        match self.find_member(openid) {
            Some(i) => {
                proof {
                    lemma_member_index_unique(self@, openid@, i as int);
                }
                assert(i < n);
                i + 1
            },
            None => 0,
        }
    }

    /// The first `min(n, len)` entries, best first, each decoded to its
    /// raw score.
    pub fn top_n(&self, n: usize) -> (r: Vec<(String, i32)>)
        ensures
            r@.len() == (if n <= self@.len() {
                n as int
            } else {
                self@.len() as int
            }),
            forall|i: int|
                0 <= i < r@.len() ==> (#[trigger] r@[i]).0@ == self@[i].openid@ && r@[i].1
                    == spec_decode_score(self@[i].encoded as int),
    {
        proof {
            use_type_invariant(&*self);
        }
        let count = if n <= self.entries.len() {
            n
        } else {
            self.entries.len()
        };
        let mut r: Vec<(String, i32)> = Vec::new();
        let mut i: usize = 0;
        while i < count
            invariant
                i <= count,
                count <= self@.len(),
                all_scores_valid(self@),
                r@.len() == i,
                forall|k: int|
                    0 <= k < i ==> (#[trigger] r@[k]).0@ == self@[k].openid@ && r@[k].1
                        == spec_decode_score(self@[k].encoded as int),
            decreases count - i,
        {
            let raw = decode_score(self.entries[i].encoded);
            r.push((self.entries[i].openid.clone(), raw));
            i = i + 1;
        }
        r
    }

    /// Empties the board.
    pub fn clear(&mut self)
        ensures
            final (self)@ == Seq::<ScoreEntry>::empty(),
    {
        let mut v: Vec<ScoreEntry> = Vec::new();
        std::mem::swap(&mut v, &mut self.entries);
        v.clear();
        self.entries = v;
    }
}

/// Removing index `i` does not change membership of any other user.
proof fn lemma_remove_keeps_others(s: Seq<ScoreEntry>, i: int, o: Seq<char>)
    requires
        0 <= i < s.len(),
        s[i].openid@ != o,
    ensures
        has_member(s.remove(i), o) == has_member(s, o),
{
    let t = s.remove(i);
    if has_member(s, o) {
        let k = choose|k: int| 0 <= k < s.len() && (#[trigger] s[k]).openid@ == o;
        if k < i {
            assert(t[k].openid@ == o);
        } else {
            assert(t[k - 1].openid@ == o);
        }
    }
    if has_member(t, o) {
        let k = choose|k: int| 0 <= k < t.len() && (#[trigger] t[k]).openid@ == o;
        if k < i {
            assert(s[k].openid@ == o);
        } else {
            assert(s[k + 1].openid@ == o);
        }
    }
}

/// Removing index `i` does not change any other user's score.
proof fn lemma_remove_keeps_scores(s: Seq<ScoreEntry>, i: int, o: Seq<char>)
    requires
        distinct_members(s),
        0 <= i < s.len(),
        s[i].openid@ != o,
        has_member(s, o),
    ensures
        score_of_member(s.remove(i), o) == score_of_member(s, o),
{
    let t = s.remove(i);
    let k = index_of_member(s, o);
    assert(0 <= k < s.len() && s[k].openid@ == o);
    lemma_remove_preserves_wf_distinct(s, i);
    if k < i {
        assert(t[k].openid@ == o);
        lemma_member_index_unique(t, o, k);
        lemma_member_index_unique(s, o, k);
    } else {
        assert(t[k - 1].openid@ == o);
        lemma_member_index_unique(t, o, k - 1);
        lemma_member_index_unique(s, o, k);
    }
}

/// After removing the only entry of user `o`, the user is gone.
proof fn lemma_remove_only_member_gone(s: Seq<ScoreEntry>, i: int, o: Seq<char>)
    requires
        distinct_members(s),
        0 <= i < s.len(),
        s[i].openid@ == o,
    ensures
        !has_member(s.remove(i), o),
{
    let t = s.remove(i);
    if has_member(t, o) {
        let k = choose|k: int| 0 <= k < t.len() && (#[trigger] t[k]).openid@ == o;
        if k < i {
            assert(s[k].openid@ == o);
        } else {
            assert(s[k + 1].openid@ == o);
        }
    }
}

/// Removal preserves distinctness.
proof fn lemma_remove_preserves_wf_distinct(s: Seq<ScoreEntry>, i: int)
    requires
        distinct_members(s),
        0 <= i < s.len(),
    ensures
        distinct_members(s.remove(i)),
{
    let t = s.remove(i);
    assert forall|a: int, b: int| 0 <= a < b < t.len() implies (#[trigger] t[a]).openid@ != (
    #[trigger] t[b]).openid@ by {
        let sa = if a < i {
            a
        } else {
            a + 1
        };
        let sb = if b < i {
            b
        } else {
            b + 1
        };
        assert(t[a] == s[sa] && t[b] == s[sb]);
    }
}

/// Removal preserves well-formedness.
proof fn lemma_remove_preserves_wf(s: Seq<ScoreEntry>, i: int)
    requires
        board_wf(s),
        0 <= i < s.len(),
    ensures
        board_wf(s.remove(i)),
{
    let t = s.remove(i);
    lemma_remove_preserves_wf_distinct(s, i);
    assert forall|a: int, b: int| 0 <= a < b < t.len() implies (#[trigger] t[a]).encoded >= (
    #[trigger] t[b]).encoded by {
        let sa = if a < i {
            a
        } else {
            a + 1
        };
        let sb = if b < i {
            b
        } else {
            b + 1
        };
        assert(t[a] == s[sa] && t[b] == s[sb]);
    }
    assert forall|a: int| 0 <= a < t.len() implies valid_encoded_score(
        (#[trigger] t[a]).encoded as int,
    ) by {
        let sa = if a < i {
            a
        } else {
            a + 1
        };
        assert(t[a] == s[sa]);
    }
}

/// Where each entry of `s.insert(p, entry)` comes from.
proof fn lemma_insert_index_map(s: Seq<ScoreEntry>, p: int, entry: ScoreEntry, a: int)
    requires
        0 <= p <= s.len(),
        0 <= a < s.len() + 1,
    ensures
        a < p ==> s.insert(p, entry)[a] == s[a],
        a == p ==> s.insert(p, entry)[a] == entry,
        a > p ==> s.insert(p, entry)[a] == s[a - 1],
{
}

/// Inserting a new user at the boundary position keeps the board
/// well-formed.
proof fn lemma_insert_sorted_wf(s: Seq<ScoreEntry>, p: int, entry: ScoreEntry)
    requires
        board_wf(s),
        !has_member(s, entry.openid@),
        valid_encoded_score(entry.encoded as int),
        0 <= p <= s.len(),
        forall|k: int| 0 <= k < p ==> (#[trigger] s[k]).encoded >= entry.encoded,
        p < s.len() ==> s[p].encoded < entry.encoded,
    ensures
        board_wf(s.insert(p, entry)),
{
    let t = s.insert(p, entry);
    assert forall|a: int, b: int| 0 <= a < b < t.len() implies (#[trigger] t[a]).encoded >= (
    #[trigger] t[b]).encoded by {
        lemma_insert_index_map(s, p, entry, a);
        lemma_insert_index_map(s, p, entry, b);
    }
    assert forall|a: int, b: int| 0 <= a < b < t.len() implies (#[trigger] t[a]).openid@ != (
    #[trigger] t[b]).openid@ by {
        lemma_insert_index_map(s, p, entry, a);
        lemma_insert_index_map(s, p, entry, b);
    }
    assert forall|a: int| 0 <= a < t.len() implies valid_encoded_score(
        (#[trigger] t[a]).encoded as int,
    ) by {
        lemma_insert_index_map(s, p, entry, a);
    }
}

/// Insertion does not change membership of any other user.
proof fn lemma_insert_keeps_others(s: Seq<ScoreEntry>, p: int, entry: ScoreEntry, other: Seq<char>)
    requires
        0 <= p <= s.len(),
        other != entry.openid@,
    ensures
        has_member(s.insert(p, entry), other) == has_member(s, other),
{
    let t = s.insert(p, entry);
    if has_member(s, other) {
        let k = choose|k: int| 0 <= k < s.len() && (#[trigger] s[k]).openid@ == other;
        if k < p {
            assert(t[k].openid@ == other);
        } else {
            assert(t[k + 1].openid@ == other);
        }
    }
    if has_member(t, other) {
        let k = choose|k: int| 0 <= k < t.len() && (#[trigger] t[k]).openid@ == other;
        lemma_insert_index_map(s, p, entry, k);
        if k < p {
            assert(s[k].openid@ == other);
        } else if k > p {
            assert(s[k - 1].openid@ == other);
        }
    }
}

/// Insertion does not change any other user's score.
proof fn lemma_insert_keeps_scores(s: Seq<ScoreEntry>, p: int, entry: ScoreEntry, other: Seq<char>)
    requires
        distinct_members(s),
        0 <= p <= s.len(),
        other != entry.openid@,
        has_member(s, other),
    ensures
        score_of_member(s.insert(p, entry), other) == score_of_member(s, other),
{
    let t = s.insert(p, entry);
    let k = index_of_member(s, other);
    assert(0 <= k < s.len() && s[k].openid@ == other);
    lemma_member_index_unique(s, other, k);
    if k < p {
        assert(t[k].openid@ == other);
        lemma_insert_member_index(s, p, entry, other, k);
    } else {
        assert(t[k + 1].openid@ == other);
        lemma_insert_member_index(s, p, entry, other, k + 1);
    }
}

/// In the inserted sequence, a position holding `other` is its unique
/// member index.
proof fn lemma_insert_member_index(
    s: Seq<ScoreEntry>,
    p: int,
    entry: ScoreEntry,
    other: Seq<char>,
    at: int,
)
    requires
        distinct_members(s),
        0 <= p <= s.len(),
        entry.openid@ != other,
        0 <= at < s.len() + 1,
        s.insert(p, entry)[at].openid@ == other,
    ensures
        index_of_member(s.insert(p, entry), other) == at,
        score_of_member(s.insert(p, entry), other) == s.insert(p, entry)[at].encoded,
{
    let t = s.insert(p, entry);
    let w = index_of_member(t, other);
    assert(0 <= w < t.len() && t[w].openid@ == other);
    if w != at {
        let a = if w < at {
            w
        } else {
            at
        };
        let b = if w < at {
            at
        } else {
            w
        };
        lemma_insert_index_map(s, p, entry, a);
        lemma_insert_index_map(s, p, entry, b);
        if a < p && b < p {
            assert(s[a].openid@ == other && s[b].openid@ == other);
        } else if a < p {
            if b == p {
            } else {
                assert(s[a].openid@ == other && s[b - 1].openid@ == other);
            }
        } else if a == p {
        } else {
            assert(s[a - 1].openid@ == other && s[b - 1].openid@ == other);
        }
    }
}

} // verus!
