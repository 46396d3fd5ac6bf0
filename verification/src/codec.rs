//! Score encoding for the sorted index.
//!
//! The externally visible score is an integer in `[0, MAX_RAW_SCORE]`. The
//! index orders entries by an encoded value that combines the raw score with
//! the submission time: the raw score is scaled by `BASE_TIMESTAMP` and the
//! remaining distance to `BASE_TIMESTAMP` is added, so that
//! (i) decoding recovers the raw score, and
//! (ii) for equal raw scores an earlier submission receives a strictly
//! larger encoded value and therefore outranks a later one.
//! The time term is a tie-breaker only, never a recoverable submission time.

use vstd::prelude::*;
use vstd::arithmetic::div_mod::lemma_fundamental_div_mod_converse;
use vstd::arithmetic::mul::lemma_mul_inequality;

verus! {

/// Base timestamp in seconds; far enough in the future that every clock
/// reading during the service's lifetime stays strictly below it.
pub const BASE_TIMESTAMP: u64 = 317265609600;

/// Largest raw score a client may submit.
pub const MAX_RAW_SCORE: i32 = 100_000_000;

/// Encoded ranking value of a raw score submitted at `now_seconds`.
pub open spec fn spec_encode_score(raw: int, now_seconds: int) -> int {
    raw * (BASE_TIMESTAMP as int) + ((BASE_TIMESTAMP as int) - now_seconds)
}

/// Raw score recovered from an encoded ranking value.
pub open spec fn spec_decode_score(encoded: int) -> int {
    encoded / (BASE_TIMESTAMP as int)
}

/// An encoded value that decodes to a legitimate raw score.
pub open spec fn valid_encoded_score(encoded: int) -> bool {
    0 <= encoded && 0 <= spec_decode_score(encoded) <= MAX_RAW_SCORE
}

/// Decoding inverts encoding for every legitimate raw score and every
/// positive clock reading below the base timestamp. (At the degenerate
/// reading `0` the time term equals a whole extra score unit, so the
/// round trip does not hold there; a real clock reading is far above `0`.)
pub proof fn lemma_encode_decode_round_trip(raw: int, now_seconds: int)
    requires
        0 <= raw <= MAX_RAW_SCORE,
        1 <= now_seconds < BASE_TIMESTAMP,
    ensures
        spec_decode_score(spec_encode_score(raw, now_seconds)) == raw,
{
    lemma_fundamental_div_mod_converse(
        spec_encode_score(raw, now_seconds),
        BASE_TIMESTAMP as int,
        raw,
        (BASE_TIMESTAMP as int) - now_seconds,
    );
}

/// For equal raw scores, the earlier submission gets the strictly larger
/// encoded value.
pub proof fn lemma_encode_tie_break(raw: int, t1: int, t2: int)
    requires
        t1 < t2,
    ensures
        spec_encode_score(raw, t1) > spec_encode_score(raw, t2),
{
}

/// A strictly higher raw score always encodes strictly above a lower one,
/// whatever the two submission times.
pub proof fn lemma_encode_orders_by_raw(r1: int, t1: int, r2: int, t2: int)
    requires
        0 <= r1 < r2,
        1 <= t1 < BASE_TIMESTAMP,
        1 <= t2 < BASE_TIMESTAMP,
    ensures
        spec_encode_score(r1, t1) < spec_encode_score(r2, t2),
{
    let b = BASE_TIMESTAMP as int;
    assert(r1 * b + b <= r2 * b) by {
        lemma_mul_inequality(r1 + 1, r2, b);
    }
}

/// Computes the encoded ranking value of `raw` at clock reading
/// `now_seconds`.
pub fn encode_score(raw: i32, now_seconds: u64) -> (encoded: u128)
    requires
        0 <= raw <= MAX_RAW_SCORE,
        1 <= now_seconds < BASE_TIMESTAMP,
    ensures
        encoded == spec_encode_score(raw as int, now_seconds as int),
        spec_decode_score(encoded as int) == raw,
        valid_encoded_score(encoded as int),
{
    let b: u128 = BASE_TIMESTAMP as u128;
    proof {
        assert((raw as int) * (b as int) <= (MAX_RAW_SCORE as int) * (b as int)) by {
            lemma_mul_inequality(raw as int, MAX_RAW_SCORE as int, b as int);
        }
    }
    let encoded: u128 = (raw as u128) * b + (b - (now_seconds as u128));
    proof {
        lemma_encode_decode_round_trip(raw as int, now_seconds as int);
    }
    encoded
}

/// Recovers the raw score from an encoded ranking value.
pub fn decode_score(encoded: u128) -> (raw: i32)
    requires
        valid_encoded_score(encoded as int),
    ensures
        raw == spec_decode_score(encoded as int),
{
    let q: u128 = encoded / (BASE_TIMESTAMP as u128);
    q as i32
}

} // verus!
