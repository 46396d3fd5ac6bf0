//! Score encoding, decoding, and the naming scheme.

use rank_engine::codec::{decode_score, encode_score, BASE_TIMESTAMP, MAX_RAW_SCORE};
use rank_engine::keys::{get_mysql_table_name, get_redis_rank_key, get_redis_user_key};

const NOW: u64 = 1_700_000_000;

#[test]
fn encode_then_decode_recovers_raw_score() {
    assert_eq!(decode_score(encode_score(0, NOW)), 0);
    assert_eq!(decode_score(encode_score(1, NOW)), 1);
    assert_eq!(decode_score(encode_score(100, NOW)), 100);
    assert_eq!(decode_score(encode_score(MAX_RAW_SCORE, NOW)), MAX_RAW_SCORE);
}

#[test]
fn encode_round_trip_at_time_extremes() {
    assert_eq!(decode_score(encode_score(42, 1)), 42);
    assert_eq!(decode_score(encode_score(42, BASE_TIMESTAMP - 1)), 42);
}

#[test]
fn encode_exact_value() {
    let base = BASE_TIMESTAMP as u128;
    assert_eq!(encode_score(5, BASE_TIMESTAMP - 1), 5 * base + 1);
    assert_eq!(encode_score(0, 1), base - 1);
    assert_eq!(
        encode_score(MAX_RAW_SCORE, NOW),
        (MAX_RAW_SCORE as u128) * base + (base - NOW as u128)
    );
}

#[test]
fn earlier_submission_encodes_strictly_higher() {
    let earlier = encode_score(100, NOW);
    let later = encode_score(100, NOW + 1);
    assert!(earlier > later);
}

#[test]
fn higher_raw_score_always_encodes_higher() {
    let low_early = encode_score(99, 1);
    let high_late = encode_score(100, BASE_TIMESTAMP - 1);
    assert!(high_late > low_early);
}

#[test]
fn table_and_key_names_follow_the_scheme() {
    let appid = String::from("app1");
    let rank_key = String::from("daily");
    assert_eq!(get_mysql_table_name(&appid, &rank_key), "rank_app1_daily");
    assert_eq!(get_redis_rank_key(&appid, "daily"), "rank:app1:daily");
    assert_eq!(get_redis_user_key(&appid), "userinfo:app1");
}
