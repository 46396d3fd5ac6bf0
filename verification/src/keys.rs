//! Naming scheme for the durable tables and the index keys.
//!
//! One leaderboard `(appid, rank_key)` owns a durable table
//! `rank_{appid}_{rank_key}` and a sorted-index key `rank:{appid}:{rank_key}`;
//! a tenant `appid` owns one nickname hash key `userinfo:{appid}`.

use vstd::prelude::*;
use vstd::string::StringExecFns;

verus! {

/// Name of the durable per-leaderboard table.
pub open spec fn spec_mysql_table_name(appid: Seq<char>, rank_key: Seq<char>) -> Seq<char> {
    "rank_"@ + appid + "_"@ + rank_key
}

/// Key of the sorted ranking index of one leaderboard.
pub open spec fn spec_redis_rank_key(appid: Seq<char>, rank_key: Seq<char>) -> Seq<char> {
    "rank:"@ + appid + ":"@ + rank_key
}

/// Key of the nickname hash of one tenant.
pub open spec fn spec_redis_user_key(appid: Seq<char>) -> Seq<char> {
    "userinfo:"@ + appid
}

/// Builds the durable table name of a leaderboard.
pub fn get_mysql_table_name(appid: &String, rank_key: &String) -> (name: String)
    ensures
        name@ == spec_mysql_table_name(appid@, rank_key@),
{
    let mut name = String::from_str("rank_");
    name.append(appid.as_str());
    name.append("_");
    name.append(rank_key.as_str());
    name
}

/// Builds the sorted-index key of a leaderboard.
pub fn get_redis_rank_key(appid: &String, rank_key: &str) -> (key: String)
    ensures
        key@ == spec_redis_rank_key(appid@, rank_key@),
{
    let mut key = String::from_str("rank:");
    key.append(appid.as_str());
    key.append(":");
    key.append(rank_key);
    key
}

/// Builds the nickname hash key of a tenant.
pub fn get_redis_user_key(appid: &String) -> (key: String)
    ensures
        key@ == spec_redis_user_key(appid@),
{
    let mut key = String::from_str("userinfo:");
    key.append(appid.as_str());
    key
}

} // verus!
