//! The wire shapes and their defaults.

use rank_engine::dto::{RankTableConfig, UserScoreRes, ValidatedRequest};
use rank_engine::errors::{ApiErrorResponse, ApiSuccessResponse};

#[test]
fn success_response_carries_code_zero_and_data() {
    let r: ApiSuccessResponse<i32> = ApiSuccessResponse::send(7);
    assert_eq!(r.code, 0);
    assert_eq!(r.msg, "success");
    assert_eq!(r.data, Some(7));

    let none: ApiSuccessResponse<i32> = ApiSuccessResponse::from_with_nodata();
    assert_eq!(none.code, 0);
    assert_eq!(none.msg, "success");
    assert!(none.data.is_none());
}

#[test]
fn error_response_packs_its_parts() {
    let r = ApiErrorResponse::new(200, 20004, Some(String::from("params is error")));
    assert_eq!(r.status, 200);
    assert_eq!(r.code, 20004);
    assert_eq!(r.msg, Some(String::from("params is error")));
}

#[test]
fn reply_row_defaults_to_all_absent() {
    let row = UserScoreRes::default();
    assert!(row.openid.is_none());
    assert!(row.nick_name.is_none());
    assert!(row.score.is_none());
    assert!(row.ranking.is_none());
}

#[test]
fn config_defaults_to_empty_fields() {
    let c = RankTableConfig::default();
    assert_eq!(c.appid, "");
    assert_eq!(c.rank_key, "");
    assert_eq!(c.app_secret, "");
    assert_eq!(c.cron_expression, "");
    assert_eq!(c.cron_uuid, "");
}

#[test]
fn validated_request_wraps_its_payload() {
    let v = ValidatedRequest(41i32);
    assert_eq!(v.0, 41);
}
