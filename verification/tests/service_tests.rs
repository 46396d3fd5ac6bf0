//! End-to-end scenarios over the repository and the scoring service.

use rank_engine::dto::{AddRankConfigReq, TopNUserReq, UpdateScoreRequest, UserRankingReq};
use rank_engine::errors::{ApiError, DbError};
use rank_engine::rank_service::RankService;
use rank_engine::repository::RankRepository;

const NOW: u64 = 1_700_000_000;

fn add_req(appid: &str, rank_key: &str, cron: &str) -> AddRankConfigReq {
    AddRankConfigReq {
        appid: String::from(appid),
        rank_key: String::from(rank_key),
        app_secret: String::from("secret-1"),
        cron_expression: String::from(cron),
        remark: String::new(),
    }
}

fn submit(appid: &str, rank_key: &str, openid: &str, nick: &str, score: i32) -> UpdateScoreRequest {
    UpdateScoreRequest {
        appid: String::from(appid),
        rank_key: String::from(rank_key),
        openid: String::from(openid),
        nick_name: String::from(nick),
        score,
    }
}

fn service_with_board(appid: &str, rank_key: &str) -> RankService {
    let mut repo = RankRepository::new();
    repo.add_rank_config_to_mysql(&add_req(appid, rank_key, "")).unwrap();
    RankService::new(repo)
}

#[test]
fn equal_scores_rank_by_submission_time() {
    let mut svc = service_with_board("A", "daily");
    svc.update_rank_score(&submit("A", "daily", "u1", "Alice", 100), NOW).unwrap();
    svc.update_rank_score(&submit("A", "daily", "u2", "Bob", 100), NOW + 1).unwrap();

    let top = svc.get_top_user_rank(&String::from("A"), &String::from("daily"), 2).unwrap();
    assert_eq!(top.len(), 2);
    assert_eq!(top[0].openid, Some(String::from("u1")));
    assert_eq!(top[0].nick_name, Some(String::from("Alice")));
    assert_eq!(top[0].score, Some(100));
    assert_eq!(top[0].ranking, Some(1));
    assert_eq!(top[1].openid, Some(String::from("u2")));
    assert_eq!(top[1].nick_name, Some(String::from("Bob")));
    assert_eq!(top[1].score, Some(100));
    assert_eq!(top[1].ranking, Some(2));
}

#[test]
fn resubmission_overwrites_score_and_rank() {
    let mut svc = service_with_board("A", "daily");
    svc.update_rank_score(&submit("A", "daily", "u1", "Alice", 50), NOW).unwrap();
    svc.update_rank_score(&submit("A", "daily", "u1", "Alice", 70), NOW + 5).unwrap();

    let score = svc
        .get_user_score(&String::from("A"), &String::from("u1"), &String::from("daily"), NOW + 6)
        .unwrap();
    assert_eq!(score, 70);
    let rank = svc
        .get_user_ranking(&String::from("A"), &String::from("u1"), &String::from("daily"))
        .unwrap();
    assert_eq!(rank, 1);
    // still one entry, not two
    let top = svc.get_top_user_rank(&String::from("A"), &String::from("daily"), 30).unwrap();
    assert_eq!(top.len(), 1);
}

#[test]
fn unranked_user_and_unknown_board_read_as_absent() {
    let svc = service_with_board("A", "daily");
    // unknown board key
    let rank = svc
        .get_user_ranking(&String::from("A"), &String::from("u1"), &String::from("nope"))
        .unwrap();
    assert_eq!(rank, 0);
    // known board, unranked user
    assert_eq!(
        svc.rank_repo.get_user_score_from_redis(
            &String::from("A"),
            &String::from("u1"),
            &String::from("daily"),
        ),
        -1
    );
}

#[test]
fn top_n_clips_to_population_and_zero_gives_empty() {
    let mut svc = service_with_board("A", "daily");
    svc.update_rank_score(&submit("A", "daily", "u1", "a", 3), NOW).unwrap();
    svc.update_rank_score(&submit("A", "daily", "u2", "b", 2), NOW).unwrap();
    svc.update_rank_score(&submit("A", "daily", "u3", "c", 1), NOW).unwrap();

    let top = svc.get_top_user_rank(&String::from("A"), &String::from("daily"), 30).unwrap();
    assert_eq!(top.len(), 3);
    assert_eq!(top[0].ranking, Some(1));
    assert_eq!(top[2].ranking, Some(3));

    let empty = svc.rank_repo.get_top_user_rank(&String::from("A"), &String::from("daily"), 0);
    assert!(empty.is_empty());
}

#[test]
fn overwriting_a_score_reorders_the_board() {
    let mut svc = service_with_board("A", "daily");
    svc.update_rank_score(&submit("A", "daily", "u1", "a", 10), NOW).unwrap();
    svc.update_rank_score(&submit("A", "daily", "u2", "b", 20), NOW + 1).unwrap();
    svc.update_rank_score(&submit("A", "daily", "u3", "c", 30), NOW + 2).unwrap();
    // the weakest member jumps to the top
    svc.update_rank_score(&submit("A", "daily", "u1", "a", 40), NOW + 3).unwrap();

    let top = svc.get_top_user_rank(&String::from("A"), &String::from("daily"), 3).unwrap();
    assert_eq!(top[0].openid, Some(String::from("u1")));
    assert_eq!(top[0].score, Some(40));
    assert_eq!(top[1].openid, Some(String::from("u3")));
    assert_eq!(top[2].openid, Some(String::from("u2")));
    let rank = svc
        .get_user_ranking(&String::from("A"), &String::from("u2"), &String::from("daily"))
        .unwrap();
    assert_eq!(rank, 3);
}

#[test]
fn boundary_scores_are_accepted() {
    let mut svc = service_with_board("A", "daily");
    svc.update_rank_score(&submit("A", "daily", "u0", "zero", 0), NOW).unwrap();
    svc.update_rank_score(&submit("A", "daily", "umax", "max", 100_000_000), NOW).unwrap();
    let top = svc.get_top_user_rank(&String::from("A"), &String::from("daily"), 2).unwrap();
    assert_eq!(top[0].openid, Some(String::from("umax")));
    assert_eq!(top[0].score, Some(100_000_000));
    assert_eq!(top[1].openid, Some(String::from("u0")));
    assert_eq!(top[1].score, Some(0));
}

#[test]
fn negative_score_is_rejected_by_validation() {
    let req = submit("app", "daily", "usr1", "x", -1);
    assert!(req.validate().is_err());
    assert!(submit("app", "daily", "usr1", "x", 0).validate().is_ok());
    assert!(submit("app", "daily", "usr1", "x", 100_000_000).validate().is_ok());
    assert!(submit("app", "daily", "usr1", "x", 100_000_001).validate().is_err());
}

#[test]
fn clock_driven_submission_round_trips_the_score() {
    let mut svc = service_with_board("A", "daily");
    svc.update_rank_score_now(&submit("A", "daily", "u1", "Alice", 77)).unwrap();
    let top = svc.get_top_user_rank(&String::from("A"), &String::from("daily"), 1).unwrap();
    assert_eq!(top[0].score, Some(77));
}

#[test]
fn score_read_falls_back_to_durable_and_backfills_the_index() {
    let mut svc = service_with_board("A", "daily");
    // durable write only: the index knows nothing yet
    svc.rank_repo
        .update_rank_score_to_mysql(&submit("A", "daily", "u1", "Alice", 55))
        .unwrap();
    assert_eq!(
        svc.rank_repo.get_user_score_from_redis(
            &String::from("A"),
            &String::from("u1"),
            &String::from("daily"),
        ),
        -1
    );
    let score = svc
        .get_user_score(&String::from("A"), &String::from("u1"), &String::from("daily"), NOW)
        .unwrap();
    assert_eq!(score, 55);
    // the read backfilled the index
    let rank = svc
        .get_user_ranking(&String::from("A"), &String::from("u1"), &String::from("daily"))
        .unwrap();
    assert_eq!(rank, 1);
}

#[test]
fn unknown_user_is_a_database_failure() {
    let mut svc = service_with_board("A", "daily");
    let r = svc.get_user_score(
        &String::from("A"),
        &String::from("ghost"),
        &String::from("daily"),
        NOW,
    );
    assert!(matches!(r, Err(ApiError::DbError(DbError::SomethingWentWrong(_)))));
}

#[test]
fn submitting_to_an_unconfigured_board_is_a_database_failure() {
    let mut svc = RankService::new(RankRepository::new());
    let r = svc.update_rank_score(&submit("A", "daily", "u1", "x", 1), NOW);
    assert!(matches!(r, Err(ApiError::DbError(DbError::SomethingWentWrong(_)))));
}

#[test]
fn deleted_board_reads_fail_and_a_new_add_succeeds() {
    let mut svc = service_with_board("A", "daily");
    svc.update_rank_score(&submit("A", "daily", "u1", "Alice", 10), NOW).unwrap();

    // the admin delete tears both stores down
    svc.clear_rank_data(&String::from("A"), &String::from("daily"));
    svc.rank_repo
        .delete_rank_config_from_mysql(&String::from("A"), &String::from("daily"));

    // a score read now finds neither store
    let r = svc.get_user_score(&String::from("A"), &String::from("u1"), &String::from("daily"), NOW);
    assert!(matches!(r, Err(ApiError::DbError(DbError::SomethingWentWrong(_)))));
    // the index reads as empty, so the rank is the unranked sentinel
    let rank = svc
        .get_user_ranking(&String::from("A"), &String::from("u1"), &String::from("daily"))
        .unwrap();
    assert_eq!(rank, 0);

    // a re-add of the same identity succeeds and starts empty
    svc.rank_repo.add_rank_config_to_mysql(&add_req("A", "daily", "0 0 0 * * *")).unwrap();
    let top = svc.get_top_user_rank(&String::from("A"), &String::from("daily"), 10).unwrap();
    assert!(top.is_empty());
}

#[test]
fn second_add_of_the_same_identity_is_a_duplicate() {
    let mut repo = RankRepository::new();
    repo.add_rank_config_to_mysql(&add_req("A", "daily", "")).unwrap();
    let r = repo.add_rank_config_to_mysql(&add_req("A", "daily", ""));
    assert!(matches!(r, Err(DbError::UniqueConstraintViolation(_))));
}

#[test]
fn reset_empties_the_board_and_resubmission_repopulates() {
    let mut svc = service_with_board("A", "daily");
    svc.update_rank_score(&submit("A", "daily", "u1", "Alice", 10), NOW).unwrap();
    svc.update_rank_score(&submit("A", "daily", "u2", "Bob", 20), NOW).unwrap();

    // the cron job fires
    svc.clear_rank_data(&String::from("A"), &String::from("daily"));
    let top = svc.get_top_user_rank(&String::from("A"), &String::from("daily"), 10).unwrap();
    assert!(top.is_empty());

    svc.update_rank_score(&submit("A", "daily", "u3", "Cai", 5), NOW + 10).unwrap();
    let top = svc.get_top_user_rank(&String::from("A"), &String::from("daily"), 10).unwrap();
    assert_eq!(top.len(), 1);
    assert_eq!(top[0].openid, Some(String::from("u3")));
}

#[test]
fn rehydration_rebuilds_the_index_from_durable_rows() {
    let mut svc = service_with_board("A", "daily");
    // durable rows only, as after an index loss
    svc.rank_repo.update_rank_score_to_mysql(&submit("A", "daily", "u1", "Alice", 30)).unwrap();
    svc.rank_repo.update_rank_score_to_mysql(&submit("A", "daily", "u2", "Bob", 60)).unwrap();
    svc.rank_repo.update_rank_score_to_mysql(&submit("A", "daily", "u3", "Cai", 40)).unwrap();

    let ok = svc.read_mysql_rank_write_to_redis(&String::from("A"), &String::from("daily"), NOW);
    assert!(ok);

    let top = svc.get_top_user_rank(&String::from("A"), &String::from("daily"), 10).unwrap();
    assert_eq!(top.len(), 3);
    assert_eq!(top[0].openid, Some(String::from("u2")));
    assert_eq!(top[0].score, Some(60));
    assert_eq!(top[0].nick_name, Some(String::from("Bob")));
    assert_eq!(top[1].openid, Some(String::from("u3")));
    assert_eq!(top[2].openid, Some(String::from("u1")));
}

#[test]
fn rehydration_of_an_unknown_board_reports_failure() {
    let mut svc = RankService::new(RankRepository::new());
    let ok = svc.read_mysql_rank_write_to_redis(&String::from("A"), &String::from("daily"), NOW);
    assert!(!ok);
}

#[test]
fn missing_nickname_becomes_the_sentinel() {
    let mut svc = service_with_board("A", "daily");
    // index write without the nickname write
    svc.rank_repo
        .update_rank_score_to_redis(&submit("A", "daily", "u1", "unwritten", 10), NOW);
    let top = svc.get_top_user_rank(&String::from("A"), &String::from("daily"), 1).unwrap();
    assert_eq!(top[0].nick_name, Some(String::from("momo")));
}

#[test]
fn request_validation_covers_the_field_rules() {
    let good = TopNUserReq {
        appid: String::from("app"),
        rank_key: String::from("daily"),
        top_n: 30,
    };
    assert!(good.validate().is_ok());
    let bad_top = TopNUserReq { top_n: 31, ..good.clone() };
    assert!(bad_top.validate().is_err());
    let zero_top = TopNUserReq { top_n: 0, ..good.clone() };
    assert!(zero_top.validate().is_err());
    let short_appid = TopNUserReq { appid: String::from("ab"), ..good.clone() };
    assert!(short_appid.validate().is_err());

    let q = UserRankingReq {
        appid: String::from("app"),
        openid: String::from("u-1"),
        rank_key: String::from("daily"),
    };
    assert!(q.validate().is_ok());
    let long_key = UserRankingReq {
        rank_key: String::from("123456789012345678901"),
        ..q.clone()
    };
    assert!(long_key.validate().is_err());
}
