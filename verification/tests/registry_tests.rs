//! The configuration registry, the admin decisions, and replication.

use rank_engine::config_service::{
    commit_add_config, cron_cancel_needed, cron_expression_parses, cron_job_needed,
    delete_from_registry, map_add_db_error, replica_apply_pull, replica_needs_pull,
    snapshot_for_replication, snapshot_well_formed, validate_add_config,
};
use rank_engine::dto::AddRankConfigReq;
use rank_engine::errors::{ApiError, DbError, RequestError, TokenError, UserError};
use rank_engine::registry::ConfigRegistry;
use rank_engine::config_service::init_registry_from_durable;
use rank_engine::repository::RankRepository;

fn add_req(appid: &str, rank_key: &str, secret: &str, cron: &str) -> AddRankConfigReq {
    AddRankConfigReq {
        appid: String::from(appid),
        rank_key: String::from(rank_key),
        app_secret: String::from(secret),
        cron_expression: String::from(cron),
        remark: String::new(),
    }
}

#[test]
fn cron_parser_accepts_real_expressions_only() {
    assert!(cron_expression_parses("0 0 0 * * *"));
    assert!(cron_expression_parses("*/5 * * * * *"));
    assert!(!cron_expression_parses("definitely not cron"));
    assert!(!cron_expression_parses("99 99 99 * * *"));
}

#[test]
fn add_validation_accepts_empty_cron_and_rejects_bad_cron() {
    let reg = ConfigRegistry::new();
    assert!(validate_add_config(&reg, &add_req("app1", "daily", "secret-1", "")).is_ok());
    assert!(validate_add_config(&reg, &add_req("app1", "daily", "secret-1", "0 0 0 * * *")).is_ok());
    let r = validate_add_config(&reg, &add_req("app1", "daily", "secret-1", "nope"));
    assert!(matches!(r, Err(ApiError::RequestError(_))));
}

#[test]
fn add_validation_rejects_secret_mismatch_and_duplicates() {
    let mut reg = ConfigRegistry::new();
    commit_add_config(&mut reg, &add_req("app1", "daily", "secret-1", ""), String::new(), 1_000);

    // same tenant, same secret, new leaderboard: fine
    assert!(validate_add_config(&reg, &add_req("app1", "weekly", "secret-1", "")).is_ok());
    // same tenant, different secret: refused
    assert!(validate_add_config(&reg, &add_req("app1", "weekly", "secret-2", "")).is_err());
    // same identity again: refused
    assert!(validate_add_config(&reg, &add_req("app1", "daily", "secret-1", "")).is_err());
}

#[test]
fn add_then_delete_restores_the_registry() {
    let mut reg = ConfigRegistry::new();
    commit_add_config(&mut reg, &add_req("app1", "daily", "secret-1", ""), String::new(), 1_000);
    assert_eq!(reg.len(), 1);
    assert_eq!(reg.get_secret(&String::from("app1")), Some(String::from("secret-1")));

    let removed = delete_from_registry(
        &mut reg,
        &String::from("app1"),
        &String::from("daily"),
        2_000,
    )
    .unwrap();
    assert_eq!(removed.appid, "app1");
    assert_eq!(reg.len(), 0);
    // the tenant had no other leaderboard: the secret is gone
    assert_eq!(reg.get_secret(&String::from("app1")), None);
}

#[test]
fn deleting_one_of_two_boards_keeps_the_tenant_secret() {
    let mut reg = ConfigRegistry::new();
    commit_add_config(&mut reg, &add_req("app1", "daily", "secret-1", ""), String::new(), 1_000);
    commit_add_config(&mut reg, &add_req("app1", "weekly", "secret-1", ""), String::new(), 2_000);
    delete_from_registry(&mut reg, &String::from("app1"), &String::from("daily"), 3_000).unwrap();
    assert_eq!(reg.len(), 1);
    assert_eq!(reg.get_secret(&String::from("app1")), Some(String::from("secret-1")));
}

#[test]
fn deleting_an_unknown_board_is_reported() {
    let mut reg = ConfigRegistry::new();
    let r = delete_from_registry(&mut reg, &String::from("nope"), &String::from("x"), 1_000);
    assert_eq!(r.unwrap_err(), "rank config is not exist");
}

#[test]
fn update_time_moves_strictly_forward() {
    let mut reg = ConfigRegistry::new();
    commit_add_config(&mut reg, &add_req("app1", "daily", "secret-1", ""), String::new(), 5_000);
    let t1 = reg.get_update_time();
    assert!(t1 >= 5_000);
    // a clock that went backwards still moves the version forward
    commit_add_config(&mut reg, &add_req("app1", "weekly", "secret-1", ""), String::new(), 1);
    let t2 = reg.get_update_time();
    assert!(t2 > t1);
}

#[test]
fn empty_cron_needs_no_scheduler_job() {
    let mut reg = ConfigRegistry::new();
    commit_add_config(&mut reg, &add_req("app1", "daily", "secret-1", ""), String::new(), 1_000);
    let configs = reg.list_configs();
    assert_eq!(configs.len(), 1);
    assert!(!cron_job_needed(&configs[0]));
    assert!(!cron_cancel_needed(&configs[0]));
}

#[test]
fn scheduled_cron_needs_a_job_and_a_cancel() {
    let mut reg = ConfigRegistry::new();
    commit_add_config(
        &mut reg,
        &add_req("app1", "daily", "secret-1", "0 0 0 * * *"),
        String::from("3f2504e0-4f89-11d3-9a0c-0305e82c3301"),
        1_000,
    );
    let configs = reg.list_configs();
    assert!(cron_job_needed(&configs[0]));
    assert!(cron_cancel_needed(&configs[0]));
}

#[test]
fn duplicate_key_code_maps_to_unique_constraint_violation() {
    let e = map_add_db_error(true, Some(String::from("1062")), String::from("dup"));
    assert!(matches!(e, DbError::UniqueConstraintViolation(_)));
    let e = map_add_db_error(true, Some(String::from("1045")), String::from("denied"));
    assert!(matches!(e, DbError::SomethingWentWrong(_)));
    let e = map_add_db_error(true, None, String::from("no code"));
    assert!(matches!(e, DbError::SomethingWentWrong(_)));
    let e = map_add_db_error(false, Some(String::from("1062")), String::from("io"));
    assert!(matches!(e, DbError::SomethingWentWrong(_)));
}

#[test]
fn replica_pull_copies_the_master_configuration() {
    let mut master = ConfigRegistry::new();
    commit_add_config(
        &mut master,
        &add_req("app1", "daily", "secret-1", "0 0 0 * * *"),
        String::from("3f2504e0-4f89-11d3-9a0c-0305e82c3301"),
        10_000,
    );
    commit_add_config(&mut master, &add_req("app2", "hall", "secret-2", ""), String::new(), 20_000);

    let mut replica = ConfigRegistry::new();
    replica.set_update_time(1);

    let (master_time, snapshot) = snapshot_for_replication(&master);
    assert!(replica_needs_pull(replica.get_update_time(), master_time));
    assert!(snapshot_well_formed(&snapshot));
    replica_apply_pull(&mut replica, master_time, snapshot);

    assert_eq!(replica.get_update_time(), master.get_update_time());
    assert_eq!(replica.len(), 2);
    assert_eq!(replica.get_secret(&String::from("app1")), Some(String::from("secret-1")));
    assert_eq!(replica.get_secret(&String::from("app2")), Some(String::from("secret-2")));
    let configs = replica.list_configs();
    assert!(configs.iter().any(|c| c.appid == "app1" && c.rank_key == "daily"));
    // scheduler handles do not travel over the wire
    assert!(configs.iter().all(|c| c.cron_uuid.is_empty()));

    // a second tick sees equal versions and pulls nothing
    assert!(!replica_needs_pull(replica.get_update_time(), master.get_update_time()));
}

#[test]
fn startup_load_installs_the_durable_configs() {
    let mut repo = RankRepository::new();
    repo.add_rank_config_to_mysql(&add_req("app1", "daily", "secret-1", "")).unwrap();
    repo.add_rank_config_to_mysql(&add_req("app2", "hall", "secret-2", "")).unwrap();

    let mut reg = ConfigRegistry::new();
    assert!(init_registry_from_durable(&mut reg, &repo, 9_000));
    assert_eq!(reg.len(), 2);
    assert_eq!(reg.get_update_time(), 9_000);
    assert_eq!(reg.get_secret(&String::from("app2")), Some(String::from("secret-2")));
}

#[test]
fn snapshot_checker_refuses_broken_snapshots() {
    let mut master = ConfigRegistry::new();
    commit_add_config(&mut master, &add_req("app1", "daily", "secret-1", ""), String::new(), 1_000);
    let (_, mut snapshot) = snapshot_for_replication(&master);
    let mut dup = snapshot[0].duplicate();
    dup.app_secret = String::from("another-secret");
    snapshot.push(dup);
    assert!(!snapshot_well_formed(&snapshot));
}

#[test]
fn error_codes_are_stable() {
    assert_eq!(DbError::SomethingWentWrong(String::new()).get_code(), 13001);
    assert_eq!(DbError::UniqueConstraintViolation(String::new()).get_code(), 13002);
    assert_eq!(TokenError::MissingToken.get_code(), 12003);
    assert_eq!(UserError::UserNotFound.get_code(), 11001);
    assert_eq!(RequestError::SignatureError.get_code(), 20003);
    assert_eq!(RequestError::CommonError(String::new()).get_code(), 20004);
    assert_eq!(DbError::UniqueConstraintViolation(String::new()).get_status(), 409);
    assert_eq!(UserError::UserNotFound.get_status(), 404);
}
