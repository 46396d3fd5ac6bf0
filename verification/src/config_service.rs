//! Control-plane decisions: admin add and delete of leaderboards, the
//! durable error mapping of the add path, and the master-to-replica
//! replication step.
//!
//! The surrounding process performs the durable writes, the scheduler
//! calls and the RPC transport; the functions here decide, against the
//! registry, what each step may do and how the registry changes.

use vstd::prelude::*;
use crate::dto::{AddRankConfigReq, RankTableConfig};
use crate::errors::{ApiError, DbError, RequestError};
use crate::registry::{
    cfgs_distinct_pairs,
    cfgs_has_pair,
    cfgs_index_of_pair,
    cfgs_has_other_with_appid,
    cfgs_secret_consistent,
    registry_link,
    registry_view_wf,
    ConfigRegistry,
    ConfigV,
    lemma_secret_map_determined,
};

verus! {

/// Whether `cron::Schedule` accepts the expression; a pure function of
/// the string.
pub uninterp spec fn cron_parses(s: Seq<char>) -> bool;

/// Relies on `cron::Schedule::from_str`: parses a 6- or 7-field cron
/// expression, deterministically in the expression alone.
#[verifier::external_body]
pub fn cron_expression_parses(expr: &str) -> (b: bool)
    ensures
        b == cron_parses(expr@),
{
    <cron::Schedule as std::str::FromStr>::from_str(expr).is_ok()
}

/// A reset schedule is acceptable when it is empty (never reset) or a
/// parseable cron expression.
pub open spec fn cron_ok(s: Seq<char>) -> bool {
    s.len() == 0 || cron_parses(s)
}

/// Whether a config needs a live scheduler job: exactly the non-empty
/// schedules.
pub fn cron_job_needed(config: &RankTableConfig) -> (b: bool)
    ensures
        b == (config.cron_expression@.len() > 0),
{
    !config.cron_expression.as_str().is_empty()
}

/// Whether deleting `config` must cancel a scheduler job: it has a
/// schedule and a recorded handle.
pub fn cron_cancel_needed(config: &RankTableConfig) -> (b: bool)
    ensures
        b == (config.cron_expression@.len() > 0 && config.cron_uuid@.len() > 0),
{
    !config.cron_expression.as_str().is_empty() && !config.cron_uuid.as_str().is_empty()
}

/// Admin-side validation of an add request against the registry: the
/// schedule must be empty or parseable, a tenant that already has a
/// secret must present the same one, and the identity must be free. Each
/// rejection is a request error.
pub fn validate_add_config(reg: &ConfigRegistry, payload: &AddRankConfigReq) -> (r: Result<
    (),
    ApiError,
>)
    ensures
        r is Ok <==> ({
            &&& cron_ok(payload.cron_expression@)
            &&& (reg.secret_map().contains_key(payload.appid@) ==> reg.secret_map()[payload.appid@]
                == payload.app_secret@)
            &&& !cfgs_has_pair(reg.spec_configs(), payload.appid@, payload.rank_key@)
        }),
        r matches Err(e) ==> e is RequestError,
{
    if !payload.cron_expression.as_str().is_empty() && !cron_expression_parses(
        payload.cron_expression.as_str(),
    ) {
        return Err(
            ApiError::RequestError(
                RequestError::CommonError(String::from_str("cron expression is not valid")),
            ),
        );
    }
    match reg.get_secret(&payload.appid) {
        Some(secret) => {
            if !(secret == payload.app_secret) {
                return Err(
                    ApiError::RequestError(
                        RequestError::CommonError(
                            String::from_str("appid and app secret is mismatching "),
                        ),
                    ),
                );
            }
        },
        None => {},
    }
    if reg.has_config(&payload.appid, &payload.rank_key) {
        return Err(
            ApiError::RequestError(
                RequestError::CommonError(String::from_str("rank config has exist!! ")),
            ),
        );
    }
    Ok(())
}

/// Maps a failure of the durable insert on the add path: the native
/// duplicate-key code `1062` becomes the distinguishable
/// unique-constraint error, everything else the generic failure. The
/// message is carried through either way.
pub fn map_add_db_error(is_database_error: bool, code: Option<String>, message: String) -> (e:
    DbError)
    ensures
        e is UniqueConstraintViolation <==> ({
            &&& is_database_error
            &&& code matches Some(c)
            &&& c@ == "1062"@
        }),
        e is UniqueConstraintViolation ==> e->UniqueConstraintViolation_0 == message,
        e is SomethingWentWrong ==> e->SomethingWentWrong_0 == message,
{
    if is_database_error {
        match code {
            Some(c) => {
                let dup = String::from_str("1062");
                if c == dup {
                    DbError::UniqueConstraintViolation(message)
                } else {
                    DbError::SomethingWentWrong(message)
                }
            },
            None => DbError::SomethingWentWrong(message),
        }
    } else {
        DbError::SomethingWentWrong(message)
    }
}

/// The mathematical config an add request creates, with handle `uuid`.
pub open spec fn spec_config_of_add(payload: AddRankConfigReq, uuid: Seq<char>) -> ConfigV {
    ConfigV {
        appid: payload.appid@,
        rank_key: payload.rank_key@,
        app_secret: payload.app_secret@,
        cron_expression: payload.cron_expression@,
        cron_uuid: uuid,
    }
}

/// Commits a validated add into the registry, after the durable
/// transaction succeeded and the scheduler (if a schedule was given)
/// returned handle `cron_uuid`: the config enters the registry, the
/// tenant secret is registered, and the version moves strictly forward.
pub fn commit_add_config(
    reg: &mut ConfigRegistry,
    payload: &AddRankConfigReq,
    cron_uuid: String,
    now_ms: u64,
)
    requires
        !cfgs_has_pair(old(reg).spec_configs(), payload.appid@, payload.rank_key@),
        old(reg).secret_map().contains_key(payload.appid@) ==> old(reg).secret_map()[payload.appid@]
            == payload.app_secret@,
        old(reg).spec_update_time() < u64::MAX,
    ensures
        final (reg).spec_configs() == old(reg).spec_configs().push(
            spec_config_of_add(*payload, cron_uuid@),
        ),
        final (reg).secret_map() == old(reg).secret_map().insert(
            payload.appid@,
            payload.app_secret@,
        ),
        final (reg).spec_update_time() > old(reg).spec_update_time(),
{
    let config = RankTableConfig {
        appid: payload.appid.clone(),
        rank_key: payload.rank_key.clone(),
        app_secret: payload.app_secret.clone(),
        cron_expression: payload.cron_expression.clone(),
        cron_uuid,
    };
    reg.insert_config(config);
    reg.bump_update_time(now_ms);
}

/// Removes a leaderboard from the registry: the point of no return of the
/// admin delete. When the identity is unknown the registry is untouched
/// and the caller gets the original's error text; on success the config
/// comes back for the durable and scheduler teardown, the tenant's secret
/// is dropped when this was its last leaderboard, and the version moves
/// strictly forward.
pub fn delete_from_registry(
    reg: &mut ConfigRegistry,
    appid: &String,
    rank_key: &String,
    now_ms: u64,
) -> (r: Result<RankTableConfig, String>)
    requires
        old(reg).spec_update_time() < u64::MAX,
    ensures
        r is Err <==> !cfgs_has_pair(old(reg).spec_configs(), appid@, rank_key@),
        r matches Err(m) ==> m@ == "rank config is not exist"@ && final (reg).spec_configs() == old(
            reg,
        ).spec_configs() && final (reg).secret_map() == old(reg).secret_map(),
        r matches Ok(c) ==> ({
            let i = cfgs_index_of_pair(old(reg).spec_configs(), appid@, rank_key@);
            &&& c@ == old(reg).spec_configs()[i]
            &&& final (reg).spec_configs() == old(reg).spec_configs().remove(i)
            &&& final (reg).secret_map() == (if cfgs_has_other_with_appid(
                old(reg).spec_configs(),
                appid@,
                i,
            ) {
                old(reg).secret_map()
            } else {
                old(reg).secret_map().remove(appid@)
            })
            &&& final (reg).spec_update_time() > old(reg).spec_update_time()
        }),
{
    match reg.remove_config(appid, rank_key) {
        None => Err(String::from_str("rank config is not exist")),
        Some(config) => {
            reg.bump_update_time(now_ms);
            Ok(config)
        },
    }
}

/// A config as it travels over the replication wire: the scheduler handle
/// stays at home.
pub open spec fn strip_handle(c: ConfigV) -> ConfigV {
    ConfigV {
        appid: c.appid,
        rank_key: c.rank_key,
        app_secret: c.app_secret,
        cron_expression: c.cron_expression,
        cron_uuid: Seq::empty(),
    }
}

/// The master's consistent replication snapshot: its version together
/// with its configs, handles stripped.
pub fn snapshot_for_replication(reg: &ConfigRegistry) -> (r: (u64, Vec<RankTableConfig>))
    ensures
        r.0 == reg.spec_update_time(),
        r.1@.map_values(|c: RankTableConfig| c@) == reg.spec_configs().map_values(
            |c: ConfigV| strip_handle(c),
        ),
{
    let t = reg.get_update_time();
    let configs = reg.list_configs();
    let n = configs.len();
    let mut out: Vec<RankTableConfig> = Vec::new();
    let mut i: usize = 0;
    while i < n
        invariant
            i <= n,
            n == configs@.len(),
            configs@.map_values(|c: RankTableConfig| c@) == reg.spec_configs(),
            out@.len() == i,
            forall|k: int| 0 <= k < i ==> #[trigger] out@[k]@ == strip_handle(reg.spec_configs()[k]),
        decreases n - i,
    {
        let c = &configs[i];
        out.push(
            RankTableConfig {
                appid: c.appid.clone(),
                rank_key: c.rank_key.clone(),
                app_secret: c.app_secret.clone(),
                cron_expression: c.cron_expression.clone(),
                cron_uuid: String::new(),
            },
        );
        proof {
            assert(configs@[i as int]@ == reg.spec_configs()[i as int]);
        }
        i = i + 1;
    }
    proof {
        assert(out@.map_values(|c: RankTableConfig| c@) =~= reg.spec_configs().map_values(
            |c: ConfigV| strip_handle(c),
        ));
    }
    (t, out)
}

/// Whether the replica must pull: exactly when the master's version
/// differs from the local one.
pub fn replica_needs_pull(local_time: u64, master_time: u64) -> (b: bool)
    ensures
        b == (local_time != master_time),
{
    local_time != master_time
}

/// Checks that a received snapshot is acceptable: no identity twice, one
/// secret per tenant. Every snapshot a well-formed master serves passes.
pub fn snapshot_well_formed(list: &Vec<RankTableConfig>) -> (b: bool)
    ensures
        b == (cfgs_distinct_pairs(list@.map_values(|c: RankTableConfig| c@))
            && cfgs_secret_consistent(list@.map_values(|c: RankTableConfig| c@))),
{
    let ghost lv = list@.map_values(|c: RankTableConfig| c@);
    let n = list.len();
    let mut i: usize = 0;
    while i < n
        invariant
            i <= n,
            n == list@.len(),
            lv == list@.map_values(|c: RankTableConfig| c@),
            forall|a: int, b: int|
                0 <= a < b < i ==> !((#[trigger] lv[a]).appid == (#[trigger] lv[b]).appid
                    && lv[a].rank_key == lv[b].rank_key),
            forall|a: int, b: int|
                0 <= a < i && 0 <= b < i && (#[trigger] lv[a]).appid == (#[trigger] lv[b]).appid
                    ==> lv[a].app_secret == lv[b].app_secret,
        decreases n - i,
    {
        let mut j: usize = 0;
        while j < i
            invariant
                j <= i < n,
                n == list@.len(),
                lv == list@.map_values(|c: RankTableConfig| c@),
                forall|b: int|
                    0 <= b < j ==> !((#[trigger] lv[b]).appid == lv[i as int].appid && lv[b].rank_key
                        == lv[i as int].rank_key),
                forall|b: int|
                    0 <= b < j && (#[trigger] lv[b]).appid == lv[i as int].appid ==> lv[b].app_secret
                        == lv[i as int].app_secret,
            decreases i - j,
        {
            if list[j].appid == list[i].appid {
                if list[j].rank_key == list[i].rank_key {
                    proof {
                        assert((lv[j as int]).appid == (lv[i as int]).appid && (
                        lv[j as int]).rank_key == (lv[i as int]).rank_key);
                        assert(!cfgs_distinct_pairs(lv));
                    }
                    return false;
                }
                if !(list[j].app_secret == list[i].app_secret) {
                    proof {
                        assert((lv[j as int]).appid == (lv[i as int]).appid && (
                        lv[j as int]).app_secret != (lv[i as int]).app_secret);
                        assert(!cfgs_secret_consistent(lv));
                    }
                    return false;
                }
            }
            j = j + 1;
        }
        i = i + 1;
    }
    true
}

/// One successful replica pull: the registry is rebuilt wholesale from
/// the master's snapshot and takes the master's version.
pub fn replica_apply_pull(
    reg: &mut ConfigRegistry,
    master_time: u64,
    snapshot: Vec<RankTableConfig>,
)
    requires
        cfgs_distinct_pairs(snapshot@.map_values(|c: RankTableConfig| c@)),
        cfgs_secret_consistent(snapshot@.map_values(|c: RankTableConfig| c@)),
    ensures
        final (reg).spec_configs() == snapshot@.map_values(|c: RankTableConfig| c@),
        registry_link(final (reg).spec_configs(), final (reg).secret_map()),
        final (reg).spec_update_time() == master_time,
{
    reg.replace_all(snapshot, master_time);
}

/// The startup load of every node: reads the whole config table from
/// the durable store and, when it is acceptable, installs it wholesale
/// into the registry at version `now_ms`; a broken config table refuses
/// to start.
pub fn init_registry_from_durable(
    reg: &mut ConfigRegistry,
    repo: &crate::repository::RankRepository,
    now_ms: u64,
) -> (ok: bool)
    ensures
        ok ==> final (reg).spec_configs() == repo.spec_configs(),
        ok ==> registry_link(final (reg).spec_configs(), final (reg).secret_map()),
        ok ==> final (reg).spec_update_time() == now_ms,
        !ok ==> final (reg).spec_configs() == old(reg).spec_configs(),
{
    let configs = repo.get_rank_table_config_from_mysql();
    if !snapshot_well_formed(&configs) {
        return false;
    }
    reg.replace_all(configs, now_ms);
    true
}

/// A well-formed registry's configs carry one secret per tenant.
pub proof fn lemma_wf_implies_consistent(cfgs: Seq<ConfigV>, secs: Map<Seq<char>, Seq<char>>)
    requires
        registry_link(cfgs, secs),
    ensures
        cfgs_secret_consistent(cfgs),
{
}

/// Stripping scheduler handles keeps identities, secrets, and their
/// uniqueness and consistency.
pub proof fn lemma_strip_handles_preserves_shape(cfgs: Seq<ConfigV>)
    ensures
        cfgs_distinct_pairs(cfgs) ==> cfgs_distinct_pairs(
            cfgs.map_values(|c: ConfigV| strip_handle(c)),
        ),
        cfgs_secret_consistent(cfgs) ==> cfgs_secret_consistent(
            cfgs.map_values(|c: ConfigV| strip_handle(c)),
        ),
{
    let t = cfgs.map_values(|c: ConfigV| strip_handle(c));
    assert(forall|i: int| 0 <= i < t.len() ==> (#[trigger] t[i]).appid == cfgs[i].appid && t[i].rank_key
        == cfgs[i].rank_key && t[i].app_secret == cfgs[i].app_secret);
}

/// Replication converges: after one successful pull of a well-formed
/// master's snapshot, the replica holds the master's configs (handles
/// stripped), the master's secret map, and the master's version. With the
/// loop pulling every interval, the replica's version equals the
/// master's within one interval of its last mutation.
pub proof fn lemma_replication_converges(
    master_cfgs: Seq<ConfigV>,
    master_secs: Map<Seq<char>, Seq<char>>,
    replica_secs: Map<Seq<char>, Seq<char>>,
)
    requires
        registry_view_wf(master_cfgs, master_secs),
        registry_link(master_cfgs.map_values(|c: ConfigV| strip_handle(c)), replica_secs),
    ensures
        replica_secs =~= master_secs,
{
    let stripped = master_cfgs.map_values(|c: ConfigV| strip_handle(c));
    assert(forall|i: int|
        0 <= i < stripped.len() ==> (#[trigger] stripped[i]).appid == master_cfgs[i].appid
            && stripped[i].app_secret == master_cfgs[i].app_secret);
    assert(registry_link(stripped, master_secs)) by {
        assert forall|a: Seq<char>| #[trigger] master_secs.contains_key(a) implies
            crate::registry::cfgs_has_appid(stripped, a) by {
            let k = choose|k: int|
                0 <= k < master_cfgs.len() && (#[trigger] master_cfgs[k]).appid == a;
            assert(stripped[k].appid == a);
        }
    }
    lemma_secret_map_determined(stripped, replica_secs, master_secs);
}

} // verus!
