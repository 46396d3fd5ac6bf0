//! The in-memory configuration registry.
//!
//! One registry per process holds the active leaderboard configs, the
//! tenant secret map that the signing middleware reads on every request,
//! and the registry's version counter `update_time`. The registry keeps
//! three facts at all times: a `(appid, rank_key)` pair occurs at most
//! once; all configs of one tenant carry the same secret; and the secret
//! map holds exactly the tenants that have at least one config.

use vstd::prelude::*;
use crate::dto::RankTableConfig;

verus! {

/// Mathematical image of one leaderboard config.
pub struct ConfigV {
    pub appid: Seq<char>,
    pub rank_key: Seq<char>,
    pub app_secret: Seq<char>,
    pub cron_expression: Seq<char>,
    pub cron_uuid: Seq<char>,
}

impl View for RankTableConfig {
    type V = ConfigV;

    open spec fn view(&self) -> ConfigV {
        ConfigV {
            appid: self.appid@,
            rank_key: self.rank_key@,
            app_secret: self.app_secret@,
            cron_expression: self.cron_expression@,
            cron_uuid: self.cron_uuid@,
        }
    }
}

/// Whether config `c` is the leaderboard `(appid, rank_key)`.
pub open spec fn cfg_is_pair(c: ConfigV, appid: Seq<char>, rank_key: Seq<char>) -> bool {
    c.appid == appid && c.rank_key == rank_key
}

/// Whether some config is the leaderboard `(appid, rank_key)`.
pub open spec fn cfgs_has_pair(s: Seq<ConfigV>, appid: Seq<char>, rank_key: Seq<char>) -> bool {
    exists|i: int| 0 <= i < s.len() && cfg_is_pair(#[trigger] s[i], appid, rank_key)
}

/// The position of the leaderboard `(appid, rank_key)`; meaningful only
/// under `cfgs_has_pair` with distinct pairs.
pub open spec fn cfgs_index_of_pair(s: Seq<ConfigV>, appid: Seq<char>, rank_key: Seq<char>) -> int {
    choose|i: int| 0 <= i < s.len() && cfg_is_pair(#[trigger] s[i], appid, rank_key)
}

/// Whether some config belongs to tenant `appid`.
pub open spec fn cfgs_has_appid(s: Seq<ConfigV>, appid: Seq<char>) -> bool {
    exists|i: int| 0 <= i < s.len() && (#[trigger] s[i]).appid == appid
}

/// Whether a config of tenant `appid` exists at an index other than `at`.
pub open spec fn cfgs_has_other_with_appid(s: Seq<ConfigV>, appid: Seq<char>, at: int) -> bool {
    exists|i: int| 0 <= i < s.len() && i != at && (#[trigger] s[i]).appid == appid
}

/// No leaderboard identity occurs twice.
pub open spec fn cfgs_distinct_pairs(s: Seq<ConfigV>) -> bool {
    forall|i: int, j: int|
        0 <= i < j < s.len() ==> !((#[trigger] s[i]).appid == (#[trigger] s[j]).appid
            && s[i].rank_key == s[j].rank_key)
}

/// Every config's tenant has a registered secret, the one the config
/// carries.
pub open spec fn configs_secret_covered(cfgs: Seq<ConfigV>, secs: Map<Seq<char>, Seq<char>>) -> bool {
    forall|i: int|
        0 <= i < cfgs.len() ==> secs.contains_key((#[trigger] cfgs[i]).appid) && secs[cfgs[i].appid]
            == cfgs[i].app_secret
}

/// The secret map holds exactly the tenants of `cfgs`, each with the
/// secret its configs carry.
pub open spec fn registry_link(cfgs: Seq<ConfigV>, secs: Map<Seq<char>, Seq<char>>) -> bool {
    &&& forall|a: Seq<char>| #[trigger] secs.contains_key(a) ==> cfgs_has_appid(cfgs, a)
    &&& configs_secret_covered(cfgs, secs)
}

/// Well-formedness of a registry state.
pub open spec fn registry_view_wf(cfgs: Seq<ConfigV>, secs: Map<Seq<char>, Seq<char>>) -> bool {
    cfgs_distinct_pairs(cfgs) && registry_link(cfgs, secs)
}

/// With distinct pairs, every config of the pair sits at
/// `cfgs_index_of_pair`.
pub proof fn lemma_pair_index_unique(s: Seq<ConfigV>, appid: Seq<char>, rank_key: Seq<char>, i: int)
    requires
        cfgs_distinct_pairs(s),
        0 <= i < s.len(),
        cfg_is_pair(s[i], appid, rank_key),
    ensures
        cfgs_index_of_pair(s, appid, rank_key) == i,
        cfgs_has_pair(s, appid, rank_key),
{
    let j = cfgs_index_of_pair(s, appid, rank_key);
    assert(0 <= j < s.len() && cfg_is_pair(s[j], appid, rank_key));
}

/// One tenant's entry of the secret store.
#[derive(Debug, Clone)]
pub struct SecretEntry {
    pub appid: String,
    pub secret: String,
}

/// Whether the store holds a secret for tenant `a`.
pub open spec fn sec_has(s: Seq<SecretEntry>, a: Seq<char>) -> bool {
    exists|i: int| 0 <= i < s.len() && (#[trigger] s[i]).appid@ == a
}

/// The stored secret of tenant `a`; meaningful only under `sec_has` with
/// distinct keys.
pub open spec fn sec_at(s: Seq<SecretEntry>, a: Seq<char>) -> Seq<char> {
    s[choose|i: int| 0 <= i < s.len() && (#[trigger] s[i]).appid@ == a].secret@
}

/// No tenant occurs twice in the secret store.
pub open spec fn sec_distinct(s: Seq<SecretEntry>) -> bool {
    forall|i: int, j: int|
        0 <= i < j < s.len() ==> (#[trigger] s[i]).appid@ != (#[trigger] s[j]).appid@
}

/// The secret store as a map from tenant to secret.
pub open spec fn sec_map(s: Seq<SecretEntry>) -> Map<Seq<char>, Seq<char>> {
    Map::new(|a: Seq<char>| sec_has(s, a), |a: Seq<char>| sec_at(s, a))
}

/// With distinct keys, every entry of tenant `a` holds its stored secret.
proof fn lemma_sec_index_unique(s: Seq<SecretEntry>, a: Seq<char>, i: int)
    requires
        sec_distinct(s),
        0 <= i < s.len(),
        s[i].appid@ == a,
    ensures
        sec_has(s, a),
        sec_at(s, a) == s[i].secret@,
{
    let j = choose|j: int| 0 <= j < s.len() && (#[trigger] s[j]).appid@ == a;
    assert(0 <= j < s.len() && s[j].appid@ == a);
}

/// The process-wide registry of active leaderboards and tenant secrets.
#[derive(Debug)]
pub struct ConfigRegistry {
    configs: Vec<RankTableConfig>,
    secrets: Vec<SecretEntry>,
    update_time: u64,
}

impl ConfigRegistry {
    /// The configs as mathematical values.
    pub closed spec fn spec_configs(&self) -> Seq<ConfigV> {
        self.configs@.map_values(|c: RankTableConfig| c@)
    }

    /// The secret map as a mathematical map.
    pub closed spec fn secret_map(&self) -> Map<Seq<char>, Seq<char>> {
        sec_map(self.secrets@)
    }

    /// The registry's version counter.
    pub closed spec fn spec_update_time(&self) -> u64 {
        self.update_time
    }

    /// Invariant of every registry value. Callers recover it with
    /// `use_type_invariant`.
    #[verifier::type_invariant]
    pub open spec fn type_inv(self) -> bool {
        registry_view_wf(self.spec_configs(), self.secret_map()) && sec_distinct(self.secrets_seq())
    }

    /// The raw secret store; exposed only for the invariant.
    pub closed spec fn secrets_seq(&self) -> Seq<SecretEntry> {
        self.secrets@
    }

    /// An empty registry at version 0.
    pub fn new() -> (r: ConfigRegistry)
        ensures
            r.spec_configs() == Seq::<ConfigV>::empty(),
            r.secret_map() == Map::<Seq<char>, Seq<char>>::empty(),
            r.spec_update_time() == 0,
    {
        let r = ConfigRegistry { configs: Vec::new(), secrets: Vec::new(), update_time: 0 };
        proof {
            assert(r.spec_configs() =~= Seq::<ConfigV>::empty());
            assert(r.secret_map() =~= Map::<Seq<char>, Seq<char>>::empty());
        }
        r
    }

    /// Number of active configs.
    pub fn len(&self) -> (n: usize)
        ensures
            n == self.spec_configs().len(),
    {
        self.configs.len()
    }

    /// The registry's version counter.
    pub fn get_update_time(&self) -> (t: u64)
        ensures
            t == self.spec_update_time(),
    {
        self.update_time
    }

    /// A snapshot copy of the active configs.
    pub fn list_configs(&self) -> (r: Vec<RankTableConfig>)
        ensures
            r@.map_values(|c: RankTableConfig| c@) == self.spec_configs(),
    {
        let n = self.configs.len();
        let mut r: Vec<RankTableConfig> = Vec::new();
        let mut i: usize = 0;
        while i < n
            invariant
                i <= n,
                n == self.configs@.len(),
                r@.len() == i,
                forall|k: int| 0 <= k < i ==> #[trigger] r@[k]@ == self.configs@[k]@,
            decreases n - i,
        {
            r.push(self.configs[i].duplicate());
            i = i + 1;
        }
        proof {
            assert(r@.map_values(|c: RankTableConfig| c@) =~= self.spec_configs());
        }
        r
    }

    /// The secret of tenant `appid`, present iff the tenant has at least
    /// one active config.
    pub fn get_secret(&self, appid: &String) -> (r: Option<String>)
        ensures
            r is Some <==> self.secret_map().contains_key(appid@),
            r matches Some(s) ==> s@ == self.secret_map()[appid@],
    {
        proof {
            use_type_invariant(&*self);
        }
        match self.find_secret(appid) {
            Some(i) => {
                proof {
                    lemma_sec_index_unique(self.secrets@, appid@, i as int);
                }
                Some(self.secrets[i].secret.clone())
            },
            None => None,
        }
    }

    /// Position of the config of `(appid, rank_key)`, if any.
    fn find_pair(&self, appid: &String, rank_key: &String) -> (r: Option<usize>)
        ensures
            match r {
                Some(i) => i < self.spec_configs().len() && cfg_is_pair(
                    self.spec_configs()[i as int],
                    appid@,
                    rank_key@,
                ),
                None => !cfgs_has_pair(self.spec_configs(), appid@, rank_key@),
            },
    {
        let n = self.configs.len();
        let mut i: usize = 0;
        while i < n
            invariant
                i <= n,
                n == self.configs@.len(),
                forall|k: int|
                    0 <= k < i ==> !cfg_is_pair(#[trigger] self.spec_configs()[k], appid@, rank_key@),
            decreases n - i,
        {
            if self.configs[i].appid == *appid && self.configs[i].rank_key == *rank_key {
                assert(cfg_is_pair(self.spec_configs()[i as int], appid@, rank_key@));
                return Some(i);
            }
            assert(!cfg_is_pair(self.spec_configs()[i as int], appid@, rank_key@));
            i = i + 1;
        }
        None
    }

    /// Position of tenant `appid`'s secret entry, if any.
    fn find_secret(&self, appid: &String) -> (r: Option<usize>)
        ensures
            match r {
                Some(i) => i < self.secrets_seq().len() && self.secrets_seq()[i as int].appid@
                    == appid@,
                None => !sec_has(self.secrets_seq(), appid@),
            },
    {
        find_secret_in(&self.secrets, appid)
    }

    /// Whether a config of tenant `appid` exists away from index `skip`.
    fn another_config_with_appid(&self, appid: &String, skip: usize) -> (b: bool)
        ensures
            b == cfgs_has_other_with_appid(self.spec_configs(), appid@, skip as int),
    {
        let n = self.configs.len();
        let mut j: usize = 0;
        while j < n
            invariant
                j <= n,
                n == self.configs@.len(),
                forall|k: int|
                    0 <= k < j && k != skip ==> (#[trigger] self.spec_configs()[k]).appid != appid@,
            decreases n - j,
        {
            if j != skip && self.configs[j].appid == *appid {
                assert(self.spec_configs()[j as int].appid == appid@);
                return true;
            }
            assert(j == skip || self.spec_configs()[j as int].appid != appid@);
            j = j + 1;
        }
        proof {
            if cfgs_has_other_with_appid(self.spec_configs(), appid@, skip as int) {
                let w = choose|w: int|
                    0 <= w < self.spec_configs().len() && w != skip as int && (
                    #[trigger] self.spec_configs()[w]).appid == appid@;
            }
        }
        false
    }

    /// Whether the leaderboard `(appid, rank_key)` is configured.
    pub fn has_config(&self, appid: &String, rank_key: &String) -> (b: bool)
        ensures
            b == cfgs_has_pair(self.spec_configs(), appid@, rank_key@),
    {
        self.find_pair(appid, rank_key).is_some()
    }

    /// Adds a new leaderboard config and registers its tenant secret.
    /// The caller has already checked that the identity is free and that
    /// the secret agrees with the tenant's registered one.
    pub fn insert_config(&mut self, c: RankTableConfig)
        requires
            !cfgs_has_pair(old(self).spec_configs(), c@.appid, c@.rank_key),
            old(self).secret_map().contains_key(c@.appid) ==> old(self).secret_map()[c@.appid]
                == c@.app_secret,
        ensures
            final (self).spec_configs() == old(self).spec_configs().push(c@),
            final (self).secret_map() == old(self).secret_map().insert(c@.appid, c@.app_secret),
            final (self).spec_update_time() == old(self).spec_update_time(),
    {
        proof {
            use_type_invariant(&*self);
        }
        let ghost pre_cfgs = self.spec_configs();
        let ghost pre_secs = self.secret_map();
        let ghost cv = c@;
        let has_secret = match self.find_secret(&c.appid) {
            Some(i) => {
                proof {
                    lemma_sec_index_unique(self.secrets@, cv.appid, i as int);
                }
                true
            },
            None => false,
        };
        let mut tmp = ConfigRegistry { configs: Vec::new(), secrets: Vec::new(), update_time: 0 };
        proof {
            assert(tmp.spec_configs() =~= Seq::<ConfigV>::empty());
        }
        std::mem::swap(&mut tmp, self);
        let ConfigRegistry { configs: mut v, secrets: mut sv, update_time: t } = tmp;
        if !has_secret {
            let entry = SecretEntry { appid: c.appid.clone(), secret: c.app_secret.clone() };
            let ghost ge = entry;
            proof {
                lemma_sec_push(sv@, ge);
            }
            sv.push(entry);
        }
        proof {
            assert(sec_map(sv@) =~= pre_secs.insert(cv.appid, cv.app_secret));
        }
        v.push(c);
        proof {
            let new_cfgs = v@.map_values(|x: RankTableConfig| x@);
            assert(new_cfgs =~= pre_cfgs.push(cv));
            lemma_cfgs_push_wf(pre_cfgs, cv);
            let m = sec_map(sv@);
            assert forall|a: Seq<char>| #[trigger] m.contains_key(a) implies cfgs_has_appid(
                new_cfgs,
                a,
            ) by {
                if a == cv.appid {
                    assert(new_cfgs[pre_cfgs.len() as int].appid == a);
                } else {
                    assert(pre_secs.contains_key(a));
                    let k = choose|k: int|
                        0 <= k < pre_cfgs.len() && (#[trigger] pre_cfgs[k]).appid == a;
                    assert(new_cfgs[k].appid == a);
                }
            }
            assert forall|ix: int| 0 <= ix < new_cfgs.len() implies m.contains_key(
                (#[trigger] new_cfgs[ix]).appid,
            ) && m[new_cfgs[ix].appid] == new_cfgs[ix].app_secret by {
                if ix < pre_cfgs.len() {
                    assert(new_cfgs[ix] == pre_cfgs[ix]);
                }
            }
        }
        *self = ConfigRegistry { configs: v, secrets: sv, update_time: t };
        proof {
            assert(self.spec_configs() =~= pre_cfgs.push(cv));
        }
    }

    /// Removes the config of `(appid, rank_key)` and, when it was the
    /// tenant's last leaderboard, the tenant's secret. Returns the removed
    /// config, or `None` when no such leaderboard is configured.
    pub fn remove_config(&mut self, appid: &String, rank_key: &String) -> (r: Option<
        RankTableConfig,
    >)
        ensures
            r is None <==> !cfgs_has_pair(old(self).spec_configs(), appid@, rank_key@),
            r is None ==> final (self).spec_configs() == old(self).spec_configs(),
            r is None ==> final (self).secret_map() == old(self).secret_map(),
            r matches Some(c) ==> {
                let i = cfgs_index_of_pair(old(self).spec_configs(), appid@, rank_key@);
                &&& c@ == old(self).spec_configs()[i]
                &&& final (self).spec_configs() == old(self).spec_configs().remove(i)
                &&& final (self).secret_map() == (if cfgs_has_other_with_appid(
                    old(self).spec_configs(),
                    appid@,
                    i,
                ) {
                    old(self).secret_map()
                } else {
                    old(self).secret_map().remove(appid@)
                })
            },
            final (self).spec_update_time() == old(self).spec_update_time(),
    {
        proof {
            use_type_invariant(&*self);
        }
        let ghost pre_cfgs = self.spec_configs();
        let ghost pre_secs = self.secret_map();
        let found = self.find_pair(appid, rank_key);
        let i = match found {
            None => {
                return None;
            },
            Some(i) => i,
        };
        proof {
            lemma_pair_index_unique(pre_cfgs, appid@, rank_key@, i as int);
        }
        let other_remain = self.another_config_with_appid(appid, i);
        let sidx: Option<usize> = if other_remain {
            None
        } else {
            self.find_secret(appid)
        };
        proof {
            if !other_remain {
                assert(pre_secs.contains_key(pre_cfgs[i as int].appid));
                assert(sec_has(self.secrets_seq(), appid@));
                assert(sidx is Some);
            }
        }
        let mut tmp = ConfigRegistry { configs: Vec::new(), secrets: Vec::new(), update_time: 0 };
        proof {
            assert(tmp.spec_configs() =~= Seq::<ConfigV>::empty());
        }
        std::mem::swap(&mut tmp, self);
        let ConfigRegistry { configs: mut v, secrets: mut sv, update_time: t } = tmp;
        let removed = v.remove(i);
        proof {
            let mid_cfgs = v@.map_values(|x: RankTableConfig| x@);
            assert(mid_cfgs =~= pre_cfgs.remove(i as int));
            lemma_cfgs_remove_wf(pre_cfgs, i as int);
        }
        if !other_remain {
            let si = match sidx {
                Some(si) => si,
                None => {
                    proof {
                        assert(false);
                    }
                    0
                },
            };
            proof {
                lemma_sec_remove(sv@, si as int);
            }
            sv.remove(si);
            proof {
                assert(sec_map(sv@) =~= pre_secs.remove(appid@));
            }
        }
        proof {
            let mid_cfgs = v@.map_values(|x: RankTableConfig| x@);
            let m = sec_map(sv@);
            if other_remain {
                assert(m == pre_secs);
                assert forall|a: Seq<char>| #[trigger] m.contains_key(a) implies cfgs_has_appid(
                    mid_cfgs,
                    a,
                ) by {
                    let k = choose|k: int|
                        0 <= k < pre_cfgs.len() && (#[trigger] pre_cfgs[k]).appid == a;
                    if k != i {
                        lemma_cfgs_remove_keeps_index(pre_cfgs, i as int, k);
                        assert(mid_cfgs =~= pre_cfgs.remove(i as int));
                    } else {
                        let w = choose|w: int|
                            0 <= w < pre_cfgs.len() && w != i && (#[trigger] pre_cfgs[w]).appid
                                == appid@;
                        lemma_cfgs_remove_keeps_index(pre_cfgs, i as int, w);
                        assert(mid_cfgs =~= pre_cfgs.remove(i as int));
                    }
                }
            } else {
                assert(m =~= pre_secs.remove(appid@));
                assert forall|a: Seq<char>| #[trigger] m.contains_key(a) implies cfgs_has_appid(
                    mid_cfgs,
                    a,
                ) by {
                    assert(pre_secs.contains_key(a) && a != appid@);
                    let k = choose|k: int|
                        0 <= k < pre_cfgs.len() && (#[trigger] pre_cfgs[k]).appid == a;
                    lemma_cfgs_remove_keeps_index(pre_cfgs, i as int, k);
                    assert(mid_cfgs =~= pre_cfgs.remove(i as int));
                }
            }
            assert forall|ix: int| 0 <= ix < mid_cfgs.len() implies m.contains_key(
                (#[trigger] mid_cfgs[ix]).appid,
            ) && m[mid_cfgs[ix].appid] == mid_cfgs[ix].app_secret by {
                let src = if ix < i as int {
                    ix
                } else {
                    ix + 1
                };
                assert(mid_cfgs =~= pre_cfgs.remove(i as int));
                assert(mid_cfgs[ix] == pre_cfgs[src]);
                if !other_remain {
                    assert(pre_cfgs[src].appid != appid@);
                }
            }
        }
        *self = ConfigRegistry { configs: v, secrets: sv, update_time: t };
        proof {
            assert(self.spec_configs() =~= pre_cfgs.remove(i as int));
        }
        Some(removed)
    }

    /// Moves the version counter strictly forward: to the wall clock when
    /// it is ahead, else one step past the old value.
    pub fn bump_update_time(&mut self, now_ms: u64)
        requires
            old(self).spec_update_time() < u64::MAX,
        ensures
            final (self).spec_update_time() == (if now_ms > old(self).spec_update_time() {
                now_ms
            } else {
                (old(self).spec_update_time() + 1) as u64
            }),
            final (self).spec_update_time() > old(self).spec_update_time(),
            final (self).spec_configs() == old(self).spec_configs(),
            final (self).secret_map() == old(self).secret_map(),
    {
        proof {
            use_type_invariant(&*self);
        }
        if now_ms > self.update_time {
            self.update_time = now_ms;
        } else {
            self.update_time = self.update_time + 1;
        }
    }

    /// Sets the version counter to a value received from the master.
    pub fn set_update_time(&mut self, t: u64)
        ensures
            final (self).spec_update_time() == t,
            final (self).spec_configs() == old(self).spec_configs(),
            final (self).secret_map() == old(self).secret_map(),
    {
        proof {
            use_type_invariant(&*self);
        }
        self.update_time = t;
    }

    /// Records the scheduler handle of one leaderboard's reset job on its
    /// registry entry; an unknown identity changes nothing.
    pub fn update_sched_uuid(&mut self, uuid: &String, appid: &String, rank_key: &String)
        ensures
            !cfgs_has_pair(old(self).spec_configs(), appid@, rank_key@) ==> final (
            self).spec_configs() == old(self).spec_configs(),
            cfgs_has_pair(old(self).spec_configs(), appid@, rank_key@) ==> ({
                let i = cfgs_index_of_pair(old(self).spec_configs(), appid@, rank_key@);
                let c = old(self).spec_configs()[i];
                final (self).spec_configs() == old(self).spec_configs().update(
                    i,
                    ConfigV {
                        appid: c.appid,
                        rank_key: c.rank_key,
                        app_secret: c.app_secret,
                        cron_expression: c.cron_expression,
                        cron_uuid: uuid@,
                    },
                )
            }),
            final (self).secret_map() == old(self).secret_map(),
            final (self).spec_update_time() == old(self).spec_update_time(),
    {
        proof {
            use_type_invariant(&*self);
        }
        let ghost pre_cfgs = self.spec_configs();
        let ghost pre_secs = self.secret_map();
        let i = match self.find_pair(appid, rank_key) {
            None => {
                return ;
            },
            Some(i) => i,
        };
        proof {
            lemma_pair_index_unique(pre_cfgs, appid@, rank_key@, i as int);
        }
        let mut tmp = ConfigRegistry { configs: Vec::new(), secrets: Vec::new(), update_time: 0 };
        std::mem::swap(&mut tmp, self);
        let ConfigRegistry { configs: mut v, secrets: sv, update_time: t } = tmp;
        let mut entry = v.remove(i);
        entry.cron_uuid = uuid.clone();
        let ghost ge = entry;
        v.insert(i, entry);
        proof {
            let new_cfgs = v@.map_values(|c: RankTableConfig| c@);
            assert(new_cfgs =~= pre_cfgs.update(i as int, ge@));
            assert forall|a: int, b: int| 0 <= a < b < new_cfgs.len() implies !((
            #[trigger] new_cfgs[a]).appid == (#[trigger] new_cfgs[b]).appid && new_cfgs[a].rank_key
                == new_cfgs[b].rank_key) by {
                assert(new_cfgs[a] == if a == i as int {
                    ge@
                } else {
                    pre_cfgs[a]
                });
                assert(new_cfgs[b] == if b == i as int {
                    ge@
                } else {
                    pre_cfgs[b]
                });
            }
            assert forall|a: Seq<char>| #[trigger] pre_secs.contains_key(a) implies cfgs_has_appid(
                new_cfgs,
                a,
            ) by {
                let k = choose|k: int| 0 <= k < pre_cfgs.len() && (#[trigger] pre_cfgs[k]).appid == a;
                assert(new_cfgs[k].appid == a);
            }
            assert forall|ix: int| 0 <= ix < new_cfgs.len() implies pre_secs.contains_key(
                (#[trigger] new_cfgs[ix]).appid,
            ) && pre_secs[new_cfgs[ix].appid] == new_cfgs[ix].app_secret by {
                assert(new_cfgs[ix].appid == pre_cfgs[ix].appid && new_cfgs[ix].app_secret
                    == pre_cfgs[ix].app_secret);
            }
        }
        *self = ConfigRegistry { configs: v, secrets: sv, update_time: t };
    }

    /// Replaces the whole configuration with a snapshot and rebuilds the
    /// secret map from it; used only by replication. Afterwards the
    /// registry holds exactly the snapshot, at version `new_time`.
    pub fn replace_all(&mut self, list: Vec<RankTableConfig>, new_time: u64)
        requires
            cfgs_distinct_pairs(list@.map_values(|c: RankTableConfig| c@)),
            cfgs_secret_consistent(list@.map_values(|c: RankTableConfig| c@)),
        ensures
            final (self).spec_configs() == list@.map_values(|c: RankTableConfig| c@),
            registry_link(final (self).spec_configs(), final (self).secret_map()),
            final (self).spec_update_time() == new_time,
    {
        let ghost lv = list@.map_values(|c: RankTableConfig| c@);
        let n = list.len();
        let mut sv: Vec<SecretEntry> = Vec::new();
        let mut idx: usize = 0;
        while idx < n
            invariant
                idx <= n,
                n == list@.len(),
                lv == list@.map_values(|c: RankTableConfig| c@),
                cfgs_secret_consistent(lv),
                sec_distinct(sv@),
                forall|a: Seq<char>|
                    #[trigger] sec_has(sv@, a) ==> exists|k: int|
                        0 <= k < idx && (#[trigger] lv[k]).appid == a && lv[k].app_secret == sec_at(
                            sv@,
                            a,
                        ),
                forall|k: int| 0 <= k < idx ==> sec_has(sv@, (#[trigger] lv[k]).appid),
            decreases n - idx,
        {
            let ghost pre_sv = sv@;
            if find_secret_in(&sv, &list[idx].appid).is_none() {
                let entry = SecretEntry {
                    appid: list[idx].appid.clone(),
                    secret: list[idx].app_secret.clone(),
                };
                let ghost ge = entry;
                proof {
                    lemma_sec_push(pre_sv, ge);
                }
                sv.push(entry);
                proof {
                    assert(sec_map(sv@) =~= sec_map(pre_sv).insert(ge.appid@, ge.secret@));
                    assert(sv@[sv@.len() - 1].appid@ == lv[idx as int].appid);
                    lemma_sec_index_unique(sv@, lv[idx as int].appid, sv@.len() - 1);
                    assert forall|a: Seq<char>| #[trigger] sec_has(sv@, a) implies exists|k: int|
                        0 <= k < idx + 1 && (#[trigger] lv[k]).appid == a && lv[k].app_secret
                            == sec_at(sv@, a) by {
                        if a == ge.appid@ {
                            assert(lv[idx as int].appid == a && lv[idx as int].app_secret == sec_at(
                                sv@,
                                a,
                            ));
                        } else {
                            assert(sec_map(sv@)[a] == sec_map(pre_sv)[a]);
                            assert(sec_has(pre_sv, a));
                            let k = choose|k: int|
                                0 <= k < idx && (#[trigger] lv[k]).appid == a && lv[k].app_secret
                                    == sec_at(pre_sv, a);
                            assert(sec_at(sv@, a) == sec_map(sv@)[a]);
                            assert(sec_at(pre_sv, a) == sec_map(pre_sv)[a]);
                            assert(lv[k].appid == a && lv[k].app_secret == sec_at(sv@, a));
                        }
                    }
                    assert forall|k: int| 0 <= k < idx + 1 implies sec_has(
                        sv@,
                        (#[trigger] lv[k]).appid,
                    ) by {
                        if k < idx {
                            assert(sec_has(pre_sv, lv[k].appid));
                            assert(sec_map(sv@).contains_key(lv[k].appid));
                        }
                    }
                }
            } else {
                proof {
                    assert(sec_has(sv@, lv[idx as int].appid));
                }
            }
            idx = idx + 1;
        }
        *self = ConfigRegistry { configs: list, secrets: sv, update_time: new_time };
        proof {
            let m = sec_map(sv@);
            assert forall|a: Seq<char>| #[trigger] m.contains_key(a) implies cfgs_has_appid(lv, a)
                by {
                assert(sec_has(sv@, a));
                let k = choose|k: int|
                    0 <= k < n && (#[trigger] lv[k]).appid == a && lv[k].app_secret == sec_at(
                        sv@,
                        a,
                    );
            }
            assert forall|k: int| 0 <= k < lv.len() implies m.contains_key(
                (#[trigger] lv[k]).appid,
            ) && m[lv[k].appid] == lv[k].app_secret by {
                assert(sec_has(sv@, lv[k].appid));
                let w = choose|w: int|
                    0 <= w < n && (#[trigger] lv[w]).appid == lv[k].appid && lv[w].app_secret
                        == sec_at(sv@, lv[k].appid);
                assert(lv[w].app_secret == lv[k].app_secret);
            }
        }
    }
}

/// Position of tenant `appid`'s entry in a secret store, if any.
fn find_secret_in(sv: &Vec<SecretEntry>, appid: &String) -> (r: Option<usize>)
    ensures
        match r {
            Some(i) => i < sv@.len() && sv@[i as int].appid@ == appid@,
            None => !sec_has(sv@, appid@),
        },
{
    let n = sv.len();
    let mut i: usize = 0;
    while i < n
        invariant
            i <= n,
            n == sv@.len(),
            forall|k: int| 0 <= k < i ==> (#[trigger] sv@[k]).appid@ != appid@,
        decreases n - i,
    {
        if sv[i].appid == *appid {
            return Some(i);
        }
        i = i + 1;
    }
    None
}

/// All configs of one tenant carry the same secret.
pub open spec fn cfgs_secret_consistent(s: Seq<ConfigV>) -> bool {
    forall|i: int, j: int|
        0 <= i < s.len() && 0 <= j < s.len() && (#[trigger] s[i]).appid == (#[trigger] s[j]).appid
            ==> s[i].app_secret == s[j].app_secret
}

/// The registry transition of adding one config.
pub open spec fn spec_insert_config(
    cfgs: Seq<ConfigV>,
    secs: Map<Seq<char>, Seq<char>>,
    c: ConfigV,
) -> (Seq<ConfigV>, Map<Seq<char>, Seq<char>>) {
    (cfgs.push(c), secs.insert(c.appid, c.app_secret))
}

/// The registry transition of removing the config of `(appid, rank_key)`:
/// the config goes, and with it the tenant's secret when no other config
/// shares the tenant.
pub open spec fn spec_remove_config(
    cfgs: Seq<ConfigV>,
    secs: Map<Seq<char>, Seq<char>>,
    appid: Seq<char>,
    rank_key: Seq<char>,
) -> (Seq<ConfigV>, Map<Seq<char>, Seq<char>>) {
    if !cfgs_has_pair(cfgs, appid, rank_key) {
        (cfgs, secs)
    } else {
        let i = cfgs_index_of_pair(cfgs, appid, rank_key);
        (
            cfgs.remove(i),
            if cfgs_has_other_with_appid(cfgs, appid, i) {
                secs
            } else {
                secs.remove(appid)
            },
        )
    }
}

/// A successful add followed by a delete of the same leaderboard restores
/// the registry: the config list and the secret map are as before, and a
/// tenant that had no other leaderboard is left without a secret.
pub proof fn lemma_add_then_delete_restores(
    cfgs: Seq<ConfigV>,
    secs: Map<Seq<char>, Seq<char>>,
    c: ConfigV,
)
    requires
        registry_view_wf(cfgs, secs),
        !cfgs_has_pair(cfgs, c.appid, c.rank_key),
        secs.contains_key(c.appid) ==> secs[c.appid] == c.app_secret,
    ensures
        ({
            let (cfgs1, secs1) = spec_insert_config(cfgs, secs, c);
            let (cfgs2, secs2) = spec_remove_config(cfgs1, secs1, c.appid, c.rank_key);
            &&& cfgs2 =~= cfgs
            &&& secs2 =~= secs
            &&& !cfgs_has_appid(cfgs, c.appid) ==> !secs2.contains_key(c.appid)
        }),
{
    let cfgs1 = cfgs.push(c);
    let secs1 = secs.insert(c.appid, c.app_secret);
    let at = cfgs.len() as int;
    assert(cfg_is_pair(cfgs1[at], c.appid, c.rank_key));
    lemma_cfgs_push_wf(cfgs, c);
    lemma_pair_index_unique(cfgs1, c.appid, c.rank_key, at);
    assert(cfgs_has_pair(cfgs1, c.appid, c.rank_key));
    let i = cfgs_index_of_pair(cfgs1, c.appid, c.rank_key);
    assert(i == at);
    assert(cfgs1.remove(i) =~= cfgs);
    if cfgs_has_other_with_appid(cfgs1, c.appid, i) {
        let w = choose|w: int|
            0 <= w < cfgs1.len() && w != i && (#[trigger] cfgs1[w]).appid == c.appid;
        assert(cfgs1[w] == cfgs[w]);
        assert(secs.contains_key(c.appid) && secs[c.appid] == cfgs[w].app_secret);
        assert(secs1 =~= secs);
        assert(cfgs_has_appid(cfgs, c.appid));
    } else {
        if secs.contains_key(c.appid) {
            let k = choose|k: int| 0 <= k < cfgs.len() && (#[trigger] cfgs[k]).appid == c.appid;
            assert(cfgs1[k].appid == c.appid && k != i);
            assert(false);
        }
        assert(secs1.remove(c.appid) =~= secs);
        if cfgs_has_appid(cfgs, c.appid) {
            let k = choose|k: int| 0 <= k < cfgs.len() && (#[trigger] cfgs[k]).appid == c.appid;
            assert(cfgs1[k].appid == c.appid && k != i);
            assert(false);
        }
    }
}

/// Two secret maps linked to the same config list agree everywhere: the
/// configs determine the secrets.
pub proof fn lemma_secret_map_determined(
    cfgs: Seq<ConfigV>,
    m1: Map<Seq<char>, Seq<char>>,
    m2: Map<Seq<char>, Seq<char>>,
)
    requires
        registry_link(cfgs, m1),
        registry_link(cfgs, m2),
    ensures
        m1 =~= m2,
{
    assert forall|a: Seq<char>| #[trigger] m1.contains_key(a) implies m2.contains_key(a) && m1[a]
        == m2[a] by {
        let k = choose|k: int| 0 <= k < cfgs.len() && (#[trigger] cfgs[k]).appid == a;
        assert(m1[a] == cfgs[k].app_secret && m2[a] == cfgs[k].app_secret);
    }
    assert forall|a: Seq<char>| #[trigger] m2.contains_key(a) implies m1.contains_key(a) by {
        let k = choose|k: int| 0 <= k < cfgs.len() && (#[trigger] cfgs[k]).appid == a;
    }
}

/// Pushing a tenant not yet present extends the secret map by its entry.
proof fn lemma_sec_push(s: Seq<SecretEntry>, e: SecretEntry)
    requires
        sec_distinct(s),
        !sec_has(s, e.appid@),
    ensures
        sec_distinct(s.push(e)),
        sec_map(s.push(e)) =~= sec_map(s).insert(e.appid@, e.secret@),
{
    let t = s.push(e);
    assert forall|a: int, b: int| 0 <= a < b < t.len() implies (#[trigger] t[a]).appid@ != (
    #[trigger] t[b]).appid@ by {
        if b < s.len() {
            assert(t[a] == s[a] && t[b] == s[b]);
        } else {
            assert(t[b] == e);
            assert(t[a] == s[a]);
        }
    }
    assert forall|a: Seq<char>| #[trigger] sec_has(t, a) implies sec_has(s, a) || a == e.appid@ by {
        let k = choose|k: int| 0 <= k < t.len() && (#[trigger] t[k]).appid@ == a;
        if k < s.len() {
            assert(s[k].appid@ == a);
        }
    }
    assert forall|a: Seq<char>| #[trigger] sec_has(s, a) implies sec_has(t, a) by {
        let k = choose|k: int| 0 <= k < s.len() && (#[trigger] s[k]).appid@ == a;
        assert(t[k].appid@ == a);
    }
    assert(t[s.len() as int].appid@ == e.appid@);
    assert forall|a: Seq<char>| #[trigger] sec_has(t, a) implies sec_at(t, a) == sec_map(s).insert(
        e.appid@,
        e.secret@,
    )[a] by {
        let k = choose|k: int| 0 <= k < t.len() && (#[trigger] t[k]).appid@ == a;
        lemma_sec_index_unique(t, a, k);
        if a == e.appid@ {
            if k < s.len() {
                assert(sec_has(s, a));
            }
            assert(t[k].secret@ == e.secret@);
        } else {
            assert(k < s.len());
            lemma_sec_index_unique(s, a, k);
        }
    }
}

/// Removing a tenant's entry shrinks the secret map by its key.
proof fn lemma_sec_remove(s: Seq<SecretEntry>, i: int)
    requires
        sec_distinct(s),
        0 <= i < s.len(),
    ensures
        sec_distinct(s.remove(i)),
        sec_map(s.remove(i)) =~= sec_map(s).remove(s[i].appid@),
{
    let t = s.remove(i);
    assert forall|a: int, b: int| 0 <= a < b < t.len() implies (#[trigger] t[a]).appid@ != (
    #[trigger] t[b]).appid@ by {
        let sa = if a < i {
            a
        } else {
            a + 1
        };
        let sb = if b < i {
            b
        } else {
            b + 1
        };
        assert(t[a] == s[sa] && t[b] == s[sb]);
    }
    assert forall|a: Seq<char>| #[trigger] sec_has(t, a) implies sec_has(s, a) && a != s[i].appid@
        by {
        let k = choose|k: int| 0 <= k < t.len() && (#[trigger] t[k]).appid@ == a;
        let sk = if k < i {
            k
        } else {
            k + 1
        };
        assert(t[k] == s[sk]);
        assert(s[sk].appid@ == a);
    }
    assert forall|a: Seq<char>| #[trigger] sec_has(s, a) && a != s[i].appid@ implies sec_has(t, a)
        by {
        let k = choose|k: int| 0 <= k < s.len() && (#[trigger] s[k]).appid@ == a;
        if k < i {
            assert(t[k].appid@ == a);
        } else {
            assert(t[k - 1].appid@ == a);
        }
    }
    assert forall|a: Seq<char>| #[trigger] sec_has(t, a) implies sec_at(t, a) == sec_at(s, a) by {
        let k = choose|k: int| 0 <= k < t.len() && (#[trigger] t[k]).appid@ == a;
        lemma_sec_index_unique(t, a, k);
        let sk = if k < i {
            k
        } else {
            k + 1
        };
        assert(t[k] == s[sk]);
        lemma_sec_index_unique(s, a, sk);
    }
}

/// Appending a fresh identity keeps the pairs distinct.
pub proof fn lemma_cfgs_push_wf(s: Seq<ConfigV>, c: ConfigV)
    requires
        cfgs_distinct_pairs(s),
        !cfgs_has_pair(s, c.appid, c.rank_key),
    ensures
        cfgs_distinct_pairs(s.push(c)),
{
    let t = s.push(c);
    assert forall|a: int, b: int| 0 <= a < b < t.len() implies !((#[trigger] t[a]).appid == (
    #[trigger] t[b]).appid && t[a].rank_key == t[b].rank_key) by {
        if b < s.len() {
            assert(t[a] == s[a] && t[b] == s[b]);
        } else {
            assert(t[a] == s[a] && t[b] == c);
            if t[a].appid == c.appid && t[a].rank_key == c.rank_key {
                assert(cfg_is_pair(s[a], c.appid, c.rank_key));
            }
        }
    }
}

/// Removal keeps the pairs distinct.
pub proof fn lemma_cfgs_remove_wf(s: Seq<ConfigV>, i: int)
    requires
        cfgs_distinct_pairs(s),
        0 <= i < s.len(),
    ensures
        cfgs_distinct_pairs(s.remove(i)),
{
    let t = s.remove(i);
    assert forall|a: int, b: int| 0 <= a < b < t.len() implies !((#[trigger] t[a]).appid == (
    #[trigger] t[b]).appid && t[a].rank_key == t[b].rank_key) by {
        let sa = if a < i {
            a
        } else {
            a + 1
        };
        let sb = if b < i {
            b
        } else {
            b + 1
        };
        assert(t[a] == s[sa] && t[b] == s[sb]);
    }
}

/// Where a surviving config sits after removal of index `i`.
proof fn lemma_cfgs_remove_keeps_index(s: Seq<ConfigV>, i: int, k: int)
    requires
        0 <= i < s.len(),
        0 <= k < s.len(),
        k != i,
    ensures
        k < i ==> s.remove(i)[k] == s[k],
        k > i ==> s.remove(i)[k - 1] == s[k],
        cfgs_has_appid(s.remove(i), s[k].appid),
{
    let t = s.remove(i);
    if k < i {
        assert(t[k] == s[k]);
    } else {
        assert(t[k - 1] == s[k]);
    }
}

} // verus!

