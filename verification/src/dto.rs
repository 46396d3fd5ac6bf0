//! Request and response shapes of the scoring surface, the durable-row
//! models, and their validation rules.

use vstd::prelude::*;
use crate::codec::MAX_RAW_SCORE;
use crate::errors::RequestError;
use crate::text::char_len_in_range;

verus! {

/// Score submission: one user's new score on one leaderboard.
#[derive(Debug, Clone)]
pub struct UpdateScoreRequest {
    pub appid: String,
    pub rank_key: String,
    pub openid: String,
    pub nick_name: String,
    pub score: i32,
}

impl UpdateScoreRequest {
    /// The §6 validation rule of a score submission.
    pub open spec fn spec_valid(&self) -> bool {
        &&& 3 <= self.appid@.len() <= 64
        &&& 3 <= self.rank_key@.len() <= 20
        &&& 3 <= self.openid@.len() <= 64
        &&& 0 <= self.score <= MAX_RAW_SCORE
    }

    /// Accepts the request iff it satisfies the validation rule.
    pub fn validate(&self) -> (r: Result<(), RequestError>)
        ensures
            r is Ok <==> self.spec_valid(),
            r is Err ==> r->Err_0 is ValidationError,
    {
        if !char_len_in_range(self.appid.as_str(), 3, 64) {
            Err(RequestError::ValidationError(String::from_str(
                "appid must be between 3 and 64 characters",
            )))
        } else if !char_len_in_range(self.rank_key.as_str(), 3, 20) {
            Err(RequestError::ValidationError(String::from_str(
                "rank_key must be between 3 and 20 characters",
            )))
        } else if !char_len_in_range(self.openid.as_str(), 3, 64) {
            Err(RequestError::ValidationError(String::from_str(
                "openid must be between 3 and 64 characters",
            )))
        } else if !(0 <= self.score && self.score <= MAX_RAW_SCORE) {
            Err(RequestError::ValidationError(String::from_str(
                "score must be between 0 and 100_000_000",
            )))
        } else {
            Ok(())
        }
    }

    /// A field-for-field copy.
    pub fn duplicate(&self) -> (r: UpdateScoreRequest)
        ensures
            r == *self,
    {
        UpdateScoreRequest {
            appid: self.appid.clone(),
            rank_key: self.rank_key.clone(),
            openid: self.openid.clone(),
            nick_name: self.nick_name.clone(),
            score: self.score,
        }
    }
}

/// One row of a top-N reply, fields present as far as they are known.
#[derive(Debug, Clone)]
pub struct UserScoreRes {
    pub openid: Option<String>,
    pub nick_name: Option<String>,
    pub score: Option<i32>,
    pub ranking: Option<i32>,
}

impl Default for UserScoreRes {
    /// The empty reply row: nothing known.
    fn default() -> (r: UserScoreRes)
        ensures
            r.openid is None,
            r.nick_name is None,
            r.score is None,
            r.ranking is None,
    {
        UserScoreRes { openid: None, nick_name: None, score: None, ranking: None }
    }
}

/// Query for one user's rank or score on one leaderboard.
#[derive(Debug, Clone)]
pub struct UserRankingReq {
    pub appid: String,
    pub openid: String,
    pub rank_key: String,
}

impl UserRankingReq {
    /// The §6 validation rule of a rank/score query.
    pub open spec fn spec_valid(&self) -> bool {
        &&& 3 <= self.appid@.len() <= 64
        &&& 3 <= self.openid@.len() <= 64
        &&& 3 <= self.rank_key@.len() <= 20
    }

    /// Accepts the request iff it satisfies the validation rule.
    pub fn validate(&self) -> (r: Result<(), RequestError>)
        ensures
            r is Ok <==> self.spec_valid(),
            r is Err ==> r->Err_0 is ValidationError,
    {
        if !char_len_in_range(self.appid.as_str(), 3, 64) {
            Err(RequestError::ValidationError(String::from_str(
                "appid must be between 3 and 64 characters",
            )))
        } else if !char_len_in_range(self.openid.as_str(), 3, 64) {
            Err(RequestError::ValidationError(String::from_str(
                "openid must be between 3 and 64 characters",
            )))
        } else if !char_len_in_range(self.rank_key.as_str(), 3, 20) {
            Err(RequestError::ValidationError(String::from_str(
                "rank_key must be between 3 and 20 characters",
            )))
        } else {
            Ok(())
        }
    }
}

/// Query for the first `top_n` entries of one leaderboard.
#[derive(Debug, Clone)]
pub struct TopNUserReq {
    pub appid: String,
    pub rank_key: String,
    pub top_n: i32,
}

impl TopNUserReq {
    /// The §6 validation rule of a top-N query.
    pub open spec fn spec_valid(&self) -> bool {
        &&& 3 <= self.appid@.len() <= 64
        &&& 3 <= self.rank_key@.len() <= 20
        &&& 1 <= self.top_n <= 30
    }

    /// Accepts the request iff it satisfies the validation rule.
    pub fn validate(&self) -> (r: Result<(), RequestError>)
        ensures
            r is Ok <==> self.spec_valid(),
            r is Err ==> r->Err_0 is ValidationError,
    {
        if !char_len_in_range(self.appid.as_str(), 3, 64) {
            Err(RequestError::ValidationError(String::from_str(
                "appid must be between 3 and 64 characters",
            )))
        } else if !char_len_in_range(self.rank_key.as_str(), 3, 20) {
            Err(RequestError::ValidationError(String::from_str(
                "rank_key must be between 3 and 20 characters",
            )))
        } else if !(1 <= self.top_n && self.top_n <= 30) {
            Err(RequestError::ValidationError(String::from_str(
                "top_n must be between 1 and 30",
            )))
        } else {
            Ok(())
        }
    }
}

/// Admin request that creates one leaderboard.
#[derive(Debug, Clone)]
pub struct AddRankConfigReq {
    pub appid: String,
    pub rank_key: String,
    pub app_secret: String,
    pub cron_expression: String,
    pub remark: String,
}

impl AddRankConfigReq {
    /// The §6 validation rule of an admin add request.
    pub open spec fn spec_valid(&self) -> bool {
        &&& 3 <= self.appid@.len() <= 64
        &&& 1 <= self.rank_key@.len() <= 64
        &&& 8 <= self.app_secret@.len() <= 64
        &&& self.cron_expression@.len() <= 200
        &&& self.remark@.len() <= 200
    }

    /// Accepts the request iff it satisfies the validation rule.
    pub fn validate(&self) -> (r: Result<(), RequestError>)
        ensures
            r is Ok <==> self.spec_valid(),
            r is Err ==> r->Err_0 is ValidationError,
    {
        if !char_len_in_range(self.appid.as_str(), 3, 64) {
            Err(RequestError::ValidationError(String::from_str(
                "appid must be between 3 and 64 characters",
            )))
        } else if !char_len_in_range(self.rank_key.as_str(), 1, 64) {
            Err(RequestError::ValidationError(String::from_str(
                "rank_key must be between 1 and 64 characters",
            )))
        } else if !char_len_in_range(self.app_secret.as_str(), 8, 64) {
            Err(RequestError::ValidationError(String::from_str(
                "app_secret must be between 8 and 64 characters",
            )))
        } else if !char_len_in_range(self.cron_expression.as_str(), 0, 200) {
            Err(RequestError::ValidationError(String::from_str(
                "cron_expression must be between 0 and 200 characters",
            )))
        } else if !char_len_in_range(self.remark.as_str(), 0, 200) {
            Err(RequestError::ValidationError(String::from_str(
                "remark must be between 0 and 200 characters",
            )))
        } else {
            Ok(())
        }
    }
}

/// A request body that passed validation.
#[derive(Debug, Clone, Copy)]
pub struct ValidatedRequest<T>(pub T);

/// One durable row of a leaderboard table.
#[derive(Debug, Clone)]
pub struct UserScoreInfo {
    pub appid: String,
    pub openid: String,
    pub nick_name: String,
    pub score: i32,
}

impl UserScoreInfo {
    /// A field-for-field copy.
    pub fn duplicate(&self) -> (r: UserScoreInfo)
        ensures
            r == *self,
    {
        UserScoreInfo {
            appid: self.appid.clone(),
            openid: self.openid.clone(),
            nick_name: self.nick_name.clone(),
            score: self.score,
        }
    }
}

/// The configured existence of one leaderboard: identity, tenant secret,
/// reset schedule and the handle of its live reset job.
#[derive(Debug, Clone)]
pub struct RankTableConfig {
    pub appid: String,
    pub rank_key: String,
    pub app_secret: String,
    pub cron_expression: String,
    pub cron_uuid: String,
}

impl RankTableConfig {
    /// A field-for-field copy.
    pub fn duplicate(&self) -> (r: RankTableConfig)
        ensures
            r == *self,
    {
        RankTableConfig {
            appid: self.appid.clone(),
            rank_key: self.rank_key.clone(),
            app_secret: self.app_secret.clone(),
            cron_expression: self.cron_expression.clone(),
            cron_uuid: self.cron_uuid.clone(),
        }
    }
}

impl Default for RankTableConfig {
    /// A config with every field empty.
    fn default() -> (r: RankTableConfig)
        ensures
            r.appid@ == Seq::<char>::empty(),
            r.rank_key@ == Seq::<char>::empty(),
            r.app_secret@ == Seq::<char>::empty(),
            r.cron_expression@ == Seq::<char>::empty(),
            r.cron_uuid@ == Seq::<char>::empty(),
    {
        RankTableConfig {
            appid: String::new(),
            rank_key: String::new(),
            app_secret: String::new(),
            cron_expression: String::new(),
            cron_uuid: String::new(),
        }
    }
}

} // verus!
