//! Configuration records for the collaborator layers around the engine:
//! logging, the dashboard, and its rate limiter. Durations are carried as
//! plain second counts.

use vstd::prelude::*;

verus! {

/// Log-file settings: directory, file-name prefix, and how many rolled
/// files to keep.
#[derive(Debug, Clone)]
pub struct LoggerConfig {
    pub dir: String,
    pub filename_prefix: String,
    pub max_rolling_count: usize,
}

impl Default for LoggerConfig {
    fn default() -> (r: Self)
        ensures
            r.dir@ == "log"@,
            r.filename_prefix@ == "log-soursarc_"@,
            r.max_rolling_count == 14,
    {
        LoggerConfig {
            dir: "log".to_owned(),
            filename_prefix: "log-soursarc_".to_owned(),
            max_rolling_count: 14,
        }
    }
}

/// Sliding-window rate-limiter settings: the window length in seconds, the
/// number of requests allowed per window, and how many checks pass between
/// sweeps of expired records.
#[derive(Debug, Clone)]
pub struct RateLimiterConfig {
    pub expire_duration: i64,
    pub limit_per_dur: u64,
    pub cleanup_interval: u64,
}

impl Default for RateLimiterConfig {
    fn default() -> (r: Self)
        ensures
            r.expire_duration == 300,
            r.limit_per_dur == 100,
            r.cleanup_interval == 60,
    {
        RateLimiterConfig { expire_duration: 300, limit_per_dur: 100, cleanup_interval: 60 }
    }
}

/// Dashboard settings: the bootstrap administrator account, where the
/// account list lives, how many list generations to keep, the password
/// hasher's cost parameters, and the access limiter's settings.
#[derive(Debug, Clone)]
pub struct DashBoardConfig {
    pub default_user: String,
    pub default_password: String,
    pub user_list_dir: String,
    pub csv_keep_count: usize,
    pub argon2_m_cost: u32,
    pub argon2_t_cost: u32,
    pub argon2_p_cost: u32,
    pub access_limiter_config: RateLimiterConfig,
}

impl Default for DashBoardConfig {
    fn default() -> (r: Self)
        ensures
            r.default_user@ == "**replace this account**"@,
            r.default_password@ == "**replace this account**"@,
            r.user_list_dir@ == "user_list"@,
            r.csv_keep_count == 10,
            r.argon2_m_cost == 32768,
            r.argon2_t_cost == 2,
            r.argon2_p_cost == 4,
            r.access_limiter_config.expire_duration == 300,
            r.access_limiter_config.limit_per_dur == 100,
            r.access_limiter_config.cleanup_interval == 60,
    {
        DashBoardConfig {
            default_user: "**replace this account**".to_owned(),
            default_password: "**replace this account**".to_owned(),
            user_list_dir: "user_list".to_owned(),
            csv_keep_count: 10,
            argon2_m_cost: 32768,
            argon2_t_cost: 2,
            argon2_p_cost: 4,
            access_limiter_config: Default::default(),
        }
    }
}

} // verus!
