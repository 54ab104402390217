//! Where the Codex home is and how much of each rollout is read.
use vstd::prelude::*;

use crate::paths::{is_absolute, is_absolute_str, join, path_join};

verus! {

pub const DEFAULT_MAX_ROLLOUT_BYTES: u64 = 65536;

pub const MAX_ALLOWED_ROLLOUT_BYTES: u64 = 4194304;

#[derive(Debug, PartialEq, Eq)]
pub struct ScanConfig {
    pub codex_home: String,
    pub max_rollout_bytes: u64,
}

impl Clone for ScanConfig {
    fn clone(&self) -> (res: Self)
        ensures
            res == *self,
    {
        ScanConfig { codex_home: self.codex_home.clone(), max_rollout_bytes: self.max_rollout_bytes }
    }
}

#[derive(Debug, PartialEq, Eq)]
pub enum ConfigError {
    RelativeCodexHome(String),
    RelativeEnvironmentHome(String),
    HomeDirectoryUnavailable,
    InvalidMaxRolloutBytes(u64),
}

impl ConfigError {
    /// The error's message, as its `Display` gives it.
    pub fn message(&self) -> (res: String)
        ensures
            res@ == match self {
                ConfigError::RelativeCodexHome(p) => "--codex-home must be an absolute path: "@ + p@,
                ConfigError::RelativeEnvironmentHome(p) => "CODEX_HOME must be an absolute path: "@ + p@,
                ConfigError::HomeDirectoryUnavailable => "cannot determine the user's home directory"@,
                ConfigError::InvalidMaxRolloutBytes(_) => "max-rollout-bytes must be between 1 and 4194304 bytes"@,
            },
    {
        match self {
            ConfigError::RelativeCodexHome(p) => crate::text::concat("--codex-home must be an absolute path: ", p.as_str()),
            ConfigError::RelativeEnvironmentHome(p) => crate::text::concat("CODEX_HOME must be an absolute path: ", p.as_str()),
            ConfigError::HomeDirectoryUnavailable => crate::text::owned("cannot determine the user's home directory"),
            ConfigError::InvalidMaxRolloutBytes(_) => crate::text::owned("max-rollout-bytes must be between 1 and 4194304 bytes"),
        }
    }
}

/// The values of the environment variables that the configuration reads.
#[derive(Debug, Clone, PartialEq, Eq)]
pub struct HomeEnvironment {
    /// `CODEX_HOME`
    pub codex_home: Option<String>,
    /// `HOME`
    pub home: Option<String>,
    /// `USERPROFILE`
    pub user_profile: Option<String>,
}

pub open spec fn opt_seq(o: Option<String>) -> Option<Seq<char>> {
    match o {
        Some(s) => Some(s@),
        None => None,
    }
}

/// The Codex home: an explicit path, else `CODEX_HOME`, else `.codex` under
/// `HOME` (or `USERPROFILE`).  `None` stands for the error cases.
pub open spec fn home_spec(explicit: Option<Seq<char>>, env: HomeEnvironment) -> Option<Seq<char>> {
    match explicit {
        Some(p) => if is_absolute(p) { Some(p) } else { None },
        None => match opt_seq(env.codex_home) {
            Some(p) => if is_absolute(p) { Some(p) } else { None },
            None => match opt_seq(env.home) {
                Some(h) => Some(join(h, ".codex"@)),
                None => match opt_seq(env.user_profile) {
                    Some(h) => Some(join(h, ".codex"@)),
                    None => None,
                },
            },
        },
    }
}

impl ScanConfig {
    /// Builds the scan configuration from explicit options and the
    /// environment.  The explicit Codex home wins over `CODEX_HOME`, which
    /// wins over `$HOME/.codex`; the rollout limit defaults to 64 KiB and
    /// must lie in 1..=4 MiB.
    pub fn from_sources(
        codex_home: Option<String>,
        max_rollout_bytes: Option<u64>,
        env: &HomeEnvironment,
    ) -> (res: Result<Self, ConfigError>)
        ensures
            match res {
                Ok(config) => {
                    &&& home_spec(opt_seq(codex_home), *env) == Some(config.codex_home@)
                    &&& config.max_rollout_bytes == match max_rollout_bytes {
                        Some(m) => m,
                        None => DEFAULT_MAX_ROLLOUT_BYTES,
                    }
                    &&& 1 <= config.max_rollout_bytes <= MAX_ALLOWED_ROLLOUT_BYTES
                },
                Err(ConfigError::RelativeCodexHome(p)) => codex_home matches Some(c) && c@ == p@ && !is_absolute(p@),
                Err(ConfigError::RelativeEnvironmentHome(p)) => codex_home is None
                    && opt_seq(env.codex_home) == Some(p@) && !is_absolute(p@),
                Err(ConfigError::HomeDirectoryUnavailable) => codex_home is None && env.codex_home is None
                    && env.home is None && env.user_profile is None,
                Err(ConfigError::InvalidMaxRolloutBytes(m)) => home_spec(opt_seq(codex_home), *env) is Some
                    && max_rollout_bytes == Some(m) && (m == 0 || m > MAX_ALLOWED_ROLLOUT_BYTES),
            },
    {
        let home = match codex_home {
            Some(path) => {
                if !is_absolute_str(path.as_str()) {
                    return Err(ConfigError::RelativeCodexHome(path));
                }
                path
            },
            None => match &env.codex_home {
                Some(value) => {
                    if !is_absolute_str(value.as_str()) {
                        return Err(ConfigError::RelativeEnvironmentHome(value.clone()));
                    }
                    value.clone()
                },
                None => {
                    let base = match &env.home {
                        Some(h) => h,
                        None => match &env.user_profile {
                            Some(h) => h,
                            None => return Err(ConfigError::HomeDirectoryUnavailable),
                        },
                    };
                    path_join(base.as_str(), ".codex")
                },
            },
        };
        let limit = match max_rollout_bytes {
            Some(m) => m,
            None => DEFAULT_MAX_ROLLOUT_BYTES,
        };
        if limit == 0 || limit > MAX_ALLOWED_ROLLOUT_BYTES {
            return Err(ConfigError::InvalidMaxRolloutBytes(limit));
        }
        Ok(ScanConfig { codex_home: home, max_rollout_bytes: limit })
    }
}

} // verus!
