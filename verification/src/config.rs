//! The configuration of the service: what it is read from, and the rules
//! it must meet.

use vstd::prelude::*;
use crate::number::{parse_unsigned, unsigned_reading};
use crate::text::{
    append_chars, chars_of, has_prefix, same_text, slice_chars, starts_with, string_of,
};

verus! {

/// The configuration of the service.
#[derive(Debug, Clone, PartialEq, Eq)]
pub struct AppConfig {
    pub app_env: String,
    pub app_port: u16,
    pub database_url: String,
    pub max_concurrent_pulls: usize,
    pub per_registry_max: usize,
}

/// What the environment says of each setting; a setting that is not there
/// is `None`.
#[derive(Debug, Clone, PartialEq, Eq)]
pub struct EnvValues {
    pub app_env: Option<String>,
    pub app_port: Option<String>,
    pub database_url: Option<String>,
    pub max_concurrent_pulls: Option<String>,
    pub per_registry_max: Option<String>,
}

/// Why a configuration is refused.
#[derive(Debug, Clone, Copy, PartialEq, Eq, Structural)]
pub enum ConfigError {
    /// The port is not written as a number that a port can be.
    PortNotANumber,
    /// The environment names no database.
    MissingDatabaseUrl,
    /// The name of the environment has fewer than three characters.
    AppEnvTooShort,
    /// The port is zero.
    PortOutOfRange,
    /// The database is neither a PostgreSQL nor an SQLite address.
    InvalidDatabaseUrl,
    /// The number of pulls at once is not between one and ten.
    ConcurrencyOutOfRange,
    /// The number of pulls at once per registry is not between one and ten.
    PerRegistryOutOfRange,
}

/// The name of the environment where none is given.
pub open spec fn default_env() -> Seq<char> {
    "development"@
}

/// The port where none is given, as it would be written.
pub open spec fn default_port_text() -> Seq<char> {
    "8080"@
}

/// Whether `url` is the address of a database that the service can use: it
/// begins with `postgres://` or with `sqlite://`.
pub open spec fn is_db_url(url: Seq<char>) -> bool {
    has_prefix(url, "postgres://"@) || has_prefix(url, "sqlite://"@)
}

/// The first rule that a configuration breaks, going through its settings
/// in order; none where it meets them all.
pub open spec fn first_violation(
    app_env: Seq<char>,
    app_port: int,
    database_url: Seq<char>,
    max_concurrent_pulls: int,
    per_registry_max: int,
) -> Option<ConfigError> {
    if app_env.len() < 3 {
        Some(ConfigError::AppEnvTooShort)
    } else if !(1 <= app_port <= 65535) {
        Some(ConfigError::PortOutOfRange)
    } else if !is_db_url(database_url) {
        Some(ConfigError::InvalidDatabaseUrl)
    } else if !(1 <= max_concurrent_pulls <= 10) {
        Some(ConfigError::ConcurrencyOutOfRange)
    } else if !(1 <= per_registry_max <= 10) {
        Some(ConfigError::PerRegistryOutOfRange)
    } else {
        None
    }
}

/// The text held by an optional string, or `default` where there is none.
pub open spec fn text_or(o: Option<String>, default: Seq<char>) -> Seq<char> {
    match o {
        Some(s) => s@,
        None => default,
    }
}

/// The number that an optional setting names, or `default` where there is
/// no setting or it names no number.
pub open spec fn count_or(o: Option<String>, default: nat) -> nat {
    match o {
        Some(s) => match unsigned_reading(s@, usize::MAX as nat) {
            Some(n) => n,
            None => default,
        },
        None => default,
    }
}

/// The port that the environment names, if it names one that is a number
/// up to 65535; without a setting the port is 8080.
pub open spec fn port_of(values: EnvValues) -> Option<nat> {
    unsigned_reading(text_or(values.app_port, default_port_text()), 65535)
}

/// Why the environment gives no configuration, if it gives none.
pub open spec fn env_error(values: EnvValues) -> Option<ConfigError> {
    if port_of(values) is None {
        Some(ConfigError::PortNotANumber)
    } else if values.database_url is None {
        Some(ConfigError::MissingDatabaseUrl)
    } else {
        first_violation(
            text_or(values.app_env, default_env()),
            port_of(values)->0 as int,
            values.database_url->0@,
            count_or(values.max_concurrent_pulls, 5) as int,
            count_or(values.per_registry_max, 2) as int,
        )
    }
}

/// Whether a setting switches something on: it is one of `1`, `true`,
/// `TRUE`, `yes`, `on`, `On`, `ON`.
pub open spec fn says_on(v: Seq<char>) -> bool {
    v == "1"@ || v == "true"@ || v == "TRUE"@ || v == "yes"@ || v == "on"@ || v == "On"@ || v
        == "ON"@
}

/// The file behind an SQLite address: what follows `sqlite://`, taken from
/// the directory `cwd` unless it begins with a slash. Another address has
/// no file.
pub open spec fn sqlite_file(db_url: Seq<char>, cwd: Seq<char>) -> Option<Seq<char>> {
    let scheme = "sqlite://"@;
    if has_prefix(db_url, scheme) {
        let path = db_url.subrange(scheme.len() as int, db_url.len() as int);
        if path.len() > 0 && path[0] == '/' {
            Some(path)
        } else {
            Some(cwd + seq!['/'] + path)
        }
    } else {
        None
    }
}

/// Checks that `url` is the address of a database that the service can
/// use.
pub fn validate_db_url(url: &str) -> (r: Result<(), ConfigError>)
    ensures
        r is Ok <==> is_db_url(url@),
        r is Err ==> r->Err_0 == ConfigError::InvalidDatabaseUrl,
{
    let chars = chars_of(url);
    let postgres = chars_of("postgres://");
    let sqlite = chars_of("sqlite://");
    if starts_with(&chars, &postgres) || starts_with(&chars, &sqlite) {
        Ok(())
    } else {
        Err(ConfigError::InvalidDatabaseUrl)
    }
}

/// A number as a setting names it, or `default`.
fn count_setting(o: &Option<String>, default: usize) -> (n: usize)
    ensures
        n == count_or(*o, default as nat),
{
    match o {
        Some(s) => match parse_unsigned(s.as_str(), usize::MAX as u64) {
            Some(v) => v as usize,
            None => default,
        },
        None => default,
    }
}

/// Whether the value of a switch in the environment says that it is on;
/// `default` where the environment has no such switch.
pub fn env_flag(value: Option<&str>, default: bool) -> (on: bool)
    ensures
        on == match value {
            Some(v) => says_on(v@),
            None => default,
        },
{
    match value {
        Some(v) => same_text(v, "1") || same_text(v, "true") || same_text(v, "TRUE") || same_text(
            v,
            "yes",
        ) || same_text(v, "on") || same_text(v, "On") || same_text(v, "ON"),
        None => default,
    }
}

/// The file behind an SQLite address, taken from the directory `cwd`
/// unless the address names it from the root.
pub fn sqlite_file_path(db_url: &str, cwd: &str) -> (path: Option<String>)
    ensures
        crate::db::job::text_of(path) == sqlite_file(db_url@, cwd@),
{
    let url = chars_of(db_url);
    let scheme = chars_of("sqlite://");
    if !starts_with(&url, &scheme) {
        return None;
    }
    let rest = slice_chars(&url, scheme.len(), url.len());
    if rest.len() > 0 && rest[0] == '/' {
        Some(string_of(&rest))
    } else {
        let mut full = chars_of(cwd);
        full.push('/');
        append_chars(&mut full, &rest);
        assert(full@ =~= cwd@ + seq!['/'] + rest@);
        Some(string_of(&full))
    }
}

impl AppConfig {
    /// The first rule that the configuration breaks, if it breaks one.
    pub open spec fn violation(self) -> Option<ConfigError> {
        first_violation(
            self.app_env@,
            self.app_port as int,
            self.database_url@,
            self.max_concurrent_pulls as int,
            self.per_registry_max as int,
        )
    }

    /// Checks the rules: the name of the environment has at least three
    /// characters, the port is not zero, the database is a PostgreSQL or an
    /// SQLite address, and the two limits on pulls are between one and ten.
    /// Reports the first rule that is broken.
    pub fn validate(&self) -> (r: Result<(), ConfigError>)
        ensures
            match r {
                Ok(_) => self.violation() is None,
                Err(e) => self.violation() == Some(e),
            },
    {
        if self.app_env.as_str().unicode_len() < 3 {
            return Err(ConfigError::AppEnvTooShort);
        }
        if self.app_port < 1 {
            return Err(ConfigError::PortOutOfRange);
        }
        match validate_db_url(self.database_url.as_str()) {
            Err(e) => {
                return Err(e);
            },
            Ok(_) => {},
        }
        if self.max_concurrent_pulls < 1 || self.max_concurrent_pulls > 10 {
            return Err(ConfigError::ConcurrencyOutOfRange);
        }
        if self.per_registry_max < 1 || self.per_registry_max > 10 {
            return Err(ConfigError::PerRegistryOutOfRange);
        }
        Ok(())
    }

    /// The configuration that the environment gives. The environment is
    /// `development` and the port 8080 where none is named; five pulls at
    /// once, two of them per registry, where no number is named. A port
    /// that is no number, a missing database address and a broken rule are
    /// errors, looked for in this order.
    pub fn from_env(values: &EnvValues) -> (r: Result<AppConfig, ConfigError>)
        ensures
            match r {
                Ok(cfg) => {
                    &&& env_error(*values) is None
                    &&& cfg.violation() is None
                    &&& cfg.app_env@ == text_or(values.app_env, default_env())
                    &&& Some(cfg.app_port as nat) == port_of(*values)
                    &&& Some(cfg.database_url@) == crate::db::job::text_of(values.database_url)
                    &&& cfg.max_concurrent_pulls == count_or(values.max_concurrent_pulls, 5)
                    &&& cfg.per_registry_max == count_or(values.per_registry_max, 2)
                },
                Err(e) => env_error(*values) == Some(e),
            },
    {
        let app_env = match &values.app_env {
            Some(s) => s.clone(),
            None => "development".to_owned(),
        };
        let port_text = match &values.app_port {
            Some(s) => s.clone(),
            None => "8080".to_owned(),
        };
        let app_port = match parse_unsigned(port_text.as_str(), 65535) {
            Some(p) => p as u16,
            None => {
                return Err(ConfigError::PortNotANumber);
            },
        };
        let database_url = match &values.database_url {
            Some(s) => s.clone(),
            None => {
                return Err(ConfigError::MissingDatabaseUrl);
            },
        };
        let cfg = AppConfig {
            app_env,
            app_port,
            database_url,
            max_concurrent_pulls: count_setting(&values.max_concurrent_pulls, 5),
            per_registry_max: count_setting(&values.per_registry_max, 2),
        };
        match cfg.validate() {
            Ok(_) => Ok(cfg),
            Err(e) => Err(e),
        }
    }
}

} // verus!
