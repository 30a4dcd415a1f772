//! Setting up PostgreSQL connections: expanding `~` in certificate paths and
//! building the connection pool manager from a connection string.

use vstd::prelude::*;
use crate::text::{chars_of, push_char};

verus! {

/// `path` with every `~` replaced by `home`.
pub open spec fn expand_tilde(path: Seq<char>, home: Seq<char>) -> Seq<char>
    decreases path.len(),
{
    if path.len() == 0 {
        Seq::empty()
    } else {
        let prev = expand_tilde(path.drop_last(), home);
        if path.last() == '~' {
            prev + home
        } else {
            prev.push(path.last())
        }
    }
}

/// Replaces every `~` in `path` by the home directory `home`.
pub fn expand_home(path: &str, home: &str) -> (out: String)
    ensures
        out@ == expand_tilde(path@, home@),
{
    let cs = chars_of(path);
    let mut out = String::new();
    let mut i: usize = 0;
    assert(cs@.take(0) =~= Seq::<char>::empty());
    while i < cs.len()
        invariant
            cs@ == path@,
            i <= cs.len(),
            out@ == expand_tilde(cs@.take(i as int), home@),
        decreases cs.len() - i,
    {
        assert(cs@.take(i + 1).drop_last() =~= cs@.take(i as int));
        if cs[i] == '~' {
            out.append(home);
        } else {
            push_char(&mut out, cs[i]);
        }
        i += 1;
    }
    assert(cs@.take(cs.len() as int) =~= cs@);
    out
}

/// A path without `~` is left as it is.
pub proof fn lemma_expand_without_tilde(path: Seq<char>, home: Seq<char>)
    requires
        !path.contains('~'),
    ensures
        expand_tilde(path, home) == path,
    decreases path.len(),
{
    if path.len() > 0 {
        let u = path.drop_last();
        assert(!u.contains('~')) by {
            if u.contains('~') {
                let k = choose|k: int| 0 <= k < u.len() && u[k] == '~';
                assert(path[k] == '~');
            }
        }
        lemma_expand_without_tilde(u, home);
        assert(path[path.len() - 1] != '~');
        assert(u.push(path.last()) =~= path);
    }
}

/// Where the home directory holds no `~`, the expanded path holds none.
pub proof fn lemma_expand_removes_tilde(path: Seq<char>, home: Seq<char>)
    requires
        !home.contains('~'),
    ensures
        !expand_tilde(path, home).contains('~'),
    decreases path.len(),
{
    if path.len() > 0 {
        let u = path.drop_last();
        lemma_expand_removes_tilde(u, home);
        let prev = expand_tilde(u, home);
        let out = expand_tilde(path, home);
        if out.contains('~') {
            let k = choose|k: int| 0 <= k < out.len() && out[k] == '~';
            if k < prev.len() {
                assert(prev[k] == '~');
            } else if path.last() == '~' {
                assert(home[k - prev.len()] == '~');
            }
        }
    }
}

#[verifier::external_type_specification]
#[verifier::external_body]
pub struct ExPgConfig(tokio_postgres::Config);

#[verifier::external_type_specification]
#[verifier::external_body]
pub struct ExPgError(tokio_postgres::Error);

#[verifier::external_type_specification]
#[verifier::external_body]
pub struct ExMakeRustlsConnect(tokio_postgres_rustls::MakeRustlsConnect);

#[verifier::external_type_specification]
#[verifier::external_body]
pub struct ExManager(deadpool_postgres::Manager);

/// Whether `tokio_postgres` accepts `s` as a connection string (a URL or
/// `key=value` pairs).
pub uninterp spec fn pg_config_accepts(s: Seq<char>) -> bool;

/// The connection settings that `tokio_postgres` reads from the connection
/// string `s`, where it accepts it.
pub uninterp spec fn pg_config_of(s: Seq<char>) -> tokio_postgres::Config;

/// The refusal that `tokio_postgres` gives for the connection string `s`,
/// where it refuses it.
pub uninterp spec fn pg_config_error(s: Seq<char>) -> tokio_postgres::Error;

/// Calls `<tokio_postgres::Config as FromStr>::from_str` (through
/// `str::parse`). The contract claims that whether it succeeds, the
/// settings that it reads and the refusal that it gives are named functions
/// of the text alone; what the settings and the refusal hold stays opaque.
#[verifier::external_body]
fn parse_pg_config(s: &str) -> (r: Result<tokio_postgres::Config, tokio_postgres::Error>)
    ensures
        r is Ok == pg_config_accepts(s@),
        r matches Ok(c) ==> c == pg_config_of(s@),
        r matches Err(e) ==> e == pg_config_error(s@),
{
    s.parse()
}

/// The manager of a connection pool, with the kind of transport that its
/// connections use and the connection settings that it was built from.
pub enum PgManager {
    /// Connections go through the rustls connector that was handed over.
    Tls { manager: deadpool_postgres::Manager, settings: tokio_postgres::Config },
    /// Connections go in plain text.
    Plain { manager: deadpool_postgres::Manager, settings: tokio_postgres::Config },
}

/// Calls `deadpool_postgres::Manager::new` with a copy of `config` and a
/// rustls connector, which the manager keeps to open each connection. The
/// contract claims that the result is the TLS kind and records `config`;
/// what the manager holds stays opaque.
#[verifier::external_body]
fn manager_with_rustls(config: tokio_postgres::Config, tls: tokio_postgres_rustls::MakeRustlsConnect) -> (m: PgManager)
    ensures
        m is Tls,
        m.settings() == config,
{
    PgManager::Tls { manager: deadpool_postgres::Manager::new(config.clone(), tls), settings: config }
}

/// Calls `deadpool_postgres::Manager::new` with a copy of `config` and
/// `tokio_postgres::NoTls`. The contract claims that the result is the
/// plain-text kind and records `config`; what the manager holds stays
/// opaque.
#[verifier::external_body]
fn manager_without_tls(config: tokio_postgres::Config) -> (m: PgManager)
    ensures
        m is Plain,
        m.settings() == config,
{
    PgManager::Plain { manager: deadpool_postgres::Manager::new(config.clone(), tokio_postgres::NoTls), settings: config }
}

impl PgManager {
    /// The connection settings that the manager was built from.
    pub open spec fn settings(&self) -> tokio_postgres::Config {
        match self {
            PgManager::Tls { settings, .. } => *settings,
            PgManager::Plain { settings, .. } => *settings,
        }
    }

    /// The connection settings that the manager was built from.
    pub fn config(&self) -> (c: &tokio_postgres::Config)
        ensures
            *c == self.settings(),
    {
        match self {
            PgManager::Tls { settings, .. } => settings,
            PgManager::Plain { settings, .. } => settings,
        }
    }

    /// The manager itself, whatever its transport.
    pub fn into_manager(self) -> (m: deadpool_postgres::Manager)
        ensures
            self matches PgManager::Tls { manager, .. } ==> m == manager,
            self matches PgManager::Plain { manager, .. } ==> m == manager,
    {
        match self {
            PgManager::Tls { manager, .. } => manager,
            PgManager::Plain { manager, .. } => manager,
        }
    }
}

/// Why a connection could not be set up.
#[derive(Debug)]
pub enum PgSetupError {
    /// The connection string was refused.
    InvalidConfig(tokio_postgres::Error),
}

/// The connection settings that a connection string describes; fails
/// exactly when the connection string is refused, with the parser's
/// refusal.
pub fn pg_config(connection_str: &str) -> (r: Result<tokio_postgres::Config, PgSetupError>)
    ensures
        r is Ok == pg_config_accepts(connection_str@),
        r matches Ok(c) ==> c == pg_config_of(connection_str@),
        r matches Err(PgSetupError::InvalidConfig(e)) ==> e == pg_config_error(connection_str@),
{
    match parse_pg_config(connection_str) {
        Ok(config) => Ok(config),
        Err(e) => Err(PgSetupError::InvalidConfig(e)),
    }
}

/// The manager of a connection pool for the connection string: connections
/// go through the rustls connector where one is given, in plain text
/// otherwise. Fails exactly when the connection string is refused.
pub fn create_manager(
    connector: Option<tokio_postgres_rustls::MakeRustlsConnect>,
    connection_str: &str,
) -> (r: Result<PgManager, PgSetupError>)
    ensures
        r is Ok == pg_config_accepts(connection_str@),
        r matches Ok(m) ==> (m is Tls <==> connector is Some),
        r matches Ok(m) ==> m.settings() == pg_config_of(connection_str@),
        r matches Err(PgSetupError::InvalidConfig(e)) ==> e == pg_config_error(connection_str@),
{
    let config = match pg_config(connection_str) {
        Ok(c) => c,
        Err(e) => return Err(e),
    };
    match connector {
        Some(c) => Ok(manager_with_rustls(config, c)),
        None => Ok(manager_without_tls(config)),
    }
}

} // verus!
