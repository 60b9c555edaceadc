//! Application configuration: the sections and their defaults. Reading a
//! configuration file is the runtime shell's business; a missing or
//! unreadable file falls back to these defaults.
use vstd::prelude::*;

verus! {

/// The listen address.
#[derive(Debug, Clone)]
pub struct ServerConfig {
    pub ip: String,
    pub port: u16,
}

/// Where the database lives.
#[derive(Debug, Clone)]
pub struct DbConfig {
    pub path: String,
}

/// The recognizer's API key.
#[derive(Debug, Clone)]
pub struct AiConfig {
    pub key: String,
}

/// Token signing and password derivation material.
#[derive(Debug, Clone)]
pub struct SecurityConfig {
    pub salt: String,
    pub key: String,
    pub jwt_ttl_seconds: u64,
}

/// The whole application configuration.
#[derive(Debug, Clone)]
pub struct AppConfig {
    pub server: ServerConfig,
    pub db: DbConfig,
    pub ai: AiConfig,
    pub security: SecurityConfig,
}

pub fn default_db_path() -> (r: String)
    ensures
        r@ == "sport.db"@,
{
    "sport.db".to_owned()
}

pub fn default_server_ip() -> (r: String)
    ensures
        r@ == "127.0.0.1"@,
{
    "127.0.0.1".to_owned()
}

pub fn default_server_port() -> (r: u16)
    ensures
        r == 3000,
{
    3000
}

pub fn default_ai_key() -> (r: String)
    ensures
        r@ == ""@,
{
    "".to_owned()
}

pub fn default_security_salt() -> (r: String)
    ensures
        r@ == "slam-server-salt"@,
{
    "slam-server-salt".to_owned()
}

pub fn default_security_key() -> (r: String)
    ensures
        r@ == "change-me-key"@,
{
    "change-me-key".to_owned()
}

pub fn default_jwt_ttl_seconds() -> (r: u64)
    ensures
        r == 2592000,
{
    2592000
}

impl Default for ServerConfig {
    fn default() -> (r: Self)
        ensures
            r.ip@ == "127.0.0.1"@,
            r.port == 3000,
    {
        ServerConfig { ip: default_server_ip(), port: default_server_port() }
    }
}

impl Default for DbConfig {
    fn default() -> (r: Self)
        ensures
            r.path@ == "sport.db"@,
    {
        DbConfig { path: default_db_path() }
    }
}

impl Default for AiConfig {
    fn default() -> (r: Self)
        ensures
            r.key@ == ""@,
    {
        AiConfig { key: default_ai_key() }
    }
}

impl Default for SecurityConfig {
    fn default() -> (r: Self)
        ensures
            r.salt@ == "slam-server-salt"@,
            r.key@ == "change-me-key"@,
            r.jwt_ttl_seconds == 2592000,
    {
        SecurityConfig {
            salt: default_security_salt(),
            key: default_security_key(),
            jwt_ttl_seconds: default_jwt_ttl_seconds(),
        }
    }
}

impl Default for AppConfig {
    fn default() -> (r: Self)
        ensures
            r.server.ip@ == "127.0.0.1"@,
            r.server.port == 3000,
            r.db.path@ == "sport.db"@,
            r.ai.key@ == ""@,
            r.security.salt@ == "slam-server-salt"@,
            r.security.key@ == "change-me-key"@,
            r.security.jwt_ttl_seconds == 2592000,
    {
        AppConfig {
            server: ServerConfig::default(),
            db: DbConfig::default(),
            ai: AiConfig::default(),
            security: SecurityConfig::default(),
        }
    }
}

/// The storage engine's connection settings, consumed by the runtime
/// shell that owns the engine.
#[derive(Debug, Clone)]
pub struct DatabaseConfig {
    pub connection_string: String,
    pub pool_size: u32,
}

impl Default for DatabaseConfig {
    fn default() -> (r: Self)
        ensures
            r.connection_string@ == "sqlite::memory:"@,
            r.pool_size == 5,
    {
        DatabaseConfig { connection_string: "sqlite::memory:".to_owned(), pool_size: 5 }
    }
}

} // verus!
