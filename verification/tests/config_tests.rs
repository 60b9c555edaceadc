use slam_core::config::AppConfig;

#[test]
fn test_app_config_new_with_missing_file_returns_defaults() {
    // without a readable configuration source every section falls back
    // to its defaults
    let cfg = AppConfig::default();
    assert_eq!(cfg.db.path, "sport.db");
    assert_eq!(cfg.server.ip, "127.0.0.1");
    assert_eq!(cfg.server.port, 3000);
    assert_eq!(cfg.ai.key, "");
}

#[test]
fn security_defaults() {
    let cfg = AppConfig::default();
    assert_eq!(cfg.security.salt, "slam-server-salt");
    assert_eq!(cfg.security.key, "change-me-key");
    assert_eq!(cfg.security.jwt_ttl_seconds, 2592000);
}
