use obscura_core::config::Config;
use obscura_core::config::ConfigBuilder;

#[test]
fn builder_overrides_fields() {
    let cfg = ConfigBuilder::new()
        .difficulty(16)
        .block_reward(25)
        .network("test")
        .finish();
    assert_eq!(cfg.difficulty, 16);
    assert_eq!(cfg.block_reward, 25);
    assert_eq!(cfg.network, "test");
}

#[test]
fn default_config_is_main_net() {
    let cfg = Config::default();
    assert_eq!(cfg.difficulty, 8);
    assert_eq!(cfg.block_reward, 50);
    assert_eq!(cfg.network, "main");
}
