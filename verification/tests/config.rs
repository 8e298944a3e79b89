use glitch_bridge::config::Config;
use glitch_bridge::config::Database;
use glitch_bridge::config::Network;

fn base_config() -> Config {
    Config {
        glitch_private_key: Some("SECRET-REDACTED".to_string()),
        glitch_fee_address: "5GrwvaEF5zXb26Fz9rcQpDWS57CtERHpNehXCPcNoHGKutQY".to_string(),
        interval_days_for_transfer: 1,
        business_fee_percentage: 2,
        glitch_gas: false,
        db: Database {
            host: "localhost".to_string(),
            port: 3306,
            database: "bridge".to_string(),
            username: "bridge".to_string(),
            password: "SECRET-REDACTED".to_string(),
        },
        networks: vec![Network {
            name: "scanner-a".to_string(),
            network: "testnet".to_string(),
            monitor_address: "0x1234".to_string(),
            ws_node: "wss://source.example".to_string(),
            ws_glitch_node: "wss://destination.example".to_string(),
            confirmations: 12,
        }],
    }
}

#[test]
fn a_complete_config_checks_out() {
    assert!(base_config().check());
}

#[test]
fn missing_key_or_bad_percentage_is_rejected() {
    let mut c = base_config();
    c.glitch_private_key = None;
    assert!(!c.check());
    let mut c = base_config();
    c.business_fee_percentage = 101;
    assert!(!c.check());
}

#[test]
fn settlement_interval_is_in_seconds() {
    let mut c = base_config();
    c.interval_days_for_transfer = 2;
    assert_eq!(c.settlement_interval_secs(), 172_800);
}

#[test]
fn negative_confirmations_count_as_none() {
    let mut c = base_config();
    assert_eq!(c.networks[0].confirmation_depth(), 12);
    c.networks[0].confirmations = -3;
    assert_eq!(c.networks[0].confirmation_depth(), 0);
}
