use portman::config::{default_ranges, Config};
use portman::error::ApplicationError;
use portman::report::load_config;

#[test]
fn test_empty_config() {
    let config = Config::default();
    assert_eq!(config.ranges, vec![(3000, 3999)]);
    assert_eq!(config.reserved, vec![]);
    assert_eq!(default_ranges(), vec![(3000, 3999)]);
}

#[test]
fn test_empty_ranges() {
    let result = Config::from_parts(vec![], vec![]);
    assert!(result.is_err());
}

#[test]
fn test_inverted_ranges() {
    let result = Config::from_parts(vec![(3999, 3000)], vec![]);
    assert!(result.is_err());
}

#[test]
fn test_empty_range() {
    let result = Config::from_parts(vec![(3000, 3000)], vec![]);
    assert!(result.is_err());
}

#[test]
fn range_problems_are_named() {
    assert_eq!(
        Config::from_parts(vec![], vec![3000]).err().unwrap(),
        ApplicationError::InvalidConfig(String::from(
            "Validation error: port ranges must not be empty\n"
        )),
    );
    assert_eq!(
        Config::from_parts(vec![(1, 2), (3999, 3000), (5, 5)], vec![])
            .err()
            .unwrap(),
        ApplicationError::InvalidConfig(String::from(
            "Validation error at port range (3999-3000), start must be less than range end\n"
        )),
    );
    assert_eq!(
        Config::from_parts(vec![(3000, 3000)], vec![]).err().unwrap().message(),
        "Configuration is invalid:\n\nValidation error at port range (3000-3000), start must be less than range end\n",
    );
}

#[test]
fn test_valid_ports() {
    let config =
        Config::from_parts(vec![(3000, 3002), (4000, 4005)], vec![3001, 4000, 4004]).unwrap();
    assert_eq!(
        config.get_valid_ports(),
        vec![3000, 3002, 4001, 4002, 4003, 4005]
    );
}

#[test]
fn valid_ports_reach_the_last_port() {
    let config = Config::from_parts(vec![(65533, 65535), (0, 1)], vec![65534]).unwrap();
    assert_eq!(config.get_valid_ports(), vec![65533, 65535, 0, 1]);
    let inverted = Config { ranges: vec![(10, 9)], reserved: vec![] };
    assert_eq!(inverted.get_valid_ports(), Vec::<u16>::new());
    assert_eq!(Config::default().get_valid_ports().len(), 1000);
}

#[test]
fn config_test_display() {
    let config =
        Config::from_parts(vec![(3000, 3999), (4500, 4999)], vec![3000, 3100, 3200]).unwrap();
    assert_eq!(
        config.describe(),
        "Allowed port ranges: 3000-3999 & 4500-4999\nReserved ports: 3000, 3100, 3200",
    );
}

#[test]
fn test_display_none_reserved() {
    let config = Config::from_parts(vec![(3000, 3999), (4500, 4999)], vec![]).unwrap();
    assert_eq!(
        config.describe(),
        "Allowed port ranges: 3000-3999 & 4500-4999",
    );
}

#[test]
fn missing_configuration_falls_back_or_fails() {
    let fallback = load_config(None, String::from("/data/config.toml"), false).unwrap();
    assert_eq!(fallback.ranges, vec![(3000, 3999)]);
    assert!(fallback.reserved.is_empty());
    assert_eq!(
        load_config(None, String::from("/data/custom_config.toml"), true)
            .err()
            .unwrap(),
        ApplicationError::MissingCustomConfig(String::from("/data/custom_config.toml")),
    );
    let custom = Config::from_parts(vec![(2000, 2199), (4100, 4199)], vec![2002, 4004]).unwrap();
    let loaded = load_config(Some(custom), String::from("/data/config.toml"), true).unwrap();
    assert_eq!(loaded.ranges, vec![(2000, 2199), (4100, 4199)]);
}
