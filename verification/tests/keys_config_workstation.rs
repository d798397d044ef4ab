use configuard::config::{validate_config, Config, ConfigError};
use configuard::keys::{generate_wireguard_keys, wireguard_keys_from_secret};
use configuard::random::{random_byte, random_name, random_word};
use configuard::workstation::{
    decoy_from_draws, decoy_profile, endpoint, is_valid_user_name, router_ip_address, server_configuration,
    user_nets,
};

fn hex(s: &str) -> Vec<u8> {
    (0..s.len())
        .step_by(2)
        .map(|i| u8::from_str_radix(&s[i..i + 2], 16).unwrap())
        .collect()
}

#[test]
fn keys_of_a_known_secret() {
    // RFC 7748, section 6.1
    let secret = hex("77076d0a7318a57d3c16c17251b26645df4c2f87ebc0992ab177fba51db92c2a");
    let public = hex("8520f0098930a754748b7ddcb43ef75a0dbf3a0d26381af4eba4a98eaa9b4e6a");
    let (private_b64, public_b64) = wireguard_keys_from_secret(&secret);
    assert_eq!(private_b64, base64::encode(&secret));
    assert_eq!(public_b64, base64::encode(&public));
    assert_eq!(private_b64, "dwdtCnMYpX08FsFyUbJmRd9ML4frwJkqsXf7pR25LCo=");
}

#[test]
fn generated_keys_are_44_base64_characters() {
    let (private_b64, public_b64) = generate_wireguard_keys();
    assert_eq!(private_b64.len(), 44);
    assert_eq!(public_b64.len(), 44);
    let secret = base64::decode(&private_b64).unwrap();
    assert_eq!(secret.len(), 32);
    assert_eq!(secret[0] & 7, 0);
    assert_eq!(secret[31] & 0xc0, 0x40);
    assert_eq!(wireguard_keys_from_secret(&secret).1, public_b64);
    assert!(!private_b64.contains(','));
}

#[test]
fn base64_padding() {
    assert_eq!(wireguard_keys_from_secret(&vec![0u8; 32]).0, "AAAAAAAAAAAAAAAAAAAAAAAAAAAAAAAAAAAAAAAAAAA=");
}

#[test]
fn random_values_stay_in_range() {
    for _ in 0..200 {
        let b = random_byte();
        assert!((2..254).contains(&b));
        let w = random_word();
        assert!(w >= 966);
    }
    let name = random_name(10);
    assert_eq!(name.chars().count(), 10);
    assert!(name.chars().all(|c| c.is_ascii_alphanumeric()));
    assert_eq!(random_name(0), "");
}

#[test]
fn decoy_profile_shape() {
    let d = decoy_profile("1.2.3.4");
    assert_eq!(d.user_name.len(), 10);
    assert_eq!(d.user_private_key.len(), 44);
    let (addr, prefix) = d.user_nets.split_once('/').unwrap();
    let octets: Vec<u8> = addr.split('.').map(|o| o.parse().unwrap()).collect();
    assert_eq!(octets.len(), 4);
    assert!(octets.iter().all(|o| (2..254).contains(o)));
    let prefix: u8 = prefix.parse().unwrap();
    assert!((9..=40).contains(&prefix));
    let port: u16 = d.default_server_endpoint.strip_prefix("1.2.3.4:").unwrap().parse().unwrap();
    assert!(port >= 966);
}

fn good_config() -> Config {
    Config {
        uuid: "791A455F-DD50-4A61-B535-92920EA34848".to_string(),
        main_net: "100.64".to_string(),
        main_net_mask: "/10".to_string(),
        server_port: 51194,
        server_public_ip: "1.2.3.4".to_string(),
        wireguard_conf: "/Services/Wireguard-tools/wg0.conf".to_string(),
        wireguard_bin: "/Software/Wireguard-tools/exports/wg".to_string(),
        error_log: "/dev/null".to_string(),
    }
}

#[test]
fn config_checks_in_order() {
    assert_eq!(validate_config(&good_config(), true, true), Ok(()));

    let mut c = good_config();
    c.server_public_ip = String::new();
    c.main_net = String::new();
    assert_eq!(validate_config(&c, true, true), Err(ConfigError::EmptyServerPublicIp));

    let mut c = good_config();
    c.main_net = String::new();
    assert_eq!(validate_config(&c, true, true), Err(ConfigError::EmptyMainNet));

    let mut c = good_config();
    c.main_net_mask = String::new();
    assert_eq!(validate_config(&c, true, true), Err(ConfigError::EmptyMainNetMask));

    let mut c = good_config();
    c.uuid = String::new();
    assert_eq!(validate_config(&c, true, true), Err(ConfigError::EmptyUuid));

    assert_eq!(
        validate_config(&good_config(), false, true),
        Err(ConfigError::MissingWireguardConf)
    );
    let mut c = good_config();
    c.wireguard_conf = String::new();
    assert_eq!(validate_config(&c, true, true), Err(ConfigError::MissingWireguardConf));

    assert_eq!(
        validate_config(&good_config(), true, false),
        Err(ConfigError::MissingWireguardBin)
    );

    let mut c = good_config();
    c.server_port = 0;
    assert_eq!(validate_config(&c, true, true), Err(ConfigError::ZeroServerPort));
    assert_eq!(ConfigError::ZeroServerPort.message(), "Config: server_port can't be 0!");
    assert_eq!(
        ConfigError::MissingWireguardConf.message(),
        "Config: wireguard_conf has to be path to wg0.conf and has to exist!"
    );
}

#[test]
fn check_matchers() {
    let file_name_match = |s: &str| is_valid_user_name(s);
    assert!(file_name_match("T0skdjf42"));
    assert!(file_name_match("8sfdsfd222f"));
    assert!(file_name_match("8s fdsf d22 2f"));
    assert!(file_name_match("8s.fdsf.d22.2f"));
    assert!(file_name_match("-8s-fdsf-d 2 2.2f-"));
    assert!(file_name_match("ADA"));
    assert!(!file_name_match("8s"));
    assert!(!file_name_match(""));
    assert!(!file_name_match("8"));
    assert!(!file_name_match("zażółć"));
    assert!(!file_name_match("../../../etc"));
}

#[test]
fn texts_around_a_workstation() {
    assert_eq!(router_ip_address("100.64"), "100.64.1.1");
    assert_eq!(endpoint("1.2.3.4", 51194), "1.2.3.4:51194");
    assert_eq!(endpoint("h", 0), "h:0");
    assert_eq!(user_nets("100.64.1.2", "/10"), "100.64.1.2/10");
    assert_eq!(server_configuration("HEAD", "PEERS"), "HEAD\n\n\nPEERS\n");
}

#[test]
fn user_names_never_leave_the_entry_directory() {
    assert!(is_valid_user_name("..."));
    assert!(is_valid_user_name("a b!#$%&'()*+,-."));
    assert!(!is_valid_user_name(".."));
    assert!(!is_valid_user_name("abc/def"));
    assert!(!is_valid_user_name("abc\ndef"));
    assert!(!is_valid_user_name("abc_def"));
    assert!(!is_valid_user_name("abc:"));
}

#[test]
fn decoy_from_given_draws() {
    let d = decoy_from_draws(
        "1.2.3.4",
        "AbCdEfGhIj".to_string(),
        "KEY=".to_string(),
        (10, 20, 30, 40),
        253,
        966,
    );
    assert_eq!(d.user_name, "AbCdEfGhIj");
    assert_eq!(d.user_private_key, "KEY=");
    assert_eq!(d.user_nets, "10.20.30.40/38");
    assert_eq!(d.default_server_endpoint, "1.2.3.4:966");
}

#[test]
fn key_pair_lengths() {
    let (sk, pk) = wireguard_keys_from_secret(&vec![7u8; 32]);
    assert_eq!(sk.len(), 44);
    assert_eq!(pk.len(), 44);
    assert_eq!(base64::decode(&pk).unwrap().len(), 32);
}
