use configuard::decimal::{parse_canonical_octet, parse_u8};
use configuard::ipv4::{find_last_ipv4, format_ipv4, is_valid_ipv4, next_workstation_ipv4, parse_ipv4};
use configuard::workstation::allocate_workstation_ipv4;

#[test]
fn check_v4_workstation_increment() {
    assert_eq!(
        next_workstation_ipv4("127.0.0.0"),
        Some("127.0.0.2".to_string())
    );
    assert_eq!(
        next_workstation_ipv4("127.0.0.1"),
        Some("127.0.0.2".to_string())
    );
    assert_eq!(
        next_workstation_ipv4("127.0.0.2"),
        Some("127.0.0.3".to_string())
    );
    assert_eq!(
        next_workstation_ipv4("127.0.0.253"),
        Some("127.0.0.254".to_string())
    );
    assert_eq!(next_workstation_ipv4("127.0.0.254"), None);
    assert_eq!(next_workstation_ipv4("0"), None);
}

#[test]
fn check_find_last_ipv4() {
    let list = vec![
        "127.0.0.150".to_string(),
        "127.0.0.3".to_string(),
        "127.0.0.10".to_string(),
        "127.0.0.120".to_string(),
        "127.0.0.100".to_string(),
    ];
    assert_eq!(find_last_ipv4(list), Some("127.0.0.150".to_string()));

    let list2 = vec![
        "127.0.0.150".to_string(),
        "127.0.0.3".to_string(),
        "127.0.0.10".to_string(),
        "127.0.0.120".to_string(),
        "127.0.2.100".to_string(),
    ];
    assert_eq!(find_last_ipv4(list2), Some("127.0.2.100".to_string()));

    let list2 = vec![
        "127.0.8.150".to_string(),
        "127.0.224.3".to_string(),
        "127.0.0.10".to_string(),
        "127.0.118.120".to_string(),
        "127.0.2.100".to_string(),
    ];
    assert_eq!(find_last_ipv4(list2), Some("127.0.224.3".to_string()));
}

#[test]
fn find_last_ipv4_of_empty_and_single_lists() {
    assert_eq!(find_last_ipv4(vec![]), None);
    assert_eq!(
        find_last_ipv4(vec!["not an address".to_string()]),
        Some("not an address".to_string())
    );
    assert_eq!(
        find_last_ipv4(vec!["10.0.0.1".to_string(), "9.255.255.255".to_string()]),
        Some("10.0.0.1".to_string())
    );
}

#[test]
fn next_workstation_reads_pieces_leniently() {
    // a piece that is no u8 counts as 1
    assert_eq!(next_workstation_ipv4("abc.0.0.0"), Some("1.0.0.2".to_string()));
    assert_eq!(next_workstation_ipv4("1..2.3"), Some("1.1.2.4".to_string()));
    assert_eq!(next_workstation_ipv4("+7.007.0.9"), Some("7.7.0.10".to_string()));
    assert_eq!(next_workstation_ipv4("1.2.3.x"), Some("1.2.3.2".to_string()));
    assert_eq!(next_workstation_ipv4("1.2.3.255"), None);
    assert_eq!(next_workstation_ipv4("1.2.3.4.5"), None);
    assert_eq!(next_workstation_ipv4(""), None);
}

#[test]
fn next_workstation_twice_steps_by_two() {
    let once = next_workstation_ipv4("100.64.1.7").unwrap();
    let twice = next_workstation_ipv4(&once).unwrap();
    assert_eq!(twice, "100.64.1.9");
}

#[test]
fn u8_parsing_follows_str_parse() {
    for s in ["0", "7", "+5", "255", "007", "-1", "256", "", "+", "1a", " 1", "0255"] {
        assert_eq!(parse_u8(s), s.parse::<u8>().ok(), "input {:?}", s);
    }
}

#[test]
fn canonical_octets() {
    assert_eq!(parse_canonical_octet("0"), Some(0));
    assert_eq!(parse_canonical_octet("255"), Some(255));
    assert_eq!(parse_canonical_octet("01"), None);
    assert_eq!(parse_canonical_octet("256"), None);
    assert_eq!(parse_canonical_octet("1000"), None);
    assert_eq!(parse_canonical_octet("+1"), None);
    assert_eq!(parse_canonical_octet(""), None);
}

#[test]
fn strict_address_syntax() {
    let cases: [(&str, Option<(u8, u8, u8, u8)>); 11] = [
        ("1.2.3.4", Some((1, 2, 3, 4))),
        ("255.255.255.255", Some((255, 255, 255, 255))),
        ("0.0.0.0", Some((0, 0, 0, 0))),
        ("01.2.3.4", None),
        ("1.2.3", None),
        ("1.2.3.4.", None),
        ("256.1.1.1", None),
        ("1.2.3.04", None),
        ("1.2.3.4 ", None),
        ("a.b.c.d", None),
        ("", None),
    ];
    for (s, expected) in cases {
        assert_eq!(parse_ipv4(s), expected, "input {:?}", s);
        assert_eq!(is_valid_ipv4(s), expected.is_some());
    }
}

#[test]
fn formatted_addresses_parse_back() {
    let o = (100u8, 64u8, 0u8, 255u8);
    let s = format_ipv4(o);
    assert_eq!(s, "100.64.0.255");
    assert_eq!(parse_ipv4(&s), Some(o));
}

#[test]
fn allocation_reuses_existing_entry() {
    let r = allocate_workstation_ipv4(
        Some("100.64.1.5,c29tZS1rZXk=\n".to_string()),
        vec![],
        "100.64",
    );
    assert_eq!(r, Some("100.64.1.5".to_string()));
}

#[test]
fn allocation_after_router_when_nothing_is_used() {
    let r = allocate_workstation_ipv4(None, vec![], "100.64");
    assert_eq!(r, Some("100.64.1.2".to_string()));
}

#[test]
fn allocation_after_highest_used_address() {
    let used = vec![
        "123.45.67.89".to_string(),
        "123.45.67.91".to_string(),
        "123.45.67.90".to_string(),
    ];
    let r = allocate_workstation_ipv4(None, used.clone(), "100.64");
    assert_eq!(r, Some("123.45.67.92".to_string()));
    assert!(!used.contains(&r.unwrap()));
}

#[test]
fn allocation_when_pool_is_exhausted() {
    let used = vec!["100.64.1.254".to_string(), "100.64.1.3".to_string()];
    assert_eq!(allocate_workstation_ipv4(None, used, "100.64"), None);
}

#[test]
fn workstation_pool_holds_253_addresses() {
    let mut used: Vec<String> = Vec::new();
    while let Some(ip) = allocate_workstation_ipv4(None, used.clone(), "100.64") {
        assert!(!used.contains(&ip));
        used.push(ip);
    }
    assert_eq!(used.len(), 253);
    assert_eq!(used.first().unwrap(), "100.64.1.2");
    assert_eq!(used.last().unwrap(), "100.64.1.254");
}

#[test]
fn stored_address_is_kept_on_next_request() {
    let used = vec!["10.0.1.7".to_string(), "10.0.1.3".to_string()];
    let ip = allocate_workstation_ipv4(None, used, "10.0").unwrap();
    assert_eq!(ip, "10.0.1.8");
    let line = configuard::entries::entry_line(&ip, "bm90IGEga2V5IGF0IGFsbA==");
    let again = allocate_workstation_ipv4(Some(line), vec!["10.0.1.200".to_string()], "10.0");
    assert_eq!(again, Some(ip));
}
