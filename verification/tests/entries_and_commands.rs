use configuard::command::command_words;
use configuard::entries::{
    both_elements, entry_line, entry_rows, first_of_pair, is_hidden_name, join_rendered_entries,
    readable_pairs, remove_char, used_ipv4s,
};

#[test]
fn first_of_pair_takes_first_field_without_line_breaks() {
    assert_eq!(
        first_of_pair("123.45.67.89,pubkey\n".to_string()),
        Some("123.45.67.89".to_string())
    );
    assert_eq!(first_of_pair("no comma\n".to_string()), Some("no comma".to_string()));
    assert_eq!(first_of_pair("".to_string()), Some("".to_string()));
    assert_eq!(first_of_pair("a\nb,c".to_string()), Some("ab".to_string()));
}

#[test]
fn both_elements_takes_first_and_last_fields() {
    assert_eq!(
        both_elements("1.2.3.4,key".to_string()),
        Some(("1.2.3.4".to_string(), "key".to_string()))
    );
    assert_eq!(
        both_elements("a,b,c".to_string()),
        Some(("a".to_string(), "c".to_string()))
    );
    assert_eq!(
        both_elements("single".to_string()),
        Some(("single".to_string(), "single".to_string()))
    );
}

#[test]
fn entry_line_is_read_back() {
    let line = entry_line("100.64.1.2", "AbC+/0==");
    assert_eq!(line, "100.64.1.2,AbC+/0==");
    assert_eq!(first_of_pair(line.clone()), Some("100.64.1.2".to_string()));
    assert_eq!(
        both_elements(line),
        Some(("100.64.1.2".to_string(), "AbC+/0==".to_string()))
    );
}

#[test]
fn readable_files_give_pairs_and_addresses() {
    let contents = vec![
        Some("123.45.67.89,k1".to_string()),
        None,
        Some("123.45.67.90,k2\n".to_string()),
    ];
    assert_eq!(
        readable_pairs(&contents),
        vec![
            ("123.45.67.89".to_string(), "k1".to_string()),
            ("123.45.67.90".to_string(), "k2\n".to_string()),
        ]
    );
    assert_eq!(
        used_ipv4s(&contents),
        vec!["123.45.67.89".to_string(), "123.45.67.90".to_string()]
    );
}

#[test]
fn entries_are_joined_with_empty_lines() {
    let rendered = vec!["[Peer]\nA".to_string(), "[Peer]\nB".to_string()];
    assert_eq!(join_rendered_entries(&rendered), "[Peer]\nA\n\n[Peer]\nB\n\n");
    assert_eq!(join_rendered_entries(&vec![]), "");
}

#[test]
fn entry_rows_are_cut_to_the_shorter_list() {
    let names = vec!["a".to_string(), "b".to_string(), "c".to_string()];
    let pairs = vec![("1".to_string(), "k1".to_string()), ("2".to_string(), "k2".to_string())];
    assert_eq!(
        entry_rows(&names, &pairs),
        vec![
            ("a".to_string(), "1".to_string(), "k1".to_string()),
            ("b".to_string(), "2".to_string(), "k2".to_string()),
        ]
    );
}

#[test]
fn hidden_names_start_with_a_dot() {
    assert!(is_hidden_name(".lock"));
    assert!(!is_hidden_name("dmilith"));
    assert!(!is_hidden_name(""));
}

#[test]
fn server_key_line_breaks_are_removed() {
    assert_eq!(remove_char("abc=\n", '\n'), "abc=");
    assert_eq!(remove_char("a\nb\n\nc", '\n'), "abc");
}

#[test]
fn command_lines_fall_into_words() {
    assert_eq!(
        command_words("route add -host 1.2.3.4 \\\n\t-interface wg0\r\n"),
        vec!["route", "add", "-host", "1.2.3.4", "-interface", "wg0"]
    );
    assert!(command_words(" \n\t ").is_empty());
    assert_eq!(command_words("a\u{3000}b"), vec!["a", "b"]);
    let text = "ifconfig  bridge0\\alias 100.64.1.1/10 ";
    let expected: Vec<String> = text
        .replace(['\t', '\n', '\r', '\\'], " ")
        .split_whitespace()
        .map(|s| s.to_string())
        .collect();
    assert_eq!(command_words(text), expected);
    for word in command_words("wg syncconf wg0\t/Services/wg0.conf \\ \u{a0}x") {
        assert!(!word.is_empty());
        assert!(!word.chars().any(|c| c.is_whitespace() || c == '\\'));
    }
}
