use lwc_store::digest::hash_content;
use lwc_store::json::{keys_are, Json};
use lwc_store::markdown::{
    extract_links, has_structural_navigation_marker, markdown_link_target, normalize_heading,
};
use lwc_store::paging::{copy_page, effective_offset, page_bounds};
use lwc_store::table::{Pair, Table, Triple};
use lwc_store::text::{
    add_text, any_control, begins_with, blank, byte_len, comes_before, contains_text, decimal_text,
    ends_with, head_text, hex, join3, lower_hex, natural_text, parse_count, parse_i64, sorted_texts, split, trim,
};

#[test]
fn decimals_read_back() {
    for n in [0, 7, -7, 10, 1234567890, i64::MAX, i64::MIN] {
        assert_eq!(decimal_text(n), n.to_string());
        assert_eq!(parse_i64(&decimal_text(n)), Some(n));
    }
    assert_eq!(natural_text(u128::MAX), u128::MAX.to_string());
}

#[test]
fn integers_are_read_as_rust_reads_them() {
    for said in ["", "+", "-", "+5", "-0", "007", "1_0", "0x1", " 1", "1 ", "9223372036854775808", "٣"] {
        assert_eq!(parse_i64(said), said.parse::<i64>().ok(), "{said}");
    }
}

#[test]
fn counts_are_plain_runs_of_digits() {
    let most = usize::MAX.to_string();
    assert_eq!(parse_count(&most), Some(usize::MAX));
    assert_eq!(parse_count("0"), Some(0));
    for said in ["", "-1", "1.5", "1e3", "18446744073709551616"] {
        assert_eq!(parse_count(said), None, "{said}");
    }
}

#[test]
fn texts_are_cut_and_joined() {
    assert_eq!(trim("\u{3000} a b\t\n"), "a b");
    assert!(blank(" \u{2003}\n"));
    assert!(!blank("x"));
    assert_eq!(split("a//b", '/'), vec!["a", "", "b"]);
    assert_eq!(split("", '/'), vec![""]);
    assert_eq!(head_text("héllo", 2), "hé");
    assert_eq!(byte_len("héllo"), 6);
    assert_eq!(join3("a", "b", "c"), "abc");
    assert!(begins_with("page:x", "page:"));
    assert!(!begins_with("pa", "page:"));
    assert!(ends_with("x.md", ".md"));
    assert!(contains_text("abcabd", "abd"));
    assert!(contains_text("abc", ""));
    assert!(!contains_text("ab", "abc"));
    assert!(any_control("a\u{7f}"));
    assert!(!any_control("a b"));
}

#[test]
fn digests_are_told_by_their_alphabet() {
    assert!(lower_hex(&"a1".repeat(32), 64));
    assert!(!lower_hex(&"A1".repeat(32), 64));
    assert!(hex(&"A1".repeat(32), 64));
    assert!(!hex(&"a1".repeat(31), 64));
}

#[test]
fn texts_come_in_the_order_of_their_bytes() {
    let mut words = vec!["Z", "a", "é", "\u{ffff}", "\u{10000}", "", "ab"];
    let owned: Vec<String> = words.iter().map(|word| word.to_string()).collect();
    words.sort();
    assert_eq!(sorted_texts(&owned), words);
    for a in &words {
        for b in &words {
            assert_eq!(comes_before(a, b), a < b);
        }
    }
    let mut list = vec!["a".to_string(), "c".to_string()];
    assert!(add_text(&mut list, "b"));
    assert!(!add_text(&mut list, "b"));
    assert_eq!(list, vec!["a", "b", "c"]);
}

#[test]
fn content_is_named_by_its_sha_256() {
    assert_eq!(hash_content("abc"), "ba7816bf8f01cfea414140de5dae2223b00361a396177a9cb410ff61f20015ad");
    assert_eq!(hash_content(""), "e3b0c44298fc1c149afbf4c8996fb92427ae41e4649b934ca495991b7852b855");
}

#[test]
fn tables_hold_one_value_under_a_key_in_order() {
    let mut table: Table<String, String> = Table::new();
    table.put("b".to_string(), "1".to_string());
    table.put("a".to_string(), "2".to_string());
    table.put("b".to_string(), "3".to_string());
    assert_eq!(table.len(), 2);
    assert_eq!(table.key_at(0), "a");
    assert_eq!(table.value_at(1), "3");
    assert_eq!(table.get(&"a".to_string()), Some(&"2".to_string()));
    let copy = table.copy();
    assert!(copy.equals(&table));
    assert!(table.remove(&"a".to_string()));
    assert!(!table.remove(&"a".to_string()));
    assert!(!table.has(&"a".to_string()));
    assert!(!copy.equals(&table));
}

#[test]
fn tables_order_pairs_and_triples_by_their_parts() {
    let mut pairs: Table<Pair, bool> = Table::new();
    pairs.put(Pair::new("b", "a"), true);
    pairs.put(Pair::new("a", "z"), true);
    pairs.put(Pair::new("a", "b"), true);
    let seen: Vec<(String, String)> = (0..pairs.len())
        .map(|i| (pairs.key_at(i).first.clone(), pairs.key_at(i).second.clone()))
        .collect();
    assert_eq!(
        seen,
        vec![
            ("a".to_string(), "b".to_string()),
            ("a".to_string(), "z".to_string()),
            ("b".to_string(), "a".to_string()),
        ]
    );
    let mut triples: Table<Triple, bool> = Table::new();
    triples.put(Triple::new("a", "b", "d"), true);
    triples.put(Triple::new("a", "b", "c"), false);
    assert_eq!(triples.key_at(0).third, "c");
    let mut ids: Table<i64, bool> = Table::new();
    ids.put(3, true);
    ids.put(-3, true);
    assert_eq!(*ids.key_at(0), -3);
}

#[test]
fn pages_of_a_list_stay_within_it() {
    assert_eq!(page_bounds(10, 3, 4), (3, 7));
    assert_eq!(page_bounds(10, 8, 4), (8, 10));
    assert_eq!(page_bounds(10, 12, 4), (10, 10));
    assert_eq!(page_bounds(10, 0, usize::MAX), (0, 10));
    let list: Vec<String> = ["a", "b", "c"].iter().map(|s| s.to_string()).collect();
    assert_eq!(copy_page(&list, 1, 1), vec!["b"]);
    assert_eq!(effective_offset(5), 5);
    assert_eq!(effective_offset(usize::MAX), 0);
}

#[test]
fn objects_keep_their_keys_in_order() {
    let mut value = Json::empty_object();
    value.set("b", Json::Int(1));
    value.set("a", Json::Bool(true));
    value.set("b", Json::text("x"));
    match &value {
        Json::Object(entries) => {
            assert_eq!(entries.len(), 2);
            assert_eq!(entries[0].0, "a");
            assert!(keys_are(entries, &vec!["b".to_string(), "a".to_string()]));
            assert!(!keys_are(entries, &vec!["a".to_string()]));
        }
        _ => panic!("an object is expected"),
    }
    assert_eq!(value.text_at("b"), Some(&"x".to_string()));
    assert_eq!(value.bool_at("a"), Some(true));
    assert_eq!(value.int_at("a"), None);
    assert!(value.same(&value.duplicate()));
    assert!(!value.same(&Json::Null));
}

#[test]
fn links_to_pages_are_found() {
    let body = "See [a](topics/a.md), [[b]], [[c|C]] and [[d#part]].\n\n`[[not]]` and [web](https://x.y/z.md).\n\n```\n[[nor]]\n```\n";
    assert_eq!(extract_links(body), vec!["a", "b", "c", "d", "z"]);
}

#[test]
fn link_targets_lose_what_does_not_name_a_page() {
    assert_eq!(markdown_link_target("topics/a.md#part"), Some("a".to_string()));
    assert_eq!(markdown_link_target("https://example.org/b.MD?raw=1"), Some("b".to_string()));
    assert_eq!(markdown_link_target(".md"), Some(".md".to_string()));
    assert_eq!(markdown_link_target("a.txt"), None);
    assert_eq!(markdown_link_target("a.md/"), None);
}

#[test]
fn navigation_is_told_whatever_its_case() {
    assert!(has_structural_navigation_marker("# TABLE OF Contents"));
    assert!(has_structural_navigation_marker("文档目录"));
    assert!(!has_structural_navigation_marker("contents of a table"));
}

#[test]
fn headings_are_compared_without_case_and_spacing() {
    assert_eq!(normalize_heading("  Two \t WORDS "), "two words");
}
