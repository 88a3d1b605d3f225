use bombon::strmap::{search_keys, StrMap, StrSet};
use bombon::text::{bom_ref, key_equal, key_less, str_lt, trim};

#[test]
fn set_keeps_order_and_refuses_duplicates() {
    let mut s = StrSet::new();
    assert!(s.insert("b".to_string()));
    assert!(s.insert("a".to_string()));
    assert!(s.insert("c".to_string()));
    assert!(!s.insert("b".to_string()));
    assert_eq!(s.len(), 3);
    assert_eq!(s.get(0), "a");
    assert_eq!(s.get(1), "b");
    assert_eq!(s.get(2), "c");
    assert!(s.contains("c"));
    assert!(!s.contains("d"));
    assert_eq!(s.into_vec(), vec!["a".to_string(), "b".to_string(), "c".to_string()]);
}

#[test]
fn set_orders_as_strings_do() {
    let mut s = StrSet::new();
    for x in ["é", "z", "Z", "", "ab", "a"] {
        s.insert(x.to_string());
    }
    let mut expected: Vec<String> = ["é", "z", "Z", "", "ab", "a"].iter().map(|x| x.to_string()).collect();
    expected.sort();
    assert_eq!(s.into_vec(), expected);
}

#[test]
fn map_insert_replaces_value() {
    let mut m: StrMap<u32> = StrMap::new();
    assert!(m.insert("k".to_string(), 1));
    assert!(m.insert("a".to_string(), 2));
    assert!(!m.insert("k".to_string(), 3));
    assert_eq!(m.len(), 2);
    assert_eq!(m.get("k"), Some(&3));
    assert_eq!(m.get("a"), Some(&2));
    assert_eq!(m.get("x"), None);
    assert_eq!(m.index_of("k"), Some(1));
    assert_eq!(m.key_at(0), "a");
    assert_eq!(*m.value_at(0), 2);
    assert!(m.contains_key("a"));
    assert!(!m.contains_key("b"));
}

#[test]
fn map_insert_if_absent_keeps_first() {
    let mut m: StrMap<u32> = StrMap::new();
    assert!(m.insert_if_absent("k".to_string(), 1));
    assert!(!m.insert_if_absent("k".to_string(), 2));
    assert_eq!(m.get("k"), Some(&1));
    let old = m.replace_at(0, 5);
    assert_eq!(old, 1);
    let (keys, vals) = m.into_parts();
    assert_eq!(keys, vec!["k".to_string()]);
    assert_eq!(vals, vec![5]);
}

#[test]
fn binary_search_over_sorted_keys() {
    let items = vec!["a".to_string(), "c".to_string(), "e".to_string()];
    assert_eq!(search_keys(&items, "c"), Ok(1));
    assert_eq!(search_keys(&items, "a"), Ok(0));
    assert_eq!(search_keys(&items, "b"), Err(1));
    assert_eq!(search_keys(&items, "f"), Err(3));
    assert_eq!(search_keys(&items, ""), Err(0));
}

#[test]
fn string_order() {
    assert!(str_lt("a", "b"));
    assert!(str_lt("a", "ab"));
    assert!(!str_lt("ab", "a"));
    assert!(!str_lt("a", "a"));
    assert!(str_lt("Z", "a"));
    assert!(key_less("z", "é"));
    assert!(key_equal("abc", "abc"));
    assert!(!key_equal("abc", "abd"));
}

#[test]
fn bom_ref_strips_store_prefix() {
    assert_eq!(bom_ref("/nix/store/abc-hello-1.0"), "abc-hello-1.0");
    assert_eq!(bom_ref("/tmp/x"), "/tmp/x");
    assert_eq!(bom_ref("/nix/store/"), "");
}

#[test]
fn trim_removes_whitespace_at_both_ends() {
    assert_eq!(trim("  a b \n\t"), "a b");
    assert_eq!(trim(""), "");
    assert_eq!(trim("   "), "");
    assert_eq!(trim("\u{a0}x\u{3000}"), "x");
}
