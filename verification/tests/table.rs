use tts_clean::table::{key_order, KeyOrder, ReplacementTable};

fn entries(table: &ReplacementTable) -> Vec<(String, String)> {
    let mut out = Vec::new();
    let mut i = 0;
    while i < table.len() {
        out.push((table.key(i).clone(), table.value(i).clone()));
        i += 1;
    }
    out
}

fn pair(k: &str, v: &str) -> (String, String) {
    (k.to_string(), v.to_string())
}

#[test]
fn a_new_table_is_empty() {
    let table = ReplacementTable::new();
    assert!(table.is_empty());
    assert_eq!(table.len(), 0);
}

#[test]
fn keys_are_kept_in_ascending_order() {
    let mut table = ReplacementTable::new();
    table.insert("b", "2");
    table.insert("a", "1");
    table.insert("c", "3");
    table.insert("ab", "12");
    table.insert("", "0");
    assert_eq!(
        entries(&table),
        vec![pair("", "0"), pair("a", "1"), pair("ab", "12"), pair("b", "2"), pair("c", "3")]
    );
    assert!(!table.is_empty());
    assert_eq!(table.len(), 5);
}

#[test]
fn a_key_is_held_once() {
    let mut table = ReplacementTable::new();
    table.insert("a", "1");
    table.insert("b", "2");
    table.insert("a", "one");
    assert_eq!(entries(&table), vec![pair("a", "one"), pair("b", "2")]);
}

#[test]
fn the_order_is_that_of_a_sorted_map() {
    let keys = ["HTTP", "HTTPS", "API", "z", "Z", "\u{d7}", "::", ";", "{", "}", "(", ")", "", "a b"];
    let mut table = ReplacementTable::new();
    let mut map = std::collections::BTreeMap::new();
    for key in keys {
        table.insert(key, "v");
        map.insert(key.to_string(), "v".to_string());
    }
    let want: Vec<(String, String)> = map.into_iter().collect();
    assert_eq!(entries(&table), want);
}

#[test]
fn key_order_compares_character_by_character() {
    assert_eq!(key_order("a", "b"), KeyOrder::Before);
    assert_eq!(key_order("b", "a"), KeyOrder::After);
    assert_eq!(key_order("a", "a"), KeyOrder::Same);
    assert_eq!(key_order("", ""), KeyOrder::Same);
    assert_eq!(key_order("", "a"), KeyOrder::Before);
    assert_eq!(key_order("ab", "a"), KeyOrder::After);
    assert_eq!(key_order("Z", "a"), KeyOrder::Before);
    assert_eq!(key_order("z", "\u{e9}"), KeyOrder::Before);
}

#[test]
fn longest_keys_come_first() {
    let mut table = ReplacementTable::new();
    table.insert("\u{d7}", " by ");
    table.insert("::", " colon colon ");
    table.insert(";", ",");
    table.insert("{", " brace ");
    table.insert("(", ", ");
    let order: Vec<String> = table.longest_first().into_iter().map(|e| e.0).collect();
    assert_eq!(order, vec!["::", "\u{d7}", "(", ";", "{"]);
}

#[test]
fn keys_of_one_length_keep_the_order_of_the_table() {
    let mut table = ReplacementTable::new();
    table.insert("bb", "2");
    table.insert("a", "1");
    table.insert("aa", "3");
    table.insert("ccc", "4");
    let order: Vec<(String, String)> = table.longest_first();
    assert_eq!(order, vec![pair("ccc", "4"), pair("aa", "3"), pair("bb", "2"), pair("a", "1")]);
}

#[test]
fn the_order_of_application_holds_every_entry_once() {
    let mut table = ReplacementTable::new();
    for key in ["a", "bbb", "cc", "dd", "e", "ffff", ""] {
        table.insert(key, key);
    }
    let order = table.longest_first();
    assert_eq!(order.len(), table.len());
    let mut sorted: Vec<(String, String)> = order.clone();
    sorted.sort();
    assert_eq!(sorted, entries(&table));
    for pair in order.windows(2) {
        assert!(pair[0].0.len() >= pair[1].0.len());
    }
}
