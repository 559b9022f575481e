use mercurio_sysml::strmap::StrMap;
use mercurio_sysml::text::{
    trim_str,
    after_last_str, before_first_str, replace_str, rsplit_once_str, split_str, strip_prefix_str,
    strip_suffix_str, trim_end_str, usize_to_string,
};

#[test]
fn ordered_map_reads_back_what_was_written() {
    let mut m: StrMap<u32> = StrMap::new();
    assert_eq!(m.insert("b".to_string(), 1), None);
    assert_eq!(m.insert("a".to_string(), 2), None);
    assert_eq!(m.insert("b".to_string(), 3), Some(1));
    assert_eq!(m.get("b"), Some(&3));
    assert_eq!(m.get("c"), None);
    assert_eq!(m.len(), 2);
    assert_eq!(m.key_at(0), "a");
    assert_eq!(m.remove("a"), Some(2));
    assert_eq!(m.remove("a"), None);
    assert_eq!(m.into_values(), vec![3]);
}

#[test]
fn extending_a_map_lets_the_other_map_win() {
    let mut base: StrMap<u32> = StrMap::new();
    base.insert("x".to_string(), 1);
    base.insert("y".to_string(), 2);
    let mut over: StrMap<u32> = StrMap::new();
    over.insert("y".to_string(), 20);
    over.insert("z".to_string(), 30);
    base.extend(over);
    assert_eq!(base.into_values(), vec![1, 20, 30]);
}

#[test]
fn string_searches() {
    assert_eq!(before_first_str("a::*::b", "::*"), "a");
    assert_eq!(after_last_str("a::b::c", "::"), "c");
    assert_eq!(after_last_str("abc", "::"), "abc");
    assert_eq!(rsplit_once_str("a.b.c", "."), Some(("a.b".to_string(), "c".to_string())));
    assert_eq!(rsplit_once_str("abc", "."), None);
    assert_eq!(strip_prefix_str("feature.x", "feature."), Some("x".to_string()));
    assert_eq!(strip_suffix_str("x::", "::"), Some("x".to_string()));
    assert_eq!(trim_end_str("a::::", "::"), "a");
    assert_eq!(trim_end_str("a:::", "::"), "a:");
    assert_eq!(replace_str("A::B::C", "::", "."), "A.B.C");
    assert_eq!(split_str("a..b", "."), vec!["a".to_string(), String::new(), "b".to_string()]);
    assert_eq!(usize_to_string(1204), "1204");
}

#[test]
fn trim_drops_white_space_at_both_ends() {
    assert_eq!(trim_str("  a b \t\n"), "a b");
    assert_eq!(trim_str("\u{3000}x\u{A0}"), "x");
    assert_eq!(trim_str("   "), "");
    assert_eq!(trim_str(""), "");
    assert_eq!(trim_str("x"), "x");
}
