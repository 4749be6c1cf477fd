use rustray::connection::{check_qos_compatibility, Durability, History, HistoryKind, QosConfig, Reliability};
use rustray::text::{contains_class, join_text, matches_any_pattern, matches_pattern, text_eq, text_less, CharClass};

#[test]
fn text_order_is_strict_and_total() {
    assert!(text_less("a", "b"));
    assert!(text_less("ab", "abc"));
    assert!(!text_less("abc", "ab"));
    assert!(!text_less("same", "same"));
    assert!(text_less("", "x"));
    // Transitive on a chain.
    assert!(text_less("apple", "banana") && text_less("banana", "cherry") && text_less("apple", "cherry"));
}

#[test]
fn patterns() {
    assert!(matches_pattern("10.0.*", "10.0.3.4"));
    assert!(matches_pattern("10.0.*", "10.0."));
    assert!(!matches_pattern("10.0.*", "10.1.0.0"));
    assert!(matches_pattern("exact", "exact"));
    assert!(!matches_pattern("exact", "exactly"));
    assert!(matches_pattern("*", "anything"));
    assert!(matches_any_pattern(&vec!["a".to_string(), "b*".to_string()], "bz"));
    assert!(!matches_any_pattern(&vec![], "bz"));
}

#[test]
fn text_helpers() {
    assert!(text_eq("x", "x"));
    assert!(!text_eq("x", "y"));
    assert_eq!(join_text("ab", "cd"), "abcd");
    assert!(contains_class("abc1", CharClass::Numeric));
    assert!(!contains_class("abc", CharClass::Uppercase));
    assert!(contains_class("a-b", CharClass::Special));
}

fn qos(r: Reliability, d: Durability) -> QosConfig {
    QosConfig { reliability: r, durability: d, deadline: None, lifespan: None, history: History { kind: HistoryKind::KeepAll, depth: 0 } }
}

#[test]
fn qos_compatibility_is_a_preorder() {
    let levels = [
        qos(Reliability::BestEffort, Durability::Volatile),
        qos(Reliability::BestEffort, Durability::Transient),
        qos(Reliability::Reliable, Durability::Transient),
        qos(Reliability::Reliable, Durability::Persistent),
    ];
    for a in levels.iter() {
        assert!(check_qos_compatibility(a, a));
        for b in levels.iter() {
            for c in levels.iter() {
                if check_qos_compatibility(a, b) && check_qos_compatibility(b, c) {
                    assert!(check_qos_compatibility(a, c));
                }
            }
        }
    }
}
