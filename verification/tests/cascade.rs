//! Unit tests for values, selector matching, specificity and the cascade.

use tinyrender::css::{Color, Declaration, Rule, SimpleSelector, Specificity, Stylesheet, Value};
use tinyrender::css::specificity_ge;
use tinyrender::dom::ElementData;
use tinyrender::style::{display_value, match_strength, selector_matches, specified_values, style_value, Display};

fn elem_data(tag: &str, id: Option<&str>, classes: &[&str]) -> ElementData {
    ElementData {
        tag_name: tag.to_string(),
        id: id.map(|s| s.to_string()),
        classes: classes.iter().map(|s| s.to_string()).collect(),
    }
}

fn decl(name: &str, value: Value) -> Declaration {
    Declaration { name: name.to_string(), value }
}

fn sel(tag: Option<&str>, id: Option<&str>, classes: &[&str]) -> SimpleSelector {
    SimpleSelector {
        tag_name: tag.map(|s| s.to_string()),
        id: id.map(|s| s.to_string()),
        classes: classes.iter().map(|s| s.to_string()).collect(),
    }
}

fn lookup(specified: &Vec<(String, Value)>, name: &str) -> Option<Value> {
    style_value(specified, &name.to_string())
}

#[test]
fn value_to_px_and_auto() {
    assert_eq!(Value::Length(42).to_px(), 42);
    assert_eq!(Value::Keyword("auto".to_string()).to_px(), 0);
    assert_eq!(Value::ColorValue(Color { r: 1, g: 2, b: 3, a: 4 }).to_px(), 0);
    assert!(Value::Keyword("auto".to_string()).is_auto());
    assert!(!Value::Keyword("block".to_string()).is_auto());
    assert!(!Value::Length(0).is_auto());
}

#[test]
fn specificity_counts_and_order() {
    let s = sel(Some("div"), Some("x"), &["a", "b"]);
    assert_eq!(s.specificity(), Specificity { ids: 1, classes: 2, tags: 1 });
    let lo = Specificity { ids: 0, classes: 9, tags: 9 };
    let hi = Specificity { ids: 1, classes: 0, tags: 0 };
    assert!(specificity_ge(hi, lo));
    assert!(!specificity_ge(lo, hi));
    assert!(specificity_ge(lo, lo));
    let a = Specificity { ids: 0, classes: 1, tags: 0 };
    let b = Specificity { ids: 0, classes: 0, tags: 1 };
    assert!(specificity_ge(a, b));
}

#[test]
fn selector_matching() {
    let e = elem_data("div", Some("main"), &["wide", "note"]);
    assert!(selector_matches(&e, &sel(Some("div"), None, &[])));
    assert!(!selector_matches(&e, &sel(Some("p"), None, &[])));
    assert!(selector_matches(&e, &sel(None, Some("main"), &[])));
    assert!(!selector_matches(&e, &sel(None, Some("other"), &[])));
    assert!(selector_matches(&e, &sel(None, None, &["wide"])));
    assert!(selector_matches(&e, &sel(None, None, &["note", "wide"])));
    assert!(!selector_matches(&e, &sel(None, None, &["wide", "missing"])));
    assert!(selector_matches(&e, &sel(Some("div"), Some("main"), &["wide"])));
    // The universal selector matches anything.
    assert!(selector_matches(&e, &sel(None, None, &[])));
}

#[test]
fn match_strength_is_best_matching_selector() {
    let e = elem_data("div", Some("main"), &["wide"]);
    let r = vec![
        sel(Some("p"), None, &[]),
        sel(Some("div"), None, &[]),
        sel(None, Some("main"), &[]),
    ];
    assert_eq!(match_strength(&e, &r), Some(Specificity { ids: 1, classes: 0, tags: 0 }));
    let none = vec![sel(Some("p"), None, &[]), sel(None, None, &["missing"])];
    assert_eq!(match_strength(&e, &none), None);
}

/// Equal specificity: the later rule in source order wins.
#[test]
fn later_rule_wins_at_equal_specificity() {
    let e = elem_data("div", None, &[]);
    let sheet = Stylesheet {
        rules: vec![
            Rule {
                selectors: vec![sel(Some("div"), None, &[])],
                declarations: vec![decl("width", Value::Length(100))],
            },
            Rule {
                selectors: vec![sel(Some("div"), None, &[])],
                declarations: vec![decl("width", Value::Length(200))],
            },
        ],
    };
    let specified = specified_values(&e, &sheet);
    assert_eq!(lookup(&specified, "width"), Some(Value::Length(200)));
}

/// A higher-specificity rule beats a later lower-specificity rule.
#[test]
fn higher_specificity_beats_source_order() {
    let e = elem_data("div", None, &["wide"]);
    let sheet = Stylesheet {
        rules: vec![
            Rule {
                selectors: vec![sel(None, None, &["wide"])],
                declarations: vec![decl("width", Value::Length(100))],
            },
            Rule {
                selectors: vec![sel(Some("div"), None, &[])],
                declarations: vec![decl("width", Value::Length(200))],
            },
        ],
    };
    let specified = specified_values(&e, &sheet);
    assert_eq!(lookup(&specified, "width"), Some(Value::Length(100)));
}

/// Within one rule, the last declaration of a property wins.
#[test]
fn last_declaration_in_rule_wins() {
    let e = elem_data("div", None, &[]);
    let sheet = Stylesheet {
        rules: vec![Rule {
            selectors: vec![sel(Some("div"), None, &[])],
            declarations: vec![
                decl("width", Value::Length(1)),
                decl("width", Value::Length(2)),
            ],
        }],
    };
    let specified = specified_values(&e, &sheet);
    assert_eq!(lookup(&specified, "width"), Some(Value::Length(2)));
}

/// Rules that do not match leave no trace; unset properties are absent.
#[test]
fn non_matching_rules_ignored() {
    let e = elem_data("div", None, &[]);
    let sheet = Stylesheet {
        rules: vec![Rule {
            selectors: vec![sel(Some("p"), None, &[])],
            declarations: vec![decl("width", Value::Length(100))],
        }],
    };
    let specified = specified_values(&e, &sheet);
    assert_eq!(lookup(&specified, "width"), None);
    assert_eq!(specified.len(), 0);
}

#[test]
fn display_classification() {
    let mk = |kw: &str| vec![("display".to_string(), Value::Keyword(kw.to_string()))];
    assert!(display_value(&mk("block")) == Display::Block);
    assert!(display_value(&mk("none")) == Display::DisplayNone);
    assert!(display_value(&mk("inline")) == Display::Inline);
    // Anything unknown, a non-keyword, or nothing at all is inline.
    assert!(display_value(&vec![("display".to_string(), Value::Length(3))]) == Display::Inline);
    assert!(display_value(&Vec::new()) == Display::Inline);
}

#[test]
fn has_class_lookup() {
    let e = elem_data("div", None, &["a", "b"]);
    assert!(e.has_class(&"a".to_string()));
    assert!(e.has_class(&"b".to_string()));
    assert!(!e.has_class(&"c".to_string()));
}
