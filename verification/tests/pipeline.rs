//! End-to-end scenarios for the full pipeline entry point.

use class_roster::record::ClassRecord;
use class_roster::record::NameResolver;
use class_roster::record::QueryFailure;
use class_roster::report::mine;
use class_roster::report::roster_query;
use class_roster::report::Color;

fn rec(id: u64, tag: &str) -> ClassRecord {
    ClassRecord { id, tag: tag.to_string() }
}

fn three_records() -> Vec<ClassRecord> {
    vec![rec(1, "A"), rec(2, "B"), rec(3, "A")]
}

#[test]
fn no_filter_three_records() {
    let tokens = vec![1u64, 2, 3];
    let resolver = NameResolver::new();
    let rep = mine(&tokens, Ok(three_records()), None, "user#1", &resolver);
    assert_eq!(rep.title, "Displaying 3 classes");
    assert_eq!(rep.color, Color::Populated);
    assert_eq!(rep.footer, Some("User: `user#1`".to_string()));
    assert_eq!(rep.description, None);
    assert_eq!(rep.fields.len(), 2);
    assert_eq!(rep.fields[0].label, "A");
    assert_eq!(
        rep.fields[0].body,
        "**NONEXISTANT**\nRole: <@&1>\nId: `1`\n**NONEXISTANT**\nRole: <@&3>\nId: `3`"
    );
    assert_eq!(rep.fields[1].label, "B");
    assert_eq!(rep.fields[1].body, "**NONEXISTANT**\nRole: <@&2>\nId: `2`");
}

#[test]
fn filter_with_all_name_misses() {
    let tokens = vec![1u64, 2, 3];
    let resolver = NameResolver::new();
    let rep = mine(
        &tokens,
        Ok(three_records()),
        Some("a".to_string()),
        "user#1",
        &resolver,
    );
    assert_eq!(rep.title, "Displaying 2 of 3");
    assert_eq!(rep.footer, Some("Filter: `a`, User: `user#1`".to_string()));
    assert_eq!(rep.color, Color::Populated);
    assert_eq!(rep.fields.len(), 1);
    assert_eq!(rep.fields[0].label, "A");
    assert_eq!(
        rep.fields[0].body,
        "**NONEXISTANT**\nRole: <@&1>\nId: `1`\n**NONEXISTANT**\nRole: <@&3>\nId: `3`"
    );
}

#[test]
fn catalog_failure_renders_error_report() {
    let tokens = vec![1u64];
    let resolver = NameResolver::new();
    let failure = QueryFailure { detail: "connection lost".to_string() };
    let rep = mine(&tokens, Err(failure), None, "user#1", &resolver);
    assert_eq!(rep.title, "Error Loading Classes");
    assert_eq!(rep.color, Color::Error);
    assert_eq!(rep.footer, None);
    assert_eq!(rep.description, Some("```connection lost```".to_string()));
    assert_eq!(rep.fields.len(), 0);
}

#[test]
fn empty_token_set_renders_empty_report() {
    let tokens: Vec<u64> = vec![];
    let resolver = NameResolver::new();
    let failure = QueryFailure { detail: "never consulted".to_string() };
    let rep = mine(&tokens, Err(failure), None, "user#1", &resolver);
    assert_eq!(rep.title, "Displaying 0 classes");
    assert_eq!(rep.color, Color::Empty);
    assert_eq!(rep.footer, Some("User: `user#1`".to_string()));
    assert_eq!(rep.fields.len(), 0);
}

#[test]
fn rendering_twice_is_identical() {
    let tokens = vec![1u64, 2, 3];
    let mut resolver = NameResolver::new();
    resolver.insert(1, "Alpha Club".to_string());
    let r1 = mine(
        &tokens,
        Ok(three_records()),
        Some("a".to_string()),
        "user#1",
        &resolver,
    );
    let r2 = mine(
        &tokens,
        Ok(three_records()),
        Some("a".to_string()),
        "user#1",
        &resolver,
    );
    assert_eq!(r1, r2);
}

#[test]
fn blank_filter_counts_as_no_filter() {
    let tokens = vec![1u64];
    let resolver = NameResolver::new();
    let rep = mine(
        &tokens,
        Ok(vec![rec(1, "A")]),
        Some("   ".to_string()),
        "user#1",
        &resolver,
    );
    assert_eq!(rep.title, "Displaying 1 classes");
    assert_eq!(rep.footer, Some("User: `user#1`".to_string()));
}

#[test]
fn roster_query_empty_tokens_never_fails() {
    let tokens: Vec<u64> = vec![];
    let failure = QueryFailure { detail: "down".to_string() };
    let out = roster_query(&tokens, Err(failure));
    assert_eq!(out, Ok(vec![]));
}

#[test]
fn roster_query_passes_failure_through() {
    let tokens = vec![9u64];
    let failure = QueryFailure { detail: "down".to_string() };
    let out = roster_query(&tokens, Err(failure.clone()));
    assert_eq!(out, Err(failure));
}

#[test]
fn resolved_names_appear_in_fields() {
    let tokens = vec![42u64];
    let mut resolver = NameResolver::new();
    resolver.insert(42, "Robotics".to_string());
    let rep = mine(&tokens, Ok(vec![rec(42, "Tech")]), None, "user#1", &resolver);
    assert_eq!(rep.fields.len(), 1);
    assert_eq!(rep.fields[0].label, "Tech");
    assert_eq!(rep.fields[0].body, "**Robotics**\nRole: <@&42>\nId: `42`");
}
