//! Tests for the individual pipeline stages and their edge cases.

use class_roster::filter::class_filter;
use class_roster::group::tag_grouper;
use class_roster::record::ClassRecord;
use class_roster::record::NameResolver;
use class_roster::report::mine;
use class_roster::report::Color;

fn rec(id: u64, tag: &str) -> ClassRecord {
    ClassRecord { id, tag: tag.to_string() }
}

#[test]
fn resolver_hit_and_miss() {
    let mut resolver = NameResolver::new();
    assert_eq!(resolver.resolve(7), None);
    resolver.insert(7, "Chess".to_string());
    assert_eq!(resolver.resolve(7), Some("Chess".to_string()));
    assert_eq!(resolver.resolve(8), None);
}

#[test]
fn resolver_later_entry_wins() {
    let mut resolver = NameResolver::new();
    resolver.insert(7, "Old Name".to_string());
    resolver.insert(7, "New Name".to_string());
    assert_eq!(resolver.resolve(7), Some("New Name".to_string()));
}

#[test]
fn filter_is_case_insensitive_on_tags() {
    let resolver = NameResolver::new();
    let kept = class_filter(vec![rec(1, "ABC"), rec(2, "xyz")], "b", &resolver);
    assert_eq!(kept.len(), 1);
    assert_eq!(kept[0].id, 1);
}

#[test]
fn filter_matches_resolved_names_case_insensitively() {
    let mut resolver = NameResolver::new();
    resolver.insert(5, "Math Club".to_string());
    let kept = class_filter(vec![rec(5, "X"), rec(6, "Y")], "math", &resolver);
    assert_eq!(kept.len(), 1);
    assert_eq!(kept[0].id, 5);
}

#[test]
fn filter_excludes_unresolved_from_name_match() {
    let resolver = NameResolver::new();
    let kept = class_filter(vec![rec(5, "X")], "nonexistant", &resolver);
    assert_eq!(kept.len(), 0);
}

#[test]
fn filter_keeps_at_most_the_input() {
    let resolver = NameResolver::new();
    let kept = class_filter(vec![rec(1, "a"), rec(2, "a"), rec(3, "b")], "a", &resolver);
    assert_eq!(kept.len(), 2);
}

#[test]
fn groups_come_out_in_ascending_tag_order() {
    let groups = tag_grouper(vec![rec(1, "b"), rec(2, ""), rec(3, "a")]);
    assert_eq!(groups.len(), 3);
    assert_eq!(groups[0].tag, "");
    assert_eq!(groups[1].tag, "a");
    assert_eq!(groups[2].tag, "b");
}

#[test]
fn grouping_is_stable_within_a_group() {
    let groups = tag_grouper(vec![rec(3, "a"), rec(1, "a"), rec(2, "a")]);
    assert_eq!(groups.len(), 1);
    let ids: Vec<u64> = groups[0].records.iter().map(|r| r.id).collect();
    assert_eq!(ids, vec![3, 1, 2]);
}

#[test]
fn empty_input_yields_zero_groups() {
    let groups = tag_grouper(vec![]);
    assert_eq!(groups.len(), 0);
}

#[test]
fn empty_tag_is_labeled_none_but_sorts_first() {
    let tokens = vec![1u64, 2];
    let resolver = NameResolver::new();
    let rep = mine(
        &tokens,
        Ok(vec![rec(1, "z"), rec(2, "")]),
        None,
        "user#1",
        &resolver,
    );
    assert_eq!(rep.fields.len(), 2);
    assert_eq!(rep.fields[0].label, "None");
    assert_eq!(rep.fields[1].label, "z");
}

#[test]
fn literal_none_tag_is_not_special() {
    let tokens = vec![1u64];
    let resolver = NameResolver::new();
    let rep = mine(&tokens, Ok(vec![rec(1, "None")]), None, "user#1", &resolver);
    assert_eq!(rep.fields.len(), 1);
    assert_eq!(rep.fields[0].label, "None");
}

#[test]
fn large_ids_render_in_full() {
    let tokens = vec![18446744073709551615u64];
    let resolver = NameResolver::new();
    let rep = mine(
        &tokens,
        Ok(vec![rec(18446744073709551615, "t")]),
        None,
        "user#1",
        &resolver,
    );
    assert_eq!(
        rep.fields[0].body,
        "**NONEXISTANT**\nRole: <@&18446744073709551615>\nId: `18446744073709551615`"
    );
}

#[test]
fn filtered_to_nothing_is_empty_colored() {
    let tokens = vec![1u64];
    let resolver = NameResolver::new();
    let rep = mine(
        &tokens,
        Ok(vec![rec(1, "abc")]),
        Some("zzz".to_string()),
        "user#1",
        &resolver,
    );
    assert_eq!(rep.title, "Displaying 0 of 1");
    assert_eq!(rep.color, Color::Empty);
    assert_eq!(rep.fields.len(), 0);
}
