use rvpacker_json_txt::classify::{classify, Category, DocKind};
use rvpacker_json_txt::model::{CommandNode, Param};
use rvpacker_json_txt::pool::TextPool;
use rvpacker_json_txt::runs::{extract_list, inject_list, split_for_slots};
use rvpacker_json_txt::merge::merge_seq;
use rvpacker_json_txt::tmap::TranslationMap;

fn text_node(code: u64, text: &str) -> CommandNode {
    CommandNode { code, parameters: vec![Param::Text(text.to_owned())] }
}

fn choice_node(items: &[&str]) -> CommandNode {
    CommandNode {
        code: 102,
        parameters: vec![Param::Choices(items.iter().map(|s| (*s).to_owned()).collect())],
    }
}

fn pool_items(pool: &TextPool) -> Vec<String> {
    let mut out = Vec::new();
    let mut i = 0;
    while i < pool.len() {
        out.push(pool.get(i).clone());
        i += 1;
    }
    out
}

#[test]
fn classifier_code_table() {
    assert_eq!(classify(401, &DocKind::MapFamily), Category::Dialogue);
    assert_eq!(classify(405, &DocKind::EntityFamily), Category::Credits);
    assert_eq!(classify(405, &DocKind::MapFamily), Category::Unrecognized);
    assert_eq!(classify(102, &DocKind::MapFamily), Category::Choice);
    assert_eq!(classify(402, &DocKind::EntityFamily), Category::Choice);
    assert_eq!(classify(356, &DocKind::MapFamily), Category::SystemText);
    assert_eq!(classify(324, &DocKind::EntityFamily), Category::SystemText);
    assert_eq!(classify(999, &DocKind::MapFamily), Category::Unrecognized);
}

#[test]
fn split_redistribution_fewer_lines() {
    let slots = split_for_slots("x\ny", 3);
    assert_eq!(slots, vec!["x", "y", ""]);
}

#[test]
fn split_redistribution_more_lines() {
    let slots = split_for_slots("x\ny\nz", 2);
    assert_eq!(slots, vec!["x", "y\nz"]);
}

#[test]
fn split_redistribution_equal_lines() {
    let slots = split_for_slots("x\ny", 2);
    assert_eq!(slots, vec!["x", "y"]);
}

#[test]
fn run_segmentation_two_units() {
    let list = vec![
        text_node(401, "first"),
        text_node(401, "second"),
        text_node(999, "noise"),
        text_node(401, "third"),
    ];
    let mut pool = TextPool::new();
    extract_list(&list, &DocKind::MapFamily, &None, false, &mut pool);
    assert_eq!(pool_items(&pool), vec!["first\nsecond".to_owned(), "third".to_owned()]);
}

#[test]
fn run_never_crosses_unrecognized_code() {
    let list = vec![text_node(401, "a"), text_node(999, "keep"), text_node(401, "b")];
    let mut pool = TextPool::new();
    extract_list(&list, &DocKind::MapFamily, &None, false, &mut pool);
    let items = pool_items(&pool);
    assert_eq!(items, vec!["a".to_owned(), "b".to_owned()]);
    assert!(!items.iter().any(|u| u.contains("keep")));
}

#[test]
fn credits_merge_only_in_entity_lists() {
    let list = vec![text_node(405, "row one"), text_node(405, "row two")];
    let mut pool = TextPool::new();
    extract_list(&list, &DocKind::EntityFamily, &None, false, &mut pool);
    assert_eq!(pool_items(&pool), vec!["row one\nrow two".to_owned()]);
    let mut map_pool = TextPool::new();
    extract_list(&list, &DocKind::MapFamily, &None, false, &mut map_pool);
    assert_eq!(map_pool.len(), 0);
}

#[test]
fn choices_extract_item_by_item() {
    let list = vec![choice_node(&["yes", "", "no"])];
    let mut pool = TextPool::new();
    extract_list(&list, &DocKind::MapFamily, &None, false, &mut pool);
    assert_eq!(pool_items(&pool), vec!["yes".to_owned(), "no".to_owned()]);
}

#[test]
fn aux_code_reads_second_parameter() {
    let list = vec![CommandNode {
        code: 324,
        parameters: vec![Param::Other, Param::Text("slot two".to_owned())],
    }];
    let mut pool = TextPool::new();
    extract_list(&list, &DocKind::MapFamily, &None, false, &mut pool);
    assert_eq!(pool_items(&pool), vec!["slot two".to_owned()]);
}

#[test]
fn inject_splits_translation_across_run() {
    let list = vec![text_node(401, "a"), text_node(401, "b"), text_node(401, "c")];
    let mut m = TranslationMap::new();
    m.insert("a\nb\nc", "x\ny");
    let out = inject_list(&list, &DocKind::MapFamily, &None, false, &m);
    assert_eq!(out[0].parameters[0], Param::Text("x".to_owned()));
    assert_eq!(out[1].parameters[0], Param::Text("y".to_owned()));
    assert_eq!(out[2].parameters[0], Param::Text("".to_owned()));
}

#[test]
fn inject_concatenates_surplus_into_last_slot() {
    let list = vec![text_node(401, "a"), text_node(401, "b")];
    let mut m = TranslationMap::new();
    m.insert("a\nb", "x\ny\nz");
    let out = inject_list(&list, &DocKind::MapFamily, &None, false, &m);
    assert_eq!(out[0].parameters[0], Param::Text("x".to_owned()));
    assert_eq!(out[1].parameters[0], Param::Text("y\nz".to_owned()));
}

#[test]
fn inject_leaves_misses_unchanged() {
    let list = vec![text_node(401, "untranslated"), choice_node(&["pick"])];
    let m = TranslationMap::new();
    let out = inject_list(&list, &DocKind::MapFamily, &None, false, &m);
    assert_eq!(out, list);
}

#[test]
fn inject_replaces_choice_items() {
    let list = vec![choice_node(&["yes", "no"])];
    let mut m = TranslationMap::new();
    m.insert("yes", "oui");
    let out = inject_list(&list, &DocKind::MapFamily, &None, false, &m);
    assert_eq!(
        out[0].parameters[0],
        Param::Choices(vec!["oui".to_owned(), "no".to_owned()])
    );
}

#[test]
fn inject_keeps_node_codes_and_extra_parameters() {
    let list = vec![CommandNode {
        code: 401,
        parameters: vec![Param::Text("a".to_owned()), Param::Other],
    }];
    let mut m = TranslationMap::new();
    m.insert("a", "b");
    let out = inject_list(&list, &DocKind::MapFamily, &None, false, &m);
    assert_eq!(out[0].code, 401);
    assert_eq!(out[0].parameters.len(), 2);
    assert_eq!(out[0].parameters[0], Param::Text("b".to_owned()));
    assert_eq!(out[0].parameters[1], Param::Other);
}

#[test]
fn list_round_trip_with_self_paired_map() {
    let list = vec![
        text_node(401, "line one"),
        text_node(401, "line two"),
        text_node(101, "speaker"),
        choice_node(&["go", "stay"]),
        text_node(356, "ShowInfo"),
    ];
    let mut pool = TextPool::new();
    extract_list(&list, &DocKind::MapFamily, &None, false, &mut pool);
    let lines = pool_items(&pool);
    let m = rvpacker_json_txt::tmap::build_translation_map(&lines, &lines).unwrap();
    let out = inject_list(&list, &DocKind::MapFamily, &None, false, &m);
    assert_eq!(out, list);
}

#[test]
fn merge_collapses_runs_into_first_node() {
    let list = vec![
        text_node(401, "one"),
        text_node(401, "two"),
        text_node(101, "keep"),
        text_node(405, "credit a"),
        text_node(405, "credit b"),
    ];
    let merged = merge_seq(&list);
    assert_eq!(merged.len(), 3);
    assert_eq!(merged[0].parameters[0], Param::Text("one\ntwo".to_owned()));
    assert_eq!(merged[1], text_node(101, "keep"));
    assert_eq!(merged[2].parameters[0], Param::Text("credit a\ncredit b".to_owned()));
}

#[test]
fn merge_keeps_list_without_runs() {
    let list = vec![text_node(101, "a"), choice_node(&["x"])];
    assert_eq!(merge_seq(&list), list);
}

#[test]
fn merged_document_extracts_the_same_units() {
    let list = vec![text_node(401, "one"), text_node(401, "two"), text_node(101, "stop")];
    let merged = merge_seq(&list);
    let mut pool_a = TextPool::new();
    extract_list(&list, &DocKind::MapFamily, &None, false, &mut pool_a);
    let mut pool_b = TextPool::new();
    extract_list(&merged, &DocKind::MapFamily, &None, false, &mut pool_b);
    assert_eq!(pool_items(&pool_a), pool_items(&pool_b));
}
