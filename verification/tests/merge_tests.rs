use overl::document::Document;
use overl::entries::{find_key, keys_distinct, put_entry};
use overl::insert::write_last;
use overl::file::File;
use overl::insert::insert;
use overl::marker::{is_marker, marker_for};
use overl::merge::merge;

fn text(s: &str) -> Document {
    Document::String(s.to_string())
}

fn num(i: i64) -> Document {
    Document::Integer(i)
}

fn array(items: Vec<Document>) -> Document {
    Document::Array(items)
}

fn object(entries: Vec<(&str, Document)>) -> Document {
    Document::Object(entries.into_iter().map(|(k, v)| (k.to_string(), v)).collect())
}

fn path(segments: &[&str]) -> Vec<String> {
    segments.iter().map(|s| s.to_string()).collect()
}

fn merged(base: Document, overlay: Document) -> Document {
    let mut base = base;
    merge(&mut base, overlay);
    base
}

#[test]
fn merge_nested_object_into_empty_base() {
    let overlay = object(vec![("a", object(vec![("b", num(1))]))]);
    assert_eq!(
        merged(object(vec![]), overlay),
        object(vec![("a", object(vec![("b", num(1))]))])
    );
}

#[test]
fn merge_array_into_empty_base_keeps_order() {
    let overlay = object(vec![("list", array(vec![num(1), num(2), num(3)]))]);
    assert_eq!(
        merged(object(vec![]), overlay),
        object(vec![("list", array(vec![num(1), num(2), num(3)]))])
    );
}

#[test]
fn merging_an_object_overlay_twice_changes_nothing_more() {
    let overlay = || {
        object(vec![
            ("a", object(vec![("b", num(1)), ("c", text("x"))])),
            ("d", Document::Bool(true)),
        ])
    };
    let base = object(vec![("a", object(vec![("b", num(7))])), ("z", Document::Null)]);
    let once = merged(base, overlay());
    let twice = merged(merged(object(vec![("a", object(vec![("b", num(7))])), ("z", Document::Null)]), overlay()), overlay());
    assert_eq!(once, twice);
    assert_eq!(
        once,
        object(vec![
            ("a", object(vec![("b", num(1)), ("c", text("x"))])),
            ("z", Document::Null),
            ("d", Document::Bool(true)),
        ])
    );
}

#[test]
fn merging_an_array_overlay_twice_appends_twice() {
    let overlay = || object(vec![("list", array(vec![num(1), num(2)]))]);
    let once = merged(object(vec![]), overlay());
    let twice = merged(merged(object(vec![]), overlay()), overlay());
    assert_eq!(once, object(vec![("list", array(vec![num(1), num(2)]))]));
    assert_eq!(
        twice,
        object(vec![("list", array(vec![num(1), num(2), num(1), num(2)]))])
    );
    assert_ne!(once, twice);
}

#[test]
fn merging_an_empty_overlay_changes_nothing() {
    let base = object(vec![("a", num(1)), ("b", array(vec![text("x")]))]);
    assert_eq!(
        merged(object(vec![("a", num(1)), ("b", array(vec![text("x")]))]), object(vec![])),
        base
    );
}

#[test]
fn an_empty_object_in_the_overlay_writes_nothing() {
    let overlay = object(vec![("a", object(vec![]))]);
    assert_eq!(merged(object(vec![("k", num(1))]), overlay), object(vec![("k", num(1))]));
}

#[test]
fn overlay_scalar_wins_at_the_same_path() {
    let base = object(vec![("a", num(1)), ("b", num(2))]);
    let overlay = object(vec![("a", text("new"))]);
    assert_eq!(merged(base, overlay), object(vec![("a", text("new")), ("b", num(2))]));
}

#[test]
fn overlay_object_replaces_a_scalar_in_place() {
    let base = object(vec![("a", num(1)), ("b", num(2))]);
    let overlay = object(vec![("a", object(vec![("x", num(9))]))]);
    assert_eq!(
        merged(base, overlay),
        object(vec![("a", object(vec![("x", num(9))])), ("b", num(2))])
    );
}

#[test]
fn overlay_array_replaces_an_object_in_place() {
    let base = object(vec![("a", object(vec![("x", num(9))])), ("b", num(2))]);
    let overlay = object(vec![("a", array(vec![num(5)]))]);
    assert_eq!(merged(base, overlay), object(vec![("a", array(vec![num(5)])), ("b", num(2))]));
}

#[test]
fn overlay_object_replaces_an_array() {
    let base = object(vec![("a", array(vec![num(5)]))]);
    let overlay = object(vec![("a", object(vec![("x", num(1))]))]);
    assert_eq!(merged(base, overlay), object(vec![("a", object(vec![("x", num(1))]))]));
}

#[test]
fn overlay_array_appends_to_an_array_of_the_base() {
    let base = object(vec![("list", array(vec![num(1)]))]);
    let overlay = object(vec![("list", array(vec![num(2), num(3)]))]);
    assert_eq!(
        merged(base, overlay),
        object(vec![("list", array(vec![num(1), num(2), num(3)]))])
    );
}

#[test]
fn containers_inside_an_array_are_stored_whole() {
    let element = || object(vec![("name", text("n")), ("tags", array(vec![text("t")]))]);
    let overlay = object(vec![("items", array(vec![element(), array(vec![num(1)])]))]);
    assert_eq!(
        merged(object(vec![]), overlay),
        object(vec![("items", array(vec![element(), array(vec![num(1)])]))])
    );
}

#[test]
fn objects_are_walked_breadth_first() {
    let overlay = object(vec![("a", object(vec![("x", num(1))])), ("b", num(2))]);
    assert_eq!(
        merged(object(vec![]), overlay),
        object(vec![("b", num(2)), ("a", object(vec![("x", num(1))]))])
    );
}

#[test]
fn an_array_is_written_before_later_scalars_of_its_level() {
    let overlay = object(vec![("list", array(vec![num(1)])), ("b", num(2))]);
    assert_eq!(
        merged(object(vec![]), overlay),
        object(vec![("list", array(vec![num(1)])), ("b", num(2))])
    );
}

#[test]
fn a_key_with_a_dollar_and_no_digits_is_an_ordinary_key() {
    let overlay = object(vec![("$ref", text("#/defs/x")), ("p", object(vec![("$id", num(1))]))]);
    assert_eq!(
        merged(object(vec![]), overlay),
        object(vec![("$ref", text("#/defs/x")), ("p", object(vec![("$id", num(1))]))])
    );
}

#[test]
fn a_key_that_spells_a_marker_appends() {
    let overlay = object(vec![("p", object(vec![("$0", num(1))]))]);
    assert_eq!(merged(object(vec![]), overlay), object(vec![("p", array(vec![num(1)]))]));
}

#[test]
fn a_scalar_overlay_changes_nothing() {
    assert_eq!(merged(object(vec![("a", num(1))]), num(5)), object(vec![("a", num(1))]));
    assert_eq!(merged(object(vec![("a", num(1))]), Document::Null), object(vec![("a", num(1))]));
}

#[test]
fn an_array_overlay_appends_to_an_array_base() {
    assert_eq!(
        merged(array(vec![num(1)]), array(vec![num(2), num(3)])),
        array(vec![num(1), num(2), num(3)])
    );
}

#[test]
fn an_array_overlay_binds_its_markers_in_an_object_base() {
    assert_eq!(
        merged(object(vec![]), array(vec![num(7), num(8)])),
        object(vec![("$0", num(7)), ("$1", num(8))])
    );
}

#[test]
fn an_object_overlay_leaves_a_base_that_is_no_object() {
    let overlay = || object(vec![("a", object(vec![("b", num(1))]))]);
    assert_eq!(merged(num(3), overlay()), num(3));
    assert_eq!(merged(array(vec![num(3)]), overlay()), array(vec![num(3)]));
}

#[test]
fn insert_with_the_empty_path_changes_nothing() {
    let mut doc = object(vec![("a", num(1))]);
    insert(&mut doc, path(&[]), num(2));
    assert_eq!(doc, object(vec![("a", num(1))]));
}

#[test]
fn insert_creates_the_objects_on_the_way() {
    let mut doc = object(vec![]);
    insert(&mut doc, path(&["a", "b", "c"]), num(1));
    assert_eq!(doc, object(vec![("a", object(vec![("b", object(vec![("c", num(1))]))]))]));
}

#[test]
fn insert_at_a_marker_pushes_onto_the_array() {
    let mut doc = object(vec![("a", array(vec![num(1)]))]);
    insert(&mut doc, path(&["a", "$0"]), num(2));
    insert(&mut doc, path(&["a", "$7"]), num(3));
    assert_eq!(doc, object(vec![("a", array(vec![num(1), num(2), num(3)]))]));
}

#[test]
fn insert_passes_over_a_segment_that_cannot_be_entered() {
    let mut doc = array(vec![num(1)]);
    insert(&mut doc, path(&["a", "$0"]), num(2));
    assert_eq!(doc, array(vec![num(1), num(2)]));
    let mut scalar = num(1);
    insert(&mut scalar, path(&["a", "b"]), num(2));
    assert_eq!(scalar, num(1));
}

#[test]
fn insert_overwrites_in_place_and_appends_new_keys() {
    let mut doc = object(vec![("a", num(1)), ("b", num(2))]);
    insert(&mut doc, path(&["a"]), num(10));
    insert(&mut doc, path(&["c"]), num(3));
    assert_eq!(doc, object(vec![("a", num(10)), ("b", num(2)), ("c", num(3))]));
}

#[test]
fn markers_are_a_dollar_and_digits() {
    assert!(is_marker("$0"));
    assert!(is_marker("$12"));
    assert!(!is_marker("$"));
    assert!(!is_marker("$a"));
    assert!(!is_marker("$1a"));
    assert!(!is_marker("0"));
    assert!(!is_marker(""));
    assert!(!is_marker("a$1"));
}

#[test]
fn marker_for_spells_the_index_in_decimal() {
    assert_eq!(marker_for(0), "$0");
    assert_eq!(marker_for(9), "$9");
    assert_eq!(marker_for(10), "$10");
    assert_eq!(marker_for(1234), "$1234");
}

#[test]
fn file_merge_and_insert_act_on_the_document() {
    let mut file = File::new(object(vec![("a", num(1))]));
    file.merge(File::new(object(vec![("b", array(vec![num(2)]))])));
    file.insert(path(&["c", "d"]), text("x"));
    assert_eq!(
        file.data(),
        &object(vec![
            ("a", num(1)),
            ("b", array(vec![num(2)])),
            ("c", object(vec![("d", text("x"))])),
        ])
    );
    assert_eq!(file.clone().into_data(), *file.data());
}

#[test]
fn more_than_ten_elements_keep_their_order() {
    let items: Vec<Document> = (0..25).map(num).collect();
    let overlay = object(vec![("list", Document::Array((0..25).map(num).collect()))]);
    assert_eq!(merged(object(vec![]), overlay), object(vec![("list", Document::Array(items))]));
}

#[test]
fn keys_are_found_at_their_first_position() {
    let entries = vec![
        ("a".to_string(), num(1)),
        ("b".to_string(), num(2)),
        ("a".to_string(), num(3)),
    ];
    assert_eq!(find_key(&entries, &"a".to_string()), Some(0));
    assert_eq!(find_key(&entries, &"b".to_string()), Some(1));
    assert_eq!(find_key(&entries, &"c".to_string()), None);
}

#[test]
fn a_key_is_bound_in_place_or_at_the_end() {
    let mut entries = vec![("a".to_string(), num(1)), ("b".to_string(), num(2))];
    put_entry(&mut entries, "a".to_string(), num(10));
    put_entry(&mut entries, "c".to_string(), num(3));
    assert_eq!(
        entries,
        vec![("a".to_string(), num(10)), ("b".to_string(), num(2)), ("c".to_string(), num(3))]
    );
}

#[test]
fn the_last_segment_is_written_into_its_container() {
    let mut list = array(vec![num(1)]);
    write_last(&mut list, &"$3".to_string(), num(2));
    write_last(&mut list, &"key".to_string(), num(3));
    assert_eq!(list, array(vec![num(1), num(2)]));
    let mut map = object(vec![]);
    write_last(&mut map, &"$3".to_string(), num(2));
    assert_eq!(map, object(vec![("$3", num(2))]));
    let mut scalar = num(1);
    write_last(&mut scalar, &"key".to_string(), num(2));
    assert_eq!(scalar, num(1));
}

#[test]
fn a_merge_keeps_the_keys_of_every_object_unique() {
    fn unique(doc: &Document) -> bool {
        match doc {
            Document::Object(entries) => {
                entries.iter().enumerate().all(|(i, (k, v))| {
                    entries.iter().skip(i + 1).all(|(other, _)| other != k) && unique(v)
                })
            }
            Document::Array(items) => items.iter().all(unique),
            _ => true,
        }
    }
    let base = object(vec![("a", object(vec![("x", num(1))])), ("b", array(vec![num(1)]))]);
    let overlay = object(vec![
        ("a", object(vec![("x", num(2)), ("y", num(3))])),
        ("b", array(vec![object(vec![("k", num(1))])])),
        ("c", text("z")),
    ]);
    let result = merged(base, overlay);
    assert!(unique(&result));
    assert_eq!(
        result,
        object(vec![
            ("a", object(vec![("x", num(2)), ("y", num(3))])),
            ("b", array(vec![num(1), object(vec![("k", num(1))])])),
            ("c", text("z")),
        ])
    );
}

#[test]
fn keys_are_distinct_when_none_stands_twice() {
    assert!(keys_distinct(&vec![]));
    assert!(keys_distinct(&vec![("a".to_string(), num(1)), ("b".to_string(), num(1))]));
    assert!(!keys_distinct(&vec![
        ("a".to_string(), num(1)),
        ("b".to_string(), num(2)),
        ("a".to_string(), num(3)),
    ]));
    assert!(!keys_distinct(&vec![("a".to_string(), num(1)), ("a".to_string(), num(1))]));
}
