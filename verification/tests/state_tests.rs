use overl::document::Document;
use overl::state::{CometState, Overlay, TemplateSource, TemplateState};

fn text(s: &str) -> Document {
    Document::String(s.to_string())
}

fn object(entries: Vec<(&str, Document)>) -> Document {
    Document::Object(entries.into_iter().map(|(k, v)| (k.to_string(), v)).collect())
}

fn template(name: &str, values: &str, schema: &str, overlays: &[&str]) -> TemplateState {
    let overlays = overlays
        .iter()
        .enumerate()
        .map(|(i, o)| Overlay::new(&format!("o{}", i), text(o)))
        .collect();
    TemplateState::new_at(name, text(values), overlays, text(schema), "t0".to_string())
}

#[test]
fn a_new_template_has_version_zero_and_no_history() {
    let t = TemplateState::new_at(
        "web",
        text("v"),
        vec![Overlay::new("dev", text("o"))],
        text("s"),
        "2024-01-01".to_string(),
    );
    assert_eq!(t.name, "web");
    assert_eq!(t.current.version, 0);
    assert_eq!(t.current.values, text("v"));
    assert_eq!(t.current.schema, text("s"));
    assert_eq!(t.current.overlays.len(), 1);
    assert_eq!(t.current.overlays[0].name, "dev");
    assert_eq!(t.current.created, "2024-01-01");
    assert_eq!(t.created, "2024-01-01");
    assert_eq!(t.updated, "2024-01-01");
    assert!(t.previous_versions.is_empty());
    assert!(t.implementations.is_empty());
    assert_eq!(t.values(), &text("v"));
    assert_eq!(t.schema(), &text("s"));
    assert_eq!(t.overlays().len(), 1);
}

#[test]
fn a_new_template_is_stamped_by_the_clock() {
    let t = TemplateState::new("web", text("v"), vec![], text("s"));
    assert!(!t.created.is_empty());
    assert_eq!(t.created, t.updated);
    assert_eq!(t.created, t.current.created);
    assert_eq!(t.current.version, 0);
}

#[test]
fn documents_are_compared_by_value() {
    assert!(text("a").same_as(&text("a")));
    assert!(!text("a").same_as(&text("b")));
    assert!(!text("1").same_as(&Document::Integer(1)));
    assert!(!Document::Integer(1).same_as(&Document::Integer(2)));
    assert!(!Document::Integer(1).same_as(&Document::Float("1".to_string())));
    assert!(Document::Float("1.5".to_string()).same_as(&Document::Float("1.5".to_string())));
    assert!(!Document::Float("1.5".to_string()).same_as(&Document::Float("1.50".to_string())));
    assert!(Document::Null.same_as(&Document::Null));
    assert!(!Document::Null.same_as(&Document::Bool(false)));
    assert!(Document::Bool(true).same_as(&Document::Bool(true)));
    let left = object(vec![
        ("a", Document::Array(vec![text("x"), Document::Integer(1)])),
        ("b", object(vec![("c", Document::Null)])),
    ]);
    let same = object(vec![
        ("a", Document::Array(vec![text("x"), Document::Integer(1)])),
        ("b", object(vec![("c", Document::Null)])),
    ]);
    let other_item = object(vec![
        ("a", Document::Array(vec![text("x"), Document::Integer(2)])),
        ("b", object(vec![("c", Document::Null)])),
    ]);
    let other_key = object(vec![
        ("a", Document::Array(vec![text("x"), Document::Integer(1)])),
        ("b", object(vec![("d", Document::Null)])),
    ]);
    let other_order = object(vec![
        ("b", object(vec![("c", Document::Null)])),
        ("a", Document::Array(vec![text("x"), Document::Integer(1)])),
    ]);
    let shorter = object(vec![("a", Document::Array(vec![text("x"), Document::Integer(1)]))]);
    assert!(left.same_as(&same));
    assert!(!left.same_as(&other_item));
    assert!(!left.same_as(&other_key));
    assert!(!left.same_as(&other_order));
    assert!(!left.same_as(&shorter));
    assert!(!shorter.same_as(&left));
    assert!(!Document::Array(vec![]).same_as(&object(vec![])));
    assert!(!Document::Array(vec![text("x")]).same_as(&Document::Array(vec![])));
}

#[test]
fn has_changed_needs_all_three_conditions() {
    let current = template("web", "v1", "s1", &["o"]);
    // values differ, schema differs, overlays alike
    assert!(current.has_changed(&template("web", "v2", "s2", &["o"])));
    // only the values differ
    assert!(!current.has_changed(&template("web", "v2", "s1", &["o"])));
    // only the schema differs
    assert!(!current.has_changed(&template("web", "v1", "s2", &["o"])));
    // only the overlays differ
    assert!(!current.has_changed(&template("web", "v1", "s1", &["p"])));
    // values and schema differ, and so do the overlays
    assert!(!current.has_changed(&template("web", "v2", "s2", &["p"])));
    // values differ and overlays differ
    assert!(!current.has_changed(&template("web", "v2", "s1", &["p"])));
    // schema differs and overlays differ
    assert!(!current.has_changed(&template("web", "v1", "s2", &["p"])));
    // nothing differs
    assert!(!current.has_changed(&template("web", "v1", "s1", &["o"])));
}

#[test]
fn the_parts_of_has_changed() {
    let current = template("web", "v1", "s1", &["o"]);
    assert!(current.template_has_changed(&text("v2")));
    assert!(!current.template_has_changed(&text("v1")));
    assert!(current.schema_has_changed(&text("s2")));
    assert!(!current.schema_has_changed(&text("s1")));
}

#[test]
fn structured_values_are_compared_as_a_whole() {
    let fixture = |values: Document, schema: Document, overlay: Document| {
        TemplateState::new_at(
            "web",
            values,
            vec![Overlay::new("dev", overlay)],
            schema,
            "t".to_string(),
        )
    };
    let values = || object(vec![("replicas", Document::Integer(1))]);
    let other_values = || object(vec![("replicas", Document::Integer(2))]);
    let schema = || object(vec![("type", text("object"))]);
    let other_schema = || object(vec![("type", text("array"))]);
    let overlay = || object(vec![("env", text("dev"))]);
    let other_overlay = || object(vec![("env", text("prod"))]);
    let current = fixture(values(), schema(), overlay());
    assert!(current.has_changed(&fixture(other_values(), other_schema(), overlay())));
    assert!(!current.has_changed(&fixture(other_values(), schema(), overlay())));
    assert!(!current.has_changed(&fixture(values(), other_schema(), overlay())));
    assert!(!current.has_changed(&fixture(values(), schema(), other_overlay())));
    assert!(!current.has_changed(&fixture(other_values(), other_schema(), other_overlay())));
    assert!(!current.has_changed(&fixture(values(), schema(), overlay())));
}

#[test]
fn overlays_of_different_length_give_false() {
    let current = template("web", "v", "s", &["a", "b"]);
    assert!(!current.overlays_have_changed(&vec![Overlay::new("x", text("a"))]));
    assert!(!current.overlays_have_changed(&vec![]));
}

#[test]
fn overlays_that_differ_at_one_index_give_false() {
    let current = template("web", "v", "s", &["a", "b"]);
    let other = vec![Overlay::new("x", text("a")), Overlay::new("y", text("c"))];
    assert!(!current.overlays_have_changed(&other));
}

#[test]
fn overlays_that_are_all_equal_give_true() {
    let current = template("web", "v", "s", &["a", "b"]);
    // the names of the overlays play no part
    let same = vec![Overlay::new("x", text("a")), Overlay::new("y", text("b"))];
    assert!(current.overlays_have_changed(&same));
    let none = template("web", "v", "s", &[]);
    assert!(none.overlays_have_changed(&vec![]));
}

#[test]
fn update_template_archives_the_current_snapshot() {
    let mut t = template("web", "v1", "s1", &["o"]);
    let before = t.current.clone();
    t.update_template_at(template("web", "v2", "s2", &["p"]), "t1".to_string());
    assert_eq!(t.current.version, 1);
    assert_eq!(t.current.values, text("v2"));
    assert_eq!(t.current.schema, text("s2"));
    assert_eq!(t.current.overlays[0].values, text("p"));
    assert_eq!(t.current.created, "t1");
    assert_eq!(t.previous_versions, vec![before]);
    assert_eq!(t.created, "t0");
    assert_eq!(t.updated, "t0");
    assert_eq!(t.name, "web");
}

#[test]
fn update_template_reads_the_clock() {
    let mut t = template("web", "v1", "s1", &[]);
    t.update_template(template("web", "v2", "s2", &[]));
    assert_eq!(t.current.version, 1);
    assert_eq!(t.previous_versions.len(), 1);
    assert!(!t.current.created.is_empty());
}

#[test]
fn n_changes_give_version_n_and_a_history_of_n() {
    let mut state = CometState::new("project");
    state.update_templates_at(vec![template("web", "v0", "s0", &["o"])], &"t".to_string());
    let n = 6;
    for i in 1..=n {
        let candidate = template("web", &format!("v{}", i), &format!("s{}", i), &["o"]);
        state.update_templates_at(vec![candidate], &format!("t{}", i));
    }
    assert_eq!(state.templates.len(), 1);
    let t = &state.templates[0];
    assert_eq!(t.current.version, n);
    assert_eq!(t.previous_versions.len(), n as usize);
    for (i, old) in t.previous_versions.iter().enumerate() {
        assert_eq!(old.version, i as u64);
        assert_eq!(old.values, text(&format!("v{}", i)));
    }
    assert_eq!(t.current.values, text("v6"));
}

#[test]
fn update_templates_stamps_the_state_when_a_template_is_new() {
    let mut state = CometState::new("project");
    state.updated = "old".to_string();
    state.update_templates_at(vec![template("web", "v", "s", &[])], &"now".to_string());
    assert_eq!(state.updated, "now");
    assert_eq!(state.templates.len(), 1);
    assert_eq!(state.templates[0].current.version, 0);
}

#[test]
fn update_templates_stamps_the_state_when_a_template_changed() {
    let mut state = CometState::new("project");
    state.update_templates_at(vec![template("web", "v", "s", &[])], &"first".to_string());
    state.update_templates_at(vec![template("web", "v2", "s2", &[])], &"second".to_string());
    assert_eq!(state.updated, "second");
    assert_eq!(state.templates[0].current.version, 1);
    assert_eq!(state.templates[0].current.created, "second");
}

#[test]
fn update_templates_leaves_the_stamp_when_nothing_changed() {
    let mut state = CometState::new("project");
    state.update_templates_at(
        vec![template("web", "v", "s", &[]), template("api", "v", "s", &[])],
        &"first".to_string(),
    );
    let before = state.clone();
    state.update_templates_at(
        vec![template("web", "v2", "s", &[]), template("api", "v", "s2", &[])],
        &"second".to_string(),
    );
    assert_eq!(state, before);
    assert_eq!(state.updated, "first");
    state.update_templates_at(vec![], &"third".to_string());
    assert_eq!(state, before);
}

#[test]
fn update_templates_tells_templates_apart_by_name() {
    let mut state = CometState::new("project");
    state.update_templates_at(
        vec![template("web", "v", "s", &[]), template("api", "v", "s", &[])],
        &"first".to_string(),
    );
    state.update_templates_at(vec![template("api", "v2", "s2", &[])], &"second".to_string());
    assert_eq!(state.templates.len(), 2);
    assert_eq!(state.templates[0].name, "web");
    assert_eq!(state.templates[0].current.version, 0);
    assert_eq!(state.templates[1].name, "api");
    assert_eq!(state.templates[1].current.version, 1);
    assert_eq!(state.template_index(&"api".to_string()), Some(1));
    assert_eq!(state.template_index(&"none".to_string()), None);
}

#[test]
fn a_name_given_twice_is_compared_with_its_first_candidate() {
    let mut state = CometState::new("project");
    state.update_templates_at(
        vec![template("web", "v", "s", &[]), template("web", "v2", "s2", &[])],
        &"now".to_string(),
    );
    assert_eq!(state.templates.len(), 1);
    assert_eq!(state.templates[0].current.version, 1);
    assert_eq!(state.templates[0].current.values, text("v2"));
}

#[test]
fn update_templates_reads_the_clock_once_something_changed() {
    let mut state = CometState::new("project");
    state.updated = "old".to_string();
    state.update_templates(vec![]);
    assert_eq!(state.updated, "old");
    state.update_templates(vec![template("web", "v", "s", &[])]);
    assert_ne!(state.updated, "old");
    assert_eq!(state.templates.len(), 1);
}

#[test]
fn update_one_says_whether_it_changed_the_state() {
    let mut state = CometState::new("project");
    assert!(state.update_one_at(template("web", "v", "s", &[]), &"a".to_string()));
    assert!(!state.update_one_at(template("web", "v", "s", &[]), &"b".to_string()));
    assert!(state.update_one_at(template("web", "w", "t", &[]), &"c".to_string()));
}

#[test]
fn a_new_state_is_empty() {
    let state = CometState::new("project");
    assert_eq!(state.name, "project");
    assert!(state.templates.is_empty());
    assert!(!state.created.is_empty());
    assert!(!state.updated.is_empty());
}

fn source(name: &str, base: &str, schema: &str, overlays: &[&str]) -> TemplateSource {
    TemplateSource {
        name: name.to_string(),
        base: text(base),
        schema: text(schema),
        overlays: overlays
            .iter()
            .enumerate()
            .map(|(i, o)| Overlay::new(&format!("o{}", i), text(o)))
            .collect(),
    }
}

#[test]
fn a_sync_makes_a_candidate_of_each_source() {
    let mut state = CometState::new("project");
    state.sync_at(
        vec![source("web", "v", "s", &["o"]), source("api", "w", "t", &[])],
        &"first".to_string(),
    );
    assert_eq!(state.updated, "first");
    assert_eq!(state.templates.len(), 2);
    assert_eq!(
        state.templates[0],
        TemplateState::new_at(
            "web",
            text("v"),
            vec![Overlay::new("o0", text("o"))],
            text("s"),
            "first".to_string()
        )
    );
    assert_eq!(state.templates[1].name, "api");
    state.sync_at(
        vec![source("web", "v2", "s2", &["o"]), source("api", "w", "t", &[])],
        &"second".to_string(),
    );
    assert_eq!(state.updated, "second");
    assert_eq!(state.templates[0].current.version, 1);
    assert_eq!(state.templates[0].current.created, "second");
    assert_eq!(state.templates[0].previous_versions[0].created, "first");
    assert_eq!(state.templates[1].current.version, 0);
}

#[test]
fn a_sync_that_finds_nothing_new_leaves_the_state() {
    let mut state = CometState::new("project");
    state.sync_at(vec![source("web", "v", "s", &[])], &"first".to_string());
    let before = state.clone();
    state.sync_at(vec![source("web", "v", "s", &[])], &"second".to_string());
    assert_eq!(state, before);
    state.sync(vec![source("web", "v", "s", &[])]);
    assert_eq!(state, before);
    state.sync(vec![source("new", "v", "s", &[])]);
    assert_eq!(state.templates.len(), 2);
    assert_ne!(state.updated, "first");
}

#[test]
fn a_sync_begins_from_what_was_stored() {
    let mut stored = CometState::new("kept");
    stored.sync_at(vec![source("web", "v", "s", &[])], &"t".to_string());
    assert_eq!(CometState::stored_or_new("other", Some(stored.clone())), stored);
    let fresh = CometState::stored_or_new("other", None);
    assert_eq!(fresh.name, "other");
    assert!(fresh.templates.is_empty());
}

#[test]
fn a_history_is_well_formed_when_numbered_in_order() {
    let mut state = CometState::new("project");
    assert!(state.is_well_formed());
    state.sync_at(vec![source("web", "v0", "s0", &[])], &"t".to_string());
    state.sync_at(vec![source("web", "v1", "s1", &[])], &"t".to_string());
    state.sync_at(vec![source("web", "v2", "s2", &[])], &"t".to_string());
    assert!(state.is_well_formed());
    assert!(state.templates[0].is_well_formed());

    let mut gap = state.clone();
    gap.templates[0].current.version = 5;
    assert!(!gap.is_well_formed());

    let mut shuffled = state.clone();
    shuffled.templates[0].previous_versions[0].version = 1;
    assert!(!shuffled.templates[0].is_well_formed());

    let mut short = state.clone();
    short.templates[0].previous_versions.pop();
    assert!(!short.is_well_formed());
}

#[test]
fn a_round_never_rewrites_history() {
    let mut state = CometState::new("project");
    state.sync_at(
        vec![source("web", "v0", "s0", &[]), source("api", "a0", "b0", &[])],
        &"t0".to_string(),
    );
    state.sync_at(vec![source("web", "v1", "s1", &[])], &"t1".to_string());
    let before = state.clone();
    state.sync_at(
        vec![
            source("web", "v2", "s2", &[]),
            source("api", "a1", "b1", &[]),
            source("job", "j0", "k0", &[]),
        ],
        &"t2".to_string(),
    );
    assert_eq!(state.templates.len(), 3);
    for (old, new) in before.templates.iter().zip(state.templates.iter()) {
        assert_eq!(new.name, old.name);
        assert_eq!(new.created, old.created);
        assert_eq!(new.previous_versions.len(), old.previous_versions.len() + 1);
        assert_eq!(&new.previous_versions[..old.previous_versions.len()], &old.previous_versions[..]);
        assert_eq!(new.previous_versions[old.previous_versions.len()], old.current);
    }
}
