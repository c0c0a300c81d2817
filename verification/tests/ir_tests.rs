use gftools_builder::ir::{Build, BuildId, Rule};

#[test]
fn build_id_is_stable_for_equal_outputs() {
    let b1 = Build::new(vec!["a.ttf".to_string(), "b.ttf".to_string()], None, vec![]);
    let b2 = Build::new(vec!["a.ttf".to_string(), "b.ttf".to_string()], None, vec![]);
    assert_eq!(b1.id(), b2.id());
}

#[test]
fn build_carries_its_parts() {
    let rule = Rule::new("fontc in.glyphs -o out.ttf".to_string(), Some("compile".to_string()));
    let dep = BuildId::new(7);
    let b = Build::new(vec!["out.ttf".to_string()], Some(rule), vec![dep]);
    assert_eq!(b.outputs(), &vec!["out.ttf".to_string()]);
    assert_eq!(b.dependencies(), &vec![BuildId::new(7)]);
    let r = b.rule().as_ref().unwrap();
    assert_eq!(r.command(), "fontc in.glyphs -o out.ttf");
    assert_eq!(r.description(), &Some("compile".to_string()));
}

#[test]
fn build_id_wraps_its_value() {
    let id = BuildId::new(42);
    assert_eq!(id.value(), 42);
    assert_eq!(id, BuildId::new(42));
    assert_ne!(id, BuildId::new(43));
}

#[test]
fn build_id_distinguishes_name_boundaries() {
    // Same concatenation, different split: the per-name length prefix
    // keeps the digests apart.
    let b1 = Build::new(vec!["ab".to_string(), "c".to_string()], None, vec![]);
    let b2 = Build::new(vec!["a".to_string(), "bc".to_string()], None, vec![]);
    assert_ne!(b1.id(), b2.id());
}
