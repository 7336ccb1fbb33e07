use metastructure::meta::{Annotated, Entry, ErrorEntry, ErrorKind, Value};
use metastructure::schema::{FieldAttrs, FieldDecl, LeafKind, RecordSchema, Tagged, TaggedSchema, Typed, VariantDecl};
use metastructure::tagged::{bind_tagged, drop_key, project_tagged};

fn field(name: &str) -> FieldDecl {
    FieldDecl {
        attrs: FieldAttrs { name: name.to_string(), required: false, cap_size: None, pii_kind: None },
        aliases: Vec::new(),
        kind: LeafKind::Int,
    }
}

fn payload(name: &str) -> RecordSchema {
    RecordSchema { fields: vec![field(name)], additional_properties: false, post_hook: false }
}

fn entry(k: &str, v: Value) -> Entry {
    (k.to_string(), Annotated::new(v))
}

fn two_variants(fallback: bool) -> TaggedSchema {
    TaggedSchema {
        tag_key: "type".to_string(),
        variants: vec![VariantDecl::with_tag("a".to_string(), payload("x")), VariantDecl::with_tag("b".to_string(), payload("y"))],
        fallback,
        post_hook: false,
    }
}

#[test]
fn example_scenario_round_trip() {
    let s = two_variants(false);
    let input = || Annotated::new(Value::Object(vec![entry("type", Value::String("a".to_string())), entry("x", Value::I64(1))]));
    let bound = bind_tagged(&s, input());
    match &bound.value {
        Some(Tagged::Variant(0, rec)) => assert_eq!(rec.fields[0].value, Some(Typed::Int(1))),
        other => panic!("expected variant A, got {:?}", other),
    }
    let out = project_tagged(&s, bound);
    assert_eq!(out, input());
}

#[test]
fn second_variant_selected_by_tag() {
    let s = two_variants(false);
    let bound = bind_tagged(&s, Annotated::new(Value::Object(vec![entry("y", Value::I64(4)), entry("type", Value::String("b".to_string()))])));
    match &bound.value {
        Some(Tagged::Variant(1, rec)) => assert_eq!(rec.fields[0].value, Some(Typed::Int(4))),
        other => panic!("expected variant B, got {:?}", other),
    }
    let out = project_tagged(&s, bound);
    assert_eq!(out.value, Some(Value::Object(vec![entry("type", Value::String("b".to_string())), entry("y", Value::I64(4))])));
}

#[test]
fn tag_match_is_case_sensitive() {
    let s = two_variants(false);
    let bound = bind_tagged(&s, Annotated::new(Value::Object(vec![entry("type", Value::String("A".to_string()))])));
    assert!(bound.value.is_none());
    assert_eq!(bound.meta.errors[0].kind, ErrorKind::InvalidEnumVariant);
}

#[test]
fn fallback_round_trip_exact() {
    let s = two_variants(true);
    let input = || {
        Annotated::new(Value::Object(vec![
            entry("x", Value::I64(1)),
            entry("type", Value::String("c".to_string())),
            entry("z", Value::Bool(true)),
        ]))
    };
    let bound = bind_tagged(&s, input());
    assert!(matches!(bound.value, Some(Tagged::Fallback(_))));
    assert_eq!(project_tagged(&s, bound), input());
}

#[test]
fn fallback_without_discriminator() {
    let s = two_variants(true);
    let input = || Annotated::new(Value::Object(vec![entry("q", Value::Null)]));
    let out = project_tagged(&s, bind_tagged(&s, input()));
    assert_eq!(out, input());
}

#[test]
fn unknown_tag_without_fallback_is_invalid() {
    let s = two_variants(false);
    let obj = vec![entry("type", Value::String("c".to_string()))];
    let bound = bind_tagged(&s, Annotated::new(Value::Object(obj)));
    assert!(bound.value.is_none());
    assert_eq!(
        bound.meta.errors,
        vec![ErrorEntry {
            kind: ErrorKind::InvalidEnumVariant,
            value: Some(Value::Object(vec![entry("type", Value::String("c".to_string()))])),
        }]
    );
}

#[test]
fn tagged_non_object_is_unexpected_type() {
    let s = two_variants(true);
    let bound = bind_tagged(&s, Annotated::new(Value::Bool(true)));
    assert!(bound.value.is_none());
    assert_eq!(bound.meta.errors[0].kind, ErrorKind::UnexpectedType);
}

#[test]
fn custom_tag_key() {
    let mut s = two_variants(false);
    s.tag_key = "kind".to_string();
    let input = || Annotated::new(Value::Object(vec![entry("kind", Value::String("b".to_string())), entry("y", Value::I64(2))]));
    let bound = bind_tagged(&s, input());
    assert!(matches!(bound.value, Some(Tagged::Variant(1, _))));
    assert_eq!(project_tagged(&s, bound), input());
}

#[test]
fn variant_named_uses_lowercase_tag() {
    let v = VariantDecl::named("MyVariant", payload("x"));
    assert_eq!(v.tag, "myvariant");
    let s = TaggedSchema { tag_key: "type".to_string(), variants: vec![v], fallback: false, post_hook: false };
    let bound = bind_tagged(&s, Annotated::new(Value::Object(vec![entry("type", Value::String("myvariant".to_string()))])));
    assert!(matches!(bound.value, Some(Tagged::Variant(0, _))));
}

#[test]
fn drop_key_removes_every_occurrence() {
    let es = vec![entry("a", Value::I64(1)), entry("t", Value::I64(2)), entry("b", Value::I64(3)), entry("t", Value::I64(4))];
    let r = drop_key(es, "t");
    assert_eq!(r, vec![entry("a", Value::I64(1)), entry("b", Value::I64(3))]);
}
