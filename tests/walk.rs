use metastructure::binder::bind_record;
use metastructure::meta::{Annotated, Entry, Remark, RemarkKind, Value};
use metastructure::schema::{FieldAttrs, FieldDecl, LeafKind, PiiKind, RecordSchema, Tagged, TaggedSchema, Typed, VariantDecl};
use metastructure::scrub::PiiScrubber;
use metastructure::tagged::bind_tagged;
use metastructure::walk::{walk_record, walk_tagged, PathItem, ProcessingState};

fn field(name: &str, pii_kind: Option<PiiKind>) -> FieldDecl {
    FieldDecl {
        attrs: FieldAttrs { name: name.to_string(), required: false, cap_size: None, pii_kind },
        aliases: Vec::new(),
        kind: LeafKind::Str,
    }
}

fn entry(k: &str, v: &str) -> Entry {
    (k.to_string(), Annotated::new(Value::String(v.to_string())))
}

fn user_schema(post_hook: bool) -> RecordSchema {
    RecordSchema {
        fields: vec![field("email", Some(PiiKind::Email)), field("name", Some(PiiKind::Name))],
        additional_properties: true,
        post_hook,
    }
}

fn scrubber(kind: PiiKind) -> PiiScrubber {
    PiiScrubber { kind, rule_id: "@email".to_string(), drop_empty_records: true }
}

#[test]
fn scrubber_removes_marked_fields() {
    let s = user_schema(false);
    let bound = bind_record(&s, Annotated::new(Value::Object(vec![entry("email", "a@b.c"), entry("name", "Ann"), entry("note", "x")])));
    let mut state = ProcessingState::root();
    let r = walk_record(&scrubber(PiiKind::Email), &s, bound, &mut state);
    assert_eq!(state.depth(), 0);
    let rec = r.value.unwrap();
    assert_eq!(rec.fields[0].value, None);
    assert_eq!(rec.fields[0].meta.remarks, vec![Remark { rule_id: "@email".to_string(), kind: RemarkKind::Removed, range: None }]);
    assert_eq!(rec.fields[1].value, Some(Typed::Str("Ann".to_string())));
    assert!(rec.fields[1].meta.is_empty());
    assert_eq!(rec.other, vec![entry("note", "x")]);
}

#[test]
fn scrubber_leaves_absent_fields_alone() {
    let s = user_schema(false);
    let bound = bind_record(&s, Annotated::new(Value::Object(vec![entry("name", "Ann")])));
    let mut state = ProcessingState::root();
    let r = walk_record(&scrubber(PiiKind::Email), &s, bound, &mut state);
    let rec = r.value.unwrap();
    assert!(rec.fields[0].skip_serialization());
}

#[test]
fn record_hook_drops_emptied_record() {
    let s = user_schema(true);
    let bound = bind_record(&s, Annotated::new(Value::Object(vec![entry("email", "a@b.c")])));
    let mut state = ProcessingState::root();
    let r = walk_record(&scrubber(PiiKind::Email), &s, bound, &mut state);
    assert!(r.value.is_none());
    assert_eq!(state.depth(), 0);
}

#[test]
fn record_hook_keeps_record_with_values() {
    let s = user_schema(true);
    let bound = bind_record(&s, Annotated::new(Value::Object(vec![entry("email", "a@b.c"), entry("name", "Ann")])));
    let mut state = ProcessingState::root();
    let r = walk_record(&scrubber(PiiKind::Email), &s, bound, &mut state);
    let rec = r.value.unwrap();
    assert_eq!(rec.fields[0].value, None);
    assert_eq!(rec.fields[1].value, Some(Typed::Str("Ann".to_string())));
}

#[test]
fn walk_tagged_dispatches_to_variant() {
    let s = TaggedSchema {
        tag_key: "type".to_string(),
        variants: vec![VariantDecl::with_tag("user".to_string(), user_schema(false))],
        fallback: true,
        post_hook: false,
    };
    let bound = bind_tagged(&s, Annotated::new(Value::Object(vec![entry("type", "user"), entry("email", "a@b.c")])));
    let mut state = ProcessingState::root();
    let r = walk_tagged(&scrubber(PiiKind::Email), &s, bound, &mut state);
    match r.value {
        Some(Tagged::Variant(0, rec)) => {
            assert_eq!(rec.fields[0].value, None);
            assert_eq!(rec.fields[0].meta.remarks.len(), 1);
        },
        other => panic!("expected the user variant, got {:?}", other),
    }
    let bound = bind_tagged(&s, Annotated::new(Value::Object(vec![entry("type", "other"), entry("email", "a@b.c")])));
    let r = walk_tagged(&scrubber(PiiKind::Email), &s, bound, &mut state);
    assert_eq!(r.value, Some(Tagged::Fallback(vec![entry("type", "other"), entry("email", "a@b.c")])));
}

#[test]
fn processing_state_enter_and_leave() {
    let attrs = FieldAttrs { name: "f".to_string(), required: true, cap_size: None, pii_kind: Some(PiiKind::Ip) };
    let mut state = ProcessingState::root();
    assert!(state.attrs().is_none());
    state.enter(PathItem::Key("f".to_string()), Some(&attrs));
    state.enter(PathItem::Index(3), None);
    assert_eq!(state.depth(), 2);
    assert!(state.attrs().is_none());
    state.leave();
    assert_eq!(state.attrs().unwrap().pii_kind, Some(PiiKind::Ip));
    assert_eq!(state.frames[0].item, PathItem::Key("f".to_string()));
    state.leave();
    assert_eq!(state.depth(), 0);
}

#[test]
fn walk_wrapped_rewraps_inner_result() {
    let s = user_schema(false);
    let bound = metastructure::binder::bind_wrapped(&s, Annotated::new(Value::Object(vec![entry("email", "a@b.c")])));
    let mut state = ProcessingState::root();
    let r = metastructure::walk::walk_wrapped(&scrubber(PiiKind::Email), &s, bound, &mut state);
    let rec = r.value.unwrap().0;
    assert_eq!(rec.fields[0].value, None);
    assert_eq!(rec.fields[0].meta.remarks.len(), 1);
}
