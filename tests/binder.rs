use metastructure::binder::{bind_record, bind_wrapped, remove_key};
use metastructure::meta::{Annotated, Entry, ErrorEntry, ErrorKind, Meta, Remark, RemarkKind, Value};
use metastructure::schema::{FieldAttrs, FieldDecl, LeafKind, RecordSchema, Typed};

fn field(name: &str, kind: LeafKind, required: bool, aliases: &[&str]) -> FieldDecl {
    FieldDecl {
        attrs: FieldAttrs { name: name.to_string(), required, cap_size: None, pii_kind: None },
        aliases: aliases.iter().map(|a| a.to_string()).collect(),
        kind,
    }
}

fn entry(k: &str, v: Value) -> Entry {
    (k.to_string(), Annotated::new(v))
}

fn object(es: Vec<Entry>) -> Annotated<Value> {
    Annotated::new(Value::Object(es))
}

fn schema(fields: Vec<FieldDecl>, additional_properties: bool) -> RecordSchema {
    RecordSchema { fields, additional_properties, post_hook: false }
}

fn error(kind: ErrorKind, value: Option<Value>) -> ErrorEntry {
    ErrorEntry { kind, value }
}

#[test]
fn bind_typed_fields() {
    let s = schema(
        vec![
            field("flag", LeafKind::Bool, false, &[]),
            field("count", LeafKind::Int, false, &[]),
            field("label", LeafKind::Str, false, &[]),
            field("extra", LeafKind::Any, false, &[]),
        ],
        false,
    );
    let input = object(vec![
        entry("label", Value::String("hi".to_string())),
        entry("count", Value::I64(-7)),
        entry("flag", Value::Bool(true)),
        entry("extra", Value::Array(vec![Annotated::new(Value::Null)])),
    ]);
    let r = bind_record(&s, input);
    let rec = r.value.unwrap();
    assert!(r.meta.is_empty());
    assert_eq!(rec.fields[0].value, Some(Typed::Bool(true)));
    assert_eq!(rec.fields[1].value, Some(Typed::Int(-7)));
    assert_eq!(rec.fields[2].value, Some(Typed::Str("hi".to_string())));
    assert_eq!(rec.fields[3].value, Some(Typed::Any(Value::Array(vec![Annotated::new(Value::Null)]))));
    assert!(rec.other.is_empty());
}

#[test]
fn bind_absent_input_keeps_meta() {
    let s = schema(vec![field("a", LeafKind::Int, true, &[])], false);
    let mut meta = Meta::new();
    meta.add_error(ErrorKind::Custom("earlier".to_string()), None);
    let r = bind_record(&s, Annotated { value: None, meta });
    assert!(r.value.is_none());
    assert_eq!(r.meta.errors, vec![error(ErrorKind::Custom("earlier".to_string()), None)]);
}

#[test]
fn bind_non_object_is_unexpected_type() {
    let s = schema(vec![field("a", LeafKind::Int, false, &[])], true);
    let r = bind_record(&s, Annotated::new(Value::String("nope".to_string())));
    assert!(r.value.is_none());
    assert_eq!(r.meta.errors, vec![error(ErrorKind::UnexpectedType, Some(Value::String("nope".to_string())))]);
}

#[test]
fn type_mismatch_stays_on_the_field() {
    let s = schema(vec![field("a", LeafKind::Int, false, &[]), field("b", LeafKind::Str, false, &[])], false);
    let input = object(vec![entry("a", Value::String("x".to_string())), entry("b", Value::String("y".to_string()))]);
    let r = bind_record(&s, input);
    assert!(r.meta.is_empty());
    let rec = r.value.unwrap();
    assert_eq!(rec.fields[0].value, None);
    assert_eq!(rec.fields[0].meta.errors, vec![error(ErrorKind::UnexpectedType, Some(Value::String("x".to_string())))]);
    assert_eq!(rec.fields[1].value, Some(Typed::Str("y".to_string())));
    assert!(rec.fields[1].meta.is_empty());
}

#[test]
fn required_field_missing_has_one_error() {
    let s = schema(vec![field("id", LeafKind::Int, true, &["ident"]), field("n", LeafKind::Int, false, &[])], false);
    let r = bind_record(&s, object(vec![entry("n", Value::I64(3))]));
    let rec = r.value.unwrap();
    assert_eq!(rec.fields[0].value, None);
    assert_eq!(rec.fields[0].meta.errors, vec![error(ErrorKind::MissingField, None)]);
    assert!(r.meta.errors.is_empty());
    assert_eq!(rec.fields[1].value, Some(Typed::Int(3)));
}

#[test]
fn optional_field_missing_is_clean() {
    let s = schema(vec![field("id", LeafKind::Int, false, &[])], false);
    let rec = bind_record(&s, object(vec![])).value.unwrap();
    assert_eq!(rec.fields[0].value, None);
    assert!(rec.fields[0].meta.is_empty());
    assert!(rec.fields[0].skip_serialization());
}

#[test]
fn required_field_with_wrong_type_records_both_errors() {
    let s = schema(vec![field("id", LeafKind::Int, true, &[])], false);
    let rec = bind_record(&s, object(vec![entry("id", Value::Bool(false))])).value.unwrap();
    assert_eq!(
        rec.fields[0].meta.errors,
        vec![error(ErrorKind::UnexpectedType, Some(Value::Bool(false))), error(ErrorKind::MissingField, None)]
    );
}

#[test]
fn present_field_keeps_its_meta() {
    let s = schema(vec![field("a", LeafKind::Int, false, &[])], false);
    let mut a = Annotated::new(Value::I64(5));
    a.meta.add_remark(Remark { rule_id: "r".to_string(), kind: RemarkKind::Masked, range: Some((0, 2)) });
    let rec = bind_record(&s, object(vec![("a".to_string(), a)])).value.unwrap();
    assert_eq!(rec.fields[0].value, Some(Typed::Int(5)));
    assert_eq!(rec.fields[0].meta.remarks, vec![Remark { rule_id: "r".to_string(), kind: RemarkKind::Masked, range: Some((0, 2)) }]);
}

#[test]
fn legacy_alias_primary_wins() {
    let s = schema(vec![field("name", LeafKind::Str, false, &["old_name"])], true);
    let input = object(vec![entry("old_name", Value::String("legacy".to_string())), entry("name", Value::String("primary".to_string()))]);
    let rec = bind_record(&s, input).value.unwrap();
    assert_eq!(rec.fields[0].value, Some(Typed::Str("primary".to_string())));
    // the alias is consumed too, so it does not reach the collected keys
    assert!(rec.other.is_empty());
}

#[test]
fn legacy_alias_used_alone() {
    let s = schema(vec![field("name", LeafKind::Str, true, &["old_name", "older_name"])], false);
    let input = object(vec![entry("older_name", Value::String("oldest".to_string())), entry("old_name", Value::String("legacy".to_string()))]);
    let rec = bind_record(&s, input).value.unwrap();
    assert_eq!(rec.fields[0].value, Some(Typed::Str("legacy".to_string())));
    assert!(rec.fields[0].meta.is_empty());
}

#[test]
fn catch_all_keeps_order() {
    let s = schema(vec![field("b", LeafKind::Int, false, &[])], true);
    let input = object(vec![
        entry("z", Value::I64(1)),
        entry("b", Value::I64(2)),
        entry("a", Value::I64(3)),
        entry("m", Value::Null),
    ]);
    let rec = bind_record(&s, input).value.unwrap();
    let keys: Vec<&str> = rec.other.iter().map(|e| e.0.as_str()).collect();
    assert_eq!(keys, vec!["z", "a", "m"]);
    assert_eq!(rec.other[1].1.value, Some(Value::I64(3)));
}

#[test]
fn without_catch_all_rest_is_dropped() {
    let s = schema(vec![field("b", LeafKind::Int, false, &[])], false);
    let rec = bind_record(&s, object(vec![entry("z", Value::I64(1)), entry("b", Value::I64(2))])).value.unwrap();
    assert!(rec.other.is_empty());
    assert_eq!(rec.fields[0].value, Some(Typed::Int(2)));
}

#[test]
fn remove_key_takes_first_occurrence() {
    let mut es = vec![entry("a", Value::I64(1)), entry("b", Value::I64(2)), entry("a", Value::I64(3))];
    let got = remove_key(&mut es, "a");
    assert_eq!(got.unwrap().value, Some(Value::I64(1)));
    assert_eq!(es.len(), 2);
    assert_eq!(es[0].0, "b");
    assert_eq!(es[1].1.value, Some(Value::I64(3)));
    assert!(remove_key(&mut es, "q").is_none());
    assert_eq!(es.len(), 2);
}

#[test]
fn wrapped_record_binds_like_inner() {
    let s = schema(vec![field("a", LeafKind::Int, false, &[])], false);
    let w = bind_wrapped(&s, object(vec![entry("a", Value::I64(9))]));
    assert_eq!(w.value.unwrap().0.fields[0].value, Some(Typed::Int(9)));
    let w = bind_wrapped(&s, Annotated::new(Value::I64(1)));
    assert!(w.value.is_none());
    assert_eq!(w.meta.errors, vec![error(ErrorKind::UnexpectedType, Some(Value::I64(1)))]);
}
