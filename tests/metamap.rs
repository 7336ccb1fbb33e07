use metastructure::binder::bind_record;
use metastructure::meta::{Annotated, Entry, ErrorKind, Meta, Value};
use metastructure::metamap::{copy_path, extract_record_meta, extract_value_meta};
use metastructure::schema::{FieldAttrs, FieldDecl, LeafKind, RecordSchema};
use metastructure::walk::PathItem;

fn key(k: &str) -> PathItem {
    PathItem::Key(k.to_string())
}

fn with_error(v: Option<Value>, kind: ErrorKind) -> Annotated<Value> {
    let mut meta = Meta::new();
    meta.add_error(kind, None);
    Annotated { value: v, meta }
}

#[test]
fn value_meta_paths_in_preorder() {
    let tree = Annotated::new(Value::Object(vec![
        ("a".to_string(), with_error(None, ErrorKind::MissingField)),
        (
            "b".to_string(),
            Annotated::new(Value::Array(vec![Annotated::new(Value::Null), with_error(Some(Value::I64(1)), ErrorKind::UnexpectedValue)])),
        ),
    ]));
    let map = extract_value_meta(&tree);
    assert_eq!(map.len(), 2);
    assert_eq!(map[0].0, vec![key("a")]);
    assert_eq!(map[0].1.errors[0].kind, ErrorKind::MissingField);
    assert_eq!(map[1].0, vec![key("b"), PathItem::Index(1)]);
    assert_eq!(map[1].1.errors[0].kind, ErrorKind::UnexpectedValue);
}

#[test]
fn clean_tree_has_empty_meta_map() {
    let tree = Annotated::new(Value::Array(vec![Annotated::new(Value::Bool(true))]));
    assert!(extract_value_meta(&tree).is_empty());
}

#[test]
fn record_meta_map() {
    let s = RecordSchema {
        fields: vec![
            FieldDecl {
                attrs: FieldAttrs { name: "id".to_string(), required: true, cap_size: None, pii_kind: None },
                aliases: Vec::new(),
                kind: LeafKind::Int,
            },
            FieldDecl {
                attrs: FieldAttrs { name: "data".to_string(), required: false, cap_size: None, pii_kind: None },
                aliases: Vec::new(),
                kind: LeafKind::Any,
            },
        ],
        additional_properties: true,
        post_hook: false,
    };
    let input: Vec<Entry> = vec![
        ("data".to_string(), Annotated::new(Value::Object(vec![("k".to_string(), with_error(None, ErrorKind::InvalidEnumVariant))]))),
        ("rest".to_string(), with_error(None, ErrorKind::UnexpectedType)),
    ];
    let bound = bind_record(&s, Annotated::new(Value::Object(input)));
    let map = extract_record_meta(&s, &bound);
    let paths: Vec<Vec<PathItem>> = map.iter().map(|e| copy_path(&e.0)).collect();
    assert_eq!(paths, vec![vec![key("id")], vec![key("data"), key("k")], vec![key("rest")]]);
    assert_eq!(map[0].1.errors[0].kind, ErrorKind::MissingField);
}

#[test]
fn copy_path_is_equal() {
    let p = vec![key("x"), PathItem::Index(0)];
    assert_eq!(copy_path(&p), p);
}
