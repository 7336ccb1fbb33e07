//! Binding a value tree into records: per-field, degrading locally.

use vstd::prelude::*;
use crate::meta::{Annotated, Entry, ErrorEntry, ErrorKind, Meta, Value, error_of};
use crate::schema::{FieldDecl, LeafKind, Record, RecordSchema, Typed, Wrapped, lookup_keys, str_eq};

verus! {

/// The first position of key `k` in `es`.
pub open spec fn find_key(es: Seq<Entry>, k: Seq<char>) -> Option<int>
    decreases es.len(),
{
    if es.len() == 0 {
        None
    } else if es[0].0@ == k {
        Some(0)
    } else {
        match find_key(es.drop_first(), k) {
            Some(i) => Some(i + 1),
            None => None,
        }
    }
}

/// Whether some entry of `es` has key `k`.
pub open spec fn has_key(es: Seq<Entry>, k: Seq<char>) -> bool {
    exists|i: int| 0 <= i < es.len() && #[trigger] es[i].0@ == k
}

/// Removes the first entry with key `k`; gives its value.
pub open spec fn take_key(es: Seq<Entry>, k: Seq<char>) -> (Option<Annotated<Value>>, Seq<Entry>) {
    match find_key(es, k) {
        Some(i) => (Some(es[i].1), es.remove(i)),
        None => (None, es),
    }
}

/// Removes the first entry of each key in turn; the first value found wins.
pub open spec fn take_keys(es: Seq<Entry>, ks: Seq<Seq<char>>) -> (Option<Annotated<Value>>, Seq<Entry>)
    decreases ks.len(),
{
    if ks.len() == 0 {
        (None, es)
    } else {
        let (a, rest) = take_keys(es, ks.drop_last());
        let (b, rest2) = take_key(rest, ks.last());
        (if a is Some { a } else { b }, rest2)
    }
}

/// The raw value taken for each field, in order, and the entries left over.
pub open spec fn take_fields(es: Seq<Entry>, fields: Seq<FieldDecl>) -> (Seq<Option<Annotated<Value>>>, Seq<Entry>)
    decreases fields.len(),
{
    if fields.len() == 0 {
        (seq![], es)
    } else {
        let (raws, rest) = take_fields(es, fields.drop_last());
        let (a, rest2) = take_keys(rest, lookup_keys(fields.last()));
        (raws.push(a), rest2)
    }
}

/// The typed value of `v` under `kind`; `None` where the types do not match.
pub open spec fn typed_of(kind: LeafKind, v: Value) -> Option<Typed> {
    match (kind, v) {
        (LeafKind::Any, v) => Some(Typed::Any(v)),
        (LeafKind::Bool, Value::Bool(b)) => Some(Typed::Bool(b)),
        (LeafKind::Int, Value::I64(i)) => Some(Typed::Int(i)),
        (LeafKind::Str, Value::String(s)) => Some(Typed::Str(s)),
        _ => None,
    }
}

/// `r` is `m` with the errors `added` appended and nothing else changed.
pub open spec fn meta_extended(m: Meta, added: Seq<ErrorEntry>, r: Meta) -> bool {
    &&& r.errors@ == m.errors@ + added
    &&& r.remarks == m.remarks
    &&& r.original_value == m.original_value
    &&& added.len() == 0 ==> r == m
}

/// The value a field binds to from its raw value.
pub open spec fn field_value(d: FieldDecl, raw: Option<Annotated<Value>>) -> Option<Typed> {
    match raw {
        Some(a) => match a.value {
            Some(v) => typed_of(d.kind, v),
            None => None,
        },
        None => None,
    }
}

/// The errors binding a field adds: a type mismatch, then a missing value
/// of a required field.
pub open spec fn field_errors(d: FieldDecl, raw: Option<Annotated<Value>>) -> Seq<ErrorEntry> {
    let mismatch = match raw {
        Some(a) => match a.value {
            Some(v) => if typed_of(d.kind, v) is None {
                seq![error_of(ErrorKind::UnexpectedType, Some(v))]
            } else {
                Seq::empty()
            },
            None => Seq::empty(),
        },
        None => Seq::empty(),
    };
    let missing = if d.attrs.required && field_value(d, raw) is None {
        seq![error_of(ErrorKind::MissingField, None)]
    } else {
        Seq::empty()
    };
    mismatch + missing
}

/// `r` is what a field declared by `d` binds to from `raw`.
pub open spec fn field_bound(d: FieldDecl, raw: Option<Annotated<Value>>, r: Annotated<Typed>) -> bool {
    &&& r.value == field_value(d, raw)
    &&& match raw {
        Some(a) => meta_extended(a.meta, field_errors(d, raw), r.meta),
        None => {
            &&& r.meta.errors@ == field_errors(d, raw)
            &&& r.meta.remarks@.len() == 0
            &&& r.meta.original_value is None
        },
    }
}

/// `rec` is what the object entries `es` bind to under schema `s`.
pub open spec fn record_bound(s: RecordSchema, es: Seq<Entry>, rec: Record) -> bool {
    let (raws, rest) = take_fields(es, s.fields@);
    &&& rec.fields@.len() == s.fields@.len()
    &&& forall|i: int| 0 <= i < s.fields@.len() ==> field_bound(s.fields@[i], raws[i], #[trigger] rec.fields@[i])
    &&& rec.other@ == if s.additional_properties { rest } else { Seq::empty() }
}

/// `r` is what `input` binds to under schema `s`.
pub open spec fn record_bind(s: RecordSchema, input: Annotated<Value>, r: Annotated<Record>) -> bool {
    match input.value {
        None => r == Annotated::<Record> { value: None, meta: input.meta },
        Some(Value::Object(es)) => {
            &&& r.meta == input.meta
            &&& r.value matches Some(rec) && record_bound(s, es@, rec)
        },
        Some(v) => {
            &&& r.value is None
            &&& meta_extended(input.meta, seq![error_of(ErrorKind::UnexpectedType, Some(v))], r.meta)
        },
    }
}

pub(crate) proof fn lemma_find_key(es: Seq<Entry>, k: Seq<char>)
    ensures
        match find_key(es, k) {
            Some(i) => 0 <= i < es.len() && es[i].0@ == k && forall|j: int| 0 <= j < i ==> es[j].0@ != k,
            None => forall|j: int| 0 <= j < es.len() ==> es[j].0@ != k,
        },
    decreases es.len(),
{
    if es.len() > 0 {
        lemma_find_key(es.drop_first(), k);
        if es[0].0@ != k {
            match find_key(es.drop_first(), k) {
                Some(i) => {
                    assert forall|j: int| 0 <= j < i + 1 implies es[j].0@ != k by {
                        if j > 0 {
                            assert(es[j] == es.drop_first()[j - 1]);
                        }
                    }
                },
                None => {
                    assert forall|j: int| 0 <= j < es.len() implies es[j].0@ != k by {
                        if j > 0 {
                            assert(es[j] == es.drop_first()[j - 1]);
                        }
                    }
                },
            }
        }
    }
}

/// The position of the first entry with key `k`.
pub(crate) fn position_of(es: &Vec<Entry>, k: &str) -> (r: Option<usize>)
    ensures
        r matches Some(i) ==> find_key(es@, k@) == Some(i as int),
        r is None ==> find_key(es@, k@) is None,
{
    proof { lemma_find_key(es@, k@); }
    let mut i: usize = 0;
    while i < es.len()
        invariant
            i <= es@.len(),
            forall|j: int| 0 <= j < i ==> es@[j].0@ != k@,
        decreases es@.len() - i,
    {
        if str_eq(es[i].0.as_str(), k) {
            proof {
                lemma_find_key(es@, k@);
                match find_key(es@, k@) {
                    Some(p) => {
                        if p < i {
                            assert(es@[p].0@ != k@);
                        } else if p > i {
                            assert(es@[i as int].0@ != k@);
                        }
                    },
                    None => {
                        assert(es@[i as int].0@ != k@);
                    },
                }
            }
            return Some(i);
        }
        i = i + 1;
    }
    None
}

/// Removes the first entry with key `k` and returns its value.
pub fn remove_key(es: &mut Vec<Entry>, k: &str) -> (r: Option<Annotated<Value>>)
    ensures
        (r, final(es)@) == take_key(old(es)@, k@),
{
    proof { lemma_find_key(es@, k@); }
    match position_of(es, k) {
        Some(i) => {
            let e = es.remove(i);
            Some(e.1)
        },
        None => None,
    }
}

/// Removes the first entry of each key in turn; the first value found wins.
fn remove_keys(es: &mut Vec<Entry>, name: &String, aliases: &Vec<String>) -> (r: Option<Annotated<Value>>)
    ensures
        (r, final(es)@) == take_keys(old(es)@, seq![name@] + aliases@.map_values(|s: String| s@)),
{
    let ghost ks = seq![name@] + aliases@.map_values(|s: String| s@);
    let ghost start = es@;
    let mut found = remove_key(es, name.as_str());
    proof {
        assert(ks.take(1).drop_last() =~= Seq::<Seq<char>>::empty());
        assert(ks.take(1).last() == name@);
        assert(take_keys(start, Seq::<Seq<char>>::empty()) == (None::<Annotated<Value>>, start));
    }
    let mut i: usize = 0;
    while i < aliases.len()
        invariant
            ks == seq![name@] + aliases@.map_values(|s: String| s@),
            i <= aliases@.len(),
            (found, es@) == take_keys(start, ks.take(i + 1)),
        decreases aliases@.len() - i,
    {
        let b = remove_key(es, aliases[i].as_str());
        proof {
            assert(ks.take(i + 2).drop_last() =~= ks.take(i + 1));
            assert(ks.take(i + 2).last() == aliases@[i as int]@);
        }
        if found.is_none() {
            found = b;
        }
        i = i + 1;
    }
    proof {
        assert(ks.take(aliases@.len() + 1 as int) =~= ks);
    }
    found
}

/// Binds the raw value of one field.
pub fn bind_field(d: &FieldDecl, raw: Option<Annotated<Value>>) -> (r: Annotated<Typed>)
    ensures
        field_bound(*d, raw, r),
{
    let mut out: Annotated<Typed> = match raw {
        None => Annotated::empty(),
        Some(a) => {
            let Annotated { value, mut meta } = a;
            match value {
                None => Annotated { value: None, meta },
                Some(v) => {
                    match (d.kind, v) {
                        (LeafKind::Any, v) => Annotated { value: Some(Typed::Any(v)), meta },
                        (LeafKind::Bool, Value::Bool(b)) => Annotated { value: Some(Typed::Bool(b)), meta },
                        (LeafKind::Int, Value::I64(i)) => Annotated { value: Some(Typed::Int(i)), meta },
                        (LeafKind::Str, Value::String(s)) => Annotated { value: Some(Typed::Str(s)), meta },
                        (_, v) => {
                            meta.add_error(ErrorKind::UnexpectedType, Some(v));
                            Annotated { value: None, meta }
                        },
                    }
                },
            }
        },
    };
    if d.attrs.required && out.value.is_none() {
        out.meta.add_error(ErrorKind::MissingField, None);
    }
    proof {
        assert(out.meta.errors@ =~= (match raw { Some(a) => a.meta.errors@, None => Seq::empty() }) + field_errors(*d, raw));
    }
    out
}

/// Binds the entries of an object into a record of schema `s`.
pub fn bind_entries(s: &RecordSchema, es: Vec<Entry>) -> (rec: Record)
    ensures
        record_bound(*s, es@, rec),
{
    let ghost start = es@;
    let mut rest = es;
    let mut fields: Vec<Annotated<Typed>> = Vec::new();
    let ghost mut raws: Seq<Option<Annotated<Value>>> = Seq::empty();
    let mut i: usize = 0;
    while i < s.fields.len()
        invariant
            i <= s.fields@.len(),
            (raws, rest@) == take_fields(start, s.fields@.take(i as int)),
            fields@.len() == i,
            raws.len() == i,
            forall|j: int| 0 <= j < i ==> field_bound(s.fields@[j], raws[j], #[trigger] fields@[j]),
        decreases s.fields@.len() - i,
    {
        let d = &s.fields[i];
        let raw = remove_keys(&mut rest, &d.attrs.name, &d.aliases);
        proof {
            assert(s.fields@.take(i + 1).drop_last() =~= s.fields@.take(i as int));
            assert(s.fields@.take(i + 1).last() == *d);
            raws = raws.push(raw);
        }
        let f = bind_field(d, raw);
        fields.push(f);
        i = i + 1;
    }
    proof {
        assert(s.fields@.take(s.fields@.len() as int) =~= s.fields@);
    }
    let other = if s.additional_properties { rest } else { Vec::new() };
    proof {
        assert(other@ =~= if s.additional_properties { take_fields(start, s.fields@).1 } else { Seq::empty() });
    }
    Record { fields, other }
}

/// Binds an annotated value into a record of schema `s`: an absent value
/// stays absent, a value that is not an object becomes absent with an
/// `UnexpectedType` error, and an object is bound field by field.
pub fn bind_record(s: &RecordSchema, input: Annotated<Value>) -> (r: Annotated<Record>)
    ensures
        record_bind(*s, input, r),
{
    let Annotated { value, mut meta } = input;
    match value {
        None => Annotated { value: None, meta },
        Some(Value::Object(es)) => {
            let rec = bind_entries(s, es);
            Annotated { value: Some(rec), meta }
        },
        Some(v) => {
            meta.add_error(ErrorKind::UnexpectedType, Some(v));
            proof {
                assert(meta.errors@ =~= input.meta.errors@ + seq![error_of(ErrorKind::UnexpectedType, Some(v))]);
            }
            Annotated { value: None, meta }
        },
    }
}

/// The inner annotated value of a wrapped one.
pub open spec fn unwrapped<T>(a: Annotated<Wrapped<T>>) -> Annotated<T> {
    Annotated {
        value: match a.value {
            Some(w) => Some(w.0),
            None => None,
        },
        meta: a.meta,
    }
}

/// Wraps the value of an annotated result, its metadata kept.
pub fn wrap<T>(a: Annotated<T>) -> (r: Annotated<Wrapped<T>>)
    ensures
        unwrapped(r) == a,
{
    let Annotated { value, meta } = a;
    match value {
        Some(v) => Annotated { value: Some(Wrapped(v)), meta },
        None => Annotated { value: None, meta },
    }
}

/// Binds a newtype over a record: the record's binding, re-wrapped.
pub fn bind_wrapped(s: &RecordSchema, input: Annotated<Value>) -> (r: Annotated<Wrapped<Record>>)
    ensures
        record_bind(*s, input, unwrapped(r)),
{
    wrap(bind_record(s, input))
}

} // verus!
