//! Projecting bound records back into a value tree.

use vstd::prelude::*;
use crate::meta::{Annotated, Entry, Value, skips};
use crate::binder::unwrapped;
use crate::schema::{FieldDecl, Record, RecordSchema, Typed, Wrapped};

verus! {

/// The value tree node of a typed leaf.
pub open spec fn value_of(t: Typed) -> Value {
    match t {
        Typed::Bool(b) => Value::Bool(b),
        Typed::Int(i) => Value::I64(i),
        Typed::Str(s) => Value::String(s),
        Typed::Any(v) => v,
    }
}

/// A bound field as a value tree node, its metadata kept.
pub open spec fn leaf_projected(a: Annotated<Typed>) -> Annotated<Value> {
    Annotated {
        value: match a.value {
            Some(t) => Some(value_of(t)),
            None => None,
        },
        meta: a.meta,
    }
}

/// The entries of `es` that projection keeps, in order.
pub open spec fn kept(es: Seq<Entry>) -> Seq<Entry>
    decreases es.len(),
{
    if es.len() == 0 {
        Seq::empty()
    } else if skips(es.last().1) {
        kept(es.drop_last())
    } else {
        kept(es.drop_last()).push(es.last())
    }
}

/// The entries of the declared fields, named by their declared names,
/// without the fields that skip.
pub open spec fn fields_projected(ds: Seq<FieldDecl>, vs: Seq<Annotated<Typed>>) -> Seq<Entry>
    decreases ds.len(),
{
    if ds.len() == 0 || vs.len() == 0 {
        Seq::empty()
    } else {
        let prev = fields_projected(ds.drop_last(), vs.drop_last());
        let a = leaf_projected(vs.last());
        if skips(a) {
            prev
        } else {
            prev.push((ds.last().attrs.name, a))
        }
    }
}

/// The object entries of a record: declared fields, then the collected keys.
pub open spec fn record_entries(s: RecordSchema, rec: Record) -> Seq<Entry> {
    fields_projected(s.fields@, rec.fields@) + kept(rec.other@)
}

/// `r` is the projection of `a` under schema `s`.
pub open spec fn record_project(s: RecordSchema, a: Annotated<Record>, r: Annotated<Value>) -> bool {
    match a.value {
        None => r == Annotated::<Value> { value: None, meta: a.meta },
        Some(rec) => {
            &&& r.meta == a.meta
            &&& r.value matches Some(Value::Object(es)) && es@ == record_entries(s, rec)
        },
    }
}

/// Projects one bound field.
pub fn project_leaf(a: Annotated<Typed>) -> (r: Annotated<Value>)
    ensures
        r == leaf_projected(a),
{
    let Annotated { value, meta } = a;
    let value = match value {
        Some(Typed::Bool(b)) => Some(Value::Bool(b)),
        Some(Typed::Int(i)) => Some(Value::I64(i)),
        Some(Typed::Str(s)) => Some(Value::String(s)),
        Some(Typed::Any(v)) => Some(v),
        None => None,
    };
    Annotated { value, meta }
}

/// Appends the entries of `es` that do not skip to `out`, in order.
pub fn extend_kept(out: &mut Vec<Entry>, es: Vec<Entry>)
    ensures
        final(out)@ == old(out)@ + kept(es@),
{
    let ghost start = es@;
    let ghost prefix = out@;
    let mut es = es;
    let mut i: usize = 0;
    let n = es.len();
    while i < n
        invariant
            n == start.len(),
            i <= n,
            es@ == start.skip(i as int),
            out@ == prefix + kept(start.take(i as int)),
        decreases n - i,
    {
        let e = es.remove(0);
        proof {
            assert(start.take(i + 1).drop_last() =~= start.take(i as int));
            assert(start.take(i + 1).last() == e);
            assert(es@ =~= start.skip(i + 1));
        }
        if !e.1.skip_serialization() {
            out.push(e);
            proof {
                assert(out@ =~= prefix + kept(start.take(i + 1)));
            }
        }
        i = i + 1;
    }
    proof {
        assert(start.take(n as int) =~= start);
    }
}

/// The object entries of a record under schema `s`.
pub fn project_entries(s: &RecordSchema, rec: Record) -> (r: Vec<Entry>)
    requires
        rec.fields@.len() == s.fields@.len(),
    ensures
        r@ == record_entries(*s, rec),
{
    let ghost orig = rec;
    let Record { fields, other } = rec;
    let mut fields = fields;
    let mut out: Vec<Entry> = Vec::new();
    let mut i: usize = 0;
    let n = s.fields.len();
    while i < n
        invariant
            n == s.fields@.len(),
            n == orig.fields@.len(),
            i <= n,
            fields@ == orig.fields@.skip(i as int),
            out@ == fields_projected(s.fields@.take(i as int), orig.fields@.take(i as int)),
        decreases n - i,
    {
        let f = fields.remove(0);
        proof {
            assert(s.fields@.take(i + 1).drop_last() =~= s.fields@.take(i as int));
            assert(orig.fields@.take(i + 1).drop_last() =~= orig.fields@.take(i as int));
            assert(orig.fields@.take(i + 1).last() == f);
            assert(fields@ =~= orig.fields@.skip(i + 1));
        }
        let a = project_leaf(f);
        if !a.skip_serialization() {
            out.push((s.fields[i].attrs.name.clone(), a));
        }
        i = i + 1;
    }
    proof {
        assert(s.fields@.take(n as int) =~= s.fields@);
        assert(orig.fields@.take(n as int) =~= orig.fields@);
    }
    extend_kept(&mut out, other);
    out
}

/// Projects a record of schema `s`: an absent record stays absent with its
/// metadata; a present one becomes an object of its declared fields, then
/// its collected keys, each field that skips left out.
pub fn project_record(s: &RecordSchema, a: Annotated<Record>) -> (r: Annotated<Value>)
    requires
        a.value matches Some(rec) ==> rec.fields@.len() == s.fields@.len(),
    ensures
        record_project(*s, a, r),
{
    let Annotated { value, meta } = a;
    match value {
        None => Annotated { value: None, meta },
        Some(rec) => Annotated { value: Some(Value::Object(project_entries(s, rec))), meta },
    }
}

/// Takes the inner value out of a wrapped annotated value.
pub fn unwrap<T>(a: Annotated<Wrapped<T>>) -> (r: Annotated<T>)
    ensures
        r == unwrapped(a),
{
    let Annotated { value, meta } = a;
    match value {
        Some(w) => Annotated { value: Some(w.0), meta },
        None => Annotated { value: None, meta },
    }
}

/// Projects a newtype over a record: the inner record's projection.
pub fn project_wrapped(s: &RecordSchema, a: Annotated<Wrapped<Record>>) -> (r: Annotated<Value>)
    requires
        a.value matches Some(w) ==> w.0.fields@.len() == s.fields@.len(),
    ensures
        record_project(*s, unwrapped(a), r),
{
    project_record(s, unwrap(a))
}

} // verus!
