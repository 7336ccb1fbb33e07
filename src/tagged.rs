//! Tagged types: a discriminator key selects the variant of an object.

use vstd::prelude::*;
use crate::binder::{bind_entries, find_key, meta_extended, position_of, record_bound, take_key};
use crate::meta::{Annotated, Entry, ErrorKind, Value, error_of, meta_is_empty};
use crate::projector::{project_entries, record_entries};
use crate::schema::{RecordSchema, Tagged, TaggedSchema, VariantDecl, str_eq};

verus! {

/// The lower-cased form of a string.
pub uninterp spec fn lower_of(s: Seq<char>) -> Seq<char>;

/// Relies on `str::to_lowercase`: the result depends on the characters alone.
#[verifier::external_body]
fn lowercase(s: &str) -> (r: String)
    ensures
        r@ == lower_of(s@),
{
    s.to_lowercase()
}

impl VariantDecl {
    /// A variant selected by the given tag.
    pub fn with_tag(tag: String, payload: RecordSchema) -> (r: VariantDecl)
        ensures
            r.tag == tag,
            r.payload == payload,
    {
        VariantDecl { tag, payload }
    }

    /// A variant whose tag is its lower-cased name.
    pub fn named(name: &str, payload: RecordSchema) -> (r: VariantDecl)
        ensures
            r.tag@ == lower_of(name@),
            r.payload == payload,
    {
        VariantDecl::with_tag(lowercase(name), payload)
    }
}

/// The discriminator string of an object: the string under key `k`.
pub open spec fn tag_of(es: Seq<Entry>, k: Seq<char>) -> Option<Seq<char>> {
    match find_key(es, k) {
        Some(i) => match es[i].1.value {
            Some(Value::String(t)) => Some(t@),
            _ => None,
        },
        None => None,
    }
}

/// The first variant whose tag is `t`.
pub open spec fn find_variant(vs: Seq<VariantDecl>, t: Seq<char>) -> Option<int>
    decreases vs.len(),
{
    if vs.len() == 0 {
        None
    } else if vs[0].tag@ == t {
        Some(0)
    } else {
        match find_variant(vs.drop_first(), t) {
            Some(i) => Some(i + 1),
            None => None,
        }
    }
}

/// The variant an object selects under schema `s`.
pub open spec fn selected(s: TaggedSchema, es: Seq<Entry>) -> Option<int> {
    match tag_of(es, s.tag_key@) {
        Some(t) => find_variant(s.variants@, t),
        None => None,
    }
}

/// `r` is what `input` binds to under the tagged schema `s`.
pub open spec fn tagged_bind(s: TaggedSchema, input: Annotated<Value>, r: Annotated<Tagged>) -> bool {
    match input.value {
        None => r == Annotated::<Tagged> { value: None, meta: input.meta },
        Some(Value::Object(es)) => match selected(s, es@) {
            Some(j) => {
                &&& r.meta == input.meta
                &&& r.value matches Some(Tagged::Variant(jj, rec))
                    && jj == j && record_bound(s.variants@[j].payload, take_key(es@, s.tag_key@).1, rec)
            },
            None => if s.fallback {
                r == Annotated::<Tagged> { value: Some(Tagged::Fallback(es)), meta: input.meta }
            } else {
                &&& r.value is None
                &&& meta_extended(
                    input.meta,
                    seq![error_of(ErrorKind::InvalidEnumVariant, Some(Value::Object(es)))],
                    r.meta,
                )
            },
        },
        Some(v) => {
            &&& r.value is None
            &&& meta_extended(input.meta, seq![error_of(ErrorKind::UnexpectedType, Some(v))], r.meta)
        },
    }
}

/// `es` without the entries of key `k`.
pub open spec fn without_key(es: Seq<Entry>, k: Seq<char>) -> Seq<Entry>
    decreases es.len(),
{
    if es.len() == 0 {
        Seq::empty()
    } else if es.last().0@ == k {
        without_key(es.drop_last(), k)
    } else {
        without_key(es.drop_last(), k).push(es.last())
    }
}

/// A bound tagged value fits schema `s`: a known variant's index is in
/// range and its record has one value per declared field.
pub open spec fn tagged_fits(s: TaggedSchema, t: Tagged) -> bool {
    match t {
        Tagged::Variant(j, rec) => j < s.variants@.len() && rec.fields@.len()
            == s.variants@[j as int].payload.fields@.len(),
        Tagged::Fallback(_) => true,
    }
}

/// `r` is the projection of `a` under the tagged schema `s`: a known
/// variant's payload with the discriminator first, a fallback's object as
/// it was kept.
pub open spec fn tagged_project(s: TaggedSchema, a: Annotated<Tagged>, r: Annotated<Value>) -> bool {
    match a.value {
        None => r == Annotated::<Value> { value: None, meta: a.meta },
        Some(Tagged::Variant(j, rec)) => {
            &&& r.meta == a.meta
            &&& r.value matches Some(Value::Object(es)) && {
                &&& es@.len() >= 1
                &&& es@[0].0 == s.tag_key
                &&& es@[0].1.value == Some(Value::String(s.variants@[j as int].tag))
                &&& meta_is_empty(es@[0].1.meta)
                &&& es@.drop_first() == without_key(record_entries(s.variants@[j as int].payload, rec), s.tag_key@)
            }
        },
        Some(Tagged::Fallback(es)) => r == Annotated::<Value> { value: Some(Value::Object(es)), meta: a.meta },
    }
}

proof fn lemma_find_variant(vs: Seq<VariantDecl>, t: Seq<char>)
    ensures
        match find_variant(vs, t) {
            Some(i) => 0 <= i < vs.len() && vs[i].tag@ == t && forall|j: int| 0 <= j < i ==> vs[j].tag@ != t,
            None => forall|j: int| 0 <= j < vs.len() ==> vs[j].tag@ != t,
        },
    decreases vs.len(),
{
    if vs.len() > 0 {
        lemma_find_variant(vs.drop_first(), t);
        if vs[0].tag@ != t {
            assert forall|j: int| 0 < j < vs.len() implies vs[j] == vs.drop_first()[j - 1] by {}
        }
    }
}

/// The index of the first variant with tag `t`.
fn variant_of(vs: &Vec<VariantDecl>, t: &str) -> (r: Option<usize>)
    ensures
        r matches Some(i) ==> find_variant(vs@, t@) == Some(i as int),
        r is None ==> find_variant(vs@, t@) is None,
{
    proof { lemma_find_variant(vs@, t@); }
    let mut i: usize = 0;
    while i < vs.len()
        invariant
            i <= vs@.len(),
            forall|j: int| 0 <= j < i ==> vs@[j].tag@ != t@,
        decreases vs@.len() - i,
    {
        if str_eq(vs[i].tag.as_str(), t) {
            proof {
                lemma_find_variant(vs@, t@);
                match find_variant(vs@, t@) {
                    Some(p) => {
                        if p < i {
                            assert(vs@[p].tag@ != t@);
                        } else if p > i {
                            assert(vs@[i as int].tag@ != t@);
                        }
                    },
                    None => {
                        assert(vs@[i as int].tag@ != t@);
                    },
                }
            }
            return Some(i);
        }
        i = i + 1;
    }
    None
}

/// The variant an object selects, and the position of its discriminator.
fn select(s: &TaggedSchema, es: &Vec<Entry>) -> (r: Option<(usize, usize)>)
    ensures
        r matches Some((j, p)) ==> selected(*s, es@) == Some(j as int) && find_key(es@, s.tag_key@) == Some(p as int),
        r is None ==> selected(*s, es@) is None,
{
    proof { crate::binder::lemma_find_key(es@, s.tag_key@); }
    match position_of(es, s.tag_key.as_str()) {
        Some(p) => match &es[p].1.value {
            Some(Value::String(t)) => match variant_of(&s.variants, t.as_str()) {
                Some(j) => Some((j, p)),
                None => None,
            },
            _ => None,
        },
        None => None,
    }
}

/// Binds an annotated value into a tagged type. The discriminator's string
/// selects the first variant with that tag, whose payload is bound from the
/// rest of the object. Where none matches, the object is kept verbatim if
/// the type has a fallback variant, and is otherwise absent with an
/// `InvalidEnumVariant` error.
pub fn bind_tagged(s: &TaggedSchema, input: Annotated<Value>) -> (r: Annotated<Tagged>)
    ensures
        tagged_bind(*s, input, r),
{
    let Annotated { value, mut meta } = input;
    match value {
        None => Annotated { value: None, meta },
        Some(Value::Object(es)) => {
            match select(s, &es) {
                Some((j, p)) => {
                    let mut es = es;
                    proof {
                        crate::binder::lemma_find_key(es@, s.tag_key@);
                        lemma_find_variant(s.variants@, tag_of(es@, s.tag_key@).unwrap());
                    }
                    es.remove(p);
                    let rec = bind_entries(&s.variants[j].payload, es);
                    Annotated { value: Some(Tagged::Variant(j, rec)), meta }
                },
                None => {
                    if s.fallback {
                        Annotated { value: Some(Tagged::Fallback(es)), meta }
                    } else {
                        let ghost obj = Value::Object(es);
                        meta.add_error(ErrorKind::InvalidEnumVariant, Some(Value::Object(es)));
                        proof {
                            assert(meta.errors@ =~= input.meta.errors@ + seq![error_of(ErrorKind::InvalidEnumVariant, Some(obj))]);
                        }
                        Annotated { value: None, meta }
                    }
                },
            }
        },
        Some(v) => {
            meta.add_error(ErrorKind::UnexpectedType, Some(v));
            proof {
                assert(meta.errors@ =~= input.meta.errors@ + seq![error_of(ErrorKind::UnexpectedType, Some(v))]);
            }
            Annotated { value: None, meta }
        },
    }
}

/// Removes every entry of key `k`, keeping the order of the others.
pub fn drop_key(es: Vec<Entry>, k: &str) -> (r: Vec<Entry>)
    ensures
        r@ == without_key(es@, k@),
{
    let ghost start = es@;
    let mut es = es;
    let mut out: Vec<Entry> = Vec::new();
    let mut i: usize = 0;
    let n = es.len();
    while i < n
        invariant
            n == start.len(),
            i <= n,
            es@ == start.skip(i as int),
            out@ == without_key(start.take(i as int), k@),
        decreases n - i,
    {
        let e = es.remove(0);
        proof {
            assert(start.take(i + 1).drop_last() =~= start.take(i as int));
            assert(start.take(i + 1).last() == e);
            assert(es@ =~= start.skip(i + 1));
        }
        if !str_eq(e.0.as_str(), k) {
            out.push(e);
        }
        i = i + 1;
    }
    proof {
        assert(start.take(n as int) =~= start);
    }
    out
}

/// Projects a tagged value: a known variant becomes its payload's object
/// with the discriminator key and the variant's tag in front; a fallback
/// becomes the object it kept.
pub fn project_tagged(s: &TaggedSchema, a: Annotated<Tagged>) -> (r: Annotated<Value>)
    requires
        a.value matches Some(t) ==> tagged_fits(*s, t),
    ensures
        tagged_project(*s, a, r),
{
    let Annotated { value, meta } = a;
    match value {
        None => Annotated { value: None, meta },
        Some(Tagged::Variant(j, rec)) => {
            let payload = project_entries(&s.variants[j].payload, rec);
            let rest = drop_key(payload, s.tag_key.as_str());
            let mut es: Vec<Entry> = Vec::new();
            es.push((s.tag_key.clone(), Annotated::new(Value::String(s.variants[j].tag.clone()))));
            let ghost head = es@;
            let ghost tail = rest@;
            let mut rest = rest;
            es.append(&mut rest);
            proof {
                assert(es@ == head + tail);
                assert(es@.drop_first() =~= tail);
                assert(es@[0] == head[0]);
            }
            Annotated { value: Some(Value::Object(es)), meta }
        },
        Some(Tagged::Fallback(es)) => Annotated { value: Some(Value::Object(es)), meta },
    }
}

} // verus!
