//! The processing state and the generic walk of a processor over records.

use vstd::prelude::*;
use crate::meta::{Annotated, Entry, Value};
use crate::binder::{unwrapped, wrap};
use crate::projector::unwrap;
use crate::schema::{FieldAttrs, FieldDecl, Record, RecordSchema, Tagged, TaggedSchema, Typed, Wrapped};
use crate::tagged::tagged_fits;

verus! {

/// A step of a path: an object key or an array index.
#[derive(Debug, PartialEq)]
pub enum PathItem {
    Key(String),
    Index(usize),
}

/// One level of the walk: where it is, and the attributes of the field
/// there, borrowed from the schema.
pub struct Frame<'a> {
    pub item: PathItem,
    pub attrs: Option<&'a FieldAttrs>,
}

/// The stack of frames from the root to the node being processed.
pub struct ProcessingState<'a> {
    pub frames: Vec<Frame<'a>>,
}

impl<'a> ProcessingState<'a> {
    /// The state at the root: no frames.
    pub fn root() -> (r: ProcessingState<'a>)
        ensures
            r.frames@.len() == 0,
    {
        ProcessingState { frames: Vec::new() }
    }

    /// Enters a child node.
    pub fn enter(&mut self, item: PathItem, attrs: Option<&'a FieldAttrs>)
        ensures
            final(self).frames@ == old(self).frames@.push(Frame { item, attrs }),
    {
        self.frames.push(Frame { item, attrs });
    }

    /// Returns to the parent node.
    pub fn leave(&mut self)
        requires
            old(self).frames@.len() > 0,
        ensures
            final(self).frames@ == old(self).frames@.drop_last(),
    {
        self.frames.pop();
    }

    /// How many frames deep the walk is.
    pub fn depth(&self) -> (r: usize)
        ensures
            r == self.frames@.len(),
    {
        self.frames.len()
    }

    /// The attributes of the innermost frame, if it has any.
    pub fn attrs(&self) -> (r: Option<&'a FieldAttrs>)
        ensures
            self.frames@.len() == 0 ==> r is None,
            self.frames@.len() > 0 ==> r == self.frames@.last().attrs,
    {
        if self.frames.len() == 0 {
            None
        } else {
            self.frames[self.frames.len() - 1].attrs
        }
    }
}

/// A pass over records. Each method's result is related to its input and
/// path by a spec predicate, so that the walk can say where and in which
/// order it calls them.
pub trait Processor {
    /// `r` is what the pass may make of a declared field's value `a` at `path`.
    spec fn field_processed(&self, a: Annotated<Typed>, path: Seq<Frame>, r: Annotated<Typed>) -> bool;

    /// `r` is what the pass may make of a collected or verbatim entry's value.
    spec fn entry_processed(&self, a: Annotated<Value>, path: Seq<Frame>, r: Annotated<Value>) -> bool;

    /// `r` is what the record hook may make of a rebuilt record at `path`.
    spec fn record_processed(&self, a: Annotated<Record>, path: Seq<Frame>, r: Annotated<Record>) -> bool;

    /// `r` is what the hook may make of a rebuilt tagged value at `path`.
    spec fn tagged_processed(&self, a: Annotated<Tagged>, path: Seq<Frame>, r: Annotated<Tagged>) -> bool;

    fn process_field(&self, a: Annotated<Typed>, state: &ProcessingState) -> (r: Annotated<Typed>)
        ensures
            self.field_processed(a, state.frames@, r),
    ;

    fn process_entry(&self, a: Annotated<Value>, state: &ProcessingState) -> (r: Annotated<Value>)
        ensures
            self.entry_processed(a, state.frames@, r),
    ;

    fn process_record(&self, a: Annotated<Record>, state: &ProcessingState) -> (r: Annotated<Record>)
        ensures
            self.record_processed(a, state.frames@, r),
    ;

    fn process_tagged(&self, a: Annotated<Tagged>, state: &ProcessingState) -> (r: Annotated<Tagged>)
        ensures
            self.tagged_processed(a, state.frames@, r),
    ;
}

/// The frame of a declared field: its name and its attributes.
pub open spec fn field_frame<'a>(d: &'a FieldDecl) -> Frame<'a> {
    Frame { item: PathItem::Key(d.attrs.name), attrs: Some(&d.attrs) }
}

/// The frame of an entry: its key, with no attributes.
pub open spec fn entry_frame<'a>(k: String) -> Frame<'a> {
    Frame { item: PathItem::Key(k), attrs: None }
}

/// Each entry of `r` is the entry of `es` with the same key, its value
/// processed at the path `frames` extended by the key.
pub open spec fn entries_walked<P: Processor>(p: &P, es: Seq<Entry>, frames: Seq<Frame>, r: Seq<Entry>) -> bool {
    &&& r.len() == es.len()
    &&& forall|i: int| 0 <= i < es.len() ==> (#[trigger] r[i]).0 == es[i].0
        && p.entry_processed(es[i].1, frames.push(entry_frame(es[i].0)), r[i].1)
}

/// `m` is `a` with every field and collected entry processed, in place.
pub open spec fn record_rebuilt<'a, P: Processor>(
    p: &P,
    s: &'a RecordSchema,
    a: Annotated<Record>,
    frames: Seq<Frame<'a>>,
    m: Annotated<Record>,
) -> bool {
    match a.value {
        None => m == a,
        Some(rec) => {
            &&& m.meta == a.meta
            &&& m.value matches Some(rec2) && {
                &&& rec2.fields@.len() == rec.fields@.len()
                &&& forall|i: int| 0 <= i < rec.fields@.len() ==> p.field_processed(
                    rec.fields@[i],
                    frames.push(field_frame(&s.fields@[i])),
                    #[trigger] rec2.fields@[i],
                )
                &&& entries_walked(p, rec.other@, frames, rec2.other@)
            }
        },
    }
}

/// `r` is the walk's result on a record: the rebuilt record, handed to the
/// record hook where the schema declares one.
pub open spec fn record_walk<'a, P: Processor>(
    p: &P,
    s: &'a RecordSchema,
    a: Annotated<Record>,
    frames: Seq<Frame<'a>>,
    r: Annotated<Record>,
) -> bool {
    if s.post_hook {
        exists|m: Annotated<Record>| #[trigger] record_rebuilt(p, s, a, frames, m)
            && p.record_processed(m, frames, r)
    } else {
        record_rebuilt(p, s, a, frames, r)
    }
}

/// The payload of a tagged value that holds a known variant.
pub open spec fn variant_payload(m: Annotated<Tagged>) -> Annotated<Record> {
    Annotated {
        value: match m.value {
            Some(Tagged::Variant(_, rec)) => Some(rec),
            _ => None,
        },
        meta: m.meta,
    }
}

/// `m` is `a` with its active variant walked and re-wrapped.
pub open spec fn tagged_rebuilt<'a, P: Processor>(
    p: &P,
    s: &'a TaggedSchema,
    a: Annotated<Tagged>,
    frames: Seq<Frame<'a>>,
    m: Annotated<Tagged>,
) -> bool {
    match a.value {
        None => m == a,
        Some(Tagged::Variant(j, rec)) => {
            &&& m.value matches Some(t) ==> t matches Tagged::Variant(jj, _) && jj == j
            &&& record_walk(
                p,
                &s.variants@[j as int].payload,
                Annotated { value: Some(rec), meta: a.meta },
                frames,
                variant_payload(m),
            )
        },
        Some(Tagged::Fallback(es)) => {
            &&& m.meta == a.meta
            &&& m.value matches Some(Tagged::Fallback(es2)) && entries_walked(p, es@, frames, es2@)
        },
    }
}

/// `r` is the walk's result on a tagged value.
pub open spec fn tagged_walk<'a, P: Processor>(
    p: &P,
    s: &'a TaggedSchema,
    a: Annotated<Tagged>,
    frames: Seq<Frame<'a>>,
    r: Annotated<Tagged>,
) -> bool {
    if s.post_hook {
        exists|m: Annotated<Tagged>| #[trigger] tagged_rebuilt(p, s, a, frames, m)
            && p.tagged_processed(m, frames, r)
    } else {
        tagged_rebuilt(p, s, a, frames, r)
    }
}

/// Processes each entry's value under a frame of its key, in order.
pub fn walk_entries<'a, P: Processor>(p: &P, es: Vec<Entry>, state: &mut ProcessingState<'a>) -> (r: Vec<Entry>)
    ensures
        entries_walked(p, es@, old(state).frames@, r@),
        final(state).frames@ == old(state).frames@,
{
    let ghost start = es@;
    let ghost frames = state.frames@;
    let mut es = es;
    let mut out: Vec<Entry> = Vec::new();
    let mut i: usize = 0;
    let n = es.len();
    while i < n
        invariant
            n == start.len(),
            i <= n,
            es@ == start.skip(i as int),
            state.frames@ == frames,
            out@.len() == i,
            forall|j: int| 0 <= j < i ==> (#[trigger] out@[j]).0 == start[j].0
                && p.entry_processed(start[j].1, frames.push(entry_frame(start[j].0)), out@[j].1),
        decreases n - i,
    {
        let (k, v) = es.remove(0);
        proof {
            assert(start[i as int] == (k, v));
            assert(es@ =~= start.skip(i + 1));
        }
        state.enter(PathItem::Key(k.clone()), None);
        let v2 = p.process_entry(v, state);
        state.leave();
        proof {
            assert(state.frames@ =~= frames);
        }
        out.push((k, v2));
        i = i + 1;
    }
    out
}

/// Processes each declared field under a frame of its name and attributes,
/// then each collected entry; the record hook runs last, where declared,
/// at the record's own path.
pub fn walk_record<'a, P: Processor>(
    p: &P,
    s: &'a RecordSchema,
    a: Annotated<Record>,
    state: &mut ProcessingState<'a>,
) -> (r: Annotated<Record>)
    requires
        a.value matches Some(rec) ==> rec.fields@.len() == s.fields@.len(),
    ensures
        record_walk(p, s, a, old(state).frames@, r),
        final(state).frames@ == old(state).frames@,
{
    let ghost frames = state.frames@;
    let Annotated { value, meta } = a;
    let rebuilt = match value {
        None => Annotated { value: None, meta },
        Some(rec) => {
            let ghost orig = rec;
            let Record { fields, other } = rec;
            let mut fields = fields;
            let mut out: Vec<Annotated<Typed>> = Vec::new();
            let mut i: usize = 0;
            let n = fields.len();
            while i < n
                invariant
                    n == orig.fields@.len(),
                    n == s.fields@.len(),
                    i <= n,
                    fields@ == orig.fields@.skip(i as int),
                    state.frames@ == frames,
                    out@.len() == i,
                    forall|j: int| 0 <= j < i ==> p.field_processed(
                        orig.fields@[j],
                        frames.push(field_frame(&s.fields@[j])),
                        #[trigger] out@[j],
                    ),
                decreases n - i,
            {
                let f = fields.remove(0);
                proof {
                    assert(orig.fields@[i as int] == f);
                    assert(fields@ =~= orig.fields@.skip(i + 1));
                }
                let d = &s.fields[i];
                state.enter(PathItem::Key(d.attrs.name.clone()), Some(&d.attrs));
                let f2 = p.process_field(f, state);
                state.leave();
                proof {
                    assert(state.frames@ =~= frames);
                }
                out.push(f2);
                i = i + 1;
            }
            let other2 = walk_entries(p, other, state);
            Annotated { value: Some(Record { fields: out, other: other2 }), meta }
        },
    };
    proof {
        assert(record_rebuilt(p, s, a, frames, rebuilt));
    }
    if s.post_hook {
        p.process_record(rebuilt, state)
    } else {
        rebuilt
    }
}

/// Walks the active variant of a tagged value and re-wraps it; a fallback's
/// entries are each processed under a frame of their key. The tagged
/// type's hook runs last, where declared.
pub fn walk_tagged<'a, P: Processor>(
    p: &P,
    s: &'a TaggedSchema,
    a: Annotated<Tagged>,
    state: &mut ProcessingState<'a>,
) -> (r: Annotated<Tagged>)
    requires
        a.value matches Some(t) ==> tagged_fits(*s, t),
    ensures
        tagged_walk(p, s, a, old(state).frames@, r),
        final(state).frames@ == old(state).frames@,
{
    let ghost frames = state.frames@;
    let Annotated { value, meta } = a;
    let rebuilt = match value {
        None => Annotated { value: None, meta },
        Some(Tagged::Variant(j, rec)) => {
            let inner = walk_record(p, &s.variants[j].payload, Annotated { value: Some(rec), meta }, state);
            let Annotated { value: v2, meta: m2 } = inner;
            match v2 {
                Some(rec2) => Annotated { value: Some(Tagged::Variant(j, rec2)), meta: m2 },
                None => Annotated { value: None, meta: m2 },
            }
        },
        Some(Tagged::Fallback(es)) => {
            let es2 = walk_entries(p, es, state);
            Annotated { value: Some(Tagged::Fallback(es2)), meta }
        },
    };
    proof {
        assert(tagged_rebuilt(p, s, a, frames, rebuilt));
    }
    if s.post_hook {
        p.process_tagged(rebuilt, state)
    } else {
        rebuilt
    }
}

/// Walks a newtype over a record: the inner record's walk, re-wrapped.
pub fn walk_wrapped<'a, P: Processor>(
    p: &P,
    s: &'a RecordSchema,
    a: Annotated<Wrapped<Record>>,
    state: &mut ProcessingState<'a>,
) -> (r: Annotated<Wrapped<Record>>)
    requires
        a.value matches Some(w) ==> w.0.fields@.len() == s.fields@.len(),
    ensures
        record_walk(p, s, unwrapped(a), old(state).frames@, unwrapped(r)),
        final(state).frames@ == old(state).frames@,
{
    wrap(walk_record(p, s, unwrap(a), state))
}

} // verus!
