//! Flattening the metadata of a record tree into a path-keyed side channel.

use vstd::prelude::*;
use crate::meta::{Annotated, Entry, Meta, Value, meta_is_empty};
use crate::schema::{Record, RecordSchema, Typed};
use crate::walk::PathItem;

verus! {

broadcast use vstd::std_specs::vec::group_vec_axioms, vstd::seq::group_seq_axioms;

/// One entry of a meta map: a path and the metadata found there.
pub type MetaEntry<'a> = (Vec<PathItem>, &'a Meta);

/// The path and metadata of each entry.
pub open spec fn meta_map_view(es: Seq<MetaEntry>) -> Seq<(Seq<PathItem>, Meta)> {
    es.map_values(|e: MetaEntry| (e.0@, *e.1))
}

/// The node's own metadata at `path`, unless it is empty.
pub open spec fn own_meta(m: Meta, path: Seq<PathItem>) -> Seq<(Seq<PathItem>, Meta)> {
    if meta_is_empty(m) { Seq::empty() } else { seq![(path, m)] }
}

/// The non-empty metadata of a node and of everything below it, in
/// pre-order.
pub open spec fn value_metas(a: Annotated<Value>, path: Seq<PathItem>) -> Seq<(Seq<PathItem>, Meta)>
    decreases a,
{
    own_meta(a.meta, path) + match a.value {
        Some(v) => children_metas(v, path),
        None => Seq::empty(),
    }
}

/// The non-empty metadata below a value.
pub open spec fn children_metas(v: Value, path: Seq<PathItem>) -> Seq<(Seq<PathItem>, Meta)>
    decreases v,
{
    match v {
        Value::Array(items) => items_metas(items@, path),
        Value::Object(es) => entries_metas(es@, path),
        _ => Seq::empty(),
    }
}

/// The non-empty metadata of array items, each under its index.
pub open spec fn items_metas(items: Seq<Annotated<Value>>, path: Seq<PathItem>) -> Seq<(Seq<PathItem>, Meta)>
    decreases items,
{
    if items.len() == 0 {
        Seq::empty()
    } else {
        items_metas(items.drop_last(), path)
            + value_metas(items.last(), path.push(PathItem::Index((items.len() - 1) as usize)))
    }
}

/// The non-empty metadata of object entries, each under its key.
pub open spec fn entries_metas(es: Seq<Entry>, path: Seq<PathItem>) -> Seq<(Seq<PathItem>, Meta)>
    decreases es,
{
    if es.len() == 0 {
        Seq::empty()
    } else {
        entries_metas(es.drop_last(), path) + value_metas(es.last().1, path.push(PathItem::Key(es.last().0)))
    }
}

/// The metadata of a declared field and of any value tree it holds.
pub open spec fn field_metas(f: Annotated<Typed>, path: Seq<PathItem>) -> Seq<(Seq<PathItem>, Meta)> {
    own_meta(f.meta, path) + match f.value {
        Some(Typed::Any(v)) => children_metas(v, path),
        _ => Seq::empty(),
    }
}

/// The metadata of the declared fields, each under its name.
pub open spec fn fields_metas(s: RecordSchema, fs: Seq<Annotated<Typed>>) -> Seq<(Seq<PathItem>, Meta)>
    decreases fs.len(),
{
    if fs.len() == 0 || fs.len() > s.fields@.len() {
        Seq::empty()
    } else {
        fields_metas(s, fs.drop_last())
            + field_metas(fs.last(), seq![PathItem::Key(s.fields@[fs.len() - 1].attrs.name)])
    }
}

/// The meta map of a record: its own metadata at the root, then its
/// declared fields', then its collected entries'.
pub open spec fn record_metas(s: RecordSchema, a: Annotated<Record>) -> Seq<(Seq<PathItem>, Meta)> {
    own_meta(a.meta, Seq::empty()) + match a.value {
        Some(rec) => fields_metas(s, rec.fields@) + entries_metas(rec.other@, Seq::empty()),
        None => Seq::empty(),
    }
}

/// A copy of a path item.
pub fn copy_item(p: &PathItem) -> (r: PathItem)
    ensures
        r == *p,
{
    match p {
        PathItem::Key(k) => PathItem::Key(k.clone()),
        PathItem::Index(i) => PathItem::Index(*i),
    }
}

/// A copy of a path.
pub fn copy_path(p: &Vec<PathItem>) -> (r: Vec<PathItem>)
    ensures
        r@ == p@,
{
    let mut r: Vec<PathItem> = Vec::new();
    let mut i: usize = 0;
    while i < p.len()
        invariant
            i <= p@.len(),
            r@ == p@.take(i as int),
        decreases p@.len() - i,
    {
        r.push(copy_item(&p[i]));
        proof {
            assert(r@ =~= p@.take(i + 1));
        }
        i = i + 1;
    }
    proof {
        assert(p@.take(p@.len() as int) =~= p@);
    }
    r
}

fn push_own<'a>(m: &'a Meta, path: &Vec<PathItem>, out: &mut Vec<MetaEntry<'a>>)
    ensures
        meta_map_view(final(out)@) == meta_map_view(old(out)@) + own_meta(*m, path@),
{
    if !m.is_empty() {
        let ghost before = out@;
        out.push((copy_path(path), m));
        proof {
            assert(meta_map_view(out@) =~= meta_map_view(before) + own_meta(*m, path@));
        }
    } else {
        proof {
            assert(meta_map_view(out@) =~= meta_map_view(out@) + own_meta(*m, path@));
        }
    }
}

fn collect_value<'a>(a: &'a Annotated<Value>, path: &mut Vec<PathItem>, out: &mut Vec<MetaEntry<'a>>)
    ensures
        meta_map_view(final(out)@) == meta_map_view(old(out)@) + value_metas(*a, old(path)@),
        final(path)@ == old(path)@,
    decreases a,
{
    let ghost start = meta_map_view(out@);
    push_own(&a.meta, path, out);
    match &a.value {
        Some(v) => {
            collect_children(v, path, out);
        },
        None => {},
    }
    proof {
        assert(meta_map_view(out@) =~= start + value_metas(*a, path@));
    }
}

fn collect_children<'a>(v: &'a Value, path: &mut Vec<PathItem>, out: &mut Vec<MetaEntry<'a>>)
    ensures
        meta_map_view(final(out)@) == meta_map_view(old(out)@) + children_metas(*v, old(path)@),
        final(path)@ == old(path)@,
    decreases v,
{
    let ghost start = meta_map_view(out@);
    let ghost p0 = path@;
    match v {
        Value::Array(items) => {
            let mut i: usize = 0;
            while i < items.len()
                invariant
                    i <= items@.len(),
                    *v == Value::Array(*items),
                    path@ == p0,
                    meta_map_view(out@) == start + items_metas(items@.take(i as int), p0),
                decreases items@.len() - i,
            {
                path.push(PathItem::Index(i));
                proof {
                    assert(decreases_to!(*v => (*v)->Array_0));
                    assert(decreases_to!(*items => items@));
                    assert(decreases_to!(items@ => items@[i as int]));
                }
                collect_value(&items[i], path, out);
                path.pop();
                proof {
                    assert(path@ =~= p0);
                    assert(items@.take(i + 1).drop_last() =~= items@.take(i as int));
                    assert(items@.take(i + 1).last() == items@[i as int]);
                    assert(meta_map_view(out@) =~= start + items_metas(items@.take(i + 1), p0));
                }
                i = i + 1;
            }
            proof {
                assert(items@.take(items@.len() as int) =~= items@);
            }
        },
        Value::Object(es) => {
            let mut i: usize = 0;
            while i < es.len()
                invariant
                    i <= es@.len(),
                    *v == Value::Object(*es),
                    path@ == p0,
                    meta_map_view(out@) == start + entries_metas(es@.take(i as int), p0),
                decreases es@.len() - i,
            {
                path.push(PathItem::Key(es[i].0.clone()));
                proof {
                    assert(decreases_to!(*v => (*v)->Object_0));
                    assert(decreases_to!(*es => es@));
                    assert(decreases_to!(es@ => es@[i as int]));
                    assert(decreases_to!(es@[i as int] => es@[i as int].1));
                }
                collect_value(&es[i].1, path, out);
                path.pop();
                proof {
                    assert(path@ =~= p0);
                    assert(es@.take(i + 1).drop_last() =~= es@.take(i as int));
                    assert(es@.take(i + 1).last() == es@[i as int]);
                    assert(meta_map_view(out@) =~= start + entries_metas(es@.take(i + 1), p0));
                }
                i = i + 1;
            }
            proof {
                assert(es@.take(es@.len() as int) =~= es@);
            }
        },
        _ => {
            proof {
                assert(meta_map_view(out@) =~= start + children_metas(*v, p0));
            }
        },
    }
}

/// The meta map of a value tree: each non-empty metadata record with the
/// path of keys and indices from the root to its node, in pre-order.
pub fn extract_value_meta<'a>(a: &'a Annotated<Value>) -> (r: Vec<MetaEntry<'a>>)
    ensures
        meta_map_view(r@) == value_metas(*a, Seq::empty()),
{
    let mut out: Vec<MetaEntry<'a>> = Vec::new();
    let mut path: Vec<PathItem> = Vec::new();
    collect_value(a, &mut path, &mut out);
    proof {
        assert(meta_map_view(out@) =~= value_metas(*a, Seq::empty()));
    }
    out
}

/// The meta map of a record of schema `s`: its own metadata at the root,
/// each declared field's under its name, each collected entry's under its
/// key, with everything below them, in pre-order.
pub fn extract_record_meta<'a>(s: &RecordSchema, a: &'a Annotated<Record>) -> (r: Vec<MetaEntry<'a>>)
    requires
        a.value matches Some(rec) ==> rec.fields@.len() == s.fields@.len(),
    ensures
        meta_map_view(r@) == record_metas(*s, *a),
{
    let mut out: Vec<MetaEntry<'a>> = Vec::new();
    let mut path: Vec<PathItem> = Vec::new();
    push_own(&a.meta, &path, &mut out);
    let ghost start = meta_map_view(out@);
    match &a.value {
        Some(rec) => {
            let mut i: usize = 0;
            while i < rec.fields.len()
                invariant
                    rec.fields@.len() == s.fields@.len(),
                    i <= rec.fields@.len(),
                    path@ == Seq::<PathItem>::empty(),
                    meta_map_view(out@) == start + fields_metas(*s, rec.fields@.take(i as int)),
                decreases rec.fields@.len() - i,
            {
                path.push(PathItem::Key(s.fields[i].attrs.name.clone()));
                let f = &rec.fields[i];
                let ghost before = meta_map_view(out@);
                push_own(&f.meta, &path, &mut out);
                match &f.value {
                    Some(Typed::Any(v)) => collect_children(v, &mut path, &mut out),
                    _ => {},
                }
                path.pop();
                proof {
                    assert(path@ =~= Seq::<PathItem>::empty());
                    assert(seq![PathItem::Key(s.fields@[i as int].attrs.name)] =~= Seq::<PathItem>::empty().push(PathItem::Key(s.fields@[i as int].attrs.name)));
                    assert(rec.fields@.take(i + 1).drop_last() =~= rec.fields@.take(i as int));
                    assert(rec.fields@.take(i + 1).last() == rec.fields@[i as int]);
                    assert(meta_map_view(out@) =~= before + field_metas(*f, seq![PathItem::Key(s.fields@[i as int].attrs.name)]));
                    assert(meta_map_view(out@) =~= start + fields_metas(*s, rec.fields@.take(i + 1)));
                }
                i = i + 1;
            }
            proof {
                assert(rec.fields@.take(rec.fields@.len() as int) =~= rec.fields@);
            }
            let ghost mid = meta_map_view(out@);
            let ghost es = rec.other@;
            let mut j: usize = 0;
            while j < rec.other.len()
                invariant
                    j <= rec.other@.len(),
                    path@ == Seq::<PathItem>::empty(),
                    meta_map_view(out@) == mid + entries_metas(rec.other@.take(j as int), Seq::empty()),
                decreases rec.other@.len() - j,
            {
                path.push(PathItem::Key(rec.other[j].0.clone()));
                collect_value(&rec.other[j].1, &mut path, &mut out);
                path.pop();
                proof {
                    assert(path@ =~= Seq::<PathItem>::empty());
                    assert(rec.other@.take(j + 1).drop_last() =~= rec.other@.take(j as int));
                    assert(rec.other@.take(j + 1).last() == rec.other@[j as int]);
                    assert(meta_map_view(out@) =~= mid + entries_metas(rec.other@.take(j + 1), Seq::empty()));
                }
                j = j + 1;
            }
            proof {
                assert(rec.other@.take(rec.other@.len() as int) =~= rec.other@);
                assert(meta_map_view(out@) =~= record_metas(*s, *a));
            }
        },
        None => {
            proof {
                assert(meta_map_view(out@) =~= record_metas(*s, *a));
            }
        },
    }
    out
}

} // verus!
