//! Properties that relate binding and projection, proved over their specs.

use vstd::prelude::*;
use crate::binder::{field_bound, find_key, has_key, lemma_find_key, record_bind, record_bound, take_key, take_keys, take_fields, typed_of};
use crate::meta::{Annotated, Entry, ErrorKind, Meta, Value, error_of, skips};
use crate::projector::{fields_projected, kept, leaf_projected, record_project, value_of};
use crate::schema::{FieldDecl, LeafKind, Record, RecordSchema, Tagged, TaggedSchema, Typed, lookup_keys};
use crate::tagged::{selected, tagged_bind, tagged_project};

verus! {

/// No two entries share a key.
pub open spec fn unique_keys(es: Seq<Entry>) -> bool {
    forall|i: int, j: int| 0 <= i < es.len() && 0 <= j < es.len() && i != j ==> #[trigger] es[i].0@ != #[trigger] es[j].0@
}

/// The keys of a list, as a set.
pub open spec fn key_set(ks: Seq<Seq<char>>) -> Set<Seq<char>> {
    Set::new(|k: Seq<char>| ks.contains(k))
}

/// `es` without the entries whose key is in `ks`, in order.
pub open spec fn without_keys(es: Seq<Entry>, ks: Set<Seq<char>>) -> Seq<Entry>
    decreases es.len(),
{
    if es.len() == 0 {
        Seq::empty()
    } else if ks.contains(es.last().0@) {
        without_keys(es.drop_last(), ks)
    } else {
        without_keys(es.drop_last(), ks).push(es.last())
    }
}

/// Every key under which the fields look up their values.
pub open spec fn consumed_keys(fs: Seq<FieldDecl>) -> Set<Seq<char>>
    decreases fs.len(),
{
    if fs.len() == 0 {
        Set::empty()
    } else {
        consumed_keys(fs.drop_last()).union(key_set(lookup_keys(fs.last())))
    }
}

proof fn lemma_without_keys_contains(es: Seq<Entry>, ks: Set<Seq<char>>, x: Entry)
    ensures
        without_keys(es, ks).contains(x) <==> es.contains(x) && !ks.contains(x.0@),
    decreases es.len(),
{
    if es.len() > 0 {
        let p = es.drop_last();
        lemma_without_keys_contains(p, ks, x);
        assert(es == p.push(es.last()));
        if es.contains(x) {
            let m = choose|m: int| 0 <= m < es.len() && es[m] == x;
            if m < es.len() - 1 {
                assert(p[m] == x);
            }
        }
        if p.contains(x) {
            let m = choose|m: int| 0 <= m < p.len() && p[m] == x;
            assert(es[m] == x);
        }
        let w = without_keys(p, ks);
        if !ks.contains(es.last().0@) {
            let w2 = w.push(es.last());
            if w2.contains(x) {
                let n = choose|n: int| 0 <= n < w2.len() && w2[n] == x;
                if n < w.len() {
                    assert(w[n] == x);
                }
            }
            if w.contains(x) {
                let n = choose|n: int| 0 <= n < w.len() && w[n] == x;
                assert(w2[n] == x);
            }
            assert(w2[w.len() as int] == es.last());
        }
    }
}

proof fn lemma_without_keys_unique(es: Seq<Entry>, ks: Set<Seq<char>>)
    requires
        unique_keys(es),
    ensures
        unique_keys(without_keys(es, ks)),
    decreases es.len(),
{
    if es.len() > 0 {
        let p = es.drop_last();
        assert(unique_keys(p)) by {
            assert forall|i: int, j: int| 0 <= i < p.len() && 0 <= j < p.len() && i != j implies #[trigger] p[i].0@ != #[trigger] p[j].0@ by {
                assert(p[i] == es[i] && p[j] == es[j]);
            }
        }
        lemma_without_keys_unique(p, ks);
        let w = without_keys(p, ks);
        if !ks.contains(es.last().0@) {
            let w2 = w.push(es.last());
            assert forall|i: int, j: int| 0 <= i < w2.len() && 0 <= j < w2.len() && i != j implies #[trigger] w2[i].0@ != #[trigger] w2[j].0@ by {
                if i < w.len() && j < w.len() {
                    assert(w2[i] == w[i] && w2[j] == w[j]);
                } else {
                    let n = if i < w.len() { i } else { j };
                    assert(w2[n] == w[n]);
                    assert(w.contains(w[n]));
                    lemma_without_keys_contains(p, ks, w[n]);
                    let m = choose|m: int| 0 <= m < p.len() && p[m] == w[n];
                    assert(es[m] == p[m]);
                    assert(es[es.len() - 1] == es.last());
                }
            }
        }
    }
}

proof fn lemma_without_keys_noop(es: Seq<Entry>, ks: Set<Seq<char>>)
    requires
        forall|m: int| 0 <= m < es.len() ==> !ks.contains(#[trigger] es[m].0@),
    ensures
        without_keys(es, ks) == es,
    decreases es.len(),
{
    if es.len() > 0 {
        let p = es.drop_last();
        assert forall|m: int| 0 <= m < p.len() implies !ks.contains(#[trigger] p[m].0@) by {
            assert(p[m] == es[m]);
        }
        lemma_without_keys_noop(p, ks);
        assert(es[es.len() - 1] == es.last());
        assert(p.push(es.last()) =~= es);
    }
}

proof fn lemma_without_keys_compose(es: Seq<Entry>, a: Set<Seq<char>>, b: Set<Seq<char>>)
    ensures
        without_keys(without_keys(es, a), b) == without_keys(es, a.union(b)),
    decreases es.len(),
{
    if es.len() > 0 {
        let p = es.drop_last();
        lemma_without_keys_compose(p, a, b);
        let w = without_keys(p, a);
        if !a.contains(es.last().0@) {
            let w2 = w.push(es.last());
            assert(w2.drop_last() =~= w);
            assert(w2.last() == es.last());
        }
    }
}

proof fn lemma_remove_unique(es: Seq<Entry>, i: int)
    requires
        unique_keys(es),
        0 <= i < es.len(),
    ensures
        es.remove(i) == without_keys(es, set![es[i].0@]),
    decreases es.len(),
{
    let k = es[i].0@;
    let p = es.drop_last();
    if i == es.len() - 1 {
        assert forall|m: int| 0 <= m < p.len() implies !set![k].contains(#[trigger] p[m].0@) by {
            assert(p[m] == es[m]);
        }
        lemma_without_keys_noop(p, set![k]);
        assert(es.remove(i) =~= p);
    } else {
        assert(unique_keys(p)) by {
            assert forall|a: int, b: int| 0 <= a < p.len() && 0 <= b < p.len() && a != b implies #[trigger] p[a].0@ != #[trigger] p[b].0@ by {
                assert(p[a] == es[a] && p[b] == es[b]);
            }
        }
        assert(p[i] == es[i]);
        lemma_remove_unique(p, i);
        assert(es[es.len() - 1] == es.last());
        assert(es.last().0@ != k);
        assert(es.remove(i) =~= p.remove(i).push(es.last()));
    }
}

proof fn lemma_take_key_unique(es: Seq<Entry>, k: Seq<char>)
    requires
        unique_keys(es),
    ensures
        take_key(es, k).1 == without_keys(es, set![k]),
        match take_key(es, k).0 {
            Some(v) => exists|m: int| 0 <= m < es.len() && es[m].0@ == k && #[trigger] es[m].1 == v,
            None => !has_key(es, k),
        },
        has_key(es, k) ==> take_key(es, k).0 is Some,
        forall|m: int| 0 <= m < es.len() && #[trigger] es[m].0@ == k ==> take_key(es, k).0 == Some(es[m].1),
{
    lemma_find_key(es, k);
    match find_key(es, k) {
        Some(i) => {
            lemma_remove_unique(es, i);
            assert(es[i].1 == take_key(es, k).0.unwrap());
        },
        None => {
            assert forall|m: int| 0 <= m < es.len() implies !set![k].contains(#[trigger] es[m].0@) by {}
            lemma_without_keys_noop(es, set![k]);
        },
    }
}

proof fn lemma_key_set_push(ks: Seq<Seq<char>>)
    requires
        ks.len() > 0,
    ensures
        key_set(ks) == key_set(ks.drop_last()).union(set![ks.last()]),
{
    let p = ks.drop_last();
    assert forall|k: Seq<char>| key_set(ks).contains(k) <==> key_set(p).union(set![ks.last()]).contains(k) by {
        if ks.contains(k) {
            let m = choose|m: int| 0 <= m < ks.len() && ks[m] == k;
            if m < ks.len() - 1 {
                assert(p[m] == k);
            }
        }
        if p.contains(k) {
            let m = choose|m: int| 0 <= m < p.len() && p[m] == k;
            assert(ks[m] == k);
        }
        assert(ks[ks.len() - 1] == ks.last());
    }
    assert(key_set(ks) =~= key_set(p).union(set![ks.last()]));
}

proof fn lemma_take_keys_rest(es: Seq<Entry>, ks: Seq<Seq<char>>)
    requires
        unique_keys(es),
    ensures
        take_keys(es, ks).1 == without_keys(es, key_set(ks)),
    decreases ks.len(),
{
    if ks.len() == 0 {
        assert forall|m: int| 0 <= m < es.len() implies !key_set(ks).contains(#[trigger] es[m].0@) by {}
        lemma_without_keys_noop(es, key_set(ks));
    } else {
        lemma_take_keys_rest(es, ks.drop_last());
        let rest = take_keys(es, ks.drop_last()).1;
        lemma_without_keys_unique(es, key_set(ks.drop_last()));
        lemma_take_key_unique(rest, ks.last());
        lemma_without_keys_compose(es, key_set(ks.drop_last()), set![ks.last()]);
        lemma_key_set_push(ks);
    }
}

/// The value of the first key of `ks` that `es` holds.
pub open spec fn first_present(es: Seq<Entry>, ks: Seq<Seq<char>>) -> Option<crate::meta::Annotated<crate::meta::Value>>
    decreases ks.len(),
{
    if ks.len() == 0 {
        None
    } else {
        let a = first_present(es, ks.drop_last());
        if a is Some { a } else { take_key(es, ks.last()).0 }
    }
}

proof fn lemma_value_kept(es: Seq<Entry>, ks: Set<Seq<char>>, k: Seq<char>)
    requires
        unique_keys(es),
        !ks.contains(k),
    ensures
        take_key(without_keys(es, ks), k).0 == take_key(es, k).0,
{
    let w = without_keys(es, ks);
    lemma_without_keys_unique(es, ks);
    lemma_take_key_unique(es, k);
    lemma_take_key_unique(w, k);
    if has_key(es, k) {
        let m = choose|m: int| 0 <= m < es.len() && #[trigger] es[m].0@ == k;
        assert(es.contains(es[m]));
        lemma_without_keys_contains(es, ks, es[m]);
        let n = choose|n: int| 0 <= n < w.len() && w[n] == es[m];
        assert(w[n].0@ == k);
    } else if has_key(w, k) {
        let n = choose|n: int| 0 <= n < w.len() && #[trigger] w[n].0@ == k;
        assert(w.contains(w[n]));
        lemma_without_keys_contains(es, ks, w[n]);
        let m = choose|m: int| 0 <= m < es.len() && es[m] == w[n];
        assert(es[m].0@ == k);
    }
}

/// The keys of `ks` are pairwise distinct.
pub open spec fn distinct_keys(ks: Seq<Seq<char>>) -> bool {
    forall|i: int, j: int| 0 <= i < ks.len() && 0 <= j < ks.len() && i != j ==> ks[i] != ks[j]
}

proof fn lemma_take_keys_value(es: Seq<Entry>, ks: Seq<Seq<char>>)
    requires
        unique_keys(es),
        distinct_keys(ks),
    ensures
        take_keys(es, ks).0 == first_present(es, ks),
    decreases ks.len(),
{
    if ks.len() > 0 {
        let p = ks.drop_last();
        assert(distinct_keys(p)) by {
            assert forall|i: int, j: int| 0 <= i < p.len() && 0 <= j < p.len() && i != j implies p[i] != p[j] by {
                assert(p[i] == ks[i] && p[j] == ks[j]);
            }
        }
        lemma_take_keys_value(es, p);
        lemma_take_keys_rest(es, p);
        assert(!key_set(p).contains(ks.last())) by {
            if p.contains(ks.last()) {
                let m = choose|m: int| 0 <= m < p.len() && p[m] == ks.last();
                assert(ks[m] == p[m]);
                assert(ks[ks.len() - 1] == ks.last());
            }
        }
        lemma_value_kept(es, key_set(p), ks.last());
    }
}

proof fn lemma_take_fields_rest(es: Seq<Entry>, fs: Seq<FieldDecl>)
    requires
        unique_keys(es),
    ensures
        take_fields(es, fs).1 == without_keys(es, consumed_keys(fs)),
    decreases fs.len(),
{
    if fs.len() == 0 {
        assert forall|m: int| 0 <= m < es.len() implies !consumed_keys(fs).contains(#[trigger] es[m].0@) by {}
        lemma_without_keys_noop(es, consumed_keys(fs));
    } else {
        lemma_take_fields_rest(es, fs.drop_last());
        lemma_without_keys_unique(es, consumed_keys(fs.drop_last()));
        lemma_take_keys_rest(without_keys(es, consumed_keys(fs.drop_last())), lookup_keys(fs.last()));
        lemma_without_keys_compose(es, consumed_keys(fs.drop_last()), key_set(lookup_keys(fs.last())));
    }
}

/// No key is looked up by two fields, nor twice by one field.
pub open spec fn unambiguous(fs: Seq<FieldDecl>) -> bool {
    forall|i: int, j: int, m: int, n: int|
        0 <= i < fs.len() && 0 <= j < fs.len() && 0 <= m < lookup_keys(fs[i]).len() && 0 <= n < lookup_keys(fs[j]).len()
            && (i != j || m != n) ==> #[trigger] lookup_keys(fs[i])[m] != #[trigger] lookup_keys(fs[j])[n]
}

proof fn lemma_consumed_keys(fs: Seq<FieldDecl>, k: Seq<char>)
    ensures
        consumed_keys(fs).contains(k) ==> exists|j: int, n: int| 0 <= j < fs.len() && 0 <= n < lookup_keys(fs[j]).len()
            && #[trigger] lookup_keys(fs[j])[n] == k,
    decreases fs.len(),
{
    if fs.len() > 0 {
        let p = fs.drop_last();
        lemma_consumed_keys(p, k);
        if consumed_keys(p).contains(k) {
            let (j, n) = choose|j: int, n: int| 0 <= j < p.len() && 0 <= n < lookup_keys(p[j]).len() && #[trigger] lookup_keys(p[j])[n] == k;
            assert(fs[j] == p[j]);
        } else if key_set(lookup_keys(fs.last())).contains(k) {
            let n = choose|n: int| 0 <= n < lookup_keys(fs.last()).len() && lookup_keys(fs.last())[n] == k;
            assert(fs[fs.len() - 1] == fs.last());
        }
    }
}

proof fn lemma_take_fields_len(es: Seq<Entry>, fs: Seq<FieldDecl>)
    ensures
        take_fields(es, fs).0.len() == fs.len(),
    decreases fs.len(),
{
    if fs.len() > 0 {
        lemma_take_fields_len(es, fs.drop_last());
    }
}

proof fn lemma_raw_at(es: Seq<Entry>, fs: Seq<FieldDecl>, i: int)
    requires
        0 <= i < fs.len(),
    ensures
        take_fields(es, fs).0.len() == fs.len(),
        take_fields(es, fs).0[i] == take_keys(take_fields(es, fs.take(i)).1, lookup_keys(fs[i])).0,
    decreases fs.len(),
{
    let p = fs.drop_last();
    lemma_take_fields_len(es, fs);
    lemma_take_fields_len(es, p);
    if i == fs.len() - 1 {
        assert(fs.take(i) =~= p);
    } else {
        lemma_raw_at(es, p, i);
        assert(p.take(i) =~= fs.take(i));
        assert(p[i] == fs[i]);
    }
}

proof fn lemma_first_present_kept(es: Seq<Entry>, c: Set<Seq<char>>, ks: Seq<Seq<char>>)
    requires
        unique_keys(es),
        forall|m: int| 0 <= m < ks.len() ==> !c.contains(#[trigger] ks[m]),
    ensures
        first_present(without_keys(es, c), ks) == first_present(es, ks),
    decreases ks.len(),
{
    if ks.len() > 0 {
        let p = ks.drop_last();
        assert forall|m: int| 0 <= m < p.len() implies !c.contains(#[trigger] p[m]) by {
            assert(p[m] == ks[m]);
        }
        lemma_first_present_kept(es, c, p);
        assert(ks[ks.len() - 1] == ks.last());
        lemma_value_kept(es, c, ks.last());
    }
}

proof fn lemma_first_present_head(es: Seq<Entry>, ks: Seq<Seq<char>>)
    requires
        ks.len() > 0,
    ensures
        has_key(es, ks[0]) ==> first_present(es, ks) == take_key(es, ks[0]).0,
        !has_key(es, ks[0]) ==> first_present(es, ks) == first_present(es, ks.drop_first()),
    decreases ks.len(),
{
    lemma_find_key(es, ks[0]);
    lemma_take_key_keys(es, ks[0], ks[0]);
    if has_key(es, ks[0]) {
        let m = choose|m: int| 0 <= m < es.len() && #[trigger] es[m].0@ == ks[0];
        if find_key(es, ks[0]) is None {
            assert(es[m].0@ != ks[0]);
        }
        assert(take_key(es, ks[0]).0 is Some);
    }
    if ks.len() == 1 {
        assert(first_present(es, ks.drop_last()) is None);
        assert(first_present(es, ks.drop_first()) is None);
        assert(ks.last() == ks[0]);
        assert(first_present(es, ks) == take_key(es, ks[0]).0);
    } else {
        let p = ks.drop_last();
        assert(p[0] == ks[0]);
        lemma_first_present_head(es, p);
        if !has_key(es, ks[0]) {
            let q = ks.drop_first();
            assert(q.drop_last() =~= p.drop_first());
            assert(q.last() == ks.last());
            assert(first_present(es, q) == (if first_present(es, p.drop_first()) is Some {
                first_present(es, p.drop_first())
            } else {
                take_key(es, ks.last()).0
            }));
        }
    }
}

/// The value that field `i` is bound from, in an object with unique keys
/// under a schema whose keys are unambiguous: the value of the first of its
/// name and its aliases that the object holds.
proof fn lemma_field_source(es: Seq<Entry>, fs: Seq<FieldDecl>, i: int)
    requires
        unique_keys(es),
        unambiguous(fs),
        0 <= i < fs.len(),
    ensures
        take_fields(es, fs).0[i] == first_present(es, lookup_keys(fs[i])),
{
    let ks = lookup_keys(fs[i]);
    let c = consumed_keys(fs.take(i));
    lemma_raw_at(es, fs, i);
    lemma_take_fields_rest(es, fs.take(i));
    lemma_without_keys_unique(es, c);
    assert(distinct_keys(ks)) by {
        assert forall|a: int, b: int| 0 <= a < ks.len() && 0 <= b < ks.len() && a != b implies ks[a] != ks[b] by {
            assert(lookup_keys(fs[i])[a] != lookup_keys(fs[i])[b]);
        }
    }
    lemma_take_keys_value(without_keys(es, c), ks);
    assert forall|m: int| 0 <= m < ks.len() implies !c.contains(#[trigger] ks[m]) by {
        lemma_consumed_keys(fs.take(i), ks[m]);
        if c.contains(ks[m]) {
            let (j, n) = choose|j: int, n: int| 0 <= j < fs.take(i).len() && 0 <= n < lookup_keys(fs.take(i)[j]).len()
                && #[trigger] lookup_keys(fs.take(i)[j])[n] == ks[m];
            assert(fs.take(i)[j] == fs[j]);
            assert(lookup_keys(fs[j])[n] != lookup_keys(fs[i])[m]);
        }
    }
    lemma_first_present_kept(es, c, ks);
}

proof fn lemma_take_key_keys(es: Seq<Entry>, k: Seq<char>, x: Seq<char>)
    ensures
        has_key(take_key(es, k).1, x) ==> has_key(es, x),
        !has_key(es, k) ==> take_key(es, k).0 is None,
{
    lemma_find_key(es, k);
    match find_key(es, k) {
        Some(i) => {
            let r = es.remove(i);
            if has_key(r, x) {
                let n = choose|n: int| 0 <= n < r.len() && #[trigger] r[n].0@ == x;
                if n < i {
                    assert(es[n] == r[n]);
                } else {
                    assert(es[n + 1] == r[n]);
                }
            }
            assert(es[i].0@ == k);
        },
        None => {},
    }
}

proof fn lemma_take_keys_keys(es: Seq<Entry>, ks: Seq<Seq<char>>, x: Seq<char>)
    ensures
        has_key(take_keys(es, ks).1, x) ==> has_key(es, x),
        (forall|m: int| 0 <= m < ks.len() ==> !has_key(es, #[trigger] ks[m])) ==> take_keys(es, ks).0 is None,
    decreases ks.len(),
{
    if ks.len() > 0 {
        let p = ks.drop_last();
        lemma_take_keys_keys(es, p, x);
        lemma_take_keys_keys(es, p, ks.last());
        let rest = take_keys(es, p).1;
        lemma_take_key_keys(rest, ks.last(), x);
        lemma_take_key_keys(rest, ks.last(), ks.last());
        if forall|m: int| 0 <= m < ks.len() ==> !has_key(es, #[trigger] ks[m]) {
            assert forall|m: int| 0 <= m < p.len() implies !has_key(es, #[trigger] p[m]) by {
                assert(p[m] == ks[m]);
            }
            assert(ks[ks.len() - 1] == ks.last());
        }
    }
}

proof fn lemma_take_fields_keys(es: Seq<Entry>, fs: Seq<FieldDecl>, x: Seq<char>)
    ensures
        has_key(take_fields(es, fs).1, x) ==> has_key(es, x),
    decreases fs.len(),
{
    if fs.len() > 0 {
        lemma_take_fields_keys(es, fs.drop_last(), x);
        lemma_take_keys_keys(take_fields(es, fs.drop_last()).1, lookup_keys(fs.last()), x);
    }
}

/// Binding an object that holds none of a required field's keys gives that
/// field no value and exactly one error, a `MissingField`, on its own
/// metadata; the record itself is still built.
pub proof fn required_field_evidence(s: RecordSchema, es: Vec<Entry>, meta: Meta, r: Annotated<Record>, i: int)
    requires
        record_bind(s, Annotated { value: Some(Value::Object(es)), meta }, r),
        0 <= i < s.fields@.len(),
        s.fields@[i].attrs.required,
        forall|m: int| 0 <= m < lookup_keys(s.fields@[i]).len() ==> !has_key(es@, #[trigger] lookup_keys(s.fields@[i])[m]),
    ensures
        r.value matches Some(rec) && rec.fields@[i].value is None
            && rec.fields@[i].meta.errors@ == seq![error_of(ErrorKind::MissingField, None)],
{
    let fs = s.fields@;
    let ks = lookup_keys(fs[i]);
    let rest = take_fields(es@, fs.take(i)).1;
    lemma_raw_at(es@, fs, i);
    assert forall|m: int| 0 <= m < ks.len() implies !has_key(rest, #[trigger] ks[m]) by {
        lemma_take_fields_keys(es@, fs.take(i), ks[m]);
    }
    lemma_take_keys_keys(rest, ks, ks[0]);
    let rec = r.value.unwrap();
    assert(field_bound(fs[i], take_fields(es@, fs).0[i], rec.fields@[i]));
    assert(crate::binder::field_errors(fs[i], None) =~= seq![error_of(ErrorKind::MissingField, None)]);
}

/// A field bound from an object with unique keys under unambiguous
/// declarations takes the value of its primary name where the object holds
/// it, whatever aliases the object also holds; where it does not, it takes
/// the first alias's value exactly as it would the primary's.
pub proof fn legacy_alias_precedence(s: RecordSchema, es: Seq<Entry>, rec: Record, i: int)
    requires
        unique_keys(es),
        unambiguous(s.fields@),
        record_bound(s, es, rec),
        0 <= i < s.fields@.len(),
    ensures
        field_bound(s.fields@[i], first_present(es, lookup_keys(s.fields@[i])), rec.fields@[i]),
        forall|m: int| 0 <= m < es.len() && #[trigger] es[m].0@ == s.fields@[i].attrs.name@
            ==> field_bound(s.fields@[i], Some(es[m].1), rec.fields@[i]),
        !has_key(es, s.fields@[i].attrs.name@) && s.fields@[i].aliases@.len() > 0 ==> forall|m: int|
            0 <= m < es.len() && #[trigger] es[m].0@ == s.fields@[i].aliases@[0]@
            ==> field_bound(s.fields@[i], Some(es[m].1), rec.fields@[i]),
{
    let d = s.fields@[i];
    let ks = lookup_keys(d);
    lemma_field_source(es, s.fields@, i);
    lemma_first_present_head(es, ks);
    lemma_take_key_unique(es, ks[0]);
    if !has_key(es, d.attrs.name@) && d.aliases@.len() > 0 {
        let ks1 = ks.drop_first();
        assert(ks1[0] == d.aliases@[0]@);
        lemma_first_present_head(es, ks1);
        lemma_take_key_unique(es, ks1[0]);
    }
}

proof fn lemma_kept_contains(es: Seq<Entry>, x: Entry)
    requires
        es.contains(x),
        !skips(x.1),
    ensures
        kept(es).contains(x),
    decreases es.len(),
{
    let p = es.drop_last();
    let m = choose|m: int| 0 <= m < es.len() && es[m] == x;
    if m < es.len() - 1 {
        assert(p[m] == x);
        lemma_kept_contains(p, x);
        let n = choose|n: int| 0 <= n < kept(p).len() && kept(p)[n] == x;
        if !skips(es.last().1) {
            assert(kept(es)[n] == x);
        }
    } else {
        assert(kept(es) == kept(p).push(x));
        assert(kept(es)[kept(p).len() as int] == x);
    }
}

proof fn lemma_fields_projected_contains(ds: Seq<FieldDecl>, vs: Seq<Annotated<Typed>>, i: int)
    requires
        0 <= i < ds.len(),
        ds.len() == vs.len(),
        !skips(leaf_projected(vs[i])),
    ensures
        fields_projected(ds, vs).contains((ds[i].attrs.name, leaf_projected(vs[i]))),
    decreases ds.len(),
{
    let x = (ds[i].attrs.name, leaf_projected(vs[i]));
    let pd = ds.drop_last();
    let pv = vs.drop_last();
    let prev = fields_projected(pd, pv);
    if i < ds.len() - 1 {
        assert(pd[i] == ds[i] && pv[i] == vs[i]);
        lemma_fields_projected_contains(pd, pv, i);
        let n = choose|n: int| 0 <= n < prev.len() && prev[n] == x;
        if !skips(leaf_projected(vs.last())) {
            assert(fields_projected(ds, vs)[n] == x);
        }
    } else {
        assert(ds[i] == ds.last() && vs[i] == vs.last());
        assert(fields_projected(ds, vs)[prev.len() as int] == x);
    }
}

/// The collected keys of a record, bound from an object with unique keys,
/// are the object's entries that no field looks up, in the object's order;
/// projection puts them, less those that skip, after the declared fields.
pub proof fn catch_all_order(s: RecordSchema, es: Vec<Entry>, meta: Meta, r: Annotated<Record>, out: Annotated<Value>)
    requires
        unique_keys(es@),
        s.additional_properties,
        record_bind(s, Annotated { value: Some(Value::Object(es)), meta }, r),
        record_project(s, r, out),
    ensures
        r.value matches Some(rec) && rec.other@ == without_keys(es@, consumed_keys(s.fields@)),
        r.value matches Some(rec) && (out.value matches Some(Value::Object(o))
            && o@ == fields_projected(s.fields@, rec.fields@) + kept(without_keys(es@, consumed_keys(s.fields@)))),
{
    lemma_take_fields_rest(es@, s.fields@);
}

/// A declared field's raw value fits it: a present value has the field's
/// type, and a required field has a value.
pub open spec fn field_conforms(d: FieldDecl, a: Annotated<Value>) -> bool {
    &&& a.value matches Some(v) ==> typed_of(d.kind, v) is Some
    &&& d.attrs.required ==> a.value is Some
}

/// An object fits schema `s`: unique keys, unambiguous declarations, and
/// each key is either a declared name whose value fits its field, or,
/// where remaining keys are collected, a key that no field looks up.
pub open spec fn conforms(s: RecordSchema, es: Seq<Entry>) -> bool {
    &&& unique_keys(es)
    &&& unambiguous(s.fields@)
    &&& forall|m: int| 0 <= m < es.len() ==> {
        ||| exists|i: int| 0 <= i < s.fields@.len() && #[trigger] s.fields@[i].attrs.name@ == es[m].0@
            && field_conforms(s.fields@[i], es[m].1)
        ||| s.additional_properties && !consumed_keys(s.fields@).contains(#[trigger] es[m].0@)
    }
}

proof fn lemma_leaf_round_trip(d: FieldDecl, a: Annotated<Value>, f: Annotated<Typed>)
    requires
        field_conforms(d, a),
        field_bound(d, Some(a), f),
    ensures
        leaf_projected(f) == a,
{
    let raw = Some(a);
    assert(crate::binder::field_errors(d, raw) =~= Seq::<crate::meta::ErrorEntry>::empty());
    match a.value {
        Some(v) => {
            match (d.kind, v) {
                (LeafKind::Any, _) => {},
                (LeafKind::Bool, Value::Bool(_)) => {},
                (LeafKind::Int, Value::I64(_)) => {},
                (LeafKind::Str, Value::String(_)) => {},
                _ => {},
            }
            assert(value_of(typed_of(d.kind, v).unwrap()) == v);
        },
        None => {},
    }
}

/// Binding an object that fits a schema and projecting the result gives an
/// object that holds every key and value of the input, each under the same
/// key, but for values that are absent and carry no metadata.
pub proof fn round_trip(s: RecordSchema, es: Vec<Entry>, meta: Meta, r: Annotated<Record>, out: Annotated<Value>)
    requires
        conforms(s, es@),
        record_bind(s, Annotated { value: Some(Value::Object(es)), meta }, r),
        record_project(s, r, out),
    ensures
        out.meta == meta,
        out.value matches Some(Value::Object(o)) && forall|m: int| 0 <= m < es@.len() && !skips(es@[m].1)
            ==> exists|n: int| 0 <= n < o@.len() && #[trigger] o@[n].0@ == es@[m].0@ && o@[n].1 == es@[m].1,
{
    let fs = s.fields@;
    let rec = r.value.unwrap();
    let o = match out.value { Some(Value::Object(o)) => o, _ => arbitrary() };
    let fp = fields_projected(fs, rec.fields@);
    let rest = without_keys(es@, consumed_keys(fs));
    assert(o@ == fp + kept(if s.additional_properties { take_fields(es@, fs).1 } else { Seq::empty() }));
    assert forall|m: int| 0 <= m < es@.len() && !skips(es@[m].1)
        implies exists|n: int| 0 <= n < o@.len() && #[trigger] o@[n].0@ == es@[m].0@ && o@[n].1 == es@[m].1 by {
        let e = es@[m];
        if exists|i: int| 0 <= i < fs.len() && #[trigger] fs[i].attrs.name@ == e.0@ && field_conforms(fs[i], e.1) {
            let i = choose|i: int| 0 <= i < fs.len() && #[trigger] fs[i].attrs.name@ == e.0@ && field_conforms(fs[i], e.1);
            legacy_alias_precedence(s, es@, rec, i);
            assert(es@[m].0@ == fs[i].attrs.name@);
            assert(field_bound(fs[i], Some(e.1), rec.fields@[i]));
            lemma_leaf_round_trip(fs[i], e.1, rec.fields@[i]);
            assert(rec.fields@.len() == fs.len());
            lemma_fields_projected_contains(fs, rec.fields@, i);
            let n = choose|n: int| 0 <= n < fp.len() && fp[n] == (fs[i].attrs.name, leaf_projected(rec.fields@[i]));
            assert(o@[n] == fp[n]);
            assert(o@[n].0@ == es@[m].0@ && o@[n].1 == es@[m].1);
        } else {
            assert(s.additional_properties && !consumed_keys(s.fields@).contains(es@[m].0@));
            lemma_take_fields_rest(es@, fs);
            assert(es@.contains(e));
            lemma_without_keys_contains(es@, consumed_keys(fs), e);
            lemma_kept_contains(rest, e);
            let n = choose|n: int| 0 <= n < kept(rest).len() && kept(rest)[n] == e;
            assert(o@[fp.len() + n] == e);
            assert(o@[fp.len() + n].0@ == es@[m].0@);
        }
    }
}

/// An object whose discriminator selects no variant is kept whole by a
/// type with a fallback variant, and projecting it gives the input back
/// exactly, discriminator included; a type without one leaves the value
/// absent with an `InvalidEnumVariant` error.
pub proof fn fallback_lossless(s: TaggedSchema, es: Vec<Entry>, meta: Meta, r: Annotated<Tagged>, out: Annotated<Value>)
    requires
        selected(s, es@) is None,
        tagged_bind(s, Annotated { value: Some(Value::Object(es)), meta }, r),
        tagged_project(s, r, out),
    ensures
        s.fallback ==> (out == Annotated { value: Some(Value::Object(es)), meta }),
        !s.fallback ==> (r.value is None
            && r.meta.errors@ == meta.errors@.push(error_of(ErrorKind::InvalidEnumVariant, Some(Value::Object(es))))),
{
    if !s.fallback {
        assert(seq![error_of(ErrorKind::InvalidEnumVariant, Some(Value::Object(es)))] =~= Seq::<crate::meta::ErrorEntry>::empty().push(error_of(ErrorKind::InvalidEnumVariant, Some(Value::Object(es)))));
        assert(meta.errors@ + seq![error_of(ErrorKind::InvalidEnumVariant, Some(Value::Object(es)))] =~= meta.errors@.push(error_of(ErrorKind::InvalidEnumVariant, Some(Value::Object(es)))));
    }
}

} // verus!
