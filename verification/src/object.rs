//! The content object: one typed record instantiating a schema, with its
//! author-controlled ordering, and the stable sort used whenever the
//! objects of one schema are listed for rendering.
use crate::fields::{FieldValue, FieldValues};
use crate::object_definition::{def_model, kids_model, lookup_assoc, DefModel, FieldType, ObjectDefinition};
use crate::text::{lemma_str_le_total, lemma_str_le_trans, str_le, str_le_exec};
use vstd::prelude::*;

verus! {

broadcast use vstd::seq::group_seq_axioms, vstd::std_specs::vec::group_vec_axioms, vstd::seq_lib::group_to_multiset_ensures, vstd::multiset::group_multiset_axioms;

/// One content record: which schema it instantiates, its source file
/// name, its site-relative output path, an author-controlled rank, and
/// its field values.
#[derive(Debug)]
pub struct Object {
    pub filename: String,
    pub object_name: String,
    pub path: String,
    pub order: i64,
    pub values: FieldValues,
}

/// Listing order: rank ascending, ties by filename ascending.
pub open spec fn key_le(a: Object, b: Object) -> bool {
    a.order < b.order || (a.order == b.order && str_le(a.filename@, b.filename@))
}

/// Strictly earlier in listing order.
pub open spec fn key_lt(a: Object, b: Object) -> bool {
    a.order < b.order || (a.order == b.order && !str_le(b.filename@, a.filename@))
}

/// Inserts `x` after every element not strictly after it, so that
/// elements of an equal key keep their arrival order.
pub open spec fn sorted_insert(s: Seq<Object>, x: Object) -> Seq<Object>
    decreases s.len(),
{
    if s.len() == 0 {
        seq![x]
    } else if key_lt(x, s[0]) {
        seq![x].add(s)
    } else {
        seq![s[0]].add(sorted_insert(s.drop_first(), x))
    }
}

/// The stable sort of a sequence of objects by `key_le`: its elements in
/// arrival order, each inserted by `sorted_insert`.
pub open spec fn stable_sorted(s: Seq<Object>) -> Seq<Object>
    decreases s.len(),
{
    if s.len() == 0 {
        Seq::empty()
    } else {
        sorted_insert(stable_sorted(s.drop_last()), s.last())
    }
}

fn key_lt_exec(a: &Object, b: &Object) -> (r: bool)
    ensures
        r == key_lt(*a, *b),
{
    a.order < b.order || (a.order == b.order && !str_le_exec(b.filename.as_str(), a.filename.as_str()))
}

proof fn lemma_sorted_insert_at(s: Seq<Object>, x: Object, j: int)
    requires
        0 <= j <= s.len(),
        forall|i: int| 0 <= i < j ==> !key_lt(x, #[trigger] s[i]),
        j < s.len() ==> key_lt(x, s[j]),
    ensures
        sorted_insert(s, x) =~= s.insert(j, x),
    decreases s.len(),
{
    if j == 0 {
        if s.len() > 0 {
            assert(key_lt(x, s[0]));
        }
        assert(sorted_insert(s, x) =~= s.insert(0, x));
    } else {
        assert(!key_lt(x, s[0]));
        lemma_sorted_insert_at(s.drop_first(), x, j - 1);
        assert(sorted_insert(s, x) =~= s.insert(j, x));
    }
}

#[verifier::loop_isolation(false)]
fn insert_sorted(out: &mut Vec<Object>, x: Object)
    ensures
        final(out)@ == sorted_insert(old(out)@, x),
{
    let n = out.len();
    let mut j: usize = 0;
    while j < n && !key_lt_exec(&x, &out[j])
        invariant
            j <= n,
            out@ == old(out)@,
            forall|i: int| 0 <= i < j ==> !key_lt(x, #[trigger] out@[i]),
        decreases n - j,
    {
        j += 1;
    }
    proof {
        lemma_sorted_insert_at(out@, x, j as int);
    }
    out.insert(j, x);
}

/// Sorts the objects of one schema for listing: by `order` ascending,
/// equal ranks by `filename` ascending, equal keys in arrival order.
/// The result is exactly the model `stable_sorted` assigns to the input.
#[verifier::loop_isolation(false)]
pub fn sort_objects(objects: Vec<Object>) -> (r: Vec<Object>)
    ensures
        r@ == stable_sorted(objects@),
{
    let ghost orig = objects@;
    let mut input = objects;
    let mut out: Vec<Object> = Vec::new();
    let n = input.len();
    let mut i: usize = 0;
    proof {
        assert(orig.subrange(0, 0) =~= Seq::<Object>::empty());
    }
    while i < n
        invariant
            i <= n,
            n == orig.len(),
            input@ =~= orig.subrange(i as int, n as int),
            out@ == stable_sorted(orig.subrange(0, i as int)),
        decreases n - i,
    {
        proof {
            assert(orig.subrange(0, i as int + 1).drop_last() =~= orig.subrange(0, i as int));
            assert(orig.subrange(0, i as int + 1).last() == orig[i as int]);
        }
        let x = input.remove(0);
        proof {
            assert(x == orig[i as int]);
        }
        insert_sorted(&mut out, x);
        i += 1;
        proof {
            assert(input@ =~= orig.subrange(i as int, n as int));
        }
    }
    proof {
        assert(orig.subrange(0, n as int) =~= orig);
    }
    out
}

/// `key_le` is total.
pub proof fn lemma_key_le_total(a: Object, b: Object)
    ensures
        key_le(a, b) || key_le(b, a),
{
    lemma_str_le_total(a.filename@, b.filename@);
}

/// `key_le` is transitive.
pub proof fn lemma_key_le_trans(a: Object, b: Object, c: Object)
    requires
        key_le(a, b),
        key_le(b, c),
    ensures
        key_le(a, c),
{
    if a.order == b.order && b.order == c.order {
        lemma_str_le_trans(a.filename@, b.filename@, c.filename@);
    }
}

proof fn lemma_key_lt_le(a: Object, b: Object)
    ensures
        key_lt(a, b) ==> key_le(a, b),
        !key_lt(a, b) ==> key_le(b, a),
{
    lemma_str_le_total(a.filename@, b.filename@);
}

proof fn lemma_sorted_insert_props(s: Seq<Object>, x: Object)
    requires
        forall|i: int, j: int| 0 <= i < j < s.len() ==> key_le(#[trigger] s[i], #[trigger] s[j]),
    ensures
        forall|i: int, j: int|
            0 <= i < j < sorted_insert(s, x).len() ==> key_le(
                #[trigger] sorted_insert(s, x)[i],
                #[trigger] sorted_insert(s, x)[j],
            ),
        sorted_insert(s, x).to_multiset() == s.to_multiset().insert(x),
    decreases s.len(),
{
    let u = sorted_insert(s, x);
    if s.len() == 0 {
        assert(u =~= seq![x].add(s));
        lemma_cons_multiset(x, s);
    } else if key_lt(x, s[0]) {
        assert(u =~= seq![x].add(s));
        assert forall|i: int, j: int| 0 <= i < j < u.len() implies key_le(u[i], u[j]) by {
            if i == 0 {
                lemma_key_lt_le(x, s[0]);
                if j > 1 {
                    lemma_key_le_trans(x, s[0], s[j - 1]);
                }
            }
        }
        lemma_cons_multiset(x, s);
    } else {
        let t = s.drop_first();
        assert(forall|i: int, j: int|
            0 <= i < j < t.len() ==> key_le(#[trigger] t[i], #[trigger] t[j])) by {
            assert(forall|i: int| 0 <= i < t.len() ==> t[i] == s[i + 1]);
        }
        lemma_sorted_insert_props(t, x);
        assert(u =~= seq![s[0]].add(sorted_insert(t, x)));
        let v = sorted_insert(t, x);
        // the head stays minimal: s[0] <= x and s[0] <= every element of t
        lemma_key_lt_le(x, s[0]);
        assert forall|i: int, j: int| 0 <= i < j < u.len() implies key_le(u[i], u[j]) by {
            if i == 0 {
                // u[j] is either x or an element of t
                assert(u[j] == v[j - 1]);
                lemma_sorted_insert_member(t, x, j - 1);
                if v[j - 1] == x {
                    assert(key_le(s[0], x));
                } else {
                    let k = choose|k: int| 0 <= k < t.len() && t[k] == v[j - 1];
                    assert(key_le(s[0], s[k + 1]));
                }
            } else {
                assert(u[i] == v[i - 1] && u[j] == v[j - 1]);
            }
        }
        assert(u.to_multiset() =~= s.to_multiset().insert(x)) by {
            assert(v.to_multiset() == t.to_multiset().insert(x));
            lemma_cons_multiset(s[0], v);
            lemma_cons_multiset(s[0], t);
            assert(s =~= seq![s[0]].add(t));
        }
    }
}

/// Prepending one element inserts it into the sequence's multiset.
proof fn lemma_cons_multiset(h: Object, t: Seq<Object>)
    ensures
        seq![h].add(t).to_multiset() =~= t.to_multiset().insert(h),
{
    let u = seq![h].add(t);
    assert(u.remove(0) =~= t);
    assert(u.remove(0).to_multiset() =~= u.to_multiset().remove(u[0]));
    assert(u[0] == h);
    assert(u.contains(h));
    assert(u.to_multiset().count(h) > 0);
    assert forall|y: Object|
        u.to_multiset().count(y) == t.to_multiset().insert(h).count(y) by {
        if y == h {
            assert(t.to_multiset().count(h) == u.to_multiset().count(h) - 1);
        } else {
            assert(t.to_multiset().count(y) == u.to_multiset().count(y));
        }
    }
}

proof fn lemma_sorted_insert_member(s: Seq<Object>, x: Object, i: int)
    requires
        0 <= i < sorted_insert(s, x).len(),
    ensures
        sorted_insert(s, x)[i] == x || exists|k: int|
            0 <= k < s.len() && s[k] == #[trigger] sorted_insert(s, x)[i],
    decreases s.len(),
{
    let u = sorted_insert(s, x);
    if s.len() == 0 {
    } else if key_lt(x, s[0]) {
    } else {
        if i > 0 {
            lemma_sorted_insert_member(s.drop_first(), x, i - 1);
            if u[i] != x {
                let t = s.drop_first();
                if exists|k: int| 0 <= k < t.len() && t[k] == u[i] {
                    let k = choose|k: int| 0 <= k < t.len() && t[k] == u[i];
                    assert(s[k + 1] == u[i]);
                }
            }
        }
    }
}

/// Stable sorting by `order` and `filename`: the result is a permutation
/// of the input in nondecreasing key order; elements of equal rank stand
/// in filename order, and `stable_sorted` fixes equal keys to arrival
/// order.
pub proof fn lemma_stable_sorted_props(s: Seq<Object>)
    ensures
        stable_sorted(s).to_multiset() == s.to_multiset(),
        forall|i: int, j: int|
            0 <= i < j < stable_sorted(s).len() ==> key_le(
                #[trigger] stable_sorted(s)[i],
                #[trigger] stable_sorted(s)[j],
            ),
    decreases s.len(),
{
    if s.len() == 0 {
    } else {
        lemma_stable_sorted_props(s.drop_last());
        lemma_sorted_insert_props(stable_sorted(s.drop_last()), s.last());
        assert(s =~= s.drop_last().push(s.last()));
        assert(s.drop_last().push(s.last()).to_multiset() =~= s.drop_last().to_multiset().insert(
            s.last(),
        ));
    }
}

/// Among sorted objects, equal ranks stand in filename order.
pub proof fn lemma_equal_ranks_in_filename_order(s: Seq<Object>, i: int, j: int)
    requires
        0 <= i < j < stable_sorted(s).len(),
        stable_sorted(s)[i].order == stable_sorted(s)[j].order,
    ensures
        str_le(stable_sorted(s)[i].filename@, stable_sorted(s)[j].filename@),
{
    lemma_stable_sorted_props(s);
    assert(key_le(stable_sorted(s)[i], stable_sorted(s)[j]));
}

// --- validation against the owning schema -------------------------------

/// A scalar value carries the variant its declared type demands.
pub open spec fn value_matches_field(v: FieldValue, t: FieldType) -> bool {
    match v {
        FieldValue::String(_) => t == FieldType::String,
        FieldValue::Number(_) => t == FieldType::Number,
        FieldValue::Date(_) => t == FieldType::Date,
        FieldValue::Markdown(_) => t == FieldType::Markdown,
        FieldValue::Boolean(_) => t == FieldType::Boolean,
        FieldValue::Objects(_) => false,
    }
}

/// One record entry is consistent with a schema model: a scalar key
/// must be a declared field of the matching type, and a nested
/// collection must be a declared child schema, all of whose records are
/// consistent with it.
pub open spec fn entry_matches(key: Seq<char>, v: FieldValue, dm: DefModel) -> bool
    decreases v,
{
    match v {
        FieldValue::Objects(objs) => match lookup_assoc(dm.part.children, key) {
            Some(cm) => forall|i: int|
                0 <= i < objs@.len() ==> values_match(#[trigger] objs@[i], cm),
            None => false,
        },
        _ => match lookup_assoc(dm.part.fields, key) {
            Some(t) => value_matches_field(v, t),
            None => false,
        },
    }
}

pub open spec fn values_match(fv: FieldValues, dm: DefModel) -> bool
    decreases fv,
{
    forall|j: int|
        0 <= j < fv.pairs@.len() ==> entry_matches(
            (#[trigger] fv.pairs@[j]).0@,
            fv.pairs@[j].1,
            dm,
        )
}

/// A content object instantiates a schema when it names it and every
/// value is consistent with the declaration.
pub open spec fn object_matches_def(o: Object, dm: DefModel) -> bool {
    o.object_name@ == dm.name && values_match(o.values, dm)
}

fn value_matches_field_exec(v: &FieldValue, t: &FieldType) -> (r: bool)
    ensures
        r == value_matches_field(*v, *t),
{
    match v {
        FieldValue::String(_) => *t == FieldType::String,
        FieldValue::Number(_) => *t == FieldType::Number,
        FieldValue::Date(_) => *t == FieldType::Date,
        FieldValue::Markdown(_) => *t == FieldType::Markdown,
        FieldValue::Boolean(_) => *t == FieldType::Boolean,
        FieldValue::Objects(_) => false,
    }
}

/// The children of a schema's model are exactly its child vector, keyed
/// by name.
proof fn lemma_def_model_children(d: ObjectDefinition)
    ensures
        def_model(d).part.children =~= kids_model(d.children@),
{
}

#[verifier::loop_isolation(false)]
fn entry_matches_exec(key: &String, v: &FieldValue, d: &ObjectDefinition) -> (r: bool)
    ensures
        r == entry_matches(key@, *v, def_model(*d)),
    decreases *v,
{
    proof {
        lemma_def_model_children(*d);
    }
    match v {
        FieldValue::Objects(objs) => {
            match d.child(key.as_str()) {
                None => false,
                Some(child) => {
                    let n = objs.len();
                    let mut i: usize = 0;
                    while i < n
                        invariant
                            i <= n,
                            n == objs@.len(),
                            forall|k: int|
                                0 <= k < i ==> values_match(#[trigger] objs@[k], def_model(*child)),
                        decreases n - i,
                    {
                        proof {
                            assert(*v == FieldValue::Objects(*objs));
                            assert(decreases_to!(FieldValue::Objects(*objs) => *objs));
                            assert(decreases_to!(*objs => objs@));
                            assert(decreases_to!(objs@ => objs@[i as int]));
                        }
                        if !values_match_exec(&objs[i], child) {
                            return false;
                        }
                        i += 1;
                    }
                    true
                },
            }
        },
        _ => {
            match d.field(key.as_str()) {
                None => false,
                Some(t) => value_matches_field_exec(v, t),
            }
        },
    }
}

#[verifier::loop_isolation(false)]
fn values_match_exec(fv: &FieldValues, d: &ObjectDefinition) -> (r: bool)
    ensures
        r == values_match(*fv, def_model(*d)),
    decreases *fv,
{
    let n = fv.pairs.len();
    let mut j: usize = 0;
    while j < n
        invariant
            j <= n,
            n == fv.pairs@.len(),
            forall|k: int|
                0 <= k < j ==> entry_matches(
                    (#[trigger] fv.pairs@[k]).0@,
                    fv.pairs@[k].1,
                    def_model(*d),
                ),
        decreases n - j,
    {
        proof {
            assert(decreases_to!(*fv => fv.pairs));
            assert(decreases_to!(fv.pairs => fv.pairs@));
            assert(decreases_to!(fv.pairs@ => fv.pairs@[j as int]));
            assert(decreases_to!(fv.pairs@[j as int] => fv.pairs@[j as int].1));
        }
        if !entry_matches_exec(&fv.pairs[j].0, &fv.pairs[j].1, d) {
            return false;
        }
        j += 1;
    }
    true
}

impl Object {
    /// Decides whether this record instantiates the given schema: its
    /// `object_name` names it, every scalar key is a declared field of
    /// the matching type, and every nested collection is a declared
    /// child schema whose records all pass the same test.
    pub fn matches_definition(&self, definition: &ObjectDefinition) -> (r: bool)
        ensures
            r == object_matches_def(*self, def_model(*definition)),
    {
        crate::text::str_eq(self.object_name.as_str(), definition.name.as_str())
            && values_match_exec(&self.values, definition)
    }
}

} // verus!
