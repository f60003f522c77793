use vstd::prelude::*;

use crate::scalar::{BigDecimalWrapper, ByteWrapper, Date, DateTimeWrapper, NI, URI, UUID};

verus! {

#[verifier::external_type_specification]
#[verifier::external_body]
pub struct ExNumber(serde_json::Number);

/// Relies on the `Clone` that serde_json derives for `Number`: the copy is the
/// same number.
pub assume_specification[ <serde_json::Number as Clone>::clone ](
    n: &serde_json::Number,
) -> (r: serde_json::Number)
    ensures
        r == *n,
;

/// The mathematical model of a typed value.
pub enum Val {
    Null,
    Bool(bool),
    Number(serde_json::Number),
    Str(Seq<char>),
    Uri(Seq<char>),
    Date(Date),
    DateTime(DateTimeWrapper),
    Uuid(Seq<char>),
    Bytes(Seq<u8>),
    Ni(Seq<char>, Seq<char>),
    Decimal(Seq<char>),
    Array(Seq<Val>),
    Object(Seq<(Seq<char>, Val)>),
}

/// A typed value. The same type carries the raw wire tree, in which only the
/// JSON kinds occur.
#[derive(Debug, PartialEq)]
pub enum EntityValue {
    Null,
    Bool(bool),
    Number(serde_json::Number),
    String(String),
    URI(URI),
    Date(Date),
    DateTime(DateTimeWrapper),
    UUID(UUID),
    Bytes(ByteWrapper),
    NI(NI),
    Decimal(BigDecimalWrapper),
    Array(Vec<EntityValue>),
    Object(Vec<(String, EntityValue)>),
}

pub open spec fn view_value(v: EntityValue) -> Val
    decreases v,
{
    match v {
        EntityValue::Null => Val::Null,
        EntityValue::Bool(b) => Val::Bool(b),
        EntityValue::Number(n) => Val::Number(n),
        EntityValue::String(s) => Val::Str(s@),
        EntityValue::URI(u) => Val::Uri(u.0@),
        EntityValue::Date(d) => Val::Date(d),
        EntityValue::DateTime(d) => Val::DateTime(d),
        EntityValue::UUID(u) => Val::Uuid(u.0@),
        EntityValue::Bytes(b) => Val::Bytes(b.0@),
        EntityValue::NI(n) => Val::Ni(n.namespace@, n.identifier@),
        EntityValue::Decimal(d) => Val::Decimal(d.0@),
        EntityValue::Array(a) => Val::Array(view_values(a@)),
        EntityValue::Object(f) => Val::Object(view_fields(f@)),
    }
}

pub open spec fn view_values(s: Seq<EntityValue>) -> Seq<Val>
    decreases s,
{
    if s.len() == 0 {
        Seq::empty()
    } else {
        view_values(s.drop_last()).push(view_value(s.last()))
    }
}

pub open spec fn view_fields(s: Seq<(String, EntityValue)>) -> Seq<(Seq<char>, Val)>
    decreases s,
{
    if s.len() == 0 {
        Seq::empty()
    } else {
        view_fields(s.drop_last()).push((s.last().0@, view_value(s.last().1)))
    }
}

impl View for EntityValue {
    type V = Val;

    open spec fn view(&self) -> Val {
        view_value(*self)
    }
}

pub broadcast proof fn lemma_view_values(s: Seq<EntityValue>)
    ensures
        #[trigger] view_values(s).len() == s.len(),
        forall|i: int| 0 <= i < s.len() ==> view_values(s)[i] == view_value(#[trigger] s[i]),
    decreases s.len(),
{
    if s.len() > 0 {
        lemma_view_values(s.drop_last());
        assert forall|i: int| 0 <= i < s.len() implies view_values(s)[i] == view_value(
            #[trigger] s[i],
        ) by {
            if i < s.len() - 1 {
                assert(s[i] == s.drop_last()[i]);
            }
        }
    }
}

pub broadcast proof fn lemma_view_fields(s: Seq<(String, EntityValue)>)
    ensures
        #[trigger] view_fields(s).len() == s.len(),
        forall|i: int|
            0 <= i < s.len() ==> view_fields(s)[i] == (#[trigger] s[i].0@, view_value(s[i].1)),
    decreases s.len(),
{
    if s.len() > 0 {
        lemma_view_fields(s.drop_last());
        assert forall|i: int| 0 <= i < s.len() implies view_fields(s)[i] == (
            #[trigger] s[i].0@,
            view_value(s[i].1),
        ) by {
            if i < s.len() - 1 {
                assert(s[i] == s.drop_last()[i]);
            }
        }
    }
}

pub proof fn lemma_view_values_push(s: Seq<EntityValue>, x: EntityValue)
    ensures
        view_values(s.push(x)) == view_values(s).push(view_value(x)),
{
    assert(s.push(x).drop_last() =~= s);
}

pub proof fn lemma_view_fields_push(s: Seq<(String, EntityValue)>, x: (String, EntityValue))
    ensures
        view_fields(s.push(x)) == view_fields(s).push((x.0@, view_value(x.1))),
{
    assert(s.push(x).drop_last() =~= s);
}

pub proof fn lemma_view_fields_update(s: Seq<(String, EntityValue)>, i: int, x: (String, EntityValue))
    requires
        0 <= i < s.len(),
    ensures
        view_fields(s.update(i, x)) == view_fields(s).update(i, (x.0@, view_value(x.1))),
{
    broadcast use lemma_view_fields;

    let l = view_fields(s.update(i, x));
    let r = view_fields(s).update(i, (x.0@, view_value(x.1)));
    assert(l.len() == r.len());
    assert forall|j: int| 0 <= j < l.len() implies l[j] == r[j] by {
        assert(s.update(i, x)[j].0@ == l[j].0);
    }
    assert(l =~= r);
}

/// The value of the last field named `k`.
pub open spec fn obj_get(fs: Seq<(Seq<char>, Val)>, k: Seq<char>) -> Option<Val>
    decreases fs.len(),
{
    if fs.len() == 0 {
        None
    } else if fs.last().0 == k {
        Some(fs.last().1)
    } else {
        obj_get(fs.drop_last(), k)
    }
}

/// The position of the last field named `k`.
pub open spec fn key_index(fs: Seq<(Seq<char>, Val)>, k: Seq<char>) -> Option<int>
    decreases fs.len(),
{
    if fs.len() == 0 {
        None
    } else if fs.last().0 == k {
        Some(fs.len() - 1)
    } else {
        key_index(fs.drop_last(), k)
    }
}

/// The fields with `k` set to `v`: an existing field is overwritten in place,
/// a new one goes last.
pub open spec fn obj_set(fs: Seq<(Seq<char>, Val)>, k: Seq<char>, v: Val) -> Seq<(Seq<char>, Val)> {
    match key_index(fs, k) {
        Some(i) => fs.update(i, (k, v)),
        None => fs.push((k, v)),
    }
}

pub proof fn lemma_key_index(fs: Seq<(Seq<char>, Val)>, k: Seq<char>)
    ensures
        key_index(fs, k) matches Some(i) ==> 0 <= i < fs.len() && fs[i].0 == k && obj_get(fs, k)
            == Some(fs[i].1) && forall|j: int| i < j < fs.len() ==> fs[j].0 != k,
        key_index(fs, k) is None ==> obj_get(fs, k) is None && forall|j: int|
            0 <= j < fs.len() ==> fs[j].0 != k,
    decreases fs.len(),
{
    if fs.len() > 0 {
        lemma_key_index(fs.drop_last(), k);
        if fs.last().0 != k {
            assert forall|j: int| 0 <= j < fs.len() - 1 implies fs[j] == fs.drop_last()[j] by {}
        }
    }
}

/// Reading a field back after setting it gives the value set; the other
/// fields read as before.
pub proof fn lemma_obj_get_set(fs: Seq<(Seq<char>, Val)>, k: Seq<char>, v: Val, k2: Seq<char>)
    ensures
        obj_get(obj_set(fs, k, v), k2) == if k2 == k {
            Some(v)
        } else {
            obj_get(fs, k2)
        },
    decreases fs.len(),
{
    lemma_key_index(fs, k);
    let r = obj_set(fs, k, v);
    match key_index(fs, k) {
        Some(i) => {
            if i == fs.len() - 1 {
                assert(r.drop_last() =~= fs.drop_last());
            } else {
                lemma_obj_get_set(fs.drop_last(), k, v, k2);
                lemma_key_index(fs.drop_last(), k);
                assert(key_index(fs, k) == key_index(fs.drop_last(), k));
                assert(r.drop_last() =~= obj_set(fs.drop_last(), k, v));
            }
        },
        None => {
            assert(r.drop_last() =~= fs);
        },
    }
}

/// No two fields share a name.
pub open spec fn keys_unique(fs: Seq<(Seq<char>, Val)>) -> bool {
    forall|i: int, j: int| 0 <= i < j < fs.len() ==> fs[i].0 != fs[j].0
}

/// Setting a field keeps the names of an object's fields unique.
pub proof fn lemma_obj_set_keeps_keys_unique(fs: Seq<(Seq<char>, Val)>, k: Seq<char>, v: Val)
    requires
        keys_unique(fs),
    ensures
        keys_unique(obj_set(fs, k, v)),
{
    lemma_key_index(fs, k);
    let r = obj_set(fs, k, v);
    assert forall|i: int, j: int| 0 <= i < j < r.len() implies r[i].0 != r[j].0 by {
        match key_index(fs, k) {
            Some(m) => {
                assert(fs[m].0 == k);
            },
            None => {
                if j == fs.len() {
                    assert(r[i] == fs[i]);
                }
            },
        }
    }
}

/// An exact copy of `v`.
pub fn copy_value(v: &EntityValue) -> (r: EntityValue)
    ensures
        r@ == v@,
    decreases v,
{
    match v {
        EntityValue::Null => EntityValue::Null,
        EntityValue::Bool(b) => EntityValue::Bool(*b),
        EntityValue::Number(n) => EntityValue::Number(n.clone()),
        EntityValue::String(s) => EntityValue::String(s.clone()),
        EntityValue::URI(u) => EntityValue::URI(URI(u.0.clone())),
        EntityValue::Date(d) => EntityValue::Date(*d),
        EntityValue::DateTime(d) => EntityValue::DateTime(*d),
        EntityValue::UUID(u) => EntityValue::UUID(UUID(u.0.clone())),
        EntityValue::Bytes(b) => EntityValue::Bytes(ByteWrapper(copy_bytes(&b.0))),
        EntityValue::NI(n) => EntityValue::NI(
            NI { namespace: n.namespace.clone(), identifier: n.identifier.clone() },
        ),
        EntityValue::Decimal(d) => EntityValue::Decimal(BigDecimalWrapper(d.0.clone())),
        EntityValue::Array(a) => {
            let mut out: Vec<EntityValue> = Vec::new();
            let mut i: usize = 0;
            #[verifier::loop_isolation(false)]
            while i < a.len()
                invariant
                    i <= a@.len(),
                    view_values(out@) == view_values(a@.subrange(0, i as int)),
                decreases a@.len() - i,
            {
                proof {
                    assert(decreases_to!(*a => a[i as int]));
                }
                let x = copy_value(&a[i]);
                proof {
                    lemma_view_values_push(out@, x);
                    assert(a@.subrange(0, i + 1).drop_last() =~= a@.subrange(0, i as int));
                }
                out.push(x);
                i = i + 1;
            }
            assert(a@.subrange(0, a@.len() as int) =~= a@);
            EntityValue::Array(out)
        },
        EntityValue::Object(f) => {
            let mut out: Vec<(String, EntityValue)> = Vec::new();
            let mut i: usize = 0;
            #[verifier::loop_isolation(false)]
            while i < f.len()
                invariant
                    i <= f@.len(),
                    view_fields(out@) == view_fields(f@.subrange(0, i as int)),
                decreases f@.len() - i,
            {
                proof {
                    assert(decreases_to!(*f => f[i as int]));
                    assert(decreases_to!(f[i as int] => f[i as int].1));
                }
                let x = (f[i].0.clone(), copy_value(&f[i].1));
                proof {
                    lemma_view_fields_push(out@, x);
                    assert(f@.subrange(0, i + 1).drop_last() =~= f@.subrange(0, i as int));
                }
                out.push(x);
                i = i + 1;
            }
            assert(f@.subrange(0, f@.len() as int) =~= f@);
            EntityValue::Object(out)
        },
    }
}

/// An exact copy of the fields of an object.
pub fn copy_fields(f: &Vec<(String, EntityValue)>) -> (r: Vec<(String, EntityValue)>)
    ensures
        view_fields(r@) == view_fields(f@),
{
    let mut out: Vec<(String, EntityValue)> = Vec::new();
    let mut i: usize = 0;
    while i < f.len()
        invariant
            i <= f@.len(),
            view_fields(out@) == view_fields(f@.subrange(0, i as int)),
        decreases f@.len() - i,
    {
        let x = (f[i].0.clone(), copy_value(&f[i].1));
        proof {
            lemma_view_fields_push(out@, x);
            assert(f@.subrange(0, i + 1).drop_last() =~= f@.subrange(0, i as int));
        }
        out.push(x);
        i = i + 1;
    }
    assert(f@.subrange(0, f@.len() as int) =~= f@);
    out
}

fn copy_bytes(b: &Vec<u8>) -> (r: Vec<u8>)
    ensures
        r@ == b@,
{
    let mut out: Vec<u8> = Vec::new();
    let mut i: usize = 0;
    while i < b.len()
        invariant
            i <= b@.len(),
            out@ == b@.subrange(0, i as int),
        decreases b@.len() - i,
    {
        out.push(b[i]);
        i = i + 1;
    }
    assert(b@.subrange(0, b@.len() as int) =~= b@);
    out
}

/// Sets the field `k` of the object with fields `fields` to `v`.
pub fn set_field(fields: &mut Vec<(String, EntityValue)>, k: String, v: EntityValue)
    ensures
        view_fields(final(fields)@) == obj_set(view_fields(old(fields)@), k@, v@),
{
    broadcast use lemma_view_fields;

    let ghost fs = view_fields(fields@);
    let mut i: usize = fields.len();
    assert(fs.subrange(0, i as int) =~= fs);
    while i > 0
        invariant
            i <= fields@.len(),
            fs == view_fields(fields@),
            fs == view_fields(old(fields)@),
            fs.len() == fields@.len(),
            key_index(fs, k@) == key_index(fs.subrange(0, i as int), k@),
        decreases i,
    {
        assert(fs.subrange(0, i as int).drop_last() =~= fs.subrange(0, i - 1));
        assert(fs.subrange(0, i as int).last() == fs[i - 1]);
        proof {
            lemma_view_fields(fields@);
        }
        assert(fs[i - 1].0 == fields@[i - 1].0@);
        if fields[i - 1].0 == k {
            assert(key_index(fs.subrange(0, i as int), k@) == Some(i - 1));
            proof {
                lemma_view_fields_update(fields@, i - 1, (k, v));
            }
            fields.set(i - 1, (k, v));
            return;
        }
        i = i - 1;
    }
    assert(fs.subrange(0, 0) =~= Seq::<(Seq<char>, Val)>::empty());
    proof {
        lemma_view_fields_push(fields@, (k, v));
    }
    fields.push((k, v));
}

} // verus!
