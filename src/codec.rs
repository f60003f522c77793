use vstd::prelude::*;
use vstd::string::*;

use crate::scalar::{
    base64_bytes, base64_text, date_of, date_time_of, decimal_of, ni_parts, BigDecimalWrapper,
    ByteWrapper, CodecError, Date, DateTimeWrapper, NI, URI, UUID,
};
use crate::text::{contains_char, has_sigil, payload, sigil};
use crate::value::{
    copy_value, lemma_view_fields, lemma_view_fields_push, lemma_view_values,
    lemma_view_values_push, view_fields, view_values, EntityValue, Val,
};

verus! {

pub open spec fn res_view(r: Result<EntityValue, CodecError>) -> Result<Val, CodecError> {
    match r {
        Ok(v) => Ok(v@),
        Err(e) => Err(e),
    }
}

/// What a wire string decodes to: the sigils are tried in a fixed order and
/// the first that matches decides; a string without one stays a string.
pub open spec fn decode_text_spec(s: Seq<char>) -> Result<Val, CodecError> {
    if !(s.len() > 0 && s[0] == '~') {
        Ok(Val::Str(s))
    } else if has_sigil(s, 'r') {
        Ok(Val::Uri(payload(s)))
    } else if has_sigil(s, 't') && contains_char(s, 'T') {
        match date_time_of(payload(s)) {
            Ok(d) => Ok(Val::DateTime(d)),
            Err(e) => Err(e),
        }
    } else if has_sigil(s, 't') {
        match date_of(payload(s)) {
            Ok(d) => Ok(Val::Date(d)),
            Err(e) => Err(e),
        }
    } else if has_sigil(s, 'b') {
        match base64_bytes(payload(s)) {
            Some(b) => Ok(Val::Bytes(b)),
            None => Err(CodecError::InvalidBase64),
        }
    } else if has_sigil(s, ':') {
        match ni_parts(payload(s)) {
            Ok(p) => Ok(Val::Ni(p.0, p.1)),
            Err(e) => Err(e),
        }
    } else if has_sigil(s, 'f') {
        match decimal_of(payload(s)) {
            Ok(t) => Ok(Val::Decimal(t)),
            Err(e) => Err(e),
        }
    } else if has_sigil(s, 'u') {
        Ok(Val::Uuid(payload(s)))
    } else {
        Ok(Val::Str(s))
    }
}

/// What a wire tree decodes to: strings by their sigil, arrays and objects
/// element by element; the first error in order is the result.
pub open spec fn decode_spec(v: Val) -> Result<Val, CodecError>
    decreases v, 0int,
{
    match v {
        Val::Str(s) => decode_text_spec(s),
        Val::Array(items) => match decode_items(items, 0, Seq::empty()) {
            Ok(xs) => Ok(Val::Array(xs)),
            Err(e) => Err(e),
        },
        Val::Object(fs) => match decode_fields(fs, 0, Seq::empty()) {
            Ok(xs) => Ok(Val::Object(xs)),
            Err(e) => Err(e),
        },
        _ => Ok(v),
    }
}

/// Decodes `s[i..]` and appends the results to `acc`.
pub open spec fn decode_items(s: Seq<Val>, i: int, acc: Seq<Val>) -> Result<Seq<Val>, CodecError>
    decreases s, s.len() - i,
{
    if i < 0 || i >= s.len() {
        Ok(acc)
    } else {
        match decode_spec(s[i]) {
            Ok(x) => decode_items(s, i + 1, acc.push(x)),
            Err(e) => Err(e),
        }
    }
}

/// Decodes the values of `fs[i..]` and appends the fields to `acc`.
pub open spec fn decode_fields(
    fs: Seq<(Seq<char>, Val)>,
    i: int,
    acc: Seq<(Seq<char>, Val)>,
) -> Result<Seq<(Seq<char>, Val)>, CodecError>
    decreases fs, fs.len() - i,
{
    if i < 0 || i >= fs.len() {
        Ok(acc)
    } else {
        match decode_spec(fs[i].1) {
            Ok(x) => decode_fields(fs, i + 1, acc.push((fs[i].0, x))),
            Err(e) => Err(e),
        }
    }
}

/// The wire form of a typed value: each extension scalar becomes its sigil
/// followed by its payload.
pub open spec fn encode_spec(v: Val) -> Val
    decreases v,
{
    match v {
        Val::Uri(u) => Val::Str(sigil('r') + u),
        Val::Date(d) => Val::Str(sigil('t') + d.text()->Some_0),
        Val::DateTime(d) => Val::Str(sigil('t') + d.text()->Some_0),
        Val::Uuid(u) => Val::Str(sigil('u') + u),
        Val::Bytes(b) => Val::Str(sigil('b') + base64_text(b)),
        Val::Ni(n, i) => Val::Str(sigil(':') + n + seq![':'] + i),
        Val::Decimal(t) => Val::Str(sigil('f') + t),
        Val::Array(items) => Val::Array(encode_items(items)),
        Val::Object(fs) => Val::Object(encode_fields(fs)),
        _ => v,
    }
}

pub open spec fn encode_items(s: Seq<Val>) -> Seq<Val>
    decreases s,
{
    if s.len() == 0 {
        Seq::empty()
    } else {
        encode_items(s.drop_last()).push(encode_spec(s.last()))
    }
}

pub open spec fn encode_fields(fs: Seq<(Seq<char>, Val)>) -> Seq<(Seq<char>, Val)>
    decreases fs,
{
    if fs.len() == 0 {
        Seq::empty()
    } else {
        encode_fields(fs.drop_last()).push((fs.last().0, encode_spec(fs.last().1)))
    }
}

/// A value whose dates and instants have a text.
pub open spec fn encodable(v: Val) -> bool
    decreases v,
{
    match v {
        Val::Date(d) => d.wf(),
        Val::DateTime(d) => d.wf(),
        Val::Array(items) => encodable_items(items),
        Val::Object(fs) => encodable_fields(fs),
        _ => true,
    }
}

pub open spec fn encodable_items(s: Seq<Val>) -> bool
    decreases s,
{
    s.len() > 0 ==> encodable_items(s.drop_last()) && encodable(s.last())
}

pub open spec fn encodable_fields(fs: Seq<(Seq<char>, Val)>) -> bool
    decreases fs,
{
    fs.len() > 0 ==> encodable_fields(fs.drop_last()) && encodable(fs.last().1)
}

/// A typed value that decoding can give: every part reads back from its text.
pub open spec fn wf_val(v: Val) -> bool
    decreases v,
{
    match v {
        Val::Str(s) => decode_text_spec(s) == Ok::<Val, CodecError>(Val::Str(s)),
        Val::Date(d) => d.wf(),
        Val::DateTime(d) => d.wf(),
        Val::Bytes(b) => base64_bytes(base64_text(b)) == Some(b),
        Val::Ni(_, i) => !contains_char(i, ':'),
        Val::Decimal(t) => decimal_of(t) == Ok::<Seq<char>, CodecError>(t),
        Val::Array(items) => wf_items(items),
        Val::Object(fs) => wf_fields(fs),
        _ => true,
    }
}

pub open spec fn wf_items(s: Seq<Val>) -> bool
    decreases s,
{
    s.len() > 0 ==> wf_items(s.drop_last()) && wf_val(s.last())
}

pub open spec fn wf_fields(fs: Seq<(Seq<char>, Val)>) -> bool
    decreases fs,
{
    fs.len() > 0 ==> wf_fields(fs.drop_last()) && wf_val(fs.last().1)
}

/// Decodes one wire string.
pub fn decode_text(s: &str) -> (r: Result<EntityValue, CodecError>)
    ensures
        res_view(r) == decode_text_spec(s@),
{
    let n = s.unicode_len();
    if !(n > 0 && s.get_char(0) == '~') {
        return Ok(EntityValue::String(s.to_owned()));
    }
    if URI::can_deserialize(s) {
        Ok(EntityValue::URI(URI::deserialize(s)))
    } else if DateTimeWrapper::can_deserialize(s) {
        match DateTimeWrapper::deserialize(s) {
            Ok(d) => Ok(EntityValue::DateTime(d)),
            Err(e) => Err(e),
        }
    } else if Date::can_deserialize(s) {
        match Date::deserialize(s) {
            Ok(d) => Ok(EntityValue::Date(d)),
            Err(e) => Err(e),
        }
    } else if ByteWrapper::can_deserialize(s) {
        match ByteWrapper::deserialize(s) {
            Ok(b) => Ok(EntityValue::Bytes(b)),
            Err(e) => Err(e),
        }
    } else if NI::can_deserialize(s) {
        match NI::deserialize(s) {
            Ok(x) => Ok(EntityValue::NI(x)),
            Err(e) => Err(e),
        }
    } else if BigDecimalWrapper::can_deserialize(s) {
        match BigDecimalWrapper::deserialize(s) {
            Ok(d) => Ok(EntityValue::Decimal(d)),
            Err(e) => Err(e),
        }
    } else if UUID::can_deserialize(s) {
        Ok(EntityValue::UUID(UUID::deserialize(s)))
    } else {
        Ok(EntityValue::String(s.to_owned()))
    }
}

/// Decodes a wire tree into a typed value.
pub fn decode(v: &EntityValue) -> (r: Result<EntityValue, CodecError>)
    ensures
        res_view(r) == decode_spec(v@),
    decreases v,
{
    match v {
        EntityValue::String(s) => decode_text(s.as_str()),
        EntityValue::Array(a) => {
            let ghost x = view_values(a@);
            let mut out: Vec<EntityValue> = Vec::new();
            let mut i: usize = 0;
            proof {
                lemma_view_values(a@);
                assert(view_values(out@) =~= Seq::<Val>::empty());
            }
            #[verifier::loop_isolation(false)]
            while i < a.len()
                invariant
                    i <= a@.len(),
                    x.len() == a@.len(),
                    decode_items(x, 0, Seq::empty()) == decode_items(x, i as int, view_values(out@)),
                decreases a@.len() - i,
            {
                proof {
                    assert(decreases_to!(*a => a[i as int]));
                    assert(x[i as int] == a@[i as int]@);
                }
                match decode(&a[i]) {
                    Ok(y) => {
                        proof {
                            lemma_view_values_push(out@, y);
                        }
                        out.push(y);
                    },
                    Err(e) => {
                        return Err(e);
                    },
                }
                i = i + 1;
            }
            Ok(EntityValue::Array(out))
        },
        EntityValue::Object(f) => {
            let ghost x = view_fields(f@);
            let mut out: Vec<(String, EntityValue)> = Vec::new();
            let mut i: usize = 0;
            proof {
                lemma_view_fields(f@);
                assert(view_fields(out@) =~= Seq::<(Seq<char>, Val)>::empty());
            }
            #[verifier::loop_isolation(false)]
            while i < f.len()
                invariant
                    i <= f@.len(),
                    x.len() == f@.len(),
                    decode_fields(x, 0, Seq::empty()) == decode_fields(x, i as int, view_fields(out@)),
                decreases f@.len() - i,
            {
                proof {
                    assert(decreases_to!(*f => f[i as int]));
                    assert(decreases_to!(f[i as int] => f[i as int].1));
                    assert(x[i as int] == (f@[i as int].0@, f@[i as int].1@));
                }
                match decode(&f[i].1) {
                    Ok(y) => {
                        let k = f[i].0.clone();
                        proof {
                            lemma_view_fields_push(out@, (k, y));
                        }
                        out.push((k, y));
                    },
                    Err(e) => {
                        return Err(e);
                    },
                }
                i = i + 1;
            }
            Ok(EntityValue::Object(out))
        },
        _ => Ok(copy_value(v)),
    }
}

/// Whether every date and instant in `v` has a text.
pub fn is_encodable(v: &EntityValue) -> (r: bool)
    ensures
        r == encodable(v@),
    decreases v,
{
    match v {
        EntityValue::Date(d) => d.reads_back(),
        EntityValue::DateTime(d) => d.reads_back(),
        EntityValue::Array(a) => {
            let ghost x = view_values(a@);
            let mut i: usize = 0;
            proof {
                lemma_view_values(a@);
                assert(x.subrange(0, x.len() as int) =~= x);
            }
            #[verifier::loop_isolation(false)]
            while i < a.len()
                invariant
                    i <= a@.len(),
                    x.len() == a@.len(),
                    encodable_items(x) == encodable_items(x.subrange(i as int, x.len() as int)),
                decreases a@.len() - i,
            {
                proof {
                    assert(decreases_to!(*a => a[i as int]));
                    assert(x[i as int] == a@[i as int]@);
                    lemma_encodable_items_split(x, i as int);
                }
                if !is_encodable(&a[i]) {
                    return false;
                }
                i = i + 1;
            }
            true
        },
        EntityValue::Object(f) => {
            let ghost x = view_fields(f@);
            let mut i: usize = 0;
            proof {
                lemma_view_fields(f@);
                assert(x.subrange(0, x.len() as int) =~= x);
            }
            #[verifier::loop_isolation(false)]
            while i < f.len()
                invariant
                    i <= f@.len(),
                    x.len() == f@.len(),
                    encodable_fields(x) == encodable_fields(x.subrange(i as int, x.len() as int)),
                decreases f@.len() - i,
            {
                proof {
                    assert(decreases_to!(*f => f[i as int]));
                    assert(decreases_to!(f[i as int] => f[i as int].1));
                    assert(x[i as int] == (f@[i as int].0@, f@[i as int].1@));
                    lemma_encodable_fields_split(x, i as int);
                }
                if !is_encodable(&f[i].1) {
                    return false;
                }
                i = i + 1;
            }
            true
        },
        _ => true,
    }
}

proof fn lemma_encodable_items_split(x: Seq<Val>, i: int)
    requires
        0 <= i < x.len(),
    ensures
        encodable_items(x.subrange(i, x.len() as int)) == (encodable(x[i])
            && encodable_items(x.subrange(i + 1, x.len() as int))),
    decreases x.len(),
{
    let t = x.subrange(i, x.len() as int);
    if i == x.len() - 1 {
        assert(t.drop_last() =~= Seq::<Val>::empty());
        assert(x.subrange(i + 1, x.len() as int) =~= Seq::<Val>::empty());
    } else {
        lemma_encodable_items_split(x.drop_last(), i);
        assert(t.drop_last() =~= x.drop_last().subrange(i, x.len() - 1));
        assert(x.subrange(i + 1, x.len() as int).drop_last() =~= x.drop_last().subrange(
            i + 1,
            x.len() - 1,
        ));
    }
}

proof fn lemma_encodable_fields_split(x: Seq<(Seq<char>, Val)>, i: int)
    requires
        0 <= i < x.len(),
    ensures
        encodable_fields(x.subrange(i, x.len() as int)) == (encodable(x[i].1)
            && encodable_fields(x.subrange(i + 1, x.len() as int))),
    decreases x.len(),
{
    let t = x.subrange(i, x.len() as int);
    if i == x.len() - 1 {
        assert(t.drop_last() =~= Seq::<(Seq<char>, Val)>::empty());
        assert(x.subrange(i + 1, x.len() as int) =~= Seq::<(Seq<char>, Val)>::empty());
    } else {
        lemma_encodable_fields_split(x.drop_last(), i);
        assert(t.drop_last() =~= x.drop_last().subrange(i, x.len() - 1));
        assert(x.subrange(i + 1, x.len() as int).drop_last() =~= x.drop_last().subrange(
            i + 1,
            x.len() - 1,
        ));
    }
}

/// Encodes a typed value into its wire tree.
pub fn encode(v: &EntityValue) -> (r: EntityValue)
    requires
        encodable(v@),
    ensures
        r@ == encode_spec(v@),
    decreases v,
{
    match v {
        EntityValue::URI(u) => EntityValue::String(u.serialize()),
        EntityValue::Date(d) => EntityValue::String(d.serialize()),
        EntityValue::DateTime(d) => EntityValue::String(d.serialize()),
        EntityValue::UUID(u) => EntityValue::String(u.serialize()),
        EntityValue::Bytes(b) => EntityValue::String(b.serialize()),
        EntityValue::NI(n) => EntityValue::String(n.serialize()),
        EntityValue::Decimal(d) => EntityValue::String(d.serialize()),
        EntityValue::Array(a) => {
            let ghost x = view_values(a@);
            let mut out: Vec<EntityValue> = Vec::new();
            let mut i: usize = 0;
            proof {
                lemma_view_values(a@);
                assert(x.subrange(0, x.len() as int) =~= x);
                assert(x.subrange(0, 0) =~= Seq::<Val>::empty());
                assert(view_values(out@) =~= Seq::<Val>::empty());
            }
            #[verifier::loop_isolation(false)]
            while i < a.len()
                invariant
                    i <= a@.len(),
                    x.len() == a@.len(),
                    view_values(out@) == encode_items(x.subrange(0, i as int)),
                    encodable_items(x) == encodable_items(x.subrange(i as int, x.len() as int)),
                decreases a@.len() - i,
            {
                proof {
                    assert(decreases_to!(*a => a[i as int]));
                    assert(x[i as int] == a@[i as int]@);
                    lemma_encodable_items_split(x, i as int);
                    assert(x.subrange(0, i + 1).drop_last() =~= x.subrange(0, i as int));
                }
                let y = encode(&a[i]);
                proof {
                    lemma_view_values_push(out@, y);
                }
                out.push(y);
                i = i + 1;
            }
            assert(x.subrange(0, x.len() as int) =~= x);
            EntityValue::Array(out)
        },
        EntityValue::Object(f) => {
            let ghost x = view_fields(f@);
            let mut out: Vec<(String, EntityValue)> = Vec::new();
            let mut i: usize = 0;
            proof {
                lemma_view_fields(f@);
                assert(x.subrange(0, x.len() as int) =~= x);
                assert(x.subrange(0, 0) =~= Seq::<(Seq<char>, Val)>::empty());
                assert(view_fields(out@) =~= Seq::<(Seq<char>, Val)>::empty());
            }
            #[verifier::loop_isolation(false)]
            while i < f.len()
                invariant
                    i <= f@.len(),
                    x.len() == f@.len(),
                    view_fields(out@) == encode_fields(x.subrange(0, i as int)),
                    encodable_fields(x) == encodable_fields(x.subrange(i as int, x.len() as int)),
                decreases f@.len() - i,
            {
                proof {
                    assert(decreases_to!(*f => f[i as int]));
                    assert(decreases_to!(f[i as int] => f[i as int].1));
                    assert(x[i as int] == (f@[i as int].0@, f@[i as int].1@));
                    lemma_encodable_fields_split(x, i as int);
                    assert(x.subrange(0, i + 1).drop_last() =~= x.subrange(0, i as int));
                }
                let y = encode(&f[i].1);
                let k = f[i].0.clone();
                proof {
                    lemma_view_fields_push(out@, (k, y));
                }
                out.push((k, y));
                i = i + 1;
            }
            assert(x.subrange(0, x.len() as int) =~= x);
            EntityValue::Object(out)
        },
        _ => copy_value(v),
    }
}

proof fn lemma_encode_items_index(s: Seq<Val>)
    ensures
        encode_items(s).len() == s.len(),
        forall|j: int| 0 <= j < s.len() ==> #[trigger] encode_items(s)[j] == encode_spec(s[j]),
    decreases s.len(),
{
    if s.len() > 0 {
        lemma_encode_items_index(s.drop_last());
        assert forall|j: int| 0 <= j < s.len() implies #[trigger] encode_items(s)[j]
            == encode_spec(s[j]) by {
            if j < s.len() - 1 {
                assert(s[j] == s.drop_last()[j]);
            }
        }
    }
}

proof fn lemma_encode_fields_index(s: Seq<(Seq<char>, Val)>)
    ensures
        encode_fields(s).len() == s.len(),
        forall|j: int|
            0 <= j < s.len() ==> #[trigger] encode_fields(s)[j] == (s[j].0, encode_spec(s[j].1)),
    decreases s.len(),
{
    if s.len() > 0 {
        lemma_encode_fields_index(s.drop_last());
        assert forall|j: int| 0 <= j < s.len() implies #[trigger] encode_fields(s)[j] == (
            s[j].0,
            encode_spec(s[j].1),
        ) by {
            if j < s.len() - 1 {
                assert(s[j] == s.drop_last()[j]);
            }
        }
    }
}

proof fn lemma_wf_items_index(s: Seq<Val>)
    requires
        wf_items(s),
    ensures
        forall|j: int| 0 <= j < s.len() ==> wf_val(#[trigger] s[j]),
    decreases s.len(),
{
    if s.len() > 0 {
        lemma_wf_items_index(s.drop_last());
        assert forall|j: int| 0 <= j < s.len() implies wf_val(#[trigger] s[j]) by {
            if j < s.len() - 1 {
                assert(s[j] == s.drop_last()[j]);
            }
        }
    }
}

proof fn lemma_wf_fields_index(s: Seq<(Seq<char>, Val)>)
    requires
        wf_fields(s),
    ensures
        forall|j: int| 0 <= j < s.len() ==> wf_val(#[trigger] s[j].1),
    decreases s.len(),
{
    if s.len() > 0 {
        lemma_wf_fields_index(s.drop_last());
        assert forall|j: int| 0 <= j < s.len() implies wf_val(#[trigger] s[j].1) by {
            if j < s.len() - 1 {
                assert(s[j] == s.drop_last()[j]);
            }
        }
    }
}

proof fn lemma_last_colon(n: Seq<char>, i: Seq<char>)
    requires
        !contains_char(i, ':'),
    ensures
        crate::text::last_index(n + seq![':'] + i, ':') == Some(n.len() as int),
    decreases i.len(),
{
    let p = n + seq![':'] + i;
    if i.len() > 0 {
        assert(p.last() == i.last());
        assert(p.drop_last() =~= n + seq![':'] + i.drop_last());
        assert(!contains_char(i.drop_last(), ':')) by {
            assert forall|j: int| 0 <= j < i.drop_last().len() implies i.drop_last()[j] != ':' by {
                assert(i.drop_last()[j] == i[j]);
            }
        }
        lemma_last_colon(n, i.drop_last());
    }
}

proof fn lemma_decode_items_round_trip(items: Seq<Val>, i: int, acc: Seq<Val>)
    requires
        0 <= i <= items.len(),
        forall|j: int| 0 <= j < items.len() ==> wf_val(#[trigger] items[j]),
    ensures
        decode_items(encode_items(items), i, acc) == Ok::<Seq<Val>, CodecError>(
            acc + items.subrange(i, items.len() as int),
        ),
    decreases items, items.len() - i,
{
    lemma_encode_items_index(items);
    if i == items.len() {
        assert(acc + items.subrange(i, items.len() as int) =~= acc);
    } else {
        lemma_round_trip(items[i]);
        lemma_decode_items_round_trip(items, i + 1, acc.push(items[i]));
        assert(acc.push(items[i]) + items.subrange(i + 1, items.len() as int) =~= acc
            + items.subrange(i, items.len() as int));
    }
}

proof fn lemma_decode_fields_round_trip(
    fs: Seq<(Seq<char>, Val)>,
    i: int,
    acc: Seq<(Seq<char>, Val)>,
)
    requires
        0 <= i <= fs.len(),
        forall|j: int| 0 <= j < fs.len() ==> wf_val(#[trigger] fs[j].1),
    ensures
        decode_fields(encode_fields(fs), i, acc) == Ok::<Seq<(Seq<char>, Val)>, CodecError>(
            acc + fs.subrange(i, fs.len() as int),
        ),
    decreases fs, fs.len() - i,
{
    lemma_encode_fields_index(fs);
    if i == fs.len() {
        assert(acc + fs.subrange(i, fs.len() as int) =~= acc);
    } else {
        assert(decreases_to!(fs => fs[i]));
        lemma_round_trip(fs[i].1);
        lemma_decode_fields_round_trip(fs, i + 1, acc.push(fs[i]));
        assert(acc.push(fs[i]) + fs.subrange(i + 1, fs.len() as int) =~= acc + fs.subrange(
            i,
            fs.len() as int,
        ));
    }
}

/// Decoding the wire form of a typed value that decoding can give yields the
/// value again.
pub proof fn lemma_round_trip(v: Val)
    requires
        wf_val(v),
    ensures
        decode_spec(encode_spec(v)) == Ok::<Val, CodecError>(v),
    decreases v, 0int,
{
    match v {
        Val::Uri(u) => {
            assert(payload(sigil('r') + u) =~= u);
        },
        Val::Uuid(u) => {
            assert(payload(sigil('u') + u) =~= u);
        },
        Val::Decimal(t) => {
            assert(payload(sigil('f') + t) =~= t);
        },
        Val::Bytes(b) => {
            assert(payload(sigil('b') + base64_text(b)) =~= base64_text(b));
        },
        Val::Date(d) => {
            let t = sigil('t') + d.text()->Some_0;
            assert(payload(t) =~= d.text()->Some_0);
            assert(!contains_char(t, 'T')) by {
                assert forall|j: int| 0 <= j < t.len() implies t[j] != 'T' by {
                    if j >= 2 {
                        assert(t[j] == d.text()->Some_0[j - 2]);
                    }
                }
            }
        },
        Val::DateTime(d) => {
            let t = sigil('t') + d.text()->Some_0;
            assert(payload(t) =~= d.text()->Some_0);
            let j = choose|j: int| 0 <= j < d.text()->Some_0.len() && d.text()->Some_0[j] == 'T';
            assert(t[j + 2] == 'T');
            assert(DateTimeWrapper::from_fields(d.fields()) == d);
        },
        Val::Ni(n, i) => {
            let t = sigil(':') + n + seq![':'] + i;
            let p = n + seq![':'] + i;
            assert(payload(t) =~= p);
            lemma_last_colon(n, i);
            assert(p.subrange(0, n.len() as int) =~= n);
            assert(p.subrange(n.len() as int + 1, p.len() as int) =~= i);
        },
        Val::Array(items) => {
            lemma_wf_items_index(items);
            lemma_decode_items_round_trip(items, 0, Seq::empty());
            assert(Seq::<Val>::empty() + items.subrange(0, items.len() as int) =~= items);
        },
        Val::Object(fs) => {
            lemma_wf_fields_index(fs);
            lemma_decode_fields_round_trip(fs, 0, Seq::empty());
            assert(Seq::<(Seq<char>, Val)>::empty() + fs.subrange(0, fs.len() as int) =~= fs);
        },
        _ => {},
    }
}

/// Bytes, URIs and UUIDs are written behind their own sigils, and a `~t`
/// string that holds a `T` is read as an instant, never as a date.
pub proof fn lemma_sigil_order(b: Seq<u8>, u: Seq<char>, s: Seq<char>)
    ensures
        encode_spec(Val::Bytes(b)) matches Val::Str(t) && has_sigil(t, 'b'),
        encode_spec(Val::Uri(u)) matches Val::Str(t) && has_sigil(t, 'r'),
        encode_spec(Val::Uuid(u)) matches Val::Str(t) && has_sigil(t, 'u'),
        has_sigil(s, 't') && contains_char(s, 'T') ==> (decode_text_spec(s) matches Ok(x) ==> x is DateTime),
        has_sigil(s, 't') && contains_char(s, 'T') ==> (decode_text_spec(s) matches Err(e) ==> e
            == CodecError::InvalidDateTime),
{
}

} // verus!
