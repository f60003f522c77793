use vstd::prelude::*;
use vstd::string::*;

use crate::semantics::{
    apply_each, apply_value, call, case_map, concat_strings, create_spec, eval, eval_args,
    exec_stmt, excluded, fold_case, fold_strings, glob_match, initial_state, invokes_rule,
    lookup_var, lower_of, map_each, merge_fields, navigate, objects_of, output_spec, path_keys,
    path_ref, patterns_of, run, run_from, strings_of, unwrap_single, upper_of, DtlError, Env,
    State,
};
use crate::text::{chars_of, lemma_split_on_nonempty, same_text, split_on, split_text};
use crate::value::{
    copy_fields, copy_value, key_index, lemma_key_index, lemma_view_fields, lemma_view_values,
    lemma_view_values_push, obj_get, obj_set, set_field, view_fields, view_values, EntityValue,
    Val,
};

verus! {

/// Relies on `str::to_lowercase`: the result depends on the characters alone.
#[verifier::external_body]
fn to_lower(s: &str) -> (r: String)
    ensures
        r@ == lower_of(s@),
{
    s.to_lowercase()
}

/// Relies on `str::to_uppercase`: the result depends on the characters alone.
#[verifier::external_body]
fn to_upper(s: &str) -> (r: String)
    ensures
        r@ == upper_of(s@),
{
    s.to_uppercase()
}

pub uninterp spec fn number_of(n: i32) -> serde_json::Number;

/// Relies on serde_json's `From<i32>` for `Number`: the number depends on `n`
/// alone.
#[verifier::external_body]
fn number_from(n: i32) -> (r: serde_json::Number)
    ensures
        r == number_of(n),
{
    serde_json::Number::from(n)
}

/// The document one rule invocation is building: the target object, the
/// documents created on the side, and whether the target is filtered out.
#[derive(Debug)]
pub struct Target {
    target: Vec<(String, EntityValue)>,
    filtered: bool,
    created_targets: Vec<EntityValue>,
}

impl View for Target {
    type V = State;

    closed spec fn view(&self) -> State {
        State {
            target: view_fields(self.target@),
            created: view_values(self.created_targets@),
            filtered: self.filtered,
        }
    }
}

impl Target {
    pub fn new() -> (r: Target)
        ensures
            r@ == (State { target: Seq::empty(), created: Seq::empty(), filtered: false }),
    {
        let r = Target { target: Vec::new(), filtered: false, created_targets: Vec::new() };
        assert(view_fields(r.target@) =~= Seq::empty());
        assert(view_values(r.created_targets@) =~= Seq::empty());
        r
    }

    /// Sets the target's field `property_name` to `value`.
    pub fn add(&mut self, property_name: &str, value: EntityValue)
        ensures
            final(self)@ == (State {
                target: obj_set(old(self)@.target, property_name@, value@),
                ..old(self)@
            }),
    {
        set_field(&mut self.target, property_name.to_owned(), value);
    }

    /// The documents so far: the created ones, then the target unless it is
    /// filtered.
    pub fn output(&self) -> (r: Vec<EntityValue>)
        ensures
            view_values(r@) == output_spec(self@),
    {
        let mut out: Vec<EntityValue> = Vec::new();
        let mut i: usize = 0;
        assert(view_values(out@) =~= Seq::empty());
        while i < self.created_targets.len()
            invariant
                i <= self.created_targets@.len(),
                view_values(out@) == view_values(self.created_targets@.subrange(0, i as int)),
            decreases self.created_targets@.len() - i,
        {
            let x = copy_value(&self.created_targets[i]);
            proof {
                lemma_view_values_push(out@, x);
                assert(self.created_targets@.subrange(0, i + 1).drop_last()
                    =~= self.created_targets@.subrange(0, i as int));
            }
            out.push(x);
            i = i + 1;
        }
        assert(self.created_targets@.subrange(0, i as int) =~= self.created_targets@);
        if !self.filtered {
            let t = EntityValue::Object(copy_fields(&self.target));
            proof {
                lemma_view_values_push(out@, t);
            }
            out.push(t);
        }
        out
    }

    /// Leaves the target out of the output.
    pub fn filter(&mut self)
        ensures
            final(self)@ == (State { filtered: true, ..old(self)@ }),
    {
        self.filtered = true;
    }

    /// Adds `value` to the created documents: an object itself, the objects
    /// of an array, nothing else.
    pub fn create(&mut self, value: EntityValue)
        ensures
            final(self)@ == (State { created: create_spec(old(self)@.created, value@), ..old(self)@ }),
    {
        let ghost c0 = view_values(self.created_targets@);
        match value {
            EntityValue::Array(arr) => {
                let ghost x = view_values(arr@);
                let mut i: usize = 0;
                proof {
                    lemma_view_values(arr@);
                    assert(objects_of(x.subrange(0, 0)) =~= Seq::empty());
                    assert(c0 + objects_of(x.subrange(0, 0)) =~= c0);
                }
                while i < arr.len()
                    invariant
                        i <= arr@.len(),
                        x == view_values(arr@),
                        x.len() == arr@.len(),
                        view_values(self.created_targets@) == c0 + objects_of(
                            x.subrange(0, i as int),
                        ),
                        self.target == old(self).target,
                        self.filtered == old(self).filtered,
                        c0 == view_values(old(self).created_targets@),
                    decreases arr@.len() - i,
                {
                    proof {
                        lemma_view_values(arr@);
                        assert(x.subrange(0, i + 1).drop_last() =~= x.subrange(0, i as int));
                        assert(x.subrange(0, i + 1).last() == arr@[i as int]@);
                    }
                    match &arr[i] {
                        EntityValue::Object(_) => {
                            let y = copy_value(&arr[i]);
                            proof {
                                lemma_view_values_push(self.created_targets@, y);
                                assert(c0 + objects_of(x.subrange(0, i as int)).push(y@) =~= (c0
                                    + objects_of(x.subrange(0, i as int))).push(y@));
                            }
                            self.created_targets.push(y);
                        },
                        _ => {},
                    }
                    i = i + 1;
                }
                assert(x.subrange(0, i as int) =~= x);
            },
            EntityValue::Object(_) => {
                proof {
                    lemma_view_values_push(self.created_targets@, value);
                }
                self.created_targets.push(value);
            },
            _ => {},
        }
    }
}

/// `concat` on an evaluated argument: a string stays, the strings of an array
/// are joined, anything else gives the empty string.
pub open spec fn concat_spec(v: Val) -> Val {
    match v {
        Val::Str(s) => Val::Str(s),
        Val::Array(items) => Val::Str(concat_strings(items)),
        _ => Val::Str(Seq::empty()),
    }
}

/// `path` with an evaluated key argument: one string key, or the string keys
/// of an array in order.
pub open spec fn path_spec(arg: Val, v: Val) -> Val {
    match arg {
        Val::Str(s) => navigate(v, seq![s]),
        Val::Array(items) => navigate(v, strings_of(items)),
        _ => Val::Null,
    }
}

pub open spec fn texts(v: Seq<String>) -> Seq<Seq<char>> {
    v.map_values(|s: String| s@)
}

fn fold_text(s: &str, upper: bool) -> (r: String)
    ensures
        r@ == fold_case(s@, upper),
{
    if upper {
        to_upper(s)
    } else {
        to_lower(s)
    }
}

fn case_map_value(v: &EntityValue, upper: bool) -> (r: EntityValue)
    ensures
        r@ == case_map(v@, upper),
{
    match v {
        EntityValue::String(s) => EntityValue::String(fold_text(s.as_str(), upper)),
        EntityValue::Array(items) => {
            let ghost x = view_values(items@);
            let mut out: Vec<EntityValue> = Vec::new();
            let mut i: usize = 0;
            proof {
                lemma_view_values(items@);
                assert(view_values(out@) =~= Seq::empty());
                assert(fold_strings(x.subrange(0, 0), upper) =~= Seq::empty());
            }
            while i < items.len()
                invariant
                    i <= items@.len(),
                    x == view_values(items@),
                    x.len() == items@.len(),
                    view_values(out@) == fold_strings(x.subrange(0, i as int), upper),
                decreases items@.len() - i,
            {
                proof {
                    lemma_view_values(items@);
                    assert(x.subrange(0, i + 1).drop_last() =~= x.subrange(0, i as int));
                    assert(x.subrange(0, i + 1).last() == items@[i as int]@);
                }
                match &items[i] {
                    EntityValue::String(t) => {
                        let y = EntityValue::String(fold_text(t.as_str(), upper));
                        proof {
                            lemma_view_values_push(out@, y);
                        }
                        out.push(y);
                    },
                    _ => {},
                }
                i = i + 1;
            }
            assert(x.subrange(0, i as int) =~= x);
            EntityValue::Array(out)
        },
        _ => EntityValue::Null,
    }
}

/// Lower-cases a string, or the strings of an array (other elements are
/// dropped); anything else gives `Null`.
pub fn lower(source: &EntityValue) -> (r: EntityValue)
    ensures
        r@ == case_map(source@, false),
{
    case_map_value(source, false)
}

/// Upper-cases a string, or the strings of an array (other elements are
/// dropped); anything else gives `Null`.
pub fn upper(source: &EntityValue) -> (r: EntityValue)
    ensures
        r@ == case_map(source@, true),
{
    case_map_value(source, true)
}

pub fn list_literal(content: &[EntityValue]) -> (r: EntityValue)
    ensures
        r@ == Val::Array(view_values(content@)),
{
    let mut out: Vec<EntityValue> = Vec::new();
    let mut i: usize = 0;
    assert(view_values(out@) =~= Seq::empty());
    while i < content.len()
        invariant
            i <= content@.len(),
            view_values(out@) == view_values(content@.subrange(0, i as int)),
        decreases content@.len() - i,
    {
        let x = copy_value(&content[i]);
        proof {
            lemma_view_values_push(out@, x);
            assert(content@.subrange(0, i + 1).drop_last() =~= content@.subrange(0, i as int));
        }
        out.push(x);
        i = i + 1;
    }
    assert(content@.subrange(0, i as int) =~= content@);
    EntityValue::Array(out)
}

pub fn null_literal() -> (r: EntityValue)
    ensures
        r@ == Val::Null,
{
    EntityValue::Null
}

pub fn number_literal(n: i32) -> (r: EntityValue)
    ensures
        r@ == Val::Number(number_of(n)),
{
    EntityValue::Number(number_from(n))
}

pub fn string_literal(s: &str) -> (r: EntityValue)
    ensures
        r@ == Val::Str(s@),
{
    EntityValue::String(s.to_owned())
}

/// The strings among `items`, joined in order.
fn join_strings(items: &Vec<EntityValue>) -> (r: String)
    ensures
        r@ == concat_strings(view_values(items@)),
{
    let ghost x = view_values(items@);
    let mut out = String::new();
    let mut i: usize = 0;
    proof {
        lemma_view_values(items@);
        assert(x.subrange(0, 0) =~= Seq::<Val>::empty());
    }
    while i < items.len()
        invariant
            i <= items@.len(),
            x == view_values(items@),
            x.len() == items@.len(),
            out@ == concat_strings(x.subrange(0, i as int)),
        decreases items@.len() - i,
    {
        proof {
            lemma_view_values(items@);
            assert(x.subrange(0, i + 1).drop_last() =~= x.subrange(0, i as int));
            assert(x.subrange(0, i + 1).last() == items@[i as int]@);
        }
        match &items[i] {
            EntityValue::String(t) => out.append(t.as_str()),
            _ => {},
        }
        i = i + 1;
    }
    assert(x.subrange(0, i as int) =~= x);
    out
}

/// Joins the strings of an array, skipping everything else; a string is
/// returned as it is.
pub fn concat(parts: &EntityValue) -> (r: EntityValue)
    ensures
        r@ == concat_spec(parts@),
{
    match parts {
        EntityValue::String(s) => EntityValue::String(s.clone()),
        EntityValue::Array(items) => EntityValue::String(join_strings(items)),
        _ => EntityValue::String(String::new()),
    }
}

/// The strings among `items`, in order.
fn strings_in(items: &Vec<EntityValue>) -> (r: Vec<String>)
    ensures
        texts(r@) == strings_of(view_values(items@)),
{
    let ghost x = view_values(items@);
    let mut out: Vec<String> = Vec::new();
    let mut i: usize = 0;
    proof {
        lemma_view_values(items@);
        assert(texts(out@) =~= Seq::empty());
        assert(strings_of(x.subrange(0, 0)) =~= Seq::empty());
    }
    while i < items.len()
        invariant
            i <= items@.len(),
            x == view_values(items@),
            x.len() == items@.len(),
            texts(out@) == strings_of(x.subrange(0, i as int)),
        decreases items@.len() - i,
    {
        proof {
            lemma_view_values(items@);
            assert(x.subrange(0, i + 1).drop_last() =~= x.subrange(0, i as int));
            assert(x.subrange(0, i + 1).last() == items@[i as int]@);
        }
        match &items[i] {
            EntityValue::String(t) => {
                let ghost before = texts(out@);
                out.push(t.clone());
                assert(texts(out@) =~= before.push(t@));
            },
            _ => {},
        }
        i = i + 1;
    }
    assert(x.subrange(0, i as int) =~= x);
    out
}

/// The position of the field named `k` among `fs`.
fn find_field(fs: &Vec<(String, EntityValue)>, k: &str) -> (r: Option<usize>)
    ensures
        match r {
            Some(j) => j < fs@.len() && obj_get(view_fields(fs@), k@) == Some(fs@[j as int].1@),
            None => obj_get(view_fields(fs@), k@) is None,
        },
{
    let ghost v = view_fields(fs@);
    proof {
        lemma_view_fields(fs@);
        lemma_key_index(v, k@);
    }
    let mut i: usize = fs.len();
    assert(v.subrange(0, i as int) =~= v);
    while i > 0
        invariant
            i <= fs@.len(),
            v == view_fields(fs@),
            v.len() == fs@.len(),
            key_index(v, k@) == key_index(v.subrange(0, i as int), k@),
        decreases i,
    {
        proof {
            lemma_view_fields(fs@);
        }
        assert(v.subrange(0, i as int).drop_last() =~= v.subrange(0, i - 1));
        assert(v.subrange(0, i as int).last() == v[i - 1]);
        assert(v[i - 1].0 == fs@[i - 1].0@);
        if same_text(fs[i - 1].0.as_str(), k) {
            assert(key_index(v, k@) == Some(i - 1));
            proof {
                lemma_key_index(v, k@);
            }
            return Some(i - 1);
        }
        i = i - 1;
    }
    assert(v.subrange(0, 0) =~= Seq::<(Seq<char>, Val)>::empty());
    None
}

/// Follows `keys[start..end]` from `v` through nested objects.
fn navigate_keys(v: &EntityValue, keys: &Vec<String>, start: usize, end: usize) -> (r: EntityValue)
    requires
        start <= end <= keys@.len(),
    ensures
        r@ == navigate(v@, texts(keys@).subrange(start as int, end as int)),
{
    let ghost ks = texts(keys@);
    let mut cur: &EntityValue = v;
    let mut i: usize = start;
    while i < end
        invariant
            start <= i <= end,
            end <= keys@.len(),
            ks == texts(keys@),
            navigate(v@, ks.subrange(start as int, end as int)) == navigate(
                cur@,
                ks.subrange(i as int, end as int),
            ),
        decreases end - i,
    {
        let ghost rest = ks.subrange(i as int, end as int);
        assert(rest[0] == keys@[i as int]@);
        assert(rest.drop_first() =~= ks.subrange(i + 1, end as int));
        match cur {
            EntityValue::Object(fs) => match find_field(fs, keys[i].as_str()) {
                Some(j) => {
                    cur = &fs[j].1;
                },
                None => {
                    return EntityValue::Null;
                },
            },
            _ => {
                return EntityValue::Null;
            },
        }
        i = i + 1;
    }
    assert(ks.subrange(i as int, end as int) =~= Seq::<Seq<char>>::empty());
    copy_value(cur)
}

/// Follows `arg` (one key, or the string keys of an array) from `value`
/// through nested objects; a missing key or a non-object on the way gives
/// `Null`.
pub fn path(arg: &EntityValue, value: &EntityValue) -> (r: EntityValue)
    ensures
        r@ == path_spec(arg@, value@),
{
    match arg {
        EntityValue::String(s) => {
            let mut keys: Vec<String> = Vec::new();
            keys.push(s.clone());
            assert(texts(keys@).subrange(0, 1) =~= seq![s@]);
            navigate_keys(value, &keys, 0, 1)
        },
        EntityValue::Array(items) => {
            let keys = strings_in(items);
            assert(texts(keys@).subrange(0, keys@.len() as int) =~= texts(keys@));
            navigate_keys(value, &keys, 0, keys.len())
        },
        _ => EntityValue::Null,
    }
}

/// The variables that a path reference can name: `_S`, `_T` and `_`.
pub struct Scope<'a> {
    pub source: Option<&'a EntityValue>,
    pub target: Option<&'a EntityValue>,
    pub item: Option<&'a EntityValue>,
}

pub open spec fn opt_val(o: Option<&EntityValue>) -> Option<Val> {
    match o {
        Some(x) => Some(x@),
        None => None,
    }
}

impl<'a> Scope<'a> {
    pub open spec fn env(&self) -> Env {
        Env {
            source: opt_val(self.source),
            target: opt_val(self.target),
            item: opt_val(self.item),
        }
    }
}

fn lookup_scope<'a>(scope: &Scope<'a>, name: &str) -> (r: Option<&'a EntityValue>)
    ensures
        opt_val(r) == lookup_var(scope.env(), name@),
{
    if same_text(name, "_S") {
        scope.source
    } else if same_text(name, "_T") {
        scope.target
    } else if same_text(name, "_") {
        scope.item
    } else {
        None
    }
}

/// A string expression: a path from a bound variable, or else the string.
fn path_value(s: &str, scope: &Scope) -> (r: EntityValue)
    ensures
        r@ == path_ref(s@, scope.env()),
{
    let segs = split_text(s, '.');
    proof {
        lemma_split_on_nonempty(s@, '.');
    }
    let ghost sv = texts(segs@);
    assert(sv == split_on(s@, '.'));
    assert(sv[0] == segs@[0]@);
    match lookup_scope(scope, segs[0].as_str()) {
        Some(v) => {
            let n = segs.len();
            let end = if n > 1 && segs[n - 1].as_str().unicode_len() == 0 {
                n - 1
            } else {
                n
            };
            assert(path_keys(sv) =~= sv.subrange(1, end as int));
            navigate_keys(v, &segs, 1, end)
        },
        None => EntityValue::String(s.to_owned()),
    }
}

/// Whether glob `p[i..]` matches all of `k[j..]`.
pub open spec fn glob_suffix(p: Seq<char>, k: Seq<char>, i: int, j: int) -> bool {
    glob_match(p.subrange(i, p.len() as int), k.subrange(j, k.len() as int))
}

proof fn lemma_glob_step(p: Seq<char>, k: Seq<char>, i: int, j: int)
    requires
        0 <= i <= p.len(),
        0 <= j <= k.len(),
    ensures
        glob_suffix(p, k, i, j) == if i == p.len() {
            j == k.len()
        } else if p[i] == '*' {
            glob_suffix(p, k, i + 1, j) || (j < k.len() && glob_suffix(p, k, i, j + 1))
        } else {
            j < k.len() && k[j] == p[i] && glob_suffix(p, k, i + 1, j + 1)
        },
{
    let ps = p.subrange(i, p.len() as int);
    let ks = k.subrange(j, k.len() as int);
    if i < p.len() {
        assert(ps[0] == p[i]);
        assert(ps.drop_first() =~= p.subrange(i + 1, p.len() as int));
    }
    if j < k.len() {
        assert(ks[0] == k[j]);
        assert(ks.drop_first() =~= k.subrange(j + 1, k.len() as int));
    }
}

/// Whether glob `p` matches all of `k`, row by row over the suffixes of `p`.
fn glob_chars(p: &Vec<char>, k: &Vec<char>) -> (r: bool)
    ensures
        r == glob_match(p@, k@),
{
    let ghost ps = p@;
    let ghost ks = k@;
    let n = p.len();
    let m = k.len();
    // `next[j]` is whether `p[i..]` matches `k[j..]`, `next_end` the same for
    // the empty rest of `k`.
    let mut next: Vec<bool> = Vec::new();
    let mut j: usize = 0;
    while j < m
        invariant
            j <= m,
            m == ks.len(),
            n == ps.len(),
            next@.len() == j,
            forall|t: int| 0 <= t < j ==> next@[t] == glob_suffix(ps, ks, n as int, t),
        decreases m - j,
    {
        proof {
            lemma_glob_step(ps, ks, n as int, j as int);
        }
        next.push(false);
        j = j + 1;
    }
    let mut next_end = true;
    proof {
        lemma_glob_step(ps, ks, n as int, m as int);
    }
    let mut i: usize = n;
    while i > 0
        invariant
            i <= n,
            m == ks.len(),
            n == ps.len(),
            ps == p@,
            ks == k@,
            next@.len() == m,
            forall|t: int| 0 <= t < m ==> next@[t] == glob_suffix(ps, ks, i as int, t),
            next_end == glob_suffix(ps, ks, i as int, m as int),
        decreases i,
    {
        let pi = i - 1;
        let star = p[pi] == '*';
        proof {
            lemma_glob_step(ps, ks, pi as int, m as int);
        }
        let cur_end = star && next_end;
        let mut cur: Vec<bool> = Vec::new();
        let mut t: usize = 0;
        while t < m
            invariant
                t <= m,
                cur@.len() == t,
            decreases m - t,
        {
            cur.push(false);
            t = t + 1;
        }
        let mut jj: usize = m;
        while jj > 0
            invariant
                jj <= m,
                pi < n,
                m == ks.len(),
                n == ps.len(),
                ps == p@,
                ks == k@,
                star == (ps[pi as int] == '*'),
                next@.len() == m,
                cur@.len() == m,
                forall|t: int| 0 <= t < m ==> next@[t] == glob_suffix(ps, ks, pi + 1, t),
                next_end == glob_suffix(ps, ks, pi + 1, m as int),
                cur_end == glob_suffix(ps, ks, pi as int, m as int),
                forall|t: int| jj <= t < m ==> cur@[t] == glob_suffix(ps, ks, pi as int, t),
            decreases jj,
        {
            let c = jj - 1;
            proof {
                lemma_glob_step(ps, ks, pi as int, c as int);
            }
            let after = if c + 1 < m {
                cur[c + 1]
            } else {
                cur_end
            };
            let after_next = if c + 1 < m {
                next[c + 1]
            } else {
                next_end
            };
            let v = if star {
                next[c] || after
            } else {
                k[c] == p[pi] && after_next
            };
            cur.set(c, v);
            jj = c;
        }
        next = cur;
        next_end = cur_end;
        i = pi;
    }
    assert(ps.subrange(0, n as int) =~= ps);
    assert(ks.subrange(0, m as int) =~= ks);
    if m == 0 {
        next_end
    } else {
        next[0]
    }
}

/// Whether glob `p` matches all of `k`.
pub fn glob_matches(p: &str, k: &str) -> (r: bool)
    ensures
        r == glob_match(p@, k@),
{
    let pc = chars_of(p);
    let kc = chars_of(k);
    glob_chars(&pc, &kc)
}

/// Whether any of `pats` matches all of `k`.
fn excluded_by(pats: &Vec<String>, k: &str) -> (r: bool)
    ensures
        r == excluded(texts(pats@), k@),
{
    let ghost ts = texts(pats@);
    let mut i: usize = 0;
    while i < pats.len()
        invariant
            i <= pats@.len(),
            ts == texts(pats@),
            ts.len() == pats@.len(),
            forall|m: int| 0 <= m < i ==> !glob_match(ts[m], k@),
        decreases pats@.len() - i,
    {
        assert(ts[i as int] == pats@[i as int]@);
        if glob_matches(pats[i].as_str(), k) {
            return true;
        }
        i = i + 1;
    }
    false
}

/// The exclude patterns that an evaluated exclude argument names.
fn patterns_in(v: &EntityValue) -> (r: Vec<String>)
    ensures
        texts(r@) == patterns_of(v@),
{
    match v {
        EntityValue::String(s) => {
            let mut r: Vec<String> = Vec::new();
            r.push(s.clone());
            assert(texts(r@) =~= seq![s@]);
            r
        },
        EntityValue::Array(items) => strings_in(items),
        _ => {
            let r: Vec<String> = Vec::new();
            assert(texts(r@) =~= Seq::empty());
            r
        },
    }
}

impl Target {
    /// Merges the fields of `src` whose name `wanted` matches and no pattern of
    /// `pats` does into the target.
    fn copy_from(&mut self, src: &Vec<(String, EntityValue)>, wanted: &str, pats: &Vec<String>)
        ensures
            final(self)@ == (State {
                target: merge_fields(old(self)@.target, view_fields(src@), wanted@, texts(pats@)),
                ..old(self)@
            }),
    {
        let ghost t0 = view_fields(self.target@);
        let ghost sv = view_fields(src@);
        let mut i: usize = 0;
        proof {
            lemma_view_fields(src@);
            assert(sv.subrange(0, 0) =~= Seq::<(Seq<char>, Val)>::empty());
        }
        while i < src.len()
            invariant
                i <= src@.len(),
                sv == view_fields(src@),
                sv.len() == src@.len(),
                t0 == view_fields(old(self).target@),
                view_fields(self.target@) == merge_fields(
                    t0,
                    sv.subrange(0, i as int),
                    wanted@,
                    texts(pats@),
                ),
                self.filtered == old(self).filtered,
                self.created_targets == old(self).created_targets,
            decreases src@.len() - i,
        {
            proof {
                lemma_view_fields(src@);
                assert(sv.subrange(0, i + 1).drop_last() =~= sv.subrange(0, i as int));
                assert(sv.subrange(0, i + 1).last() == (src@[i as int].0@, src@[i as int].1@));
            }
            let key = src[i].0.as_str();
            if glob_matches(wanted, key) && !excluded_by(pats, key) {
                set_field(&mut self.target, src[i].0.clone(), copy_value(&src[i].1));
            }
            i = i + 1;
        }
        assert(sv.subrange(0, i as int) =~= sv);
    }
}

pub open spec fn dres(r: Result<EntityValue, DtlError>) -> Result<Val, DtlError> {
    match r {
        Ok(v) => Ok(v@),
        Err(e) => Err(e),
    }
}

pub open spec fn docs_res(r: Result<Vec<EntityValue>, DtlError>) -> Result<Seq<Val>, DtlError> {
    match r {
        Ok(d) => Ok(view_values(d@)),
        Err(e) => Err(e),
    }
}

fn unwrap_docs(docs: Vec<EntityValue>) -> (r: EntityValue)
    ensures
        r@ == unwrap_single(view_values(docs@)),
{
    proof {
        lemma_view_values(docs@);
    }
    if docs.len() == 1 {
        copy_value(&docs[0])
    } else {
        EntityValue::Array(docs)
    }
}

fn invokes(v: &EntityValue) -> (r: bool)
    ensures
        r == invokes_rule(v@),
{
    proof {
        match v {
            EntityValue::Array(a) => lemma_view_values(a@),
            _ => {},
        }
    }
    match v {
        EntityValue::Object(_) => true,
        EntityValue::Array(a) => a.len() > 0,
        _ => false,
    }
}

/// Evaluates an expression.
fn eval_expr(e: &EntityValue, scope: &Scope, reg: &Vec<(String, EntityValue)>, depth: usize) -> (r:
    Result<EntityValue, DtlError>)
    ensures
        dres(r) == eval(e@, scope.env(), view_fields(reg@), depth as nat),
    decreases depth, 0int, *e, 2int,
{
    match e {
        EntityValue::String(s) => Ok(path_value(s.as_str(), scope)),
        EntityValue::Array(_) => call_fn(e, scope, reg, depth),
        _ => Ok(copy_value(e)),
    }
}

/// Evaluates a function call `[name, args...]`.
fn call_fn(e: &EntityValue, scope: &Scope, reg: &Vec<(String, EntityValue)>, depth: usize) -> (r:
    Result<EntityValue, DtlError>)
    requires
        e is Array,
    ensures
        dres(r) == call(e@->Array_0, scope.env(), view_fields(reg@), depth as nat),
    decreases depth, 0int, *e, 1int,
{
    let ghost env = scope.env();
    let ghost rv = view_fields(reg@);
    let items = match e {
        EntityValue::Array(items) => items,
        _ => {
            return Err(DtlError::MalformedRule);
        },
    };
    let ghost x = view_values(items@);
    proof {
        lemma_view_values(items@);
    }
    if items.len() == 0 {
        return Err(DtlError::MalformedRule);
    }
    let f = match &items[0] {
        EntityValue::String(f) => f.as_str(),
        _ => {
            return Err(DtlError::MalformedRule);
        },
    };
    assert(x[0] == Val::Str(f@));
    if same_text(f, "concat") || same_text(f, "list") {
        let mut out: Vec<EntityValue> = Vec::new();
        let mut k: usize = 1;
        assert(view_values(out@) =~= Seq::empty());
        #[verifier::loop_isolation(false)]
        while k < items.len()
            invariant
                1 <= k <= items@.len(),
                eval_args(x, 1, Seq::empty(), env, rv, depth as nat) == eval_args(
                    x,
                    k as int,
                    view_values(out@),
                    env,
                    rv,
                    depth as nat,
                ),
            decreases items@.len() - k,
        {
            proof {
                assert(decreases_to!(*items => items[k as int]));
                assert(x[k as int] == items@[k as int]@);
            }
            match eval_expr(&items[k], scope, reg, depth) {
                Ok(v) => {
                    proof {
                        lemma_view_values_push(out@, v);
                    }
                    out.push(v);
                },
                Err(err) => {
                    return Err(err);
                },
            }
            k = k + 1;
        }
        if same_text(f, "concat") {
            Ok(EntityValue::String(join_strings(&out)))
        } else {
            Ok(EntityValue::Array(out))
        }
    } else if same_text(f, "lower") || same_text(f, "upper") {
        if items.len() < 2 {
            return Err(DtlError::MalformedRule);
        }
        proof {
            assert(decreases_to!(*items => items[1]));
            assert(x[1] == items@[1]@);
        }
        match eval_expr(&items[1], scope, reg, depth) {
            Ok(v) => Ok(case_map_value(&v, same_text(f, "upper"))),
            Err(err) => Err(err),
        }
    } else if same_text(f, "map") {
        if items.len() < 3 {
            return Err(DtlError::MalformedRule);
        }
        proof {
            assert(decreases_to!(*items => items[1]));
            assert(decreases_to!(*items => items[2]));
            assert(x[1] == items@[1]@);
            assert(x[2] == items@[2]@);
        }
        match &items[1] {
            EntityValue::Array(_) => {},
            _ => {
                return Err(DtlError::MalformedRule);
            },
        }
        let lst = match eval_expr(&items[2], scope, reg, depth) {
            Ok(v) => v,
            Err(err) => {
                return Err(err);
            },
        };
        match &lst {
            EntityValue::Array(elts) => {
                let ghost ev = view_values(elts@);
                proof {
                    lemma_view_values(elts@);
                }
                let mut out: Vec<EntityValue> = Vec::new();
                let mut m: usize = 0;
                assert(view_values(out@) =~= Seq::empty());
                #[verifier::loop_isolation(false)]
                while m < elts.len()
                    invariant
                        m <= elts@.len(),
                        map_each(x[1], ev, 0, Seq::empty(), rv, depth as nat) == map_each(
                            x[1],
                            ev,
                            m as int,
                            view_values(out@),
                            rv,
                            depth as nat,
                        ),
                    decreases elts@.len() - m,
                {
                    let sc = Scope { source: None, target: None, item: Some(&elts[m]) };
                    assert(ev[m as int] == elts@[m as int]@);
                    match eval_expr(&items[1], &sc, reg, depth) {
                        Ok(v) => {
                            proof {
                                lemma_view_values_push(out@, v);
                            }
                            out.push(v);
                        },
                        Err(err) => {
                            return Err(err);
                        },
                    }
                    m = m + 1;
                }
                Ok(EntityValue::Array(out))
            },
            _ => Ok(EntityValue::Array(Vec::new())),
        }
    } else if same_text(f, "apply") {
        if items.len() < 3 {
            return Err(DtlError::MalformedRule);
        }
        proof {
            assert(decreases_to!(*items => items[2]));
            assert(x[1] == items@[1]@);
            assert(x[2] == items@[2]@);
        }
        let name = match &items[1] {
            EntityValue::String(name) => name.as_str(),
            _ => {
                return Err(DtlError::MalformedRule);
            },
        };
        let j = match find_field(reg, name) {
            Some(j) => j,
            None => {
                return Err(DtlError::MalformedRule);
            },
        };
        let rule = &reg[j].1;
        let v = match eval_expr(&items[2], scope, reg, depth) {
            Ok(v) => v,
            Err(err) => {
                return Err(err);
            },
        };
        if depth == 0 {
            if invokes(&v) {
                Err(DtlError::RecursionLimitExceeded)
            } else {
                Ok(EntityValue::Array(Vec::new()))
            }
        } else {
            apply_value_exec(rule, &v, reg, depth - 1)
        }
    } else {
        Err(DtlError::MalformedRule)
    }
}

/// `apply` of `rule` to an evaluated argument.
fn apply_value_exec(
    rule: &EntityValue,
    v: &EntityValue,
    reg: &Vec<(String, EntityValue)>,
    depth: usize,
) -> (r: Result<EntityValue, DtlError>)
    ensures
        dres(r) == apply_value(rule@, v@, view_fields(reg@), depth as nat),
    decreases depth, 3int, *rule, 0int,
{
    let ghost rv = view_fields(reg@);
    match v {
        EntityValue::Object(_) => match run_rule(v, rule, reg, depth) {
            Ok(docs) => Ok(unwrap_docs(docs)),
            Err(err) => Err(err),
        },
        EntityValue::Array(elts) => {
            let ghost ev = view_values(elts@);
            proof {
                lemma_view_values(elts@);
            }
            let mut out: Vec<EntityValue> = Vec::new();
            let mut m: usize = 0;
            assert(view_values(out@) =~= Seq::empty());
            #[verifier::loop_isolation(false)]
            while m < elts.len()
                invariant
                    m <= elts@.len(),
                    apply_each(rule@, ev, 0, Seq::empty(), rv, depth as nat) == apply_each(
                        rule@,
                        ev,
                        m as int,
                        view_values(out@),
                        rv,
                        depth as nat,
                    ),
                decreases elts@.len() - m,
            {
                assert(ev[m as int] == elts@[m as int]@);
                match run_rule(&elts[m], rule, reg, depth) {
                    Ok(docs) => {
                        let y = unwrap_docs(docs);
                        proof {
                            lemma_view_values_push(out@, y);
                        }
                        out.push(y);
                    },
                    Err(err) => {
                        return Err(err);
                    },
                }
                m = m + 1;
            }
            Ok(EntityValue::Array(out))
        },
        _ => Ok(EntityValue::Array(Vec::new())),
    }
}

/// Runs the statement list `rule` on `source`.
fn run_rule(
    source: &EntityValue,
    rule: &EntityValue,
    reg: &Vec<(String, EntityValue)>,
    depth: usize,
) -> (r: Result<Vec<EntityValue>, DtlError>)
    ensures
        docs_res(r) == run(source@, rule@, view_fields(reg@), depth as nat),
    decreases depth, 1int, *rule, 0int,
{
    let ghost rv = view_fields(reg@);
    match rule {
        EntityValue::Array(stmts) => {
            let ghost sv = view_values(stmts@);
            proof {
                lemma_view_values(stmts@);
            }
            let mut t = Target::new();
            let mut m: usize = 0;
            #[verifier::loop_isolation(false)]
            while m < stmts.len()
                invariant
                    m <= stmts@.len(),
                    run_from(sv, 0, source@, initial_state(), rv, depth as nat) == run_from(
                        sv,
                        m as int,
                        source@,
                        t@,
                        rv,
                        depth as nat,
                    ),
                decreases stmts@.len() - m,
            {
                proof {
                    assert(decreases_to!(*stmts => stmts[m as int]));
                    assert(sv[m as int] == stmts@[m as int]@);
                }
                match exec_statement(&stmts[m], source, &mut t, reg, depth) {
                    Ok(()) => {},
                    Err(err) => {
                        return Err(err);
                    },
                }
                m = m + 1;
            }
            Ok(t.output())
        },
        _ => Err(DtlError::MalformedRule),
    }
}

/// Executes one statement `[op, args...]` on the invocation's target.
fn exec_statement(
    stmt: &EntityValue,
    source: &EntityValue,
    t: &mut Target,
    reg: &Vec<(String, EntityValue)>,
    depth: usize,
) -> (r: Result<(), DtlError>)
    ensures
        match r {
            Ok(_) => exec_stmt(stmt@, source@, old(t)@, view_fields(reg@), depth as nat) == Ok::<
                State,
                DtlError,
            >(final(t)@),
            Err(err) => exec_stmt(stmt@, source@, old(t)@, view_fields(reg@), depth as nat)
                == Err::<State, DtlError>(err),
        },
    decreases depth, 1int, *stmt, 0int,
{
    let items = match stmt {
        EntityValue::Array(items) => items,
        _ => {
            return Err(DtlError::MalformedRule);
        },
    };
    let ghost x = view_values(items@);
    proof {
        lemma_view_values(items@);
    }
    if items.len() == 0 {
        return Err(DtlError::MalformedRule);
    }
    let op = match &items[0] {
        EntityValue::String(op) => op.as_str(),
        _ => {
            return Err(DtlError::MalformedRule);
        },
    };
    assert(x[0] == Val::Str(op@));
    if same_text(op, "add") {
        if items.len() < 3 {
            return Err(DtlError::MalformedRule);
        }
        proof {
            assert(decreases_to!(*items => items[2]));
            assert(x[1] == items@[1]@);
            assert(x[2] == items@[2]@);
        }
        let field = match &items[1] {
            EntityValue::String(field) => field.as_str(),
            _ => {
                return Err(DtlError::MalformedRule);
            },
        };
        let tv = EntityValue::Object(copy_fields(&t.target));
        let sc = Scope { source: Some(source), target: Some(&tv), item: None };
        match eval_expr(&items[2], &sc, reg, depth) {
            Ok(v) => {
                t.add(field, v);
                Ok(())
            },
            Err(err) => Err(err),
        }
    } else if same_text(op, "copy") {
        if items.len() < 2 {
            return Err(DtlError::MalformedRule);
        }
        assert(x[1] == items@[1]@);
        let wanted = match &items[1] {
            EntityValue::String(w) => w.as_str(),
            _ => {
                return Err(DtlError::MalformedRule);
            },
        };
        let pats = if items.len() >= 3 {
            proof {
                assert(decreases_to!(*items => items[2]));
                assert(x[2] == items@[2]@);
            }
            let sc = Scope { source: None, target: None, item: None };
            match eval_expr(&items[2], &sc, reg, depth) {
                Ok(p) => patterns_in(&p),
                Err(err) => {
                    return Err(err);
                },
            }
        } else {
            let r: Vec<String> = Vec::new();
            assert(texts(r@) =~= Seq::empty());
            assert(strings_of(Seq::<Val>::empty()) =~= Seq::empty());
            r
        };
        match source {
            EntityValue::Object(fs) => t.copy_from(fs, wanted, &pats),
            _ => {},
        }
        Ok(())
    } else if same_text(op, "create") {
        if items.len() < 2 {
            return Err(DtlError::MalformedRule);
        }
        proof {
            assert(decreases_to!(*items => items[1]));
            assert(x[1] == items@[1]@);
        }
        let tv = EntityValue::Object(copy_fields(&t.target));
        let sc = Scope { source: Some(source), target: Some(&tv), item: None };
        match eval_expr(&items[1], &sc, reg, depth) {
            Ok(v) => {
                t.create(v);
                Ok(())
            },
            Err(err) => Err(err),
        }
    } else if same_text(op, "filter") {
        t.filter();
        Ok(())
    } else if same_text(op, "comment") {
        Ok(())
    } else {
        Err(DtlError::MalformedRule)
    }
}

/// A registry of named rules (each a statement list) and how deep `apply` may
/// nest rule invocations.
#[derive(Debug)]
pub struct Rules {
    rules: Vec<(String, EntityValue)>,
    max_depth: usize,
}

impl Rules {
    pub closed spec fn registry(&self) -> Seq<(Seq<char>, Val)> {
        view_fields(self.rules@)
    }

    pub closed spec fn depth(&self) -> nat {
        self.max_depth as nat
    }

    /// An empty registry whose `apply` chains may nest `max_depth` deep.
    pub fn new(max_depth: usize) -> (r: Rules)
        ensures
            r.registry() == Seq::<(Seq<char>, Val)>::empty(),
            r.depth() == max_depth,
    {
        let r = Rules { rules: Vec::new(), max_depth };
        assert(view_fields(r.rules@) =~= Seq::empty());
        r
    }

    /// Registers `rule` under `name`, replacing a rule of that name.
    pub fn insert(&mut self, name: &str, rule: EntityValue)
        ensures
            final(self).registry() == obj_set(old(self).registry(), name@, rule@),
            final(self).depth() == old(self).depth(),
    {
        set_field(&mut self.rules, name.to_owned(), rule);
    }
}

/// The documents that the `default` rule makes of `source`.
pub open spec fn transform_spec(source: Val, reg: Seq<(Seq<char>, Val)>, depth: nat) -> Result<
    Seq<Val>,
    DtlError,
> {
    match obj_get(reg, "default"@) {
        Some(rule) => run(source, rule, reg, depth),
        None => Err(DtlError::MalformedRule),
    }
}

/// `apply` of the registered rule `name` to an evaluated argument.
pub open spec fn apply_spec(reg: Seq<(Seq<char>, Val)>, name: Seq<char>, v: Val, depth: nat) -> Result<
    Val,
    DtlError,
> {
    match obj_get(reg, name) {
        Some(rule) => if depth == 0 {
            if invokes_rule(v) {
                Err(DtlError::RecursionLimitExceeded)
            } else {
                Ok(Val::Array(Seq::empty()))
            }
        } else {
            apply_value(rule, v, reg, (depth - 1) as nat)
        },
        None => Err(DtlError::MalformedRule),
    }
}

/// `map` of the function call `f` over an evaluated list argument.
pub open spec fn map_spec(f: Val, v: Val, reg: Seq<(Seq<char>, Val)>, depth: nat) -> Result<
    Val,
    DtlError,
> {
    if !(f is Array) {
        Err(DtlError::MalformedRule)
    } else {
        match v {
            Val::Array(elts) => match map_each(f, elts, 0, Seq::empty(), reg, depth) {
                Ok(rs) => Ok(Val::Array(rs)),
                Err(err) => Err(err),
            },
            _ => Ok(Val::Array(Seq::empty())),
        }
    }
}

/// Runs the registry's `default` rule on `source`: the documents it emits.
pub fn transform(source: &EntityValue, rules: &Rules) -> (r: Result<Vec<EntityValue>, DtlError>)
    ensures
        docs_res(r) == transform_spec(source@, rules.registry(), rules.depth()),
{
    match find_field(&rules.rules, "default") {
        Some(j) => run_rule(source, &rules.rules[j].1, &rules.rules, rules.max_depth),
        None => Err(DtlError::MalformedRule),
    }
}

/// Runs the statement list `rule` on `source` with the registry's rules at
/// hand.
pub fn run_statements(source: &EntityValue, rule: &EntityValue, rules: &Rules) -> (r: Result<
    Vec<EntityValue>,
    DtlError,
>)
    ensures
        docs_res(r) == run(source@, rule@, rules.registry(), rules.depth()),
{
    run_rule(source, rule, &rules.rules, rules.max_depth)
}

/// Runs the registered rule `rule_name` on `items`: on an object once, with a
/// single document unwrapped; on each element of an array; on anything else
/// not at all, giving an empty array.
pub fn apply(rules: &Rules, rule_name: &str, items: &EntityValue) -> (r: Result<
    EntityValue,
    DtlError,
>)
    ensures
        dres(r) == apply_spec(rules.registry(), rule_name@, items@, rules.depth()),
{
    match find_field(&rules.rules, rule_name) {
        Some(j) => {
            if rules.max_depth == 0 {
                if invokes(items) {
                    Err(DtlError::RecursionLimitExceeded)
                } else {
                    Ok(EntityValue::Array(Vec::new()))
                }
            } else {
                apply_value_exec(&rules.rules[j].1, items, &rules.rules, rules.max_depth - 1)
            }
        },
        None => Err(DtlError::MalformedRule),
    }
}

/// Evaluates the function call `function` once for each element of `items`,
/// bound as `_`; anything but an array gives an empty array.
pub fn map(function: &EntityValue, items: &EntityValue, rules: &Rules) -> (r: Result<
    EntityValue,
    DtlError,
>)
    ensures
        dres(r) == map_spec(function@, items@, rules.registry(), rules.depth()),
        r matches Ok(v) ==> (items@ matches Val::Array(l) ==> v@ matches Val::Array(m) && m.len()
            == l.len()),
{
    let ghost rv = view_fields(rules.rules@);
    let ghost depth = rules.max_depth as nat;
    match function {
        EntityValue::Array(_) => {},
        _ => {
            return Err(DtlError::MalformedRule);
        },
    }
    match items {
        EntityValue::Array(elts) => {
            let ghost ev = view_values(elts@);
            proof {
                lemma_view_values(elts@);
            }
            let mut out: Vec<EntityValue> = Vec::new();
            let mut m: usize = 0;
            assert(view_values(out@) =~= Seq::empty());
            while m < elts.len()
                invariant
                    m <= elts@.len(),
                    ev == view_values(elts@),
                    ev.len() == elts@.len(),
                    rv == view_fields(rules.rules@),
                    depth == rules.max_depth as nat,
                    function@ is Array,
                    items@ == Val::Array(ev),
                    map_each(function@, ev, 0, Seq::empty(), rv, depth) == map_each(
                        function@,
                        ev,
                        m as int,
                        view_values(out@),
                        rv,
                        depth,
                    ),
                decreases elts@.len() - m,
            {
                proof {
                    lemma_view_values(elts@);
                }
                let sc = Scope { source: None, target: None, item: Some(&elts[m]) };
                assert(ev[m as int] == elts@[m as int]@);
                match eval_expr(function, &sc, &rules.rules, rules.max_depth) {
                    Ok(v) => {
                        proof {
                            lemma_view_values_push(out@, v);
                        }
                        out.push(v);
                    },
                    Err(err) => {
                        return Err(err);
                    },
                }
                m = m + 1;
            }
            proof {
                lemma_map_length(function@, ev, 0, Seq::empty(), rv, depth);
            }
            Ok(EntityValue::Array(out))
        },
        _ => Ok(EntityValue::Array(Vec::new())),
    }
}

/// `map` gives one result per element: the results that `map_each` appends
/// number as many as the elements it visits.
pub proof fn lemma_map_length(
    f: Val,
    elts: Seq<Val>,
    i: int,
    acc: Seq<Val>,
    reg: Seq<(Seq<char>, Val)>,
    depth: nat,
)
    requires
        0 <= i <= elts.len(),
    ensures
        map_each(f, elts, i, acc, reg, depth) matches Ok(rs) ==> rs.len() == acc.len() + elts.len()
            - i,
    decreases elts.len() - i,
{
    if i < elts.len() {
        match eval(f, crate::semantics::item_env(elts[i]), reg, depth) {
            Ok(v) => lemma_map_length(f, elts, i + 1, acc.push(v), reg, depth),
            Err(_) => {},
        }
    }
}

/// For every list `l`, `map` over `l` that succeeds gives a list of the same
/// length, the empty list included.
pub proof fn lemma_map_preserves_length(f: Val, l: Seq<Val>, reg: Seq<(Seq<char>, Val)>, depth: nat)
    ensures
        map_spec(f, Val::Array(l), reg, depth) matches Ok(v) ==> v matches Val::Array(m) && m.len()
            == l.len(),
        f is Array && l.len() == 0 ==> map_spec(f, Val::Array(l), reg, depth) == Ok::<
            Val,
            DtlError,
        >(Val::Array(Seq::empty())),
{
    lemma_map_length(f, l, 0, Seq::empty(), reg, depth);
}

/// The statement `["add", field, e]`.
pub open spec fn add_stmt(field: Seq<char>, e: Val) -> Val {
    Val::Array(seq![Val::Str("add"@), Val::Str(field), e])
}

/// Of two `add`s to one field the later wins: on any source, the rule
/// `[["add", "a", x], ["add", "a", y]]` with numbers `x` and `y` emits the
/// single document `{"a": y}`.
pub proof fn lemma_last_write_wins(
    source: Val,
    reg: Seq<(Seq<char>, Val)>,
    depth: nat,
    x: serde_json::Number,
    y: serde_json::Number,
)
    ensures
        run(
            source,
            Val::Array(seq![add_stmt("a"@, Val::Number(x)), add_stmt("a"@, Val::Number(y))]),
            reg,
            depth,
        ) == Ok::<Seq<Val>, DtlError>(seq![Val::Object(seq![("a"@, Val::Number(y))])]),
{
    let stmts = seq![add_stmt("a"@, Val::Number(x)), add_stmt("a"@, Val::Number(y))];
    let s0 = initial_state();
    let t1 = seq![("a"@, Val::Number(x))];
    let t2 = seq![("a"@, Val::Number(y))];
    let s1 = State { target: t1, ..s0 };
    let s2 = State { target: t2, ..s0 };
    assert(key_index(s0.target, "a"@) is None);
    assert(obj_set(s0.target, "a"@, Val::Number(x)) =~= t1);
    assert(exec_stmt(stmts[0], source, s0, reg, depth) == Ok::<State, DtlError>(s1));
    assert(t1.drop_last() =~= Seq::<(Seq<char>, Val)>::empty());
    assert(key_index(t1, "a"@) == Some(0int));
    assert(obj_set(t1, "a"@, Val::Number(y)) =~= t2);
    assert(exec_stmt(stmts[1], source, s1, reg, depth) == Ok::<State, DtlError>(s2));
    assert(run_from(stmts, 2, source, s2, reg, depth) == Ok::<State, DtlError>(s2));
    assert(run_from(stmts, 1, source, s1, reg, depth) == Ok::<State, DtlError>(s2));
    assert(run_from(stmts, 0, source, s0, reg, depth) == Ok::<State, DtlError>(s2));
    assert(output_spec(s2) =~= seq![Val::Object(t2)]);
}

/// Evaluation is a function of its inputs: two runs of the same rules on the
/// same source emit the same documents.
pub proof fn lemma_deterministic(
    source: Val,
    reg: Seq<(Seq<char>, Val)>,
    depth: nat,
    first: Result<Seq<Val>, DtlError>,
    second: Result<Seq<Val>, DtlError>,
)
    requires
        first == transform_spec(source, reg, depth),
        second == transform_spec(source, reg, depth),
    ensures
        first == second,
{
}

} // verus!
