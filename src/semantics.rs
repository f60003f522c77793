use vstd::prelude::*;

use crate::text::split_on;
use crate::value::{obj_get, obj_set, Val};

verus! {

/// Why a rule could not be evaluated.
#[derive(Clone, Copy, Debug, PartialEq, Eq, Structural)]
pub enum DtlError {
    /// The rule is not shaped as the language asks: a statement or call that is
    /// not an array, a name that is unknown or not a string, a missing
    /// argument, or a rule name that is not registered.
    MalformedRule,
    /// `apply` nested deeper than the registry allows.
    RecursionLimitExceeded,
}

/// The bindings that path references can see.
pub struct Env {
    pub source: Option<Val>,
    pub target: Option<Val>,
    pub item: Option<Val>,
}

/// What one rule invocation has built so far.
pub struct State {
    pub target: Seq<(Seq<char>, Val)>,
    pub created: Seq<Val>,
    pub filtered: bool,
}

pub uninterp spec fn lower_of(s: Seq<char>) -> Seq<char>;

pub uninterp spec fn upper_of(s: Seq<char>) -> Seq<char>;

pub open spec fn lookup_var(env: Env, name: Seq<char>) -> Option<Val> {
    if name == "_S"@ {
        env.source
    } else if name == "_T"@ {
        env.target
    } else if name == "_"@ {
        env.item
    } else {
        None
    }
}

/// Follows `keys` through nested objects; anything else on the way gives
/// `Null`.
pub open spec fn navigate(v: Val, keys: Seq<Seq<char>>) -> Val
    decreases keys.len(),
{
    if keys.len() == 0 {
        v
    } else {
        match v {
            Val::Object(fs) => match obj_get(fs, keys[0]) {
                Some(x) => navigate(x, keys.drop_first()),
                None => Val::Null,
            },
            _ => Val::Null,
        }
    }
}

/// The keys that follow the variable name; a trailing empty one is dropped.
pub open spec fn path_keys(segs: Seq<Seq<char>>) -> Seq<Seq<char>> {
    let rest = segs.drop_first();
    if rest.len() > 0 && rest.last().len() == 0 {
        rest.drop_last()
    } else {
        rest
    }
}

/// A string expression: a path from a bound variable, or else the string
/// itself.
pub open spec fn path_ref(s: Seq<char>, env: Env) -> Val {
    let segs = split_on(s, '.');
    match lookup_var(env, segs[0]) {
        Some(v) => navigate(v, path_keys(segs)),
        None => Val::Str(s),
    }
}

/// The strings among `s`, in order.
pub open spec fn strings_of(s: Seq<Val>) -> Seq<Seq<char>>
    decreases s.len(),
{
    if s.len() == 0 {
        Seq::empty()
    } else {
        match s.last() {
            Val::Str(t) => strings_of(s.drop_last()).push(t),
            _ => strings_of(s.drop_last()),
        }
    }
}

/// The strings among `s` joined in order.
pub open spec fn concat_strings(s: Seq<Val>) -> Seq<char>
    decreases s.len(),
{
    if s.len() == 0 {
        Seq::empty()
    } else {
        match s.last() {
            Val::Str(t) => concat_strings(s.drop_last()) + t,
            _ => concat_strings(s.drop_last()),
        }
    }
}

pub open spec fn fold_case(s: Seq<char>, upper: bool) -> Seq<char> {
    if upper {
        upper_of(s)
    } else {
        lower_of(s)
    }
}

/// The strings among `s`, case-mapped; other elements are dropped.
pub open spec fn fold_strings(s: Seq<Val>, upper: bool) -> Seq<Val>
    decreases s.len(),
{
    if s.len() == 0 {
        Seq::empty()
    } else {
        match s.last() {
            Val::Str(t) => fold_strings(s.drop_last(), upper).push(Val::Str(fold_case(t, upper))),
            _ => fold_strings(s.drop_last(), upper),
        }
    }
}

/// `lower` / `upper` on an evaluated argument.
pub open spec fn case_map(v: Val, upper: bool) -> Val {
    match v {
        Val::Str(s) => Val::Str(fold_case(s, upper)),
        Val::Array(items) => Val::Array(fold_strings(items, upper)),
        _ => Val::Null,
    }
}

/// The objects among `s`, in order.
pub open spec fn objects_of(s: Seq<Val>) -> Seq<Val>
    decreases s.len(),
{
    if s.len() == 0 {
        Seq::empty()
    } else {
        match s.last() {
            Val::Object(_) => objects_of(s.drop_last()).push(s.last()),
            _ => objects_of(s.drop_last()),
        }
    }
}

/// `created` after a `create` of `v`.
pub open spec fn create_spec(created: Seq<Val>, v: Val) -> Seq<Val> {
    match v {
        Val::Array(items) => created + objects_of(items),
        Val::Object(_) => created.push(v),
        _ => created,
    }
}

/// The documents of a finished invocation: the created ones, then the target
/// unless it was filtered.
pub open spec fn output_spec(st: State) -> Seq<Val> {
    if st.filtered {
        st.created
    } else {
        st.created.push(Val::Object(st.target))
    }
}

/// Whether glob `p` matches all of `k`; `*` matches any run of characters and
/// every other character itself.
pub open spec fn glob_match(p: Seq<char>, k: Seq<char>) -> bool
    decreases p.len(), k.len(),
{
    if p.len() == 0 {
        k.len() == 0
    } else if p[0] == '*' {
        glob_match(p.drop_first(), k) || (k.len() > 0 && glob_match(p, k.drop_first()))
    } else {
        k.len() > 0 && k[0] == p[0] && glob_match(p.drop_first(), k.drop_first())
    }
}

/// The exclude patterns that an evaluated exclude argument names.
pub open spec fn patterns_of(v: Val) -> Seq<Seq<char>> {
    match v {
        Val::Str(s) => seq![s],
        Val::Array(items) => strings_of(items),
        _ => Seq::empty(),
    }
}

pub open spec fn excluded(pats: Seq<Seq<char>>, k: Seq<char>) -> bool {
    exists|i: int| 0 <= i < pats.len() && glob_match(pats[i], k)
}

/// `target` with the fields of `src` that `wanted` matches and no pattern of
/// `pats` does merged in, in order.
pub open spec fn merge_fields(
    target: Seq<(Seq<char>, Val)>,
    src: Seq<(Seq<char>, Val)>,
    wanted: Seq<char>,
    pats: Seq<Seq<char>>,
) -> Seq<(Seq<char>, Val)>
    decreases src.len(),
{
    if src.len() == 0 {
        target
    } else {
        let t = merge_fields(target, src.drop_last(), wanted, pats);
        let f = src.last();
        if glob_match(wanted, f.0) && !excluded(pats, f.0) {
            obj_set(t, f.0, f.1)
        } else {
            t
        }
    }
}

/// What `apply` makes of one invocation's documents: a single one is
/// unwrapped, several are wrapped in an array.
pub open spec fn unwrap_single(docs: Seq<Val>) -> Val {
    if docs.len() == 1 {
        docs[0]
    } else {
        Val::Array(docs)
    }
}

pub open spec fn empty_env() -> Env {
    Env { source: None, target: None, item: None }
}

pub open spec fn item_env(x: Val) -> Env {
    Env { source: None, target: None, item: Some(x) }
}

pub open spec fn stmt_env(source: Val, st: State) -> Env {
    Env { source: Some(source), target: Some(Val::Object(st.target)), item: None }
}

pub open spec fn initial_state() -> State {
    State { target: Seq::empty(), created: Seq::empty(), filtered: false }
}

/// Evaluates an expression.
pub open spec fn eval(e: Val, env: Env, reg: Seq<(Seq<char>, Val)>, depth: nat) -> Result<
    Val,
    DtlError,
>
    decreases depth, 0int, e, 0int,
{
    match e {
        Val::Str(s) => Ok(path_ref(s, env)),
        Val::Array(items) => call(items, env, reg, depth),
        _ => Ok(e),
    }
}

/// Evaluates `items[i..]` in order and appends the results to `acc`.
pub open spec fn eval_args(
    items: Seq<Val>,
    i: int,
    acc: Seq<Val>,
    env: Env,
    reg: Seq<(Seq<char>, Val)>,
    depth: nat,
) -> Result<Seq<Val>, DtlError>
    decreases depth, 0int, items, items.len() - i,
{
    if i < 0 || i >= items.len() {
        Ok(acc)
    } else {
        match eval(items[i], env, reg, depth) {
            Ok(v) => eval_args(items, i + 1, acc.push(v), env, reg, depth),
            Err(err) => Err(err),
        }
    }
}

/// Evaluates `f` once for each of `elts[i..]` bound as `_`, and appends the
/// results to `acc`.
pub open spec fn map_each(
    f: Val,
    elts: Seq<Val>,
    i: int,
    acc: Seq<Val>,
    reg: Seq<(Seq<char>, Val)>,
    depth: nat,
) -> Result<Seq<Val>, DtlError>
    decreases depth, 0int, f, elts.len() - i,
{
    if i < 0 || i >= elts.len() {
        Ok(acc)
    } else {
        match eval(f, item_env(elts[i]), reg, depth) {
            Ok(v) => map_each(f, elts, i + 1, acc.push(v), reg, depth),
            Err(err) => Err(err),
        }
    }
}

/// Runs `rule` on each of `elts[i..]` and appends each result, unwrapped when
/// single, to `acc`.
pub open spec fn apply_each(
    rule: Val,
    elts: Seq<Val>,
    i: int,
    acc: Seq<Val>,
    reg: Seq<(Seq<char>, Val)>,
    depth: nat,
) -> Result<Seq<Val>, DtlError>
    decreases depth, 2int, rule, elts.len() - i,
{
    if i < 0 || i >= elts.len() {
        Ok(acc)
    } else {
        match run(elts[i], rule, reg, depth) {
            Ok(docs) => apply_each(rule, elts, i + 1, acc.push(unwrap_single(docs)), reg, depth),
            Err(err) => Err(err),
        }
    }
}

/// Whether `apply` on `v` runs the rule at least once.
pub open spec fn invokes_rule(v: Val) -> bool {
    match v {
        Val::Object(_) => true,
        Val::Array(elts) => elts.len() > 0,
        _ => false,
    }
}

/// `apply` of `rule` to an evaluated argument, where the rule's own
/// invocations may nest `depth` deep.
pub open spec fn apply_value(rule: Val, v: Val, reg: Seq<(Seq<char>, Val)>, depth: nat) -> Result<
    Val,
    DtlError,
>
    decreases depth, 3int, rule, 0int,
{
    match v {
        Val::Object(_) => match run(v, rule, reg, depth) {
            Ok(docs) => Ok(unwrap_single(docs)),
            Err(err) => Err(err),
        },
        Val::Array(elts) => match apply_each(rule, elts, 0, Seq::empty(), reg, depth) {
            Ok(rs) => Ok(Val::Array(rs)),
            Err(err) => Err(err),
        },
        _ => Ok(Val::Array(Seq::empty())),
    }
}

/// A function call `[name, args...]`.
pub open spec fn call(items: Seq<Val>, env: Env, reg: Seq<(Seq<char>, Val)>, depth: nat) -> Result<
    Val,
    DtlError,
>
    decreases depth, 0int, items, items.len() + 1,
{
    if items.len() == 0 {
        Err(DtlError::MalformedRule)
    } else {
        match items[0] {
            Val::Str(f) => if f == "concat"@ {
                match eval_args(items, 1, Seq::empty(), env, reg, depth) {
                    Ok(vs) => Ok(Val::Str(concat_strings(vs))),
                    Err(err) => Err(err),
                }
            } else if f == "list"@ {
                match eval_args(items, 1, Seq::empty(), env, reg, depth) {
                    Ok(vs) => Ok(Val::Array(vs)),
                    Err(err) => Err(err),
                }
            } else if f == "lower"@ || f == "upper"@ {
                if items.len() < 2 {
                    Err(DtlError::MalformedRule)
                } else {
                    match eval(items[1], env, reg, depth) {
                        Ok(v) => Ok(case_map(v, f == "upper"@)),
                        Err(err) => Err(err),
                    }
                }
            } else if f == "map"@ {
                if items.len() < 3 || !(items[1] is Array) {
                    Err(DtlError::MalformedRule)
                } else {
                    match eval(items[2], env, reg, depth) {
                        Ok(Val::Array(elts)) => match map_each(
                            items[1],
                            elts,
                            0,
                            Seq::empty(),
                            reg,
                            depth,
                        ) {
                            Ok(rs) => Ok(Val::Array(rs)),
                            Err(err) => Err(err),
                        },
                        Ok(_) => Ok(Val::Array(Seq::empty())),
                        Err(err) => Err(err),
                    }
                }
            } else if f == "apply"@ {
                if items.len() < 3 {
                    Err(DtlError::MalformedRule)
                } else {
                    match items[1] {
                        Val::Str(name) => match obj_get(reg, name) {
                            Some(rule) => match eval(items[2], env, reg, depth) {
                                Ok(v) => if depth == 0 {
                                    if invokes_rule(v) {
                                        Err(DtlError::RecursionLimitExceeded)
                                    } else {
                                        Ok(Val::Array(Seq::empty()))
                                    }
                                } else {
                                    apply_value(rule, v, reg, (depth - 1) as nat)
                                },
                                Err(err) => Err(err),
                            },
                            None => Err(DtlError::MalformedRule),
                        },
                        _ => Err(DtlError::MalformedRule),
                    }
                }
            } else {
                Err(DtlError::MalformedRule)
            },
            _ => Err(DtlError::MalformedRule),
        }
    }
}

/// Executes one statement `[op, args...]`.
pub open spec fn exec_stmt(
    stmt: Val,
    source: Val,
    st: State,
    reg: Seq<(Seq<char>, Val)>,
    depth: nat,
) -> Result<State, DtlError>
    decreases depth, 1int, stmt, 0int,
{
    match stmt {
        Val::Array(items) => if items.len() == 0 {
            Err(DtlError::MalformedRule)
        } else {
            match items[0] {
                Val::Str(op) => if op == "add"@ {
                    if items.len() < 3 {
                        Err(DtlError::MalformedRule)
                    } else {
                        match items[1] {
                            Val::Str(field) => match eval(
                                items[2],
                                stmt_env(source, st),
                                reg,
                                depth,
                            ) {
                                Ok(v) => Ok(State { target: obj_set(st.target, field, v), ..st }),
                                Err(err) => Err(err),
                            },
                            _ => Err(DtlError::MalformedRule),
                        }
                    }
                } else if op == "copy"@ {
                    if items.len() < 2 {
                        Err(DtlError::MalformedRule)
                    } else {
                        match items[1] {
                            Val::Str(wanted) => {
                                let pats = if items.len() >= 3 {
                                    eval(items[2], empty_env(), reg, depth)
                                } else {
                                    Ok(Val::Array(Seq::empty()))
                                };
                                match pats {
                                    Ok(p) => match source {
                                        Val::Object(fs) => Ok(
                                            State {
                                                target: merge_fields(
                                                    st.target,
                                                    fs,
                                                    wanted,
                                                    patterns_of(p),
                                                ),
                                                ..st
                                            },
                                        ),
                                        _ => Ok(st),
                                    },
                                    Err(err) => Err(err),
                                }
                            },
                            _ => Err(DtlError::MalformedRule),
                        }
                    }
                } else if op == "create"@ {
                    if items.len() < 2 {
                        Err(DtlError::MalformedRule)
                    } else {
                        match eval(items[1], stmt_env(source, st), reg, depth) {
                            Ok(v) => Ok(State { created: create_spec(st.created, v), ..st }),
                            Err(err) => Err(err),
                        }
                    }
                } else if op == "filter"@ {
                    Ok(State { filtered: true, ..st })
                } else if op == "comment"@ {
                    Ok(st)
                } else {
                    Err(DtlError::MalformedRule)
                },
                _ => Err(DtlError::MalformedRule),
            }
        },
        _ => Err(DtlError::MalformedRule),
    }
}

/// Executes `stmts[i..]` in order from state `st`.
pub open spec fn run_from(
    stmts: Seq<Val>,
    i: int,
    source: Val,
    st: State,
    reg: Seq<(Seq<char>, Val)>,
    depth: nat,
) -> Result<State, DtlError>
    decreases depth, 1int, stmts, stmts.len() - i,
{
    if i < 0 || i >= stmts.len() {
        Ok(st)
    } else {
        match exec_stmt(stmts[i], source, st, reg, depth) {
            Ok(st2) => run_from(stmts, i + 1, source, st2, reg, depth),
            Err(err) => Err(err),
        }
    }
}

/// Runs the statement list `rule` on `source`: the documents it produces.
pub open spec fn run(source: Val, rule: Val, reg: Seq<(Seq<char>, Val)>, depth: nat) -> Result<
    Seq<Val>,
    DtlError,
>
    decreases depth, 1int, rule, 0int,
{
    match rule {
        Val::Array(stmts) => match run_from(stmts, 0, source, initial_state(), reg, depth) {
            Ok(st) => Ok(output_spec(st)),
            Err(err) => Err(err),
        },
        _ => Err(DtlError::MalformedRule),
    }
}

} // verus!
