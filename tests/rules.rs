use dtl::{
    apply, decode, list_literal, lower, null_literal, number_literal, path,
    run_statements, string_literal, transform, upper, DtlError, EntityValue, Rules, Target,
};

fn from_json(v: &serde_json::Value) -> EntityValue {
    match v {
        serde_json::Value::Null => EntityValue::Null,
        serde_json::Value::Bool(b) => EntityValue::Bool(*b),
        serde_json::Value::Number(n) => EntityValue::Number(n.clone()),
        serde_json::Value::String(s) => EntityValue::String(s.clone()),
        serde_json::Value::Array(a) => EntityValue::Array(a.iter().map(from_json).collect()),
        serde_json::Value::Object(m) => {
            EntityValue::Object(m.iter().map(|(k, x)| (k.clone(), from_json(x))).collect())
        }
    }
}

/// The typed value that a JSON text decodes to.
fn json(text: &str) -> EntityValue {
    decode(&from_json(&serde_json::from_str(text).unwrap())).unwrap()
}

/// Equality in which the order of an object's fields does not count.
fn same(a: &EntityValue, b: &EntityValue) -> bool {
    match (a, b) {
        (EntityValue::Array(x), EntityValue::Array(y)) => {
            x.len() == y.len() && x.iter().zip(y.iter()).all(|(p, q)| same(p, q))
        }
        (EntityValue::Object(x), EntityValue::Object(y)) => {
            x.len() == y.len()
                && x.iter().all(|(k, p)| y.iter().any(|(k2, q)| k == k2 && same(p, q)))
        }
        _ => a == b,
    }
}

fn rules(named: &[(&str, &str)], depth: usize) -> Rules {
    let mut r = Rules::new(depth);
    for (name, body) in named {
        r.insert(name, json(body));
    }
    r
}

fn run_default(source: &str, rule: &str) -> Result<Vec<EntityValue>, DtlError> {
    transform(&json(source), &rules(&[("default", rule)], 16))
}

#[test]
fn test_lower() {
    assert_eq!(json(r#"["a", "b"]"#), lower(&json(r#"["a", "B", 1, null, []]"#)));
}

#[test]
fn test_concat() {
    assert_eq!(json(r#""aB""#), dtl::dtl::concat(&json(r#"["a", "B", 1, null, []]"#)));
    assert_eq!(json(r#""a""#), dtl::dtl::concat(&json(r#""a""#)));
}

#[test]
fn test_hello_world2() {
    let source = json(r#"{"x": {"y": "D"}}"#);
    let mut target = Target::new();
    target.add(
        "hello",
        dtl::dtl::concat(&list_literal(&[
            string_literal("wor"),
            number_literal(1),
            dtl::dtl::concat(&list_literal(&[
                string_literal("l"),
                lower(&path(
                    &list_literal(&[string_literal("x"), string_literal("y")]),
                    &source,
                )),
                null_literal(),
            ])),
        ])),
    );
    let result = target.output();
    let expected = json(r#"{"hello": "world"}"#);
    assert_eq!(1, result.len());
    assert_eq!(expected, result[0]);
}

#[test]
fn test_create_foo2() {
    let source = json(r#"{"foo": ["bar", "baz"]}"#);
    let registry = rules(&[("foo", r#"[["add", "bar", "_S."]]"#)], 16);
    let mut target = Target::new();
    target.create(apply(&registry, "foo", &path(&string_literal("foo"), &source)).unwrap());
    target.filter();
    let result = target.output();
    let expected1 = json(r#"{"bar": "bar"}"#);
    let expected2 = json(r#"{"bar": "baz"}"#);
    assert_eq!(2, result.len());
    assert_eq!(expected1, result[0]);
    assert_eq!(expected2, result[1]);
}

#[test]
fn test_map_upper2() {
    let registry = Rules::new(16);
    let mut target = Target::new();
    target.add(
        "bar",
        dtl::dtl::map(&json(r#"["upper", "_."]"#), &json(r#"["a", "B", "c"]"#), &registry).unwrap(),
    );
    let result = target.output();
    let expected1 = json(r#"{"bar": ["A", "B", "C"]}"#);
    assert_eq!(1, result.len());
    assert_eq!(expected1, result[0]);
}

#[test]
fn hello_world_as_rule() {
    let out = run_default(
        r#"{"x": {"y": "D"}}"#,
        r#"[["add", "hello", ["concat", "wor", 1, ["concat", "l", ["lower", "_S.x.y"], null]]]]"#,
    )
    .unwrap();
    assert_eq!(out, vec![json(r#"{"hello": "world"}"#)]);
}

#[test]
fn last_write_wins() {
    let rule = r#"[["add", "a", 1], ["add", "a", 2]]"#;
    for source in [r#"{}"#, r#"{"a": 5}"#, r#"[1, 2]"#, r#""s""#] {
        assert_eq!(run_default(source, rule).unwrap(), vec![json(r#"{"a": 2}"#)]);
    }
}

#[test]
fn same_rule_same_output() {
    let source = r#"{"a": {"b": ["x", "Y"]}, "c": 3}"#;
    let rule = r#"[["copy", "*"], ["add", "u", ["upper", "_S.a.b"]], ["create", ["list", {"k": 1}, 2]]]"#;
    let first = run_default(source, rule).unwrap();
    let second = run_default(source, rule).unwrap();
    assert_eq!(first, second);
    assert_eq!(first.len(), 2);
}

#[test]
fn copy_with_exclude() {
    let out = run_default(r#"{"a": 1, "b": 2, "bb": 3}"#, r#"[["copy", "*", "b*"]]"#).unwrap();
    assert_eq!(out, vec![json(r#"{"a": 1}"#)]);
}

#[test]
fn copy_glob_is_anchored() {
    let out = run_default(
        r#"{"ab": 1, "xab": 2, "abx": 3, "a.b": 4}"#,
        r#"[["copy", "ab"], ["copy", "a.b"], ["copy", "*x", ["list", "xab", "nothing"]]]"#,
    )
    .unwrap();
    assert_eq!(out.len(), 1);
    assert!(same(&out[0], &json(r#"{"ab": 1, "a.b": 4, "abx": 3}"#)), "{:?}", out);
}

#[test]
fn copy_on_non_object_source_does_nothing() {
    let out = run_default(r#"[1, 2]"#, r#"[["copy", "*"]]"#).unwrap();
    assert_eq!(out, vec![json(r#"{}"#)]);
}

#[test]
fn exclude_cannot_see_source() {
    let out = run_default(r#"{"a": 1, "b": 2}"#, r#"[["copy", "*", "_S.a"]]"#).unwrap();
    assert_eq!(out, vec![json(r#"{"a": 1, "b": 2}"#)]);
}

#[test]
fn filter_suppresses_target_only() {
    let out = run_default(r#"{"foo": "bar"}"#, r#"[["add", "foo", "_S.foo"], ["filter"]]"#).unwrap();
    assert_eq!(out, Vec::<EntityValue>::new());
}

#[test]
fn created_come_before_target() {
    let out = run_default(
        r#"{"k": 7}"#,
        r#"[["add", "t", "_S.k"], ["create", {"c": 1}], ["create", ["list", {"d": 2}, "x", 3]], ["comment", "note"]]"#,
    )
    .unwrap();
    assert_eq!(out, vec![json(r#"{"c": 1}"#), json(r#"{"d": 2}"#), json(r#"{"t": 7}"#)]);
}

#[test]
fn fan_out_via_apply() {
    let registry = rules(
        &[
            ("default", r#"[["create", ["apply", "foo", "_S.foo"]], ["filter"]]"#),
            ("foo", r#"[["add", "bar", "_S."]]"#),
        ],
        16,
    );
    let out = transform(&json(r#"{"foo": ["bar", "baz"]}"#), &registry).unwrap();
    assert_eq!(out, vec![json(r#"{"bar": "bar"}"#), json(r#"{"bar": "baz"}"#)]);
}

#[test]
fn apply_on_object_unwraps_single_document() {
    let registry = rules(&[("inner", r#"[["add", "v", "_S.n"]]"#)], 4);
    let got = apply(&registry, "inner", &json(r#"{"n": 1}"#)).unwrap();
    assert_eq!(got, json(r#"{"v": 1}"#));
    let twice = rules(&[("inner", r#"[["create", {"c": 0}], ["add", "v", "_S.n"]]"#)], 4);
    let got = apply(&twice, "inner", &json(r#"{"n": 1}"#)).unwrap();
    assert_eq!(got, json(r#"[{"c": 0}, {"v": 1}]"#));
    assert_eq!(apply(&registry, "inner", &json("3")).unwrap(), json("[]"));
}

#[test]
fn map_keeps_length() {
    let registry = Rules::new(4);
    let f = json(r#"["concat", "_.", "!"]"#);
    let got = dtl::dtl::map(&f, &json(r#"["a", 1, null]"#), &registry).unwrap();
    assert_eq!(got, json(r#"["a!", "!", "!"]"#));
    assert_eq!(dtl::dtl::map(&f, &json("[]"), &registry).unwrap(), json("[]"));
    assert_eq!(dtl::dtl::map(&f, &json(r#""x""#), &registry).unwrap(), json("[]"));
}

#[test]
fn map_scope_sees_only_the_item() {
    let out = run_default(
        r#"{"xs": [{"n": "A"}], "n": "outer"}"#,
        r#"[["add", "r", ["map", ["lower", "_.n"], "_S.xs"]], ["add", "s", ["map", ["list", "_S.n"], "_S.xs"]]]"#,
    )
    .unwrap();
    assert_eq!(out, vec![json(r#"{"r": ["a"], "s": [["_S.n"]]}"#)]);
}

#[test]
fn lower_upper_drop_non_strings() {
    assert_eq!(lower(&json(r#"["A", 1, null]"#)), json(r#"["a"]"#));
    assert_eq!(upper(&json(r#"["a", {}, "b"]"#)), json(r#"["A", "B"]"#));
    assert_eq!(lower(&json("5")), json("null"));
    assert_eq!(upper(&json(r#""Straße""#)), json(r#""STRASSE""#));
}

#[test]
fn paths_and_literals() {
    let out = run_default(
        r#"{"a": {"b": 1}, "s": "x"}"#,
        r#"[["add", "p", "_S.a.b"], ["add", "q", "_S.a.missing"], ["add", "r", "_S.s.deeper"], ["add", "lit", "hello.world"], ["add", "whole", "_S.a."], ["add", "t", "_T.p"]]"#,
    )
    .unwrap();
    assert_eq!(out.len(), 1);
    let expected = json(r#"{"p": 1, "q": null, "r": null, "lit": "hello.world", "whole": {"b": 1}, "t": 1}"#);
    assert!(same(&out[0], &expected), "{:?}", out);
}

#[test]
fn path_function() {
    let v = json(r#"{"a": {"b": [1]}}"#);
    assert_eq!(path(&json(r#"["a", "b"]"#), &v), json("[1]"));
    assert_eq!(path(&json(r#""a""#), &v), json(r#"{"b": [1]}"#));
    assert_eq!(path(&json(r#"["a", 5, "b"]"#), &v), json("[1]"));
    assert_eq!(path(&json("7"), &v), json("null"));
}

#[test]
fn malformed_rules() {
    let bad = [
        r#"[["unknown"]]"#,
        r#"["add"]"#,
        r#"[[]]"#,
        r#"[[1, "a", 2]]"#,
        r#"[["add", "a"]]"#,
        r#"[["add", 1, 2]]"#,
        r#"[["add", "a", ["nosuch", 1]]]"#,
        r#"[["add", "a", []]]"#,
        r#"[["add", "a", ["apply", "missing", "_S."]]]"#,
        r#"[["add", "a", ["map", "notacall", "_S."]]]"#,
        r#"[["add", "a", ["lower"]]]"#,
        r#"{"not": "a list"}"#,
    ];
    for rule in bad {
        assert_eq!(run_default(r#"{}"#, rule), Err(DtlError::MalformedRule), "{}", rule);
    }
    assert_eq!(transform(&json("{}"), &Rules::new(4)), Err(DtlError::MalformedRule));
}

#[test]
fn recursion_is_bounded() {
    let registry = rules(
        &[("default", r#"[["add", "x", ["apply", "loop", "_S."]]]"#), ("loop", r#"[["add", "x", ["apply", "loop", "_S."]]]"#)],
        8,
    );
    assert_eq!(transform(&json("{}"), &registry), Err(DtlError::RecursionLimitExceeded));
    let shallow = rules(&[("default", r#"[["add", "x", ["apply", "leaf", "_S."]]]"#), ("leaf", r#"[["add", "y", 1]]"#)], 1);
    assert_eq!(transform(&json("{}"), &shallow).unwrap(), vec![json(r#"{"x": {"y": 1}}"#)]);
    let none = rules(&[("default", r#"[["add", "x", ["apply", "leaf", "_S."]]]"#), ("leaf", r#"[["add", "y", 1]]"#)], 0);
    assert_eq!(transform(&json("{}"), &none), Err(DtlError::RecursionLimitExceeded));
}

#[test]
fn run_statements_directly() {
    let registry = Rules::new(2);
    let out = run_statements(&json(r#"{"a": 1}"#), &json(r#"[["copy", "a"], ["add", "b", ["list", 1, "_S.a"]]]"#), &registry).unwrap();
    assert_eq!(out, vec![json(r#"{"a": 1, "b": [1, 1]}"#)]);
}

#[test]
fn target_methods() {
    let mut t = Target::new();
    t.add("a", json("1"));
    t.add("a", json("2"));
    t.create(json(r#"[{"x": 1}, 2, "s"]"#));
    t.create(json("3"));
    assert_eq!(t.output(), vec![json(r#"{"x": 1}"#), json(r#"{"a": 2}"#)]);
    t.filter();
    assert_eq!(t.output(), vec![json(r#"{"x": 1}"#)]);
}

#[test]
fn glob_matching() {
    assert!(dtl::dtl::glob_matches("*", ""));
    assert!(dtl::dtl::glob_matches("*", "anything"));
    assert!(dtl::dtl::glob_matches("b*", "bb"));
    assert!(!dtl::dtl::glob_matches("b*", "ab"));
    assert!(dtl::dtl::glob_matches("a*c", "abbbc"));
    assert!(!dtl::dtl::glob_matches("a*c", "abbbcd"));
    assert!(dtl::dtl::glob_matches("a.b", "a.b"));
    assert!(!dtl::dtl::glob_matches("a.b", "axb"));
    assert!(dtl::dtl::glob_matches("", ""));
    assert!(!dtl::dtl::glob_matches("", "a"));
    let long = "a".repeat(400);
    assert!(!dtl::dtl::glob_matches("*a*a*a*a*a*a*a*a*b", &long));
    assert!(dtl::dtl::glob_matches("*a*a*a*a*a*a*a*a*", &long));
}

#[test]
fn literals() {
    assert_eq!(number_literal(1), EntityValue::Number(serde_json::Number::from(1)));
    assert_eq!(number_literal(-3), json("-3"));
    assert_eq!(string_literal("x.y"), json(r#""x.y""#));
    assert_eq!(null_literal(), EntityValue::Null);
    assert_eq!(list_literal(&[json("1"), json("null")]), json("[1, null]"));
}
