use dtl::{
    decode, decode_text, encode, is_encodable, BigDecimalWrapper, ByteWrapper, CodecError, Date,
    DateTimeWrapper, EntityValue, NI, URI, UUID,
};

fn to_json(v: &EntityValue) -> serde_json::Value {
    match v {
        EntityValue::Null => serde_json::Value::Null,
        EntityValue::Bool(b) => serde_json::Value::Bool(*b),
        EntityValue::Number(n) => serde_json::Value::Number(n.clone()),
        EntityValue::String(s) => serde_json::Value::String(s.clone()),
        EntityValue::Array(a) => serde_json::Value::Array(a.iter().map(to_json).collect()),
        EntityValue::Object(f) => {
            let mut m = serde_json::Map::new();
            for (k, x) in f {
                m.insert(k.clone(), to_json(x));
            }
            serde_json::Value::Object(m)
        }
        other => panic!("not a wire value: {:?}", other),
    }
}

fn from_json(v: &serde_json::Value) -> EntityValue {
    match v {
        serde_json::Value::Null => EntityValue::Null,
        serde_json::Value::Bool(b) => EntityValue::Bool(*b),
        serde_json::Value::Number(n) => EntityValue::Number(n.clone()),
        serde_json::Value::String(s) => EntityValue::String(s.clone()),
        serde_json::Value::Array(a) => EntityValue::Array(a.iter().map(from_json).collect()),
        serde_json::Value::Object(m) => {
            EntityValue::Object(m.iter().map(|(k, x)| (k.clone(), from_json(x))).collect())
        }
    }
}

fn serialize(v: &EntityValue) -> String {
    assert!(is_encodable(v));
    serde_json::to_string(&to_json(&encode(v))).unwrap()
}

fn deserialize(text: &str) -> EntityValue {
    decode(&from_json(&serde_json::from_str(text).unwrap())).unwrap()
}

/// Equality in which the order of an object's fields does not count.
fn same(a: &EntityValue, b: &EntityValue) -> bool {
    match (a, b) {
        (EntityValue::Array(x), EntityValue::Array(y)) => {
            x.len() == y.len() && x.iter().zip(y.iter()).all(|(p, q)| same(p, q))
        }
        (EntityValue::Object(x), EntityValue::Object(y)) => {
            x.len() == y.len()
                && x.iter().all(|(k, p)| y.iter().any(|(k2, q)| k == k2 && same(p, q)))
        }
        _ => a == b,
    }
}

fn text(s: &str) -> EntityValue {
    EntityValue::String(s.to_string())
}

#[test]
fn entity_uuid() {
    let entity = EntityValue::UUID(UUID("123".to_owned()));
    let serialized = serialize(&entity);
    assert_eq!(serialized, "\"~u123\"");
    let deserialized = deserialize(&serialized);
    assert_eq!(entity, deserialized);
}

#[test]
fn entity_decimal() {
    let entity = EntityValue::Decimal(BigDecimalWrapper::parse("123.456").unwrap());
    let serialized = serialize(&entity);
    assert_eq!(serialized, "\"~f123.456\"");
    let deserialized = deserialize(&serialized);
    assert_eq!(entity, deserialized);
}

#[test]
fn entity_ni() {
    let entity = EntityValue::NI(NI { namespace: "foo".to_owned(), identifier: "bar".to_owned() });
    let serialized = serialize(&entity);
    assert_eq!(serialized, "\"~:foo:bar\"");
    let deserialized = deserialize(&serialized);
    assert_eq!(entity, deserialized);
}

#[test]
fn entity_bytes() {
    let entity = EntityValue::Bytes(ByteWrapper(vec![255]));
    let serialized = serialize(&entity);
    assert_eq!(serialized, "\"~b/w==\"");
    let deserialized = deserialize(&serialized);
    assert_eq!(entity, deserialized);
}

#[test]
fn entity_date() {
    let entity = EntityValue::Date(Date::parse("2020-01-01").unwrap());
    let serialized = serialize(&entity);
    assert_eq!(serialized, "\"~t2020-01-01\"");
    let deserialized = deserialize(&serialized);
    assert_eq!(entity, deserialized);
}

#[test]
fn entity_datetime() {
    let entity = EntityValue::DateTime(DateTimeWrapper {
        year: 2014,
        month: 7,
        day: 8,
        hour: 9,
        minute: 10,
        second: 11,
        nanosecond: 0,
    });
    let serialized = serialize(&entity);
    assert_eq!(serialized, "\"~t2014-07-08T09:10:11.000000000+0000\"");
    let deserialized = deserialize(&serialized);
    assert_eq!(entity, deserialized);
}

#[test]
fn entity_main() {
    let entity = EntityValue::Object(vec![
        ("_id".to_owned(), text("1")),
        ("_filtered".to_owned(), EntityValue::Bool(false)),
        ("string".to_owned(), text("value")),
        ("uri".to_owned(), EntityValue::URI(URI("db.no".to_owned()))),
        (
            "float".to_owned(),
            EntityValue::Number(serde_json::Number::from_f64(1.0).unwrap()),
        ),
        (
            "integer".to_owned(),
            EntityValue::Number(serde_json::Number::from_i128(1).unwrap()),
        ),
        ("null".to_owned(), EntityValue::Null),
        ("boolean".to_owned(), EntityValue::Bool(true)),
        ("empty_array".to_owned(), EntityValue::Array(vec![])),
        ("empty_object".to_owned(), EntityValue::Object(vec![])),
        (
            "object_with_uri".to_owned(),
            EntityValue::Object(vec![(
                "uri".to_owned(),
                EntityValue::URI(URI("vg.no".to_owned())),
            )]),
        ),
    ]);
    let serialized = serialize(&entity);
    println!("serialized = {}", serialized);
    let deserialized = deserialize(&serialized);
    println!("deserialized = {:?}", deserialized);
    assert!(same(&entity, &deserialized));
}

#[test]
fn mod_uuid() {
    let entity = EntityValue::UUID(UUID::parse("123"));
    let serialized = serialize(&entity);
    assert_eq!(serialized, "\"~u123\"");
    let deserialized = deserialize(&serialized);
    assert_eq!(entity, deserialized);
}

#[test]
fn mod_decimal() {
    let entity = EntityValue::Decimal(BigDecimalWrapper::parse("123.456").unwrap());
    let serialized = serialize(&entity);
    assert_eq!(serialized, "\"~f123.456\"");
    let deserialized = deserialize(&serialized);
    assert_eq!(entity, deserialized);
}

#[test]
fn mod_ni() {
    let entity = EntityValue::NI(NI::new("foo", "bar"));
    let serialized = serialize(&entity);
    assert_eq!(serialized, "\"~:foo:bar\"");
    let deserialized = deserialize(&serialized);
    assert_eq!(entity, deserialized);
}

#[test]
fn mod_bytes() {
    let entity = EntityValue::Bytes(ByteWrapper::from_vec(vec![255]));
    let serialized = serialize(&entity);
    assert_eq!(serialized, "\"~b/w==\"");
    let deserialized = deserialize(&serialized);
    assert_eq!(entity, deserialized);
}

#[test]
fn mod_date() {
    let entity = EntityValue::Date(Date::parse("2020-01-01").unwrap());
    let serialized = serialize(&entity);
    assert_eq!(serialized, "\"~t2020-01-01\"");
    let deserialized = deserialize(&serialized);
    assert_eq!(entity, deserialized);
}

#[test]
fn mod_datetime() {
    let entity = EntityValue::DateTime(DateTimeWrapper::parse("2014-07-08T09:10:11.0+0000").unwrap());
    let serialized = serialize(&entity);
    assert_eq!(serialized, "\"~t2014-07-08T09:10:11.000000000+0000\"");
    let deserialized = deserialize(&serialized);
    assert_eq!(entity, deserialized);
}

#[test]
fn mod_main() {
    let timestamp: u64 = 1_700_000_000_000;
    let entity = EntityValue::Object(vec![
        ("_id".to_owned(), text("1")),
        ("_filtered".to_owned(), EntityValue::Bool(false)),
        ("_updated".to_owned(), EntityValue::Number(serde_json::Number::from(0u64))),
        ("_hash".to_owned(), text("a")),
        ("_previous".to_owned(), EntityValue::Null),
        ("_deleted".to_owned(), EntityValue::Bool(false)),
        ("_ts".to_owned(), EntityValue::Number(serde_json::Number::from(timestamp))),
        ("string".to_owned(), text("value")),
        ("uri".to_owned(), EntityValue::URI(URI::parse("http://db.no"))),
        (
            "float".to_owned(),
            EntityValue::Number(serde_json::Number::from_f64(1.0).unwrap()),
        ),
        (
            "integer".to_owned(),
            EntityValue::Number(serde_json::Number::from_i128(1).unwrap()),
        ),
        ("null".to_owned(), EntityValue::Null),
        ("boolean".to_owned(), EntityValue::Bool(true)),
        ("bytes".to_owned(), EntityValue::Bytes(ByteWrapper::from_array(b"hello"))),
        ("ni".to_owned(), EntityValue::NI(NI::new("foo", "bar"))),
        ("uuid".to_owned(), EntityValue::UUID(UUID::parse("1"))),
        ("empty_array".to_owned(), EntityValue::Array(vec![])),
        ("empty_object".to_owned(), EntityValue::Object(vec![])),
        (
            "object_with_uri".to_owned(),
            EntityValue::Object(vec![(
                "uri".to_owned(),
                EntityValue::URI(URI::parse("http://vg.no")),
            )]),
        ),
    ]);
    let serialized = serialize(&entity);
    println!("serialized = {}", serialized);
    let deserialized = deserialize(&serialized);
    println!("deserialized = {:?}", deserialized);
    assert!(same(&entity, &deserialized));
}

#[test]
fn datetime_literal_is_normalised() {
    let v = decode_text("~t2014-07-08T09:10:11.0+0000").unwrap();
    assert_eq!(serialize(&v), "\"~t2014-07-08T09:10:11.000000000+0000\"");
}

#[test]
fn datetime_offset_is_moved_to_utc() {
    let d = DateTimeWrapper::parse("2014-07-08T09:10:11.000000005+0200").unwrap();
    assert_eq!((d.hour, d.minute, d.second, d.nanosecond), (7, 10, 11, 5));
    assert_eq!(d.serialize(), "~t2014-07-08T07:10:11.000000005+0000");
}

#[test]
fn sigils_on_encode() {
    let b = encode(&EntityValue::Bytes(ByteWrapper(b"hi".to_vec())));
    let u = encode(&EntityValue::URI(URI::parse("http://x")));
    let id = encode(&EntityValue::UUID(UUID::parse("abc")));
    assert_eq!(b, text("~baGk="));
    assert_eq!(u, text("~rhttp://x"));
    assert_eq!(id, text("~uabc"));
}

#[test]
fn t_with_time_is_a_datetime() {
    assert!(matches!(decode_text("~t2014-07-08T09:10:11.0+0000"), Ok(EntityValue::DateTime(_))));
    assert!(matches!(decode_text("~t2014-07-08"), Ok(EntityValue::Date(_))));
    assert_eq!(decode_text("~t2014-07-08T"), Err(CodecError::InvalidDateTime));
}

#[test]
fn plain_and_unknown_sigil_strings_stay_strings() {
    assert_eq!(decode_text("hello").unwrap(), text("hello"));
    assert_eq!(decode_text("").unwrap(), text(""));
    assert_eq!(decode_text("~").unwrap(), text("~"));
    assert_eq!(decode_text("~xyz").unwrap(), text("~xyz"));
    assert_eq!(serialize(&decode_text("~xyz").unwrap()), "\"~xyz\"");
}

#[test]
fn ni_splits_at_last_colon() {
    let v = decode_text("~:a:b:c").unwrap();
    assert_eq!(v, EntityValue::NI(NI::new("a:b", "c")));
    assert_eq!(decode_text("~:abc"), Err(CodecError::MissingSeparator));
}

#[test]
fn codec_errors() {
    assert_eq!(decode_text("~b***"), Err(CodecError::InvalidBase64));
    assert_eq!(decode_text("~t2020-13-01"), Err(CodecError::InvalidDate));
    assert_eq!(decode_text("~fabc"), Err(CodecError::InvalidDecimal));
    assert_eq!(decode_text("~f1e5"), Err(CodecError::InvalidDecimal));
    assert_eq!(
        decode(&EntityValue::Array(vec![text("ok"), text("~b!")])),
        Err(CodecError::InvalidBase64)
    );
}

#[test]
fn bytes_decode() {
    assert_eq!(decode_text("~baGVsbG8=").unwrap(), EntityValue::Bytes(ByteWrapper::from_array(b"hello")));
    assert_eq!(decode_text("~b").unwrap(), EntityValue::Bytes(ByteWrapper(vec![])));
}

#[test]
fn decimal_is_written_in_full() {
    let d = BigDecimalWrapper::parse("007.50").unwrap();
    assert_eq!(d.serialize(), "~f7.50");
    assert_eq!(BigDecimalWrapper::parse("-0.001").unwrap().serialize(), "~f-0.001");
}

#[test]
fn date_text() {
    let d = Date::parse("1999-12-31").unwrap();
    assert_eq!((d.year, d.month, d.day), (1999, 12, 31));
    assert_eq!(d.serialize(), "~t1999-12-31");
    assert!(Date::can_deserialize("~t1999-12-31"));
    assert!(!Date::can_deserialize("~t1999-12-31T"));
    assert!(DateTimeWrapper::can_deserialize("~t1999-12-31T"));
}

#[test]
fn round_trip_nested() {
    let v = EntityValue::Object(vec![
        ("list".to_owned(), EntityValue::Array(vec![
            EntityValue::NI(NI::new("ns", "id")),
            EntityValue::Decimal(BigDecimalWrapper::parse("1.25").unwrap()),
            EntityValue::Date(Date::parse("2001-02-03").unwrap()),
        ])),
        ("s".to_owned(), text("plain")),
    ]);
    assert_eq!(decode(&encode(&v)).unwrap(), v);
}

#[test]
fn undated_values_are_not_encodable() {
    let bad = EntityValue::Date(Date { year: 2020, month: 2, day: 30 });
    assert!(!is_encodable(&bad));
    assert!(is_encodable(&EntityValue::Array(vec![text("a")])));
}

#[test]
fn can_deserialize_checks_sigil() {
    assert!(URI::can_deserialize("~rx"));
    assert!(!URI::can_deserialize("~ux"));
    assert!(UUID::can_deserialize("~ux"));
    assert!(NI::can_deserialize("~:a:b"));
    assert!(ByteWrapper::can_deserialize("~b"));
    assert!(BigDecimalWrapper::can_deserialize("~f1"));
    assert_eq!(URI::deserialize("~rhttp://a").0, "http://a");
    assert_eq!(UUID::deserialize("~u42").0, "42");
}
