use std::str::FromStr;

use base64::Engine;
use chrono::Datelike;
use chrono::Timelike;
use vstd::prelude::*;
use vstd::string::*;

use crate::text::{
    chars_of, contains_char, find_last, has_sigil, last_index, payload, payload_of, sigil,
    sigil_text, starts_with_sigil,
};

verus! {

/// A tagged scalar whose payload does not read as its type.
#[derive(Clone, Copy, Debug, PartialEq, Eq, Structural)]
pub enum CodecError {
    InvalidDate,
    InvalidDateTime,
    InvalidBase64,
    MissingSeparator,
    InvalidDecimal,
}

/// `~t` date payloads: year, month and day.
pub const DATE_FMT: &'static str = "%Y-%m-%d";

/// `~t` date-time payloads: nanoseconds and a signed four-digit offset.
pub const DATE_TIME_FMT: &'static str = "%Y-%m-%dT%H:%M:%S.%f%z";

pub uninterp spec fn base64_text(b: Seq<u8>) -> Seq<char>;

pub uninterp spec fn base64_bytes(s: Seq<char>) -> Option<Seq<u8>>;

pub open spec fn opt_bytes(r: Option<Vec<u8>>) -> Option<Seq<u8>> {
    match r {
        Some(b) => Some(b@),
        None => None,
    }
}

pub uninterp spec fn date_read(s: Seq<char>, fmt: Seq<char>) -> Option<(i32, u32, u32)>;

pub uninterp spec fn date_text(year: i32, month: u32, day: u32, fmt: Seq<char>) -> Option<
    Seq<char>,
>;

pub uninterp spec fn date_time_read(s: Seq<char>, fmt: Seq<char>) -> Option<
    (i32, u32, u32, u32, u32, u32, u32),
>;

pub uninterp spec fn date_time_text(t: (i32, u32, u32, u32, u32, u32, u32), fmt: Seq<char>) -> Option<
    Seq<char>,
>;

pub uninterp spec fn decimal_plain(s: Seq<char>) -> Option<Seq<char>>;

pub open spec fn opt_view(r: Option<String>) -> Option<Seq<char>> {
    match r {
        Some(t) => Some(t@),
        None => None,
    }
}

/// Relies on base64's `STANDARD` engine `encode`: padded standard base64.
#[verifier::external_body]
fn base64_encode(b: &[u8]) -> (r: String)
    ensures
        r@ == base64_text(b@),
{
    base64::engine::general_purpose::STANDARD.encode(b)
}

/// Relies on base64's `STANDARD` engine `decode`, which requires canonical
/// padding and no trailing bits: what it accepts is the text that `encode`
/// gives for the bytes it returns.
#[verifier::external_body]
fn base64_decode(s: &str) -> (r: Option<Vec<u8>>)
    ensures
        opt_bytes(r) == base64_bytes(s@),
        r is Some ==> base64_text(r->Some_0@) == s@,
{
    base64::engine::general_purpose::STANDARD.decode(s).ok()
}

/// Relies on chrono's `NaiveDate::parse_from_str`: the date that `s` spells in
/// the format `fmt`, as year, month and day.
#[verifier::external_body]
fn read_date(s: &str, fmt: &str) -> (r: Option<(i32, u32, u32)>)
    ensures
        r == date_read(s@, fmt@),
{
    chrono::NaiveDate::parse_from_str(s, fmt).ok().map(|d| (d.year(), d.month(), d.day()))
}

/// Relies on chrono's `NaiveDate::from_ymd_opt` and `NaiveDate::format`: the
/// date written in the format `fmt`, where the numbers make a date. Formatting
/// panics on a malformed format, so only the date format is admitted.
#[verifier::external_body]
fn write_date(year: i32, month: u32, day: u32, fmt: &str) -> (r: Option<String>)
    requires
        fmt@ == DATE_FMT@,
    ensures
        opt_view(r) == date_text(year, month, day, fmt@),
{
    chrono::NaiveDate::from_ymd_opt(year, month, day).map(|d| d.format(fmt).to_string())
}

/// Relies on chrono's `DateTime::parse_from_str` and `DateTime::to_utc`: the
/// instant that `s` spells in the format `fmt`, as its UTC year, month, day,
/// hour, minute, second and nanosecond.
#[verifier::external_body]
fn read_date_time(s: &str, fmt: &str) -> (r: Option<(i32, u32, u32, u32, u32, u32, u32)>)
    ensures
        r == date_time_read(s@, fmt@),
{
    chrono::DateTime::parse_from_str(s, fmt).ok().map(|d| {
        let u = d.to_utc();
        (u.year(), u.month(), u.day(), u.hour(), u.minute(), u.second(), u.nanosecond())
    })
}

/// Relies on chrono's `NaiveDate::from_ymd_opt`, `NaiveDate::and_hms_nano_opt`
/// and `DateTime::format`: the UTC instant written in the format `fmt`, where
/// the numbers make one. Formatting panics on a malformed format, so only the
/// date-time format is admitted.
#[verifier::external_body]
fn write_date_time(t: (i32, u32, u32, u32, u32, u32, u32), fmt: &str) -> (r: Option<String>)
    requires
        fmt@ == DATE_TIME_FMT@,
    ensures
        opt_view(r) == date_time_text(t, fmt@),
{
    chrono::NaiveDate::from_ymd_opt(t.0, t.1, t.2)
        .and_then(|d| d.and_hms_nano_opt(t.3, t.4, t.5, t.6))
        .map(|n| n.and_utc().format(fmt).to_string())
}

/// Relies on bigdecimal's `BigDecimal::from_str` and `to_plain_string`: the
/// number that `s` spells, written out in full without an exponent. Writing
/// out a number with a huge exponent does not end, so `s` holds none.
#[verifier::external_body]
fn plain_decimal(s: &str) -> (r: Option<String>)
    requires
        !contains_char(s@, 'e'),
        !contains_char(s@, 'E'),
    ensures
        opt_view(r) == decimal_plain(s@),
{
    bigdecimal::BigDecimal::from_str(s).ok().map(|d| d.to_plain_string())
}

/// A URI, kept as its text.
#[derive(Debug, PartialEq, Eq)]
pub struct URI(pub String);

impl URI {
    pub fn can_deserialize(value: &str) -> (r: bool)
        ensures
            r == has_sigil(value@, 'r'),
    {
        starts_with_sigil(value, 'r')
    }

    pub fn deserialize(value: &str) -> (r: URI)
        requires
            has_sigil(value@, 'r'),
        ensures
            r.0@ == payload(value@),
    {
        URI(payload_of(value))
    }

    pub fn parse(arg: &str) -> (r: URI)
        ensures
            r.0@ == arg@,
    {
        URI(arg.to_owned())
    }

    pub fn serialize(&self) -> (r: String)
        ensures
            r@ == sigil('r') + self.0@,
    {
        let mut r = sigil_text('r');
        r.append(self.0.as_str());
        r
    }
}

/// A UUID, kept as its text and not validated.
#[derive(Debug, PartialEq, Eq)]
pub struct UUID(pub String);

impl UUID {
    pub fn can_deserialize(value: &str) -> (r: bool)
        ensures
            r == has_sigil(value@, 'u'),
    {
        starts_with_sigil(value, 'u')
    }

    pub fn deserialize(value: &str) -> (r: UUID)
        requires
            has_sigil(value@, 'u'),
        ensures
            r.0@ == payload(value@),
    {
        UUID(payload_of(value))
    }

    pub fn parse(arg: &str) -> (r: UUID)
        ensures
            r.0@ == arg@,
    {
        UUID(arg.to_owned())
    }

    pub fn serialize(&self) -> (r: String)
        ensures
            r@ == sigil('u') + self.0@,
    {
        let mut r = sigil_text('u');
        r.append(self.0.as_str());
        r
    }
}

/// A namespaced identifier.
#[derive(Debug, PartialEq, Eq)]
pub struct NI {
    pub namespace: String,
    pub identifier: String,
}

/// The namespace and identifier that a `~:` payload holds: split at its last
/// colon.
pub open spec fn ni_parts(p: Seq<char>) -> Result<(Seq<char>, Seq<char>), CodecError> {
    match last_index(p, ':') {
        Some(k) => Ok((p.subrange(0, k), p.subrange(k + 1, p.len() as int))),
        None => Err(CodecError::MissingSeparator),
    }
}

impl NI {
    /// An identifier reads back from its text when it holds no colon.
    pub open spec fn wf(&self) -> bool {
        !contains_char(self.identifier@, ':')
    }

    pub fn can_deserialize(value: &str) -> (r: bool)
        ensures
            r == has_sigil(value@, ':'),
    {
        starts_with_sigil(value, ':')
    }

    pub fn deserialize(value: &str) -> (r: Result<NI, CodecError>)
        requires
            has_sigil(value@, ':'),
        ensures
            match r {
                Ok(n) => ni_parts(payload(value@)) == Ok::<_, CodecError>(
                    (n.namespace@, n.identifier@),
                ),
                Err(e) => ni_parts(payload(value@)) == Err::<(Seq<char>, Seq<char>), _>(e),
            },
    {
        let rest = payload_of(value);
        let cs = chars_of(rest.as_str());
        proof {
            crate::text::lemma_last_index_bounds(cs@, ':');
        }
        match find_last(&cs, ':') {
            Some(k) => {
                let n = cs.len();
                let namespace = rest.as_str().substring_char(0, k).to_owned();
                let identifier = rest.as_str().substring_char(k + 1, n).to_owned();
                Ok(NI { namespace, identifier })
            },
            None => Err(CodecError::MissingSeparator),
        }
    }

    pub fn new(namespace: &str, identifier: &str) -> (r: NI)
        ensures
            r.namespace@ == namespace@,
            r.identifier@ == identifier@,
    {
        NI { namespace: namespace.to_owned(), identifier: identifier.to_owned() }
    }

    pub fn serialize(&self) -> (r: String)
        ensures
            r@ == sigil(':') + self.namespace@ + seq![':'] + self.identifier@,
    {
        let mut r = sigil_text(':');
        r.append(self.namespace.as_str());
        let colon = crate::text::chars_to_string(&[':']);
        r.append(colon.as_str());
        r.append(self.identifier.as_str());
        r
    }
}

/// A byte string.
#[derive(Debug, PartialEq, Eq)]
pub struct ByteWrapper(pub Vec<u8>);

impl ByteWrapper {
    /// The bytes read back from their text.
    pub open spec fn wf(&self) -> bool {
        base64_bytes(base64_text(self.0@)) == Some(self.0@)
    }

    pub fn can_deserialize(value: &str) -> (r: bool)
        ensures
            r == has_sigil(value@, 'b'),
    {
        starts_with_sigil(value, 'b')
    }

    pub fn deserialize(value: &str) -> (r: Result<ByteWrapper, CodecError>)
        requires
            has_sigil(value@, 'b'),
        ensures
            r matches Ok(b) ==> base64_bytes(payload(value@)) == Some(b.0@) && b.wf(),
            r matches Err(e) ==> e == CodecError::InvalidBase64 && base64_bytes(payload(value@))
                is None,
    {
        let rest = payload_of(value);
        match base64_decode(rest.as_str()) {
            Some(b) => Ok(ByteWrapper(b)),
            None => Err(CodecError::InvalidBase64),
        }
    }

    pub fn from_vec(vec: Vec<u8>) -> (r: ByteWrapper)
        ensures
            r.0@ == vec@,
    {
        ByteWrapper(vec)
    }

    pub fn from_array(arg: &[u8; 5]) -> (r: ByteWrapper)
        ensures
            r.0@ == arg@,
    {
        let mut v: Vec<u8> = Vec::new();
        let mut i: usize = 0;
        while i < 5
            invariant
                i <= 5,
                arg@.len() == 5,
                v@ == arg@.subrange(0, i as int),
            decreases 5 - i,
        {
            v.push(arg[i]);
            i = i + 1;
        }
        assert(v@ =~= arg@);
        ByteWrapper(v)
    }

    pub fn serialize(&self) -> (r: String)
        ensures
            r@ == sigil('b') + base64_text(self.0@),
    {
        let mut r = sigil_text('b');
        let t = base64_encode(self.0.as_slice());
        r.append(t.as_str());
        r
    }
}

/// An exact decimal number, kept as the text that bigdecimal writes for it.
#[derive(Debug, PartialEq, Eq)]
pub struct BigDecimalWrapper(pub String);

/// The decimal that a payload reads as: its text written out in full, where
/// that text reads back as itself.
pub open spec fn decimal_of(p: Seq<char>) -> Result<Seq<char>, CodecError> {
    if contains_char(p, 'e') || contains_char(p, 'E') {
        Err(CodecError::InvalidDecimal)
    } else {
        match decimal_plain(p) {
            Some(t) => if !contains_char(t, 'e') && !contains_char(t, 'E') && decimal_plain(t)
                == Some(t) {
                Ok(t)
            } else {
                Err(CodecError::InvalidDecimal)
            },
            None => Err(CodecError::InvalidDecimal),
        }
    }
}

impl BigDecimalWrapper {
    /// The text is the full form of a number, which reads back as itself.
    pub open spec fn wf(&self) -> bool {
        decimal_of(self.0@) == Ok::<_, CodecError>(self.0@)
    }

    pub fn can_deserialize(value: &str) -> (r: bool)
        ensures
            r == has_sigil(value@, 'f'),
    {
        starts_with_sigil(value, 'f')
    }

    pub fn deserialize(value: &str) -> (r: Result<BigDecimalWrapper, CodecError>)
        requires
            has_sigil(value@, 'f'),
        ensures
            r matches Ok(d) ==> decimal_of(payload(value@)) == Ok::<_, CodecError>(d.0@),
            r matches Err(e) ==> decimal_of(payload(value@)) == Err::<Seq<char>, _>(e),
    {
        let rest = payload_of(value);
        Self::parse(rest.as_str())
    }

    pub fn parse(arg: &str) -> (r: Result<BigDecimalWrapper, CodecError>)
        ensures
            r matches Ok(d) ==> decimal_of(arg@) == Ok::<_, CodecError>(d.0@),
            r matches Err(e) ==> decimal_of(arg@) == Err::<Seq<char>, _>(e),
    {
        let cs = chars_of(arg);
        if crate::text::has_char(&cs, 'e') || crate::text::has_char(&cs, 'E') {
            return Err(CodecError::InvalidDecimal);
        }
        match plain_decimal(arg) {
            Some(t) => {
                let ts = chars_of(t.as_str());
                if crate::text::has_char(&ts, 'e') || crate::text::has_char(&ts, 'E') {
                    return Err(CodecError::InvalidDecimal);
                }
                match plain_decimal(t.as_str()) {
                    Some(t2) => if t2 == t {
                        Ok(BigDecimalWrapper(t))
                    } else {
                        Err(CodecError::InvalidDecimal)
                    },
                    None => Err(CodecError::InvalidDecimal),
                }
            },
            None => Err(CodecError::InvalidDecimal),
        }
    }

    pub fn serialize(&self) -> (r: String)
        ensures
            r@ == sigil('f') + self.0@,
    {
        let mut r = sigil_text('f');
        r.append(self.0.as_str());
        r
    }
}

/// A calendar date.
#[derive(Clone, Copy, Debug, PartialEq, Eq, Structural)]
pub struct Date {
    pub year: i32,
    pub month: u32,
    pub day: u32,
}

/// The date that a payload reads as, where it is stored as read.
pub open spec fn date_of(p: Seq<char>) -> Result<Date, CodecError> {
    match date_read(p, DATE_FMT@) {
        Some(t) => {
            let d = Date { year: t.0, month: t.1, day: t.2 };
            if d.wf() {
                Ok(d)
            } else {
                Err(CodecError::InvalidDate)
            }
        },
        None => Err(CodecError::InvalidDate),
    }
}

impl Date {
    /// The date's text, where the numbers make a date.
    pub open spec fn text(&self) -> Option<Seq<char>> {
        date_text(self.year, self.month, self.day, DATE_FMT@)
    }

    /// The numbers make a date whose text holds no `T` and reads back as it.
    pub open spec fn wf(&self) -> bool {
        &&& self.text() is Some
        &&& !contains_char(self.text()->Some_0, 'T')
        &&& date_read(self.text()->Some_0, DATE_FMT@) == Some((self.year, self.month, self.day))
    }

    pub fn can_deserialize(value: &str) -> (r: bool)
        ensures
            r == (has_sigil(value@, 't') && !contains_char(value@, 'T')),
    {
        starts_with_sigil(value, 't') && !crate::text::has_char(&chars_of(value), 'T')
    }

    pub fn deserialize(value: &str) -> (r: Result<Date, CodecError>)
        requires
            has_sigil(value@, 't'),
        ensures
            r == date_of(payload(value@)),
    {
        let rest = payload_of(value);
        Self::parse(rest.as_str())
    }

    pub fn parse(arg: &str) -> (r: Result<Date, CodecError>)
        ensures
            r == date_of(arg@),
            r matches Ok(d) ==> d.wf(),
    {
        match read_date(arg, DATE_FMT) {
            Some(t) => {
                let d = Date { year: t.0, month: t.1, day: t.2 };
                if d.reads_back() {
                    Ok(d)
                } else {
                    Err(CodecError::InvalidDate)
                }
            },
            None => Err(CodecError::InvalidDate),
        }
    }

    pub fn reads_back(&self) -> (r: bool)
        ensures
            r == self.wf(),
    {
        match write_date(self.year, self.month, self.day, DATE_FMT) {
            Some(t) => {
                if crate::text::has_char(&chars_of(t.as_str()), 'T') {
                    return false;
                }
                match read_date(t.as_str(), DATE_FMT) {
                    Some(u) => u.0 == self.year && u.1 == self.month && u.2 == self.day,
                    None => false,
                }
            },
            None => false,
        }
    }

    pub fn serialize(&self) -> (r: String)
        requires
            self.wf(),
        ensures
            r@ == sigil('t') + self.text()->Some_0,
    {
        let mut r = sigil_text('t');
        match write_date(self.year, self.month, self.day, DATE_FMT) {
            Some(t) => r.append(t.as_str()),
            None => {},
        }
        r
    }
}

/// A UTC instant with nanosecond precision.
#[derive(Clone, Copy, Debug, PartialEq, Eq, Structural)]
pub struct DateTimeWrapper {
    pub year: i32,
    pub month: u32,
    pub day: u32,
    pub hour: u32,
    pub minute: u32,
    pub second: u32,
    pub nanosecond: u32,
}

/// The instant that a payload reads as, in UTC, where it is stored as read.
pub open spec fn date_time_of(p: Seq<char>) -> Result<DateTimeWrapper, CodecError> {
    match date_time_read(p, DATE_TIME_FMT@) {
        Some(t) => {
            let d = DateTimeWrapper::from_fields(t);
            if d.wf() {
                Ok(d)
            } else {
                Err(CodecError::InvalidDateTime)
            }
        },
        None => Err(CodecError::InvalidDateTime),
    }
}

impl DateTimeWrapper {
    pub open spec fn fields(&self) -> (i32, u32, u32, u32, u32, u32, u32) {
        (self.year, self.month, self.day, self.hour, self.minute, self.second, self.nanosecond)
    }

    pub open spec fn from_fields(t: (i32, u32, u32, u32, u32, u32, u32)) -> DateTimeWrapper {
        DateTimeWrapper {
            year: t.0,
            month: t.1,
            day: t.2,
            hour: t.3,
            minute: t.4,
            second: t.5,
            nanosecond: t.6,
        }
    }

    /// The instant's text, where the numbers make one.
    pub open spec fn text(&self) -> Option<Seq<char>> {
        date_time_text(self.fields(), DATE_TIME_FMT@)
    }

    /// The numbers make an instant whose text holds a `T` and reads back as
    /// it.
    pub open spec fn wf(&self) -> bool {
        &&& self.text() is Some
        &&& contains_char(self.text()->Some_0, 'T')
        &&& date_time_read(self.text()->Some_0, DATE_TIME_FMT@) == Some(self.fields())
    }

    pub fn can_deserialize(value: &str) -> (r: bool)
        ensures
            r == (has_sigil(value@, 't') && contains_char(value@, 'T')),
    {
        starts_with_sigil(value, 't') && crate::text::has_char(&chars_of(value), 'T')
    }

    pub fn deserialize(value: &str) -> (r: Result<DateTimeWrapper, CodecError>)
        requires
            has_sigil(value@, 't'),
        ensures
            r == date_time_of(payload(value@)),
    {
        let rest = payload_of(value);
        Self::parse(rest.as_str())
    }

    pub fn parse(arg: &str) -> (r: Result<DateTimeWrapper, CodecError>)
        ensures
            r == date_time_of(arg@),
            r matches Ok(d) ==> d.wf(),
    {
        match read_date_time(arg, DATE_TIME_FMT) {
            Some(t) => {
                let d = DateTimeWrapper {
                    year: t.0,
                    month: t.1,
                    day: t.2,
                    hour: t.3,
                    minute: t.4,
                    second: t.5,
                    nanosecond: t.6,
                };
                if d.reads_back() {
                    Ok(d)
                } else {
                    Err(CodecError::InvalidDateTime)
                }
            },
            None => Err(CodecError::InvalidDateTime),
        }
    }

    fn as_fields(&self) -> (r: (i32, u32, u32, u32, u32, u32, u32))
        ensures
            r == self.fields(),
    {
        (self.year, self.month, self.day, self.hour, self.minute, self.second, self.nanosecond)
    }

    pub fn reads_back(&self) -> (r: bool)
        ensures
            r == self.wf(),
    {
        match write_date_time(self.as_fields(), DATE_TIME_FMT) {
            Some(t) => if !crate::text::has_char(&chars_of(t.as_str()), 'T') {
                false
            } else {
                match read_date_time(t.as_str(), DATE_TIME_FMT) {
                Some(u) => u.0 == self.year && u.1 == self.month && u.2 == self.day && u.3
                    == self.hour && u.4 == self.minute && u.5 == self.second && u.6
                    == self.nanosecond,
                    None => false,
                }
            },
            None => false,
        }
    }

    pub fn serialize(&self) -> (r: String)
        requires
            self.wf(),
        ensures
            r@ == sigil('t') + self.text()->Some_0,
    {
        let mut r = sigil_text('t');
        match write_date_time(self.as_fields(), DATE_TIME_FMT) {
            Some(t) => r.append(t.as_str()),
            None => {},
        }
        r
    }
}

} // verus!
