//! Log records and the JSON line that each one is written as.
use vstd::prelude::*;
use crate::json::{is_plain, json_quoted, lemma_plain_text_unescaped};

verus! {

/// Severity of a record, from most to least severe.
#[derive(Clone, Copy, Debug, PartialEq, Eq, Structural)]
pub enum Level {
    Error,
    Warn,
    Info,
    Debug,
    Trace,
}

/// An attribute value. `Raw` holds text that some other formatter already
/// rendered; it is written as it stands, without quotes or escaping, so the
/// line is valid JSON only where that text is itself a JSON value.
#[derive(Clone, Debug)]
pub enum Value {
    Str(String),
    I64(i64),
    U64(u64),
    Bool(bool),
    Raw(String),
}

/// One log event: a severity, its rendered message and its attributes in
/// the order they were given. Keys may repeat; they are written as given.
#[derive(Clone, Debug)]
pub struct Record {
    pub level: Level,
    pub message: String,
    pub attributes: Vec<(String, Value)>,
}

/// The `ts` field: milliseconds since the Unix epoch, or a calendar
/// timestamp in RFC 3339 form.
#[derive(Clone, Debug)]
pub enum Timestamp {
    Millis(u128),
    Rfc3339(String),
}

/// Which kind of timestamp a line carries.
#[derive(Clone, Copy, Debug, PartialEq, Eq, Structural)]
pub enum TimestampMode {
    EpochMillis,
    Rfc3339,
}

/// Why a line could not be written.
#[derive(Clone, Copy, Debug, PartialEq, Eq, Structural)]
pub enum FormatError {
    /// The system clock reads earlier than the Unix epoch.
    ClockBeforeEpoch,
    /// A calendar timestamp was asked for and the clock reads later than
    /// the year 9999.
    ClockBeyondCalendar,
}

pub open spec fn level_name(l: Level) -> Seq<char> {
    match l {
        Level::Error => "ERROR"@,
        Level::Warn => "WARN"@,
        Level::Info => "INFO"@,
        Level::Debug => "DEBUG"@,
        Level::Trace => "TRACE"@,
    }
}

pub open spec fn digit_char(d: nat) -> char {
    (d + 48) as char
}

/// Decimal digits of `n`, most significant first, no leading zeros.
pub open spec fn decimal(n: nat) -> Seq<char>
    decreases n,
{
    if n < 10 {
        seq![digit_char(n)]
    } else {
        decimal(n / 10) + seq![digit_char(n % 10)]
    }
}

/// An integer as JSON writes it: a minus sign for negatives, then digits.
pub open spec fn int_text(n: int) -> Seq<char> {
    if n < 0 {
        seq!['-'] + decimal((-n) as nat)
    } else {
        decimal(n as nat)
    }
}

pub open spec fn bool_text(b: bool) -> Seq<char> {
    if b {
        seq!['t', 'r', 'u', 'e']
    } else {
        seq!['f', 'a', 'l', 's', 'e']
    }
}

/// The text written for an attribute value.
pub open spec fn value_text(v: Value) -> Seq<char> {
    match v {
        Value::Str(s) => json_quoted(s@),
        Value::I64(n) => int_text(n as int),
        Value::U64(n) => int_text(n as int),
        Value::Bool(b) => bool_text(b),
        Value::Raw(s) => s@,
    }
}

/// The text written for the timestamp.
pub open spec fn ts_text(ts: Timestamp) -> Seq<char> {
    match ts {
        Timestamp::Millis(n) => int_text(n as int),
        Timestamp::Rfc3339(s) => json_quoted(s@),
    }
}

/// One object member: the quoted key, a colon, the value text.
pub open spec fn member(key: Seq<char>, value: Seq<char>) -> Seq<char> {
    json_quoted(key) + seq![':'] + value
}

/// The text for one attribute: a comma, then the member.
pub open spec fn attr_text(a: (String, Value)) -> Seq<char> {
    seq![','] + member(a.0@, value_text(a.1))
}

/// The text for a run of attributes, in order.
pub open spec fn attrs_text(a: Seq<(String, Value)>) -> Seq<char>
    decreases a.len(),
{
    if a.len() == 0 {
        Seq::empty()
    } else {
        attrs_text(a.drop_last()) + attr_text(a.last())
    }
}

/// The complete line for a record: `{"level":..,"ts":..,"msg":..`, the
/// attributes, then `}` and a newline.
pub open spec fn record_line(r: Record, ts: Timestamp) -> Seq<char> {
    seq!['{'] + member("level"@, json_quoted(level_name(r.level))) + seq![','] + member(
        "ts"@,
        ts_text(ts),
    ) + seq![','] + member("msg"@, json_quoted(r.message@)) + attrs_text(r.attributes@)
        + seq!['}', '\n']
}

/// The last millisecond of the year 9999, the end of the range in which
/// calendar timestamps have a four-digit year.
pub const MAX_CALENDAR_MILLIS: u128 = 253402300799999;

/// The shape `YYYY-MM-DDTHH:MM:SS.mmmZ`: a UTC timestamp in RFC 3339 form
/// with exactly three fraction digits.
pub open spec fn is_rfc3339_millis(s: Seq<char>) -> bool {
    &&& s.len() == 24
    &&& s[4] == '-' && s[7] == '-' && s[10] == 'T'
    &&& s[13] == ':' && s[16] == ':' && s[19] == '.' && s[23] == 'Z'
    &&& forall|i: int|
        0 <= i < 24 && i != 4 && i != 7 && i != 10 && i != 13 && i != 16 && i != 19 && i != 23
            ==> '0' <= #[trigger] s[i] && s[i] <= '9'
}

/// The RFC 3339 text of the instant `ms` milliseconds after the Unix epoch.
pub uninterp spec fn rfc3339_of(ms: int) -> Seq<char>;

/// serde_json's error type, carried through opaque.
#[verifier::external_type_specification]
#[verifier::external_body]
pub struct ExJsonError(serde_json::Error);

/// Relies on serde_json::to_string: a `str` is serialized as a JSON string
/// literal by format_escaped_str (quote, backslash and the named controls
/// get two-character escapes, other controls `\u00xx` in lower-case hex,
/// everything else is copied). Its documented errors come from a failing
/// `Serialize` impl or non-string map keys, neither of which a `str` has.
#[verifier::external_body]
fn json_literal(raw: &str) -> (r: Result<String, serde_json::Error>)
    ensures
        r is Ok,
        r->Ok_0@ == json_quoted(raw@),
{
    serde_json::to_string(raw)
}

/// Relies on SystemTime::elapsed on UNIX_EPOCH and Duration::as_millis:
/// the milliseconds since the epoch, or `None` where the clock reads
/// earlier than the epoch.
#[verifier::external_body]
pub(crate) fn epoch_millis() -> (r: Option<u128>) {
    match std::time::UNIX_EPOCH.elapsed() {
        Ok(d) => Some(d.as_millis()),
        Err(_) => None,
    }
}

/// Relies on chrono's DateTime::from_timestamp_millis, which returns
/// `None` only outside NaiveDateTime's range (some 262,000 years from the
/// epoch), and on to_rfc3339_opts with milliseconds and `Z`, whose
/// write_rfc3339 writes a UTC instant with a year from 0 to 9999 as
/// `YYYY-MM-DDTHH:MM:SS.mmmZ`. The text depends on `ms` alone.
#[verifier::external_body]
pub(crate) fn rfc3339_millis(ms: i64) -> (r: Option<String>)
    ensures
        r matches Some(s) ==> s@ == rfc3339_of(ms as int),
        0 <= ms <= MAX_CALENDAR_MILLIS ==> r is Some && is_rfc3339_millis(r->Some_0@),
{
    match chrono::DateTime::from_timestamp_millis(ms) {
        Some(d) => Some(d.to_rfc3339_opts(chrono::SecondsFormat::Millis, true)),
        None => None,
    }
}

/// Appends `raw` to `out` as a JSON string literal.
pub fn write_json_str(out: &mut String, raw: &str)
    ensures
        final(out)@ == old(out)@ + json_quoted(raw@),
{
    let lit = json_literal(raw);
    match lit {
        Ok(s) => out.append(s.as_str()),
        Err(_) => {},
    }
}

impl Level {
    /// The upper-case name of the level.
    pub fn as_str(&self) -> (r: &'static str)
        ensures
            r@ == level_name(*self),
    {
        match self {
            Level::Error => "ERROR",
            Level::Warn => "WARN",
            Level::Info => "INFO",
            Level::Debug => "DEBUG",
            Level::Trace => "TRACE",
        }
    }
}

fn digit_str(d: u128) -> (r: &'static str)
    requires
        d < 10,
    ensures
        r@ == seq![digit_char(d as nat)],
{
    proof {
        reveal_strlit("0");
        reveal_strlit("1");
        reveal_strlit("2");
        reveal_strlit("3");
        reveal_strlit("4");
        reveal_strlit("5");
        reveal_strlit("6");
        reveal_strlit("7");
        reveal_strlit("8");
        reveal_strlit("9");
    }
    if d == 0 {
        "0"
    } else if d == 1 {
        "1"
    } else if d == 2 {
        "2"
    } else if d == 3 {
        "3"
    } else if d == 4 {
        "4"
    } else if d == 5 {
        "5"
    } else if d == 6 {
        "6"
    } else if d == 7 {
        "7"
    } else if d == 8 {
        "8"
    } else {
        "9"
    }
}

/// Appends the decimal digits of `n`.
pub fn write_decimal(out: &mut String, n: u128)
    ensures
        final(out)@ == old(out)@ + decimal(n as nat),
    decreases n,
{
    if n >= 10 {
        write_decimal(out, n / 10);
    }
    let d = digit_str(n % 10);
    out.append(d);
    proof {
        if n >= 10 {
            assert(decimal(n as nat) == decimal((n / 10) as nat) + seq![digit_char((n % 10) as nat)]);
        }
    }
    assert(final(out)@ =~= old(out)@ + decimal(n as nat));
}

/// Appends the text of an attribute value.
pub fn write_value(out: &mut String, v: &Value)
    ensures
        final(out)@ == old(out)@ + value_text(*v),
{
    proof {
        reveal_strlit("-");
        reveal_strlit("true");
        reveal_strlit("false");
    }
    match v {
        Value::Str(s) => write_json_str(out, s.as_str()),
        Value::I64(n) => {
            if *n < 0 {
                out.append("-");
                let m: u128 = (0 - (*n as i128)) as u128;
                write_decimal(out, m);
            } else {
                write_decimal(out, *n as u128);
            }
        },
        Value::U64(n) => write_decimal(out, *n as u128),
        Value::Bool(b) => {
            if *b {
                out.append("true");
            } else {
                out.append("false");
            }
        },
        Value::Raw(s) => out.append(s.as_str()),
    }
    assert(final(out)@ =~= old(out)@ + value_text(*v));
}

/// Appends the line for `record`, stamped with `ts`: the level, the
/// timestamp, the escaped message, then each attribute in order with its
/// key escaped, and a closing brace and newline.
pub fn write_record(out: &mut String, record: &Record, ts: &Timestamp)
    ensures
        final(out)@ == old(out)@ + record_line(*record, *ts),
{
    proof {
        reveal_strlit("{");
        reveal_strlit(":");
        reveal_strlit(",");
        reveal_strlit("}\n");
    }
    let ghost start = out@;
    out.append("{");
    write_json_str(out, "level");
    out.append(":");
    write_json_str(out, record.level.as_str());
    out.append(",");
    write_json_str(out, "ts");
    out.append(":");
    match ts {
        Timestamp::Millis(n) => write_decimal(out, *n),
        Timestamp::Rfc3339(s) => write_json_str(out, s.as_str()),
    }
    out.append(",");
    write_json_str(out, "msg");
    out.append(":");
    write_json_str(out, record.message.as_str());
    let ghost head = out@;
    assert(head =~= start + seq!['{'] + member("level"@, json_quoted(level_name(record.level)))
        + seq![','] + member("ts"@, ts_text(*ts)) + seq![','] + member(
        "msg"@,
        json_quoted(record.message@),
    ));
    let n = record.attributes.len();
    let mut i: usize = 0;
    while i < n
        invariant
            n == record.attributes@.len(),
            i <= n,
            out@ == head + attrs_text(record.attributes@.subrange(0, i as int)),
        decreases n - i,
    {
        let ghost before = out@;
        let pair = &record.attributes[i];
        proof {
            reveal_strlit(",");
            reveal_strlit(":");
        }
        out.append(",");
        write_json_str(out, pair.0.as_str());
        out.append(":");
        write_value(out, &pair.1);
        proof {
            let a = record.attributes@.subrange(0, i + 1);
            assert(a.drop_last() =~= record.attributes@.subrange(0, i as int));
            assert(a.last() == record.attributes@[i as int]);
            assert(out@ =~= before + attr_text(record.attributes@[i as int]));
        }
        i = i + 1;
    }
    out.append("}\n");
    assert(record.attributes@.subrange(0, n as int) =~= record.attributes@);
    assert(final(out)@ =~= old(out)@ + record_line(*record, *ts));
}

proof fn lemma_plain_literal(s: Seq<char>)
    requires
        forall|i: int|
            0 <= i < s.len() ==> ('a' <= #[trigger] s[i] <= 'z') || ('A' <= s[i] <= 'Z'),
    ensures
        json_quoted(s) == seq!['"'] + s + seq!['"'],
{
    assert forall|i: int| 0 <= i < s.len() implies is_plain(#[trigger] s[i]) by {
        assert(('a' <= s[i] <= 'z') || ('A' <= s[i] <= 'Z'));
    }
    lemma_plain_text_unescaped(s);
}

/// The level name and the keys `level`, `ts` and `msg` are written as
/// they stand between quotes: none of them holds a character to escape.
pub proof fn lemma_fixed_text_verbatim(l: Level)
    ensures
        json_quoted(level_name(l)) == seq!['"'] + level_name(l) + seq!['"'],
        json_quoted("level"@) == seq!['"'] + "level"@ + seq!['"'],
        json_quoted("ts"@) == seq!['"'] + "ts"@ + seq!['"'],
        json_quoted("msg"@) == seq!['"'] + "msg"@ + seq!['"'],
{
    reveal_strlit("ERROR");
    reveal_strlit("WARN");
    reveal_strlit("INFO");
    reveal_strlit("DEBUG");
    reveal_strlit("TRACE");
    reveal_strlit("level");
    reveal_strlit("ts");
    reveal_strlit("msg");
    lemma_plain_literal(level_name(l));
    lemma_plain_literal("level"@);
    lemma_plain_literal("ts"@);
    lemma_plain_literal("msg"@);
}

} // verus!
