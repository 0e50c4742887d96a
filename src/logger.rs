//! Stamping and writing a record, the record written for a panic, and the
//! once-only registration of the logger.
use vstd::prelude::*;
use crate::json::{is_plain, lemma_plain_text_unescaped};
use crate::record::{
    FormatError, Level, Record, Timestamp, TimestampMode, Value, MAX_CALENDAR_MILLIS, decimal,
    epoch_millis, is_rfc3339_millis, record_line, rfc3339_millis, rfc3339_of, ts_text,
    write_decimal, write_record,
};
use crate::parse::{JsonScalar, is_scalar, lemma_record_line_parses, parse_line};

verus! {

/// A timestamp of the kind that `mode` asks for. A calendar one is the
/// RFC 3339 text of an instant from the epoch to the end of the year 9999,
/// in the shape `YYYY-MM-DDTHH:MM:SS.mmmZ`.
pub open spec fn stamped_as(ts: Timestamp, mode: TimestampMode) -> bool {
    match mode {
        TimestampMode::EpochMillis => ts is Millis,
        TimestampMode::Rfc3339 => match ts {
            Timestamp::Rfc3339(s) => is_rfc3339_millis(s@) && exists|ms: int|
                0 <= ms <= MAX_CALENDAR_MILLIS && s@ == #[trigger] rfc3339_of(ms),
            Timestamp::Millis(_) => false,
        },
    }
}

/// The timestamp for a clock reading of `ms` milliseconds since the Unix
/// epoch: the reading itself in integer mode; in calendar mode its RFC 3339
/// text, or `ClockBeyondCalendar` where the reading is past the year 9999.
pub fn stamp(ms: u128, mode: TimestampMode) -> (r: Result<Timestamp, FormatError>)
    ensures
        mode == TimestampMode::EpochMillis ==> r == Ok::<Timestamp, FormatError>(
            Timestamp::Millis(ms),
        ),
        mode == TimestampMode::Rfc3339 && ms > MAX_CALENDAR_MILLIS ==> r == Err::<
            Timestamp,
            FormatError,
        >(FormatError::ClockBeyondCalendar),
        mode == TimestampMode::Rfc3339 && ms <= MAX_CALENDAR_MILLIS ==> (r matches Ok(
            Timestamp::Rfc3339(s),
        ) && s@ == rfc3339_of(ms as int) && stamped_as(r->Ok_0, mode)),
{
    match mode {
        TimestampMode::EpochMillis => Ok(Timestamp::Millis(ms)),
        TimestampMode::Rfc3339 => {
            if ms > MAX_CALENDAR_MILLIS {
                return Err(FormatError::ClockBeyondCalendar);
            }
            match rfc3339_millis(ms as i64) {
                Some(s) => {
                    let ts = Timestamp::Rfc3339(s);
                    assert(stamped_as(ts, mode));
                    Ok(ts)
                },
                None => Err(FormatError::ClockBeyondCalendar),
            }
        },
    }
}

/// Appends the line for `record`, stamped now: the clock is read once and
/// the reading goes through `stamp`. Fails, leaving `out` as it was, where
/// the clock reads earlier than the Unix epoch, or where `stamp` fails.
pub fn write(out: &mut String, record: &Record, mode: TimestampMode) -> (r: Result<
    (),
    FormatError,
>)
    ensures
        r is Ok ==> exists|ms: u128, ts: Timestamp|
            stamp_gives(ms, mode, ts) && final(out)@ == old(out)@ + record_line(*record, ts),
        r is Err ==> final(out)@ == old(out)@ && (r == Err::<(), FormatError>(
            FormatError::ClockBeforeEpoch,
        ) || (mode == TimestampMode::Rfc3339 && r == Err::<(), FormatError>(
            FormatError::ClockBeyondCalendar,
        ))),
{
    let ms = match epoch_millis() {
        Some(ms) => ms,
        None => return Err(FormatError::ClockBeforeEpoch),
    };
    let ts = match stamp(ms, mode) {
        Ok(ts) => ts,
        Err(e) => return Err(e),
    };
    write_record(out, record, &ts);
    assert(stamp_gives(ms, mode, ts));
    Ok(())
}

/// `ts` is what `stamp` gives for the reading `ms`: the reading itself in
/// integer mode, its RFC 3339 text in calendar mode.
pub open spec fn stamp_gives(ms: u128, mode: TimestampMode, ts: Timestamp) -> bool {
    match mode {
        TimestampMode::EpochMillis => ts == Timestamp::Millis(ms),
        TimestampMode::Rfc3339 => ms <= MAX_CALENDAR_MILLIS && stamped_as(ts, mode) && (ts matches Timestamp::Rfc3339(s) && s@ == rfc3339_of(ms as int)),
    }
}

/// A calendar timestamp of the form that `write` stamps is written as
/// its text between two quotes, with nothing escaped.
pub proof fn lemma_calendar_ts_verbatim(ts: Timestamp)
    requires
        stamped_as(ts, TimestampMode::Rfc3339),
    ensures
        ts_text(ts) == seq!['"'] + ts->Rfc3339_0@ + seq!['"'],
{
    let s = ts->Rfc3339_0@;
    assert forall|i: int| 0 <= i < s.len() implies is_plain(#[trigger] s[i]) by {
        if i != 4 && i != 7 && i != 10 && i != 13 && i != 16 && i != 19 && i != 23 {
            assert('0' <= s[i] && s[i] <= '9');
        }
    }
    lemma_plain_text_unescaped(s);
}

/// The `ts` member of a line stamped from the clock reading `ms` reads
/// back as that reading: in integer mode the integer `ms` itself, in
/// calendar mode the RFC 3339 text of `ms`, shaped `YYYY-MM-DDTHH:MM:SS.mmmZ`.
pub proof fn lemma_stamped_ts_reads_back(r: Record, ms: u128, mode: TimestampMode, ts: Timestamp)
    requires
        stamp_gives(ms, mode, ts),
        forall|i: int| 0 <= i < r.attributes@.len() ==> is_scalar(#[trigger] r.attributes@[i].1),
    ensures
        parse_line(record_line(r, ts)) is Some,
        parse_line(record_line(r, ts))->Some_0[1].0 == "ts"@,
        mode == TimestampMode::EpochMillis ==> parse_line(record_line(r, ts))->Some_0[1].1
            == JsonScalar::Num(ms as int),
        mode == TimestampMode::Rfc3339 ==> parse_line(record_line(r, ts))->Some_0[1].1
            == JsonScalar::Str(rfc3339_of(ms as int)) && is_rfc3339_millis(rfc3339_of(ms as int)),
{
    lemma_record_line_parses(r, ts);
}

/// The text of a panic payload: the payload's own text where it is text,
/// and `Box<Any>` where it is some other value.
pub fn panic_text<'a>(payload: Option<&'a str>) -> (r: &'a str)
    ensures
        r@ == match payload {
            Some(t) => t@,
            None => "Box<Any>"@,
        },
{
    match payload {
        Some(t) => t,
        None => "Box<Any>",
    }
}

pub open spec fn panic_message(msg: Seq<char>) -> Seq<char> {
    "panicked at '"@ + msg + "'"@
}

pub open spec fn location_text(file: Seq<char>, line: u32) -> Seq<char> {
    file + seq![':'] + decimal(line as nat)
}

/// Whether an attribute has key `k` and the text value `v`.
pub open spec fn text_attr(a: (String, Value), k: Seq<char>, v: Seq<char>) -> bool {
    a.0@ == k && match a.1 {
        Value::Str(s) => s@ == v,
        _ => false,
    }
}

/// Appends a text attribute to a list.
fn push_text_attr(attrs: &mut Vec<(String, Value)>, key: &str, value: String)
    ensures
        final(attrs)@.len() == old(attrs)@.len() + 1,
        forall|i: int| 0 <= i < old(attrs)@.len() ==> final(attrs)@[i] == old(attrs)@[i],
        text_attr(final(attrs)@.last(), key@, value@),
{
    attrs.push((String::from_str(key), Value::Str(value)));
}

/// The record written for a panic: level error, message
/// `panicked at '<msg>'`, then the attributes `thread` (`unnamed` where
/// the thread has no name), `location` as `file:line` where it is known,
/// and `backtrace` where one was captured.
pub fn panic_record(
    msg: &str,
    thread: Option<&str>,
    location: Option<(&str, u32)>,
    backtrace: Option<String>,
) -> (r: Record)
    ensures
        r.level == Level::Error,
        r.message@ == panic_message(msg@),
        r.attributes@.len() == 1 + (if location is Some {
            1int
        } else {
            0
        }) + (if backtrace is Some {
            1int
        } else {
            0
        }),
        text_attr(
            r.attributes@[0],
            "thread"@,
            match thread {
                Some(t) => t@,
                None => "unnamed"@,
            },
        ),
        location matches Some((file, line)) ==> text_attr(
            r.attributes@[1],
            "location"@,
            location_text(file@, line),
        ),
        backtrace matches Some(b) ==> text_attr(r.attributes@.last(), "backtrace"@, b@),
{
    let mut message = String::from_str("panicked at '");
    message.append(msg);
    message.append("'");
    let mut attrs: Vec<(String, Value)> = Vec::new();
    let name = match thread {
        Some(t) => t,
        None => "unnamed",
    };
    push_text_attr(&mut attrs, "thread", String::from_str(name));
    match location {
        Some((file, line)) => {
            let mut text = String::from_str(file);
            text.append(":");
            proof {
                reveal_strlit(":");
            }
            write_decimal(&mut text, line as u128);
            assert(text@ =~= location_text(file@, line));
            push_text_attr(&mut attrs, "location", text);
        },
        None => {},
    }
    match backtrace {
        Some(b) => push_text_attr(&mut attrs, "backtrace", b),
        None => {},
    }
    Record { level: Level::Error, message, attributes: attrs }
}

/// Whether the process-wide logger has been installed.
pub struct Registry {
    installed: bool,
}

/// Why installing the logger failed.
#[derive(Clone, Copy, Debug, PartialEq, Eq, Structural)]
pub enum InitError {
    /// A logger was installed before.
    AlreadyInitialized,
}

impl Registry {
    pub closed spec fn is_installed(&self) -> bool {
        self.installed
    }

    /// A registry with no logger installed yet.
    pub fn new() -> (r: Registry)
        ensures
            !r.is_installed(),
    {
        Registry { installed: false }
    }

    /// Whether a logger has been installed.
    pub fn installed(&self) -> (r: bool)
        ensures
            r == self.is_installed(),
    {
        self.installed
    }
}

/// Installs the logger once: the first call succeeds and marks it
/// installed; every later call fails with `AlreadyInitialized` and changes
/// nothing.
pub fn try_init(registry: &mut Registry) -> (r: Result<(), InitError>)
    ensures
        old(registry).is_installed() ==> r == Err::<(), InitError>(InitError::AlreadyInitialized)
            && final(registry).is_installed(),
        !old(registry).is_installed() ==> r is Ok && final(registry).is_installed(),
{
    if registry.installed {
        Err(InitError::AlreadyInitialized)
    } else {
        registry.installed = true;
        Ok(())
    }
}

/// Installs the logger; to be called once per process.
pub fn init(registry: &mut Registry)
    requires
        !old(registry).is_installed(),
    ensures
        final(registry).is_installed(),
{
    let r = try_init(registry);
    assert(r is Ok);
}

} // verus!
