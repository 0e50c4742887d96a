//! A reader for the flat JSON objects that log lines hold, and the laws
//! that tie it to what the encoder writes.
use vstd::prelude::*;
use crate::json::{json_quoted, parse_string, lemma_quoted_parses};
use crate::record::{
    Record, Timestamp, Value, attrs_text, bool_text, decimal, digit_char,
    int_text, level_name, member, record_line, ts_text, value_text,
};

verus! {

/// A scalar JSON value as read from a line.
pub enum JsonScalar {
    Str(Seq<char>),
    Num(int),
    Bool(bool),
}

pub open spec fn is_digit(c: char) -> bool {
    '0' <= c && c <= '9'
}

/// Length of the run of decimal digits at the front of `t`.
pub open spec fn digit_run(t: Seq<char>) -> nat
    decreases t.len(),
{
    if t.len() > 0 && is_digit(t[0]) {
        1 + digit_run(t.drop_first())
    } else {
        0
    }
}

/// The number that a run of decimal digits denotes.
pub open spec fn digits_value(s: Seq<char>) -> nat
    decreases s.len(),
{
    if s.len() == 0 {
        0
    } else {
        digits_value(s.drop_last()) * 10 + (s.last() as nat - 48) as nat
    }
}

/// Reads an integer at the front of `t`: an optional minus sign and at
/// least one digit, with no leading zero before further digits.
pub open spec fn parse_int(t: Seq<char>) -> Option<(int, Seq<char>)> {
    let neg = t.len() > 0 && t[0] == '-';
    let body = if neg {
        t.drop_first()
    } else {
        t
    };
    let k = digit_run(body);
    if k == 0 || (k > 1 && body[0] == '0') {
        None
    } else {
        let v = digits_value(body.take(k as int));
        Some((if neg {
            -v
        } else {
            v as int
        }, body.skip(k as int)))
    }
}

/// Reads one scalar value (string, integer, `true` or `false`) at the
/// front of `t`, and returns it with what follows.
pub open spec fn parse_scalar(t: Seq<char>) -> Option<(JsonScalar, Seq<char>)> {
    if t.len() > 0 && t[0] == '"' {
        match parse_string(t) {
            Some((s, rest)) => Some((JsonScalar::Str(s), rest)),
            None => None,
        }
    } else if t.len() >= 4 && t.take(4) == bool_text(true) {
        Some((JsonScalar::Bool(true), t.skip(4)))
    } else if t.len() >= 5 && t.take(5) == bool_text(false) {
        Some((JsonScalar::Bool(false), t.skip(5)))
    } else {
        match parse_int(t) {
            Some((n, rest)) => Some((JsonScalar::Num(n), rest)),
            None => None,
        }
    }
}

/// Reads `"key":value` members separated by commas up to the closing
/// `}` and newline that end the line.
pub open spec fn parse_members(t: Seq<char>) -> Option<Seq<(Seq<char>, JsonScalar)>>
    decreases t.len(),
{
    match parse_string(t) {
        Some((k, r1)) => if r1.len() > 0 && r1[0] == ':' {
            match parse_scalar(r1.drop_first()) {
                Some((v, r2)) => if r2 == seq!['}', '\n'] {
                    Some(seq![(k, v)])
                } else if r2.len() > 0 && r2[0] == ',' && r2.len() <= t.len() {
                    match parse_members(r2.drop_first()) {
                        Some(ms) => Some(seq![(k, v)] + ms),
                        None => None,
                    }
                } else {
                    None
                },
                None => None,
            }
        } else {
            None
        },
        None => None,
    }
}

/// Reads a whole log line: one flat JSON object and a newline.
pub open spec fn parse_line(t: Seq<char>) -> Option<Seq<(Seq<char>, JsonScalar)>> {
    if t.len() > 0 && t[0] == '{' {
        if t.drop_first() == seq!['}', '\n'] {
            Some(Seq::empty())
        } else {
            parse_members(t.drop_first())
        }
    } else {
        None
    }
}

/// A value that is written as a JSON scalar (all but `Raw`).
pub open spec fn is_scalar(v: Value) -> bool {
    !(v is Raw)
}

/// The scalar that a value reads back as. A `Raw` value is written
/// unquoted and is not a scalar this reader knows, so its arm says nothing
/// of how it reads back: every law that uses this function first requires
/// `is_scalar`, which leaves `Raw` out.
pub open spec fn scalar_of(v: Value) -> JsonScalar {
    match v {
        Value::Str(s) => JsonScalar::Str(s@),
        Value::I64(n) => JsonScalar::Num(n as int),
        Value::U64(n) => JsonScalar::Num(n as int),
        Value::Bool(b) => JsonScalar::Bool(b),
        Value::Raw(s) => JsonScalar::Str(s@),
    }
}

pub open spec fn ts_scalar(ts: Timestamp) -> JsonScalar {
    match ts {
        Timestamp::Millis(n) => JsonScalar::Num(n as int),
        Timestamp::Rfc3339(s) => JsonScalar::Str(s@),
    }
}

/// What a record's line reads back as: `level`, `ts`, `msg`, then each
/// attribute's key and value, in order.
pub open spec fn expected_members(r: Record, ts: Timestamp) -> Seq<(Seq<char>, JsonScalar)> {
    seq![
        ("level"@, JsonScalar::Str(level_name(r.level))),
        ("ts"@, ts_scalar(ts)),
        ("msg"@, JsonScalar::Str(r.message@)),
    ] + r.attributes@.map_values(|a: (String, Value)| (a.0@, scalar_of(a.1)))
}

/// Whether `rest` starts with what may follow a scalar on a line.
pub open spec fn ends_scalar(rest: Seq<char>) -> bool {
    rest.len() > 0 && (rest[0] == ',' || rest[0] == '}')
}

/// `text` reads back as `v` in front of any comma or closing brace.
pub open spec fn parses_as(text: Seq<char>, v: JsonScalar) -> bool {
    forall|rest: Seq<char>|
        ends_scalar(rest) ==> #[trigger] parse_scalar(text + rest) == Some((v, rest))
}

/// Members written one after another: the first bare, the rest each
/// behind a comma.
pub open spec fn join_tail(ms: Seq<(Seq<char>, Seq<char>)>) -> Seq<char>
    decreases ms.len(),
{
    if ms.len() == 0 {
        Seq::empty()
    } else {
        seq![','] + member(ms[0].0, ms[0].1) + join_tail(ms.drop_first())
    }
}

proof fn lemma_digit_char(d: nat)
    requires
        d < 10,
    ensures
        is_digit(digit_char(d)),
        digit_char(d) as nat == d + 48,
        d > 0 ==> digit_char(d) != '0',
{
}

proof fn lemma_decimal_digits(n: nat)
    ensures
        decimal(n).len() >= 1,
        forall|i: int| 0 <= i < decimal(n).len() ==> is_digit(#[trigger] decimal(n)[i]),
        decimal(n).len() > 1 ==> n >= 10,
        n > 0 ==> decimal(n)[0] != '0',
        digits_value(decimal(n)) == n,
    decreases n,
{
    if n >= 10 {
        lemma_decimal_digits(n / 10);
        lemma_digit_char(n % 10);
        let d = decimal(n);
        assert(d.drop_last() =~= decimal(n / 10));
        assert(d.last() == digit_char(n % 10));
        assert(digits_value(d) == digits_value(d.drop_last()) * 10 + (d.last() as nat - 48) as nat);
        assert(digits_value(d) == (n / 10) * 10 + n % 10);
        vstd::arithmetic::div_mod::lemma_fundamental_div_mod(n as int, 10);
        assert(n / 10 > 0);
        assert(d[0] == decimal(n / 10)[0]);
        assert forall|i: int| 0 <= i < d.len() implies is_digit(#[trigger] d[i]) by {
            if i < d.len() - 1 {
                assert(d[i] == decimal(n / 10)[i]);
            }
        }
    } else {
        lemma_digit_char(n);
        let d = decimal(n);
        assert(d.drop_last() =~= Seq::<char>::empty());
        assert(digits_value(Seq::<char>::empty()) == 0);
        assert(digits_value(d) == digits_value(d.drop_last()) * 10 + (d.last() as nat - 48) as nat);
    }
}

proof fn lemma_digit_run(s: Seq<char>, rest: Seq<char>)
    requires
        forall|i: int| 0 <= i < s.len() ==> is_digit(#[trigger] s[i]),
        rest.len() == 0 || !is_digit(rest[0]),
    ensures
        digit_run(s + rest) == s.len(),
    decreases s.len(),
{
    if s.len() > 0 {
        assert((s + rest).drop_first() =~= s.drop_first() + rest);
        assert(is_digit(s[0]));
        lemma_digit_run(s.drop_first(), rest);
    } else {
        assert(s + rest =~= rest);
    }
}

proof fn lemma_int_parses(n: int)
    ensures
        parses_as(int_text(n), JsonScalar::Num(n)),
{
    assert forall|rest: Seq<char>| ends_scalar(rest) implies #[trigger] parse_scalar(
        int_text(n) + rest,
    ) == Some((JsonScalar::Num(n), rest)) by {
        let m: nat = if n < 0 {
            (-n) as nat
        } else {
            n as nat
        };
        lemma_decimal_digits(m);
        lemma_digit_run(decimal(m), rest);
        let t = int_text(n) + rest;
        let body = decimal(m) + rest;
        if n < 0 {
            assert(t.drop_first() =~= body);
        } else {
            assert(t =~= body);
        }
        assert(body.take(decimal(m).len() as int) =~= decimal(m));
        assert(body.skip(decimal(m).len() as int) =~= rest);
        assert(t[0] == '-' || is_digit(t[0])) by {
            if n >= 0 {
                assert(t[0] == decimal(m)[0]);
            }
        }
        assert(!(t.len() >= 4 && t.take(4) == bool_text(true))) by {
            if t.len() >= 4 {
                assert(t.take(4)[0] == t[0]);
                assert(bool_text(true)[0] == 't');
            }
        }
        assert(!(t.len() >= 5 && t.take(5) == bool_text(false))) by {
            if t.len() >= 5 {
                assert(t.take(5)[0] == t[0]);
                assert(bool_text(false)[0] == 'f');
            }
        }
    }
}

proof fn lemma_bool_parses(b: bool)
    ensures
        parses_as(bool_text(b), JsonScalar::Bool(b)),
{
    assert forall|rest: Seq<char>| ends_scalar(rest) implies #[trigger] parse_scalar(
        bool_text(b) + rest,
    ) == Some((JsonScalar::Bool(b), rest)) by {
        let t = bool_text(b) + rest;
        if b {
            assert(t.take(4) =~= bool_text(true));
            assert(t.skip(4) =~= rest);
        } else {
            assert(!(t.len() >= 4 && t.take(4) == bool_text(true))) by {
                assert(t.take(4)[0] == 'f');
            }
            assert(t.take(5) =~= bool_text(false));
            assert(t.skip(5) =~= rest);
        }
    }
}

proof fn lemma_str_parses(s: Seq<char>)
    ensures
        parses_as(json_quoted(s), JsonScalar::Str(s)),
{
    assert forall|rest: Seq<char>| ends_scalar(rest) implies #[trigger] parse_scalar(
        json_quoted(s) + rest,
    ) == Some((JsonScalar::Str(s), rest)) by {
        lemma_quoted_parses(s, rest);
    }
}

proof fn lemma_value_parses(v: Value)
    requires
        is_scalar(v),
    ensures
        parses_as(value_text(v), scalar_of(v)),
{
    match v {
        Value::Str(s) => lemma_str_parses(s@),
        Value::I64(n) => lemma_int_parses(n as int),
        Value::U64(n) => lemma_int_parses(n as int),
        Value::Bool(b) => lemma_bool_parses(b),
        Value::Raw(_) => {},
    }
}

proof fn lemma_ts_parses(ts: Timestamp)
    ensures
        parses_as(ts_text(ts), ts_scalar(ts)),
{
    match ts {
        Timestamp::Millis(n) => lemma_int_parses(n as int),
        Timestamp::Rfc3339(s) => lemma_str_parses(s@),
    }
}

proof fn lemma_member_step(k: Seq<char>, text: Seq<char>, v: JsonScalar, tail: Seq<char>)
    requires
        parses_as(text, v),
        ends_scalar(tail),
    ensures
        parse_members(member(k, text) + tail) == (if tail == seq!['}', '\n'] {
            Some(seq![(k, v)])
        } else if tail[0] == ',' {
            match parse_members(tail.drop_first()) {
                Some(ms) => Some(seq![(k, v)] + ms),
                None => None,
            }
        } else {
            None
        }),
{
    let t = member(k, text) + tail;
    let r1 = seq![':'] + text + tail;
    assert(t =~= json_quoted(k) + r1);
    lemma_quoted_parses(k, r1);
    assert(r1.drop_first() =~= text + tail);
    assert(parse_scalar(text + tail) == Some((v, tail)));
}

/// Members whose value texts each read back as the matching scalar read
/// back as those keys and scalars, in order.
proof fn lemma_members_parse(ms: Seq<(Seq<char>, Seq<char>)>, vs: Seq<JsonScalar>)
    requires
        ms.len() >= 1,
        vs.len() == ms.len(),
        forall|i: int| 0 <= i < ms.len() ==> parses_as(#[trigger] ms[i].1, vs[i]),
    ensures
        parse_members(member(ms[0].0, ms[0].1) + join_tail(ms.drop_first()) + seq!['}', '\n'])
            == Some(Seq::new(ms.len(), |i: int| (ms[i].0, vs[i]))),
    decreases ms.len(),
{
    let rest = ms.drop_first();
    let tail = join_tail(rest) + seq!['}', '\n'];
    assert(member(ms[0].0, ms[0].1) + join_tail(rest) + seq!['}', '\n'] =~= member(
        ms[0].0,
        ms[0].1,
    ) + tail);
    assert(parses_as(ms[0].1, vs[0]));
    if ms.len() == 1 {
        assert(rest =~= Seq::<(Seq<char>, Seq<char>)>::empty());
        assert(join_tail(rest) =~= Seq::<char>::empty());
        assert(tail =~= seq!['}', '\n']);
        lemma_member_step(ms[0].0, ms[0].1, vs[0], tail);
        assert(Seq::new(ms.len(), |i: int| (ms[i].0, vs[i])) =~= seq![(ms[0].0, vs[0])]);
    } else {
        let next = member(rest[0].0, rest[0].1) + join_tail(rest.drop_first()) + seq!['}', '\n'];
        assert(join_tail(rest) == seq![','] + member(rest[0].0, rest[0].1) + join_tail(
            rest.drop_first(),
        ));
        assert(tail =~= seq![','] + next);
        assert(tail != seq!['}', '\n']) by {
            assert(tail[0] == ',');
        }
        assert(tail.drop_first() =~= next);
        lemma_member_step(ms[0].0, ms[0].1, vs[0], tail);
        assert forall|i: int| 0 <= i < rest.len() implies parses_as(
            #[trigger] rest[i].1,
            vs.drop_first()[i],
        ) by {
            assert(rest[i] == ms[i + 1]);
            assert(parses_as(ms[i + 1].1, vs[i + 1]));
        }
        lemma_members_parse(rest, vs.drop_first());
        assert(seq![(ms[0].0, vs[0])] + Seq::new(
            rest.len(),
            |i: int| (rest[i].0, vs.drop_first()[i]),
        ) =~= Seq::new(ms.len(), |i: int| (ms[i].0, vs[i])));
    }
}

proof fn lemma_join_tail_push(ms: Seq<(Seq<char>, Seq<char>)>, m: (Seq<char>, Seq<char>))
    ensures
        join_tail(ms.push(m)) == join_tail(ms) + seq![','] + member(m.0, m.1),
    decreases ms.len(),
{
    if ms.len() == 0 {
        assert(ms.push(m).drop_first() =~= Seq::<(Seq<char>, Seq<char>)>::empty());
        assert(join_tail(Seq::<(Seq<char>, Seq<char>)>::empty()) =~= Seq::<char>::empty());
        assert(ms.push(m)[0] == m);
        assert(join_tail(ms.push(m)) =~= join_tail(ms) + seq![','] + member(m.0, m.1));
    } else {
        assert(ms.push(m).drop_first() =~= ms.drop_first().push(m));
        lemma_join_tail_push(ms.drop_first(), m);
        assert(join_tail(ms.push(m)) =~= join_tail(ms) + seq![','] + member(m.0, m.1));
    }
}

/// An attribute's key and the text written for its value.
pub open spec fn attr_pair(a: (String, Value)) -> (Seq<char>, Seq<char>) {
    (a.0@, value_text(a.1))
}

proof fn lemma_attrs_join(a: Seq<(String, Value)>)
    ensures
        attrs_text(a) == join_tail(a.map_values(|x: (String, Value)| attr_pair(x))),
    decreases a.len(),
{
    if a.len() > 0 {
        lemma_attrs_join(a.drop_last());
        let f = |x: (String, Value)| attr_pair(x);
        assert(a.map_values(f) =~= a.drop_last().map_values(f).push(attr_pair(a.last())));
        lemma_join_tail_push(a.drop_last().map_values(f), attr_pair(a.last()));
        assert(attrs_text(a) =~= join_tail(a.map_values(f)));
    } else {
        assert(a.map_values(|x: (String, Value)| attr_pair(x)) =~= Seq::<(
            Seq<char>,
            Seq<char>,
        )>::empty());
    }
}

/// The key and value text of each member of a record's line.
pub open spec fn line_pairs(r: Record, ts: Timestamp) -> Seq<(Seq<char>, Seq<char>)> {
    seq![
        ("level"@, json_quoted(level_name(r.level))),
        ("ts"@, ts_text(ts)),
        ("msg"@, json_quoted(r.message@)),
    ] + r.attributes@.map_values(|x: (String, Value)| attr_pair(x))
}

/// The scalar that each member of a record's line stands for.
pub open spec fn line_scalars(r: Record, ts: Timestamp) -> Seq<JsonScalar> {
    seq![JsonScalar::Str(level_name(r.level)), ts_scalar(ts), JsonScalar::Str(r.message@)]
        + r.attributes@.map_values(|a: (String, Value)| scalar_of(a.1))
}

proof fn lemma_line_shape(r: Record, ts: Timestamp)
    ensures
        record_line(r, ts).len() > 0,
        record_line(r, ts)[0] == '{',
        record_line(r, ts).drop_first() == member(line_pairs(r, ts)[0].0, line_pairs(r, ts)[0].1)
            + join_tail(line_pairs(r, ts).drop_first()) + seq!['}', '\n'],
{
    let ms = line_pairs(r, ts);
    let am = r.attributes@.map_values(|x: (String, Value)| attr_pair(x));
    lemma_attrs_join(r.attributes@);
    let m1 = ms.drop_first();
    let m2 = m1.drop_first();
    assert(m2 =~= seq![ms[2]] + am);
    assert(m2.drop_first() =~= am);
    assert(m1[0] == ms[1]);
    assert(m2[0] == ms[2]);
    assert(join_tail(m2) == seq![','] + member(ms[2].0, ms[2].1) + join_tail(am));
    assert(join_tail(m1) == seq![','] + member(ms[1].0, ms[1].1) + join_tail(m2));
    let line = record_line(r, ts);
    assert(line.drop_first() =~= member(ms[0].0, ms[0].1) + join_tail(m1) + seq!['}', '\n']);
}

proof fn lemma_line_scalars(r: Record, ts: Timestamp)
    requires
        forall|i: int| 0 <= i < r.attributes@.len() ==> is_scalar(#[trigger] r.attributes@[i].1),
    ensures
        line_pairs(r, ts).len() == line_scalars(r, ts).len(),
        forall|i: int|
            0 <= i < line_pairs(r, ts).len() ==> parses_as(
                #[trigger] line_pairs(r, ts)[i].1,
                line_scalars(r, ts)[i],
            ),
{
    let ms = line_pairs(r, ts);
    let vs = line_scalars(r, ts);
    lemma_str_parses(level_name(r.level));
    lemma_ts_parses(ts);
    lemma_str_parses(r.message@);
    assert forall|i: int| 0 <= i < ms.len() implies parses_as(#[trigger] ms[i].1, vs[i]) by {
        if i >= 3 {
            let a = r.attributes@[i - 3];
            assert(ms[i] == attr_pair(a));
            assert(vs[i] == scalar_of(a.1));
            lemma_value_parses(a.1);
        }
    }
}

/// Every line written for a record whose attribute values are all scalars
/// reads back as a JSON object whose members are `level`, `ts` and `msg`
/// followed by the attributes in the order given, each key and value
/// decoded to exactly what the record held.
pub proof fn lemma_record_line_parses(r: Record, ts: Timestamp)
    requires
        forall|i: int| 0 <= i < r.attributes@.len() ==> is_scalar(#[trigger] r.attributes@[i].1),
    ensures
        parse_line(record_line(r, ts)) == Some(expected_members(r, ts)),
{
    let ms = line_pairs(r, ts);
    let vs = line_scalars(r, ts);
    let line = record_line(r, ts);
    lemma_line_shape(r, ts);
    lemma_line_scalars(r, ts);
    lemma_members_parse(ms, vs);
    assert(line.drop_first() != seq!['}', '\n']) by {
        assert(line.drop_first()[0] == '"');
    }
    assert(Seq::new(ms.len(), |i: int| (ms[i].0, vs[i])) =~= expected_members(r, ts));
}

/// The keys of parsed members, in order.
pub open spec fn keys_of(ms: Seq<(Seq<char>, JsonScalar)>) -> Seq<Seq<char>> {
    ms.map_values(|m: (Seq<char>, JsonScalar)| m.0)
}

/// A record without attributes is written as an object with exactly the
/// keys `level`, `ts` and `msg`, in that order.
pub proof fn lemma_bare_record_keys(r: Record, ts: Timestamp)
    requires
        r.attributes@.len() == 0,
    ensures
        parse_line(record_line(r, ts)) is Some,
        keys_of(parse_line(record_line(r, ts))->Some_0) == seq!["level"@, "ts"@, "msg"@],
{
    lemma_record_line_parses(r, ts);
    assert(keys_of(expected_members(r, ts)) =~= seq!["level"@, "ts"@, "msg"@]);
}

/// A record with N scalar attributes is written as an object with 3 + N
/// members: `level`, `ts`, `msg`, then the attribute keys in the order
/// given, each attribute value decoded to what the record held.
pub proof fn lemma_attribute_order(r: Record, ts: Timestamp)
    requires
        forall|i: int| 0 <= i < r.attributes@.len() ==> is_scalar(#[trigger] r.attributes@[i].1),
    ensures
        parse_line(record_line(r, ts)) is Some,
        parse_line(record_line(r, ts))->Some_0.len() == 3 + r.attributes@.len(),
        keys_of(parse_line(record_line(r, ts))->Some_0) == seq!["level"@, "ts"@, "msg"@]
            + r.attributes@.map_values(|a: (String, Value)| a.0@),
        forall|i: int|
            0 <= i < r.attributes@.len() ==> (#[trigger] parse_line(record_line(r, ts))->Some_0[3
                + i]).1 == scalar_of(r.attributes@[i].1),
{
    lemma_record_line_parses(r, ts);
    assert(keys_of(expected_members(r, ts)) =~= seq!["level"@, "ts"@, "msg"@]
        + r.attributes@.map_values(|a: (String, Value)| a.0@));
}

/// The line depends on the record and the timestamp alone: equal records
/// with equal timestamps are written byte for byte alike, whatever was
/// written before them.
pub proof fn lemma_line_deterministic(
    r1: Record,
    r2: Record,
    ts1: Timestamp,
    ts2: Timestamp,
    before1: Seq<char>,
    before2: Seq<char>,
    after1: Seq<char>,
    after2: Seq<char>,
)
    requires
        r1.level == r2.level,
        r1.message@ == r2.message@,
        r1.attributes@ == r2.attributes@,
        ts1 == ts2,
        after1 == before1 + record_line(r1, ts1),
        after2 == before2 + record_line(r2, ts2),
    ensures
        after1.subrange(before1.len() as int, after1.len() as int) == after2.subrange(
            before2.len() as int,
            after2.len() as int,
        ),
{
    assert(after1.subrange(before1.len() as int, after1.len() as int) =~= record_line(r1, ts1));
    assert(after2.subrange(before2.len() as int, after2.len() as int) =~= record_line(r2, ts2));
    assert(record_line(r1, ts1) == record_line(r2, ts2));
}

} // verus!
