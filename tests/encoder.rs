use json_env_logger::{
    init, panic_record, panic_text, stamp, try_init, FormatError, write_decimal, write_json_str, write_record, write_value,
    InitError, Level, Record, Registry, Timestamp, TimestampMode, Value,
};

fn record(level: Level, message: &str, attributes: Vec<(String, Value)>) -> Record {
    Record { level, message: message.to_string(), attributes }
}

fn line_of(r: &Record, ts: &Timestamp) -> String {
    let mut out = String::new();
    write_record(&mut out, r, ts);
    out
}

fn parse(line: &str) -> serde_json::Map<String, serde_json::Value> {
    assert!(line.ends_with('\n'));
    assert_eq!(line.matches('\n').count(), 1);
    match serde_json::from_str::<serde_json::Value>(line).unwrap() {
        serde_json::Value::Object(m) => m,
        other => panic!("not an object: {}", other),
    }
}

fn decode_literal(s: &str) -> String {
    let mut out = String::new();
    write_json_str(&mut out, s);
    serde_json::from_str::<String>(&out).unwrap()
}

#[test]
fn escapes_json_strings() {
    let mut buf = String::new();
    write_json_str(&mut buf, "\"\n\t");
    println!("{}", buf);
    assert_eq!("\"\\\"\\n\\t\"", buf);
}

#[test]
fn writes_records_as_json() {
    let r = record(Level::Info, "hello", vec![]);
    let mut out = String::new();
    json_env_logger::logger::write(&mut out, &r, TimestampMode::EpochMillis).unwrap();
    println!("Full json log: {}", out);
    let parsed = parse(&out);
    assert!(parsed["msg"] == "hello");
}

#[test]
fn escapes_every_control_character() {
    let mut out = String::new();
    write_json_str(&mut out, "\u{0}\u{1f}\r\u{8}\u{c}\\/é");
    assert_eq!(out, "\"\\u0000\\u001f\\r\\b\\f\\\\/é\"");
}

#[test]
fn escaping_empty_text() {
    let mut out = String::from("x");
    write_json_str(&mut out, "");
    assert_eq!(out, "x\"\"");
}

#[test]
fn escaped_text_decodes_to_original() {
    for s in [
        "",
        "plain",
        "say \"hi\"\nbye",
        "back\\slash",
        "tab\tnull\u{0}bell\u{7}",
        "unicode: 日本語 ✓ 🎉",
        "\u{7f}\u{1f}\u{20}",
    ] {
        assert_eq!(decode_literal(s), s);
    }
}

#[test]
fn bare_record_has_three_keys_in_order() {
    let r = record(Level::Warn, "m", vec![]);
    let line = line_of(&r, &Timestamp::Millis(5));
    assert_eq!(line, "{\"level\":\"WARN\",\"ts\":5,\"msg\":\"m\"}\n");
    let parsed = parse(&line);
    let mut keys: Vec<&String> = parsed.keys().collect();
    keys.sort();
    assert_eq!(keys, vec!["level", "msg", "ts"]);
}

#[test]
fn attributes_follow_in_order() {
    let r = record(
        Level::Trace,
        "I am a trace",
        vec![
            ("task_id".to_string(), Value::U64(567)),
            ("thread_id".to_string(), Value::Str("12".to_string())),
            ("delta".to_string(), Value::I64(-42)),
            ("ok".to_string(), Value::Bool(true)),
            ("bad".to_string(), Value::Bool(false)),
        ],
    );
    let line = line_of(&r, &Timestamp::Millis(1000));
    assert_eq!(
        line,
        "{\"level\":\"TRACE\",\"ts\":1000,\"msg\":\"I am a trace\",\"task_id\":567,\
         \"thread_id\":\"12\",\"delta\":-42,\"ok\":true,\"bad\":false}\n"
    );
    let parsed = parse(&line);
    assert_eq!(parsed.len(), 3 + 5);
    assert_eq!(parsed["task_id"], 567);
    assert_eq!(parsed["thread_id"], "12");
    assert_eq!(parsed["delta"], -42);
    assert_eq!(parsed["ok"], true);
    assert_eq!(parsed["bad"], false);
    let order = ["\"level\"", "\"ts\"", "\"msg\"", "\"task_id\"", "\"thread_id\"", "\"delta\"", "\"ok\"", "\"bad\""];
    let positions: Vec<usize> = order.iter().map(|k| line.find(k).unwrap()).collect();
    assert!(positions.windows(2).all(|w| w[0] < w[1]));
}

#[test]
fn info_hello_message() {
    let r = record(Level::Info, "hello", vec![]);
    let parsed = parse(&line_of(&r, &Timestamp::Millis(0)));
    assert_eq!(parsed["level"], "INFO");
    assert_eq!(parsed["msg"], "hello");
}

#[test]
fn message_with_quote_and_newline() {
    let msg = "say \"hi\"\nbye";
    let r = record(Level::Error, msg, vec![]);
    let line = line_of(&r, &Timestamp::Millis(0));
    assert!(line.contains("say \\\"hi\\\"\\nbye"));
    let parsed = parse(&line);
    assert_eq!(parsed["msg"], msg);
}

#[test]
fn key_with_quotes_and_raw_value() {
    let key = "challenge \"key\"";
    let value = "{\"a\": \"b\"} } \" {";
    let r = record(
        Level::Debug,
        "x",
        vec![(key.to_string(), Value::Str(value.to_string()))],
    );
    let parsed = parse(&line_of(&r, &Timestamp::Millis(0)));
    assert_eq!(parsed[key], value);
}

#[test]
fn duplicate_keys_are_kept() {
    let r = record(
        Level::Info,
        "d",
        vec![
            ("k".to_string(), Value::U64(1)),
            ("k".to_string(), Value::U64(2)),
        ],
    );
    let line = line_of(&r, &Timestamp::Millis(0));
    assert!(line.ends_with(",\"k\":1,\"k\":2}\n"));
}

#[test]
fn raw_values_are_written_verbatim() {
    let r = record(
        Level::Debug,
        "I am a debug",
        vec![("foo".to_string(), Value::Raw("2.3".to_string()))],
    );
    let line = line_of(&r, &Timestamp::Millis(9));
    assert!(line.ends_with(",\"foo\":2.3}\n"));
    assert_eq!(parse(&line)["foo"], 2.3);
}

#[test]
fn level_names() {
    assert_eq!(Level::Error.as_str(), "ERROR");
    assert_eq!(Level::Warn.as_str(), "WARN");
    assert_eq!(Level::Info.as_str(), "INFO");
    assert_eq!(Level::Debug.as_str(), "DEBUG");
    assert_eq!(Level::Trace.as_str(), "TRACE");
}

#[test]
fn decimal_digits() {
    for (n, s) in [
        (0u128, "0"),
        (7, "7"),
        (10, "10"),
        (1700000000123, "1700000000123"),
        (u128::MAX, "340282366920938463463374607431768211455"),
    ] {
        let mut out = String::new();
        write_decimal(&mut out, n);
        assert_eq!(out, s);
    }
}

#[test]
fn integer_extremes() {
    let mut out = String::new();
    write_value(&mut out, &Value::I64(i64::MIN));
    out.push(' ');
    write_value(&mut out, &Value::I64(i64::MAX));
    out.push(' ');
    write_value(&mut out, &Value::U64(u64::MAX));
    out.push(' ');
    write_value(&mut out, &Value::I64(0));
    assert_eq!(
        out,
        "-9223372036854775808 9223372036854775807 18446744073709551615 0"
    );
}

#[test]
fn epoch_timestamp_is_near_now() {
    let now = std::time::SystemTime::now()
        .duration_since(std::time::UNIX_EPOCH)
        .unwrap()
        .as_millis() as u64;
    let r = record(Level::Info, "t", vec![]);
    let mut out = String::new();
    json_env_logger::logger::write(&mut out, &r, TimestampMode::EpochMillis).unwrap();
    let ts = parse(&out)["ts"].as_u64().unwrap();
    assert!(ts + 60_000 >= now && ts <= now + 60_000);
}

#[test]
fn calendar_timestamp_is_rfc3339_utc_millis() {
    let r = record(Level::Info, "t", vec![]);
    let mut out = String::new();
    json_env_logger::logger::write(&mut out, &r, TimestampMode::Rfc3339).unwrap();
    let parsed = parse(&out);
    let ts = parsed["ts"].as_str().unwrap();
    assert!(ts.ends_with('Z'));
    assert_eq!(ts.len(), 24);
    let dot = ts.rfind('.').unwrap();
    assert_eq!(ts.len() - dot, 5);
    let when = chrono::DateTime::parse_from_rfc3339(ts).unwrap();
    let age = chrono::Utc::now().signed_duration_since(when);
    assert!(age.num_seconds().abs() < 60);
}

#[test]
fn calendar_timestamp_is_quoted() {
    let r = record(Level::Info, "t", vec![]);
    let line = line_of(&r, &Timestamp::Rfc3339("2018-01-26T18:30:09.453Z".to_string()));
    assert_eq!(
        line,
        "{\"level\":\"INFO\",\"ts\":\"2018-01-26T18:30:09.453Z\",\"msg\":\"t\"}\n"
    );
}

#[test]
fn equal_records_give_identical_lines() {
    let make = || {
        record(
            Level::Warn,
            "same",
            vec![("a".to_string(), Value::Str("b\"c".to_string()))],
        )
    };
    let ts = Timestamp::Millis(123456);
    let mut first = String::from("stream one: ");
    let mut second = String::new();
    write_record(&mut first, &make(), &ts);
    write_record(&mut second, &make(), &ts);
    assert_eq!(&first["stream one: ".len()..], second);
}

#[test]
fn panic_record_with_location_and_backtrace() {
    let r = panic_record(
        "boom",
        Some("main"),
        Some(("src/main.rs", 42)),
        Some("trace".to_string()),
    );
    let line = line_of(&r, &Timestamp::Millis(1));
    assert_eq!(
        line,
        "{\"level\":\"ERROR\",\"ts\":1,\"msg\":\"panicked at 'boom'\",\"thread\":\"main\",\
         \"location\":\"src/main.rs:42\",\"backtrace\":\"trace\"}\n"
    );
}

#[test]
fn panic_record_of_unnamed_thread() {
    let r = panic_record("Box<Any>", None, None, None);
    assert_eq!(r.level, Level::Error);
    assert_eq!(r.message, "panicked at 'Box<Any>'");
    assert_eq!(r.attributes.len(), 1);
    assert_eq!(r.attributes[0].0, "thread");
    assert!(matches!(&r.attributes[0].1, Value::Str(s) if s == "unnamed"));
}

#[test]
fn second_init_fails() {
    let mut registry = Registry::new();
    assert!(!registry.installed());
    assert_eq!(try_init(&mut registry), Ok(()));
    assert!(registry.installed());
    assert_eq!(try_init(&mut registry), Err(InitError::AlreadyInitialized));
    assert!(registry.installed());
}

#[test]
fn init_installs() {
    let mut registry = Registry::new();
    init(&mut registry);
    assert!(registry.installed());
}

#[test]
fn panic_text_of_payloads() {
    assert_eq!(panic_text(Some("boom")), "boom");
    assert_eq!(panic_text(Some("")), "");
    assert_eq!(panic_text(None), "Box<Any>");
}

fn calendar_text(ms: u128) -> String {
    match stamp(ms, TimestampMode::Rfc3339) {
        Ok(Timestamp::Rfc3339(s)) => s,
        other => panic!("no calendar timestamp: {:?}", other),
    }
}

#[test]
fn stamp_keeps_the_reading_in_integer_mode() {
    for ms in [0u128, 1700000000123, u128::MAX] {
        match stamp(ms, TimestampMode::EpochMillis) {
            Ok(Timestamp::Millis(n)) => assert_eq!(n, ms),
            other => panic!("unexpected: {:?}", other),
        }
    }
}

#[test]
fn stamp_formats_the_reading_in_calendar_mode() {
    assert_eq!(calendar_text(0), "1970-01-01T00:00:00.000Z");
    assert_eq!(calendar_text(947638923004), "2000-01-12T01:02:03.004Z");
    assert_eq!(calendar_text(253402300799999), "9999-12-31T23:59:59.999Z");
}

#[test]
fn stamp_refuses_readings_past_the_calendar() {
    assert_eq!(
        stamp(253402300800000, TimestampMode::Rfc3339).unwrap_err(),
        FormatError::ClockBeyondCalendar
    );
}
