//! JSON-formatted log lines: each log record becomes one line holding a
//! flat JSON object with the fields `level`, `ts`, `msg` and then the
//! record's attributes in order, every string escaped so that the line
//! reads back as exactly what was logged.
pub mod json;
pub mod logger;
pub mod parse;
pub mod record;

pub use logger::{init, panic_record, panic_text, stamp, try_init, InitError, Registry};
pub use record::{
    write_decimal, write_json_str, write_record, write_value, FormatError, Level, Record,
    Timestamp, TimestampMode, Value,
};
