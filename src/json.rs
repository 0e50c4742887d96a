//! JSON string literals: how text is escaped, how an escaped literal is
//! read back, and the proof that the two agree.
use vstd::prelude::*;

verus! {

/// Lower-case hexadecimal digit for a value below sixteen.
pub open spec fn hex_digit(d: nat) -> char {
    if d < 10 {
        (d + 48) as char
    } else {
        (d + 87) as char
    }
}

/// Value of a hexadecimal digit of either case.
pub open spec fn hex_value(c: char) -> Option<nat> {
    if '0' <= c && c <= '9' {
        Some((c as nat - 48) as nat)
    } else if 'a' <= c && c <= 'f' {
        Some((c as nat - 87) as nat)
    } else if 'A' <= c && c <= 'F' {
        Some((c as nat - 55) as nat)
    } else {
        None
    }
}

/// A character that JSON forbids unescaped inside a string literal.
pub open spec fn is_control(c: char) -> bool {
    (c as u32) < 0x20
}

/// The escape of one character: the two-character forms for quote,
/// backslash and the five named controls, `\u00xx` for the other controls,
/// and the character itself for everything else.
pub open spec fn escape_char(c: char) -> Seq<char> {
    if c == '"' {
        seq!['\\', '"']
    } else if c == '\\' {
        seq!['\\', '\\']
    } else if c == '\n' {
        seq!['\\', 'n']
    } else if c == '\r' {
        seq!['\\', 'r']
    } else if c == '\t' {
        seq!['\\', 't']
    } else if c == '\x08' {
        seq!['\\', 'b']
    } else if c == '\x0c' {
        seq!['\\', 'f']
    } else if is_control(c) {
        seq!['\\', 'u', '0', '0', hex_digit(c as nat / 16), hex_digit(c as nat % 16)]
    } else {
        seq![c]
    }
}

/// The escaped body of a string literal, character by character.
pub open spec fn escape_body(s: Seq<char>) -> Seq<char>
    decreases s.len(),
{
    if s.len() == 0 {
        Seq::empty()
    } else {
        escape_char(s[0]) + escape_body(s.drop_first())
    }
}

/// The complete JSON string literal for `s`, quotes included.
pub open spec fn json_quoted(s: Seq<char>) -> Seq<char> {
    seq!['"'] + escape_body(s) + seq!['"']
}

/// The character that a one-letter escape `\e` stands for.
pub open spec fn short_escape(e: char) -> Option<char> {
    if e == '"' {
        Some('"')
    } else if e == '\\' {
        Some('\\')
    } else if e == '/' {
        Some('/')
    } else if e == 'n' {
        Some('\n')
    } else if e == 'r' {
        Some('\r')
    } else if e == 't' {
        Some('\t')
    } else if e == 'b' {
        Some('\x08')
    } else if e == 'f' {
        Some('\x0c')
    } else {
        None
    }
}

/// The code point named by the four hex digits at the front of `t`.
pub open spec fn hex4(t: Seq<char>) -> Option<nat> {
    if t.len() < 4 {
        None
    } else {
        match (hex_value(t[0]), hex_value(t[1]), hex_value(t[2]), hex_value(t[3])) {
            (Some(a), Some(b), Some(c), Some(d)) => Some(a * 4096 + b * 256 + c * 16 + d),
            _ => None,
        }
    }
}

/// Puts `c` in front of the decoded text of a parse result.
pub open spec fn prepend(
    c: char,
    r: Option<(Seq<char>, Seq<char>)>,
) -> Option<(Seq<char>, Seq<char>)> {
    match r {
        Some((d, rest)) => Some((seq![c] + d, rest)),
        None => None,
    }
}

/// Reads the inside of a JSON string literal, its opening quote already
/// consumed: the decoded text and what follows the closing quote. `None`
/// where the grammar is broken (a raw control character, a bad escape, no
/// closing quote). Surrogate escapes are not decoded.
pub open spec fn parse_str_body(t: Seq<char>) -> Option<(Seq<char>, Seq<char>)>
    decreases t.len(),
{
    if t.len() == 0 {
        None
    } else if t[0] == '"' {
        Some((Seq::empty(), t.drop_first()))
    } else if t[0] == '\\' {
        if t.len() < 2 {
            None
        } else if t[1] == 'u' {
            match hex4(t.subrange(2, t.len() as int)) {
                Some(v) => if 0xD800 <= v && v < 0xE000 {
                    None
                } else {
                    prepend(v as char, parse_str_body(t.subrange(6, t.len() as int)))
                },
                None => None,
            }
        } else {
            match short_escape(t[1]) {
                Some(c) => prepend(c, parse_str_body(t.subrange(2, t.len() as int))),
                None => None,
            }
        }
    } else if is_control(t[0]) {
        None
    } else {
        prepend(t[0], parse_str_body(t.drop_first()))
    }
}

/// Reads a JSON string literal at the front of `t`: its decoded text and
/// the rest of `t`.
pub open spec fn parse_string(t: Seq<char>) -> Option<(Seq<char>, Seq<char>)> {
    if t.len() > 0 && t[0] == '"' {
        parse_str_body(t.drop_first())
    } else {
        None
    }
}

/// Decodes `t` as exactly one JSON string literal.
pub open spec fn decode_json_string(t: Seq<char>) -> Option<Seq<char>> {
    match parse_string(t) {
        Some((d, rest)) => if rest.len() == 0 {
            Some(d)
        } else {
            None
        },
        None => None,
    }
}

proof fn lemma_hex_digit(d: nat)
    requires
        d < 16,
    ensures
        hex_value(hex_digit(d)) == Some(d),
{
}

proof fn lemma_escape_char_decodes(c: char, rest: Seq<char>)
    ensures
        parse_str_body(escape_char(c) + rest) == prepend(c, parse_str_body(rest)),
{
    let e = escape_char(c);
    let t = e + rest;
    if is_control(c) && c != '\n' && c != '\r' && c != '\t' && c != '\x08' && c != '\x0c' {
        let hi = c as nat / 16;
        let lo = c as nat % 16;
        lemma_hex_digit(hi);
        lemma_hex_digit(lo);
        assert(t.subrange(2, t.len() as int)[0] == '0');
        assert(t.subrange(2, t.len() as int)[1] == '0');
        assert(t.subrange(2, t.len() as int)[2] == hex_digit(hi));
        assert(t.subrange(2, t.len() as int)[3] == hex_digit(lo));
        assert(hex4(t.subrange(2, t.len() as int)) == Some(hi * 16 + lo));
        assert(hi * 16 + lo == c as nat);
        assert(t.subrange(6, t.len() as int) =~= rest);
    } else if c == '"' || c == '\\' || c == '\n' || c == '\r' || c == '\t' || c == '\x08' || c
        == '\x0c' {
        assert(t.subrange(2, t.len() as int) =~= rest);
    } else {
        assert(t.drop_first() =~= rest);
    }
}

/// Reading back an escaped body followed by a closing quote gives the
/// original text and leaves whatever came after the quote.
pub proof fn lemma_escape_body_decodes(s: Seq<char>, rest: Seq<char>)
    ensures
        parse_str_body(escape_body(s) + seq!['"'] + rest) == Some((s, rest)),
    decreases s.len(),
{
    let tail = seq!['"'] + rest;
    if s.len() == 0 {
        assert(escape_body(s) + seq!['"'] + rest =~= tail);
        assert(tail.drop_first() =~= rest);
    } else {
        lemma_escape_body_decodes(s.drop_first(), rest);
        assert(escape_body(s) + seq!['"'] + rest =~= escape_char(s[0]) + (escape_body(
            s.drop_first(),
        ) + seq!['"'] + rest));
        lemma_escape_char_decodes(s[0], escape_body(s.drop_first()) + seq!['"'] + rest);
        assert(seq![s[0]] + s.drop_first() =~= s);
    }
}

/// A JSON string literal followed by anything reads back as its text.
pub proof fn lemma_quoted_parses(s: Seq<char>, rest: Seq<char>)
    ensures
        parse_string(json_quoted(s) + rest) == Some((s, rest)),
{
    lemma_escape_body_decodes(s, rest);
    assert((json_quoted(s) + rest).drop_first() =~= escape_body(s) + seq!['"'] + rest);
}

/// Round trip: decoding the JSON string literal written for any text gives
/// that text back exactly.
pub proof fn lemma_json_string_round_trip(s: Seq<char>)
    ensures
        decode_json_string(json_quoted(s)) == Some(s),
{
    lemma_quoted_parses(s, Seq::empty());
    assert(json_quoted(s) + Seq::<char>::empty() =~= json_quoted(s));
}

/// A character that a JSON string literal holds as it stands.
pub open spec fn is_plain(c: char) -> bool {
    c != '"' && c != '\\' && !is_control(c)
}

/// Text made only of plain characters is its own escape.
pub proof fn lemma_plain_text_unescaped(s: Seq<char>)
    requires
        forall|i: int| 0 <= i < s.len() ==> is_plain(#[trigger] s[i]),
    ensures
        escape_body(s) == s,
    decreases s.len(),
{
    if s.len() > 0 {
        assert(is_plain(s[0]));
        assert forall|i: int| 0 <= i < s.drop_first().len() implies is_plain(
            #[trigger] s.drop_first()[i],
        ) by {
            assert(s.drop_first()[i] == s[i + 1]);
        }
        lemma_plain_text_unescaped(s.drop_first());
        assert(seq![s[0]] + s.drop_first() =~= s);
    }
}

} // verus!
