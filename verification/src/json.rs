//! The settings file's format: one JSON object with the six preference
//! fields, emitted and parsed here with exact contracts so that a parse of
//! an emitted record provably reproduces it. Double quotes, backslashes,
//! and every control character below U+0020 are escaped in field values;
//! any other character stands for itself. The parser reads the canonical
//! form this module emits — the six keys in fixed order, no whitespace
//! between tokens — which is the only form the settings file ever holds,
//! since the emitter here is its only writer.
use vstd::prelude::*;

use crate::settings::{Settings, SettingsModel};
use crate::text::{matches_at, push_char, str_to_chars};
use vstd::string::StringExecFns;

verus! {

/// The lower-case hexadecimal digit for a value below sixteen.
pub open spec fn hex_digit(n: int) -> char {
    if n == 0 {
        '0'
    } else if n == 1 {
        '1'
    } else if n == 2 {
        '2'
    } else if n == 3 {
        '3'
    } else if n == 4 {
        '4'
    } else if n == 5 {
        '5'
    } else if n == 6 {
        '6'
    } else if n == 7 {
        '7'
    } else if n == 8 {
        '8'
    } else if n == 9 {
        '9'
    } else if n == 10 {
        'a'
    } else if n == 11 {
        'b'
    } else if n == 12 {
        'c'
    } else if n == 13 {
        'd'
    } else if n == 14 {
        'e'
    } else if n == 15 {
        'f'
    } else {
        '0'
    }
}

/// The value of a lower-case hexadecimal digit, or sixteen for any other
/// character.
pub open spec fn hex_val(c: char) -> int {
    if c == '0' {
        0
    } else if c == '1' {
        1
    } else if c == '2' {
        2
    } else if c == '3' {
        3
    } else if c == '4' {
        4
    } else if c == '5' {
        5
    } else if c == '6' {
        6
    } else if c == '7' {
        7
    } else if c == '8' {
        8
    } else if c == '9' {
        9
    } else if c == 'a' {
        10
    } else if c == 'b' {
        11
    } else if c == 'c' {
        12
    } else if c == 'd' {
        13
    } else if c == 'e' {
        14
    } else if c == 'f' {
        15
    } else {
        16
    }
}

/// The control character with code `n`, for codes below U+0020.
pub open spec fn ctrl_char(n: int) -> char {
    if n == 0x00 {
        '\u{00}'
    } else if n == 0x01 {
        '\u{01}'
    } else if n == 0x02 {
        '\u{02}'
    } else if n == 0x03 {
        '\u{03}'
    } else if n == 0x04 {
        '\u{04}'
    } else if n == 0x05 {
        '\u{05}'
    } else if n == 0x06 {
        '\u{06}'
    } else if n == 0x07 {
        '\u{07}'
    } else if n == 0x08 {
        '\u{08}'
    } else if n == 0x09 {
        '\u{09}'
    } else if n == 0x0A {
        '\u{0A}'
    } else if n == 0x0B {
        '\u{0B}'
    } else if n == 0x0C {
        '\u{0C}'
    } else if n == 0x0D {
        '\u{0D}'
    } else if n == 0x0E {
        '\u{0E}'
    } else if n == 0x0F {
        '\u{0F}'
    } else if n == 0x10 {
        '\u{10}'
    } else if n == 0x11 {
        '\u{11}'
    } else if n == 0x12 {
        '\u{12}'
    } else if n == 0x13 {
        '\u{13}'
    } else if n == 0x14 {
        '\u{14}'
    } else if n == 0x15 {
        '\u{15}'
    } else if n == 0x16 {
        '\u{16}'
    } else if n == 0x17 {
        '\u{17}'
    } else if n == 0x18 {
        '\u{18}'
    } else if n == 0x19 {
        '\u{19}'
    } else if n == 0x1A {
        '\u{1A}'
    } else if n == 0x1B {
        '\u{1B}'
    } else if n == 0x1C {
        '\u{1C}'
    } else if n == 0x1D {
        '\u{1D}'
    } else if n == 0x1E {
        '\u{1E}'
    } else {
        '\u{1F}'
    }
}

/// How one character of a field value appears inside a quoted JSON string:
/// the named short escapes, a `\u00` escape for the remaining control
/// characters, the character itself otherwise.
pub open spec fn esc_char(c: char) -> Seq<char> {
    if c == '"' {
        seq!['\\', '"']
    } else if c == '\\' {
        seq!['\\', '\\']
    } else if c == '\n' {
        seq!['\\', 'n']
    } else if c == '\r' {
        seq!['\\', 'r']
    } else if c == '\t' {
        seq!['\\', 't']
    } else if (c as u32) < 0x20 {
        seq![
            '\\',
            'u',
            '0',
            '0',
            hex_digit((c as u32) as int / 16),
            hex_digit((c as u32) as int % 16),
        ]
    } else {
        seq![c]
    }
}

/// Compute `hex_digit` on a value below sixteen.
fn hex_digit_of(n: u32) -> (c: char)
    requires
        n < 16,
    ensures
        c == hex_digit(n as int),
{
    if n == 0 {
        '0'
    } else if n == 1 {
        '1'
    } else if n == 2 {
        '2'
    } else if n == 3 {
        '3'
    } else if n == 4 {
        '4'
    } else if n == 5 {
        '5'
    } else if n == 6 {
        '6'
    } else if n == 7 {
        '7'
    } else if n == 8 {
        '8'
    } else if n == 9 {
        '9'
    } else if n == 10 {
        'a'
    } else if n == 11 {
        'b'
    } else if n == 12 {
        'c'
    } else if n == 13 {
        'd'
    } else if n == 14 {
        'e'
    } else {
        'f'
    }
}

/// Compute `hex_val` on a character.
fn hex_val_of(c: char) -> (r: u32)
    ensures
        r == hex_val(c),
{
    if c == '0' {
        0
    } else if c == '1' {
        1
    } else if c == '2' {
        2
    } else if c == '3' {
        3
    } else if c == '4' {
        4
    } else if c == '5' {
        5
    } else if c == '6' {
        6
    } else if c == '7' {
        7
    } else if c == '8' {
        8
    } else if c == '9' {
        9
    } else if c == 'a' {
        10
    } else if c == 'b' {
        11
    } else if c == 'c' {
        12
    } else if c == 'd' {
        13
    } else if c == 'e' {
        14
    } else if c == 'f' {
        15
    } else {
        16
    }
}

/// Compute `ctrl_char` on a code below U+0020.
fn ctrl_char_of(n: u32) -> (c: char)
    requires
        n < 0x20,
    ensures
        c == ctrl_char(n as int),
{
    if n == 0x00 {
        '\u{00}'
    } else if n == 0x01 {
        '\u{01}'
    } else if n == 0x02 {
        '\u{02}'
    } else if n == 0x03 {
        '\u{03}'
    } else if n == 0x04 {
        '\u{04}'
    } else if n == 0x05 {
        '\u{05}'
    } else if n == 0x06 {
        '\u{06}'
    } else if n == 0x07 {
        '\u{07}'
    } else if n == 0x08 {
        '\u{08}'
    } else if n == 0x09 {
        '\u{09}'
    } else if n == 0x0A {
        '\u{0A}'
    } else if n == 0x0B {
        '\u{0B}'
    } else if n == 0x0C {
        '\u{0C}'
    } else if n == 0x0D {
        '\u{0D}'
    } else if n == 0x0E {
        '\u{0E}'
    } else if n == 0x0F {
        '\u{0F}'
    } else if n == 0x10 {
        '\u{10}'
    } else if n == 0x11 {
        '\u{11}'
    } else if n == 0x12 {
        '\u{12}'
    } else if n == 0x13 {
        '\u{13}'
    } else if n == 0x14 {
        '\u{14}'
    } else if n == 0x15 {
        '\u{15}'
    } else if n == 0x16 {
        '\u{16}'
    } else if n == 0x17 {
        '\u{17}'
    } else if n == 0x18 {
        '\u{18}'
    } else if n == 0x19 {
        '\u{19}'
    } else if n == 0x1A {
        '\u{1A}'
    } else if n == 0x1B {
        '\u{1B}'
    } else if n == 0x1C {
        '\u{1C}'
    } else if n == 0x1D {
        '\u{1D}'
    } else if n == 0x1E {
        '\u{1E}'
    } else {
        '\u{1F}'
    }
}

/// A field value with each character escaped.
pub open spec fn escape(s: Seq<char>) -> Seq<char>
    decreases s.len(),
{
    if s.len() == 0 {
        Seq::empty()
    } else {
        esc_char(s[0]) + escape(s.drop_first())
    }
}

/// Escaping distributes over concatenation.
proof fn lemma_escape_concat(a: Seq<char>, b: Seq<char>)
    ensures
        escape(a + b) == escape(a) + escape(b),
    decreases a.len(),
{
    if a.len() == 0 {
        assert(a + b =~= b);
        assert(escape(a) + escape(b) =~= escape(b));
    } else {
        assert((a + b)[0] == a[0]);
        assert((a + b).drop_first() =~= a.drop_first() + b);
        lemma_escape_concat(a.drop_first(), b);
        assert(esc_char(a[0]) + (escape(a.drop_first()) + escape(b)) =~= (esc_char(a[0]) + escape(
            a.drop_first(),
        )) + escape(b));
    }
}

/// Escaping one more character appends that character's escape.
proof fn lemma_escape_snoc(s: Seq<char>, i: int)
    requires
        0 <= i < s.len(),
    ensures
        escape(s.subrange(0, i + 1)) == escape(s.subrange(0, i)) + esc_char(s[i]),
{
    assert(s.subrange(0, i + 1) =~= s.subrange(0, i) + seq![s[i]]);
    lemma_escape_concat(s.subrange(0, i), seq![s[i]]);
    assert(seq![s[i]].drop_first() =~= Seq::<char>::empty());
    assert(escape(Seq::<char>::empty()) == Seq::<char>::empty());
    assert(escape(seq![s[i]]) =~= esc_char(s[i]));
}

/// How a field appears in the object: `null` when absent, else the quoted
/// escaped value.
pub open spec fn enc_field(v: Option<Seq<char>>) -> Seq<char> {
    match v {
        None => "null"@,
        Some(t) => seq!['"'] + escape(t) + seq!['"'],
    }
}

/// The serialized form of a settings record: one JSON object holding the
/// six fields in fixed order, absent fields as `null`.
pub open spec fn settings_json(m: SettingsModel) -> Seq<char> {
    "{\"sensitivity\":"@ + (enc_field(m.sensitivity) + (",\"polling_rate\":"@ + (enc_field(
        m.polling_rate,
    ) + (",\"sleep_timer\":"@ + (enc_field(m.sleep_timer) + (",\"dim_timer\":"@ + (enc_field(
        m.dim_timer,
    ) + (",\"colour_mode\":"@ + (enc_field(m.colour_mode) + (",\"custom_color\":"@ + (enc_field(
        m.custom_color,
    ) + "}"@)))))))))))
}

/// Append the escaped form of `t` to `out`.
fn append_escaped(out: &mut String, t: &str)
    ensures
        final(out)@ == old(out)@ + escape(t@),
{
    let cs = str_to_chars(t);
    let n = cs.len();
    let mut i: usize = 0;
    while i < n
        invariant
            n == cs@.len(),
            cs@ == t@,
            i <= n,
            out@ == old(out)@ + escape(cs@.subrange(0, i as int)),
        decreases n - i,
    {
        let c = cs[i];
        if c == '"' {
            out.append("\\\"");
            proof {
                reveal_strlit("\\\"");
            }
        } else if c == '\\' {
            out.append("\\\\");
            proof {
                reveal_strlit("\\\\");
            }
        } else if c == '\n' {
            out.append("\\n");
            proof {
                reveal_strlit("\\n");
            }
        } else if c == '\r' {
            out.append("\\r");
            proof {
                reveal_strlit("\\r");
            }
        } else if c == '\t' {
            out.append("\\t");
            proof {
                reveal_strlit("\\t");
            }
        } else {
            let u = c as u32;
            if u < 0x20 {
                out.append("\\u00");
                push_char(out, hex_digit_of(u / 16));
                push_char(out, hex_digit_of(u % 16));
                proof {
                    reveal_strlit("\\u00");
                }
            } else {
                push_char(out, c);
            }
        }
        proof {
            lemma_escape_snoc(cs@, i as int);
            assert(out@ =~= old(out)@ + escape(cs@.subrange(0, i + 1)));
        }
        i = i + 1;
    }
    proof {
        assert(cs@.subrange(0, n as int) =~= t@);
    }
}

/// Append a field's encoding to `out`.
fn append_field(out: &mut String, v: &Option<String>)
    ensures
        final(out)@ == old(out)@ + enc_field(v.deep_view()),
{
    match v {
        None => {
            out.append("null");
        },
        Some(t) => {
            out.append("\"");
            append_escaped(out, t.as_str());
            out.append("\"");
            proof {
                reveal_strlit("\"");
                assert(out@ =~= old(out)@ + enc_field(Some(t@)));
            }
        },
    }
}

/// What one escape letter decodes to, if it is a valid one.
pub open spec fn unesc_char(c: char) -> Option<char> {
    if c == '"' {
        Some('"')
    } else if c == '\\' {
        Some('\\')
    } else if c == 'n' {
        Some('\n')
    } else if c == 'r' {
        Some('\r')
    } else if c == 't' {
        Some('\t')
    } else {
        None
    }
}

/// Parse a quoted string's body up to its closing quote: the decoded value
/// and what follows the quote. The escapes accepted are exactly the ones
/// the emitter writes: the five named ones and `\u00` followed by two
/// lower-case hex digits naming a control character.
pub open spec fn parse_str_body(s: Seq<char>) -> Option<(Seq<char>, Seq<char>)>
    decreases s.len(),
{
    if s.len() == 0 {
        None
    } else if s[0] == '"' {
        Some((Seq::empty(), s.drop_first()))
    } else if s[0] == '\\' {
        if s.len() < 2 {
            None
        } else if s[1] == 'u' {
            if s.len() < 6 || s[2] != '0' || s[3] != '0' || hex_val(s[4]) >= 16 || hex_val(s[5])
                >= 16 {
                None
            } else {
                let code = 16 * hex_val(s[4]) + hex_val(s[5]);
                if code < 0x20 {
                    match parse_str_body(s.skip(6)) {
                        None => None,
                        Some((v, rest)) => Some((seq![ctrl_char(code)] + v, rest)),
                    }
                } else {
                    None
                }
            }
        } else {
            match unesc_char(s[1]) {
                None => None,
                Some(c) => match parse_str_body(s.skip(2)) {
                    None => None,
                    Some((v, rest)) => Some((seq![c] + v, rest)),
                },
            }
        }
    } else {
        match parse_str_body(s.drop_first()) {
            None => None,
            Some((v, rest)) => Some((seq![s[0]] + v, rest)),
        }
    }
}

/// Consume an exact literal prefix, leaving the remainder.
pub open spec fn parse_lit(s: Seq<char>, lit: Seq<char>) -> Option<Seq<char>> {
    if s.len() >= lit.len() && s.subrange(0, lit.len() as int) == lit {
        Some(s.skip(lit.len() as int))
    } else {
        None
    }
}

/// Parse one field: `null` for an absent value, else a quoted string.
pub open spec fn parse_field(s: Seq<char>) -> Option<(Option<Seq<char>>, Seq<char>)> {
    if s.len() > 0 && s[0] == '"' {
        match parse_str_body(s.drop_first()) {
            None => None,
            Some((v, rest)) => Some((Some(v), rest)),
        }
    } else {
        match parse_lit(s, "null"@) {
            None => None,
            Some(rest) => Some((None, rest)),
        }
    }
}

/// Parse a whole settings object in its canonical form: the six fields in
/// fixed order, no whitespace between tokens, nothing after the closing
/// brace.
pub open spec fn parse_settings_json(s: Seq<char>) -> Option<SettingsModel> {
    match parse_lit(s, "{\"sensitivity\":"@) {
        None => None,
        Some(s) => match parse_field(s) {
            None => None,
            Some((sensitivity, s)) => match parse_lit(s, ",\"polling_rate\":"@) {
                None => None,
                Some(s) => match parse_field(s) {
                    None => None,
                    Some((polling_rate, s)) => match parse_lit(s, ",\"sleep_timer\":"@) {
                        None => None,
                        Some(s) => match parse_field(s) {
                            None => None,
                            Some((sleep_timer, s)) => match parse_lit(s, ",\"dim_timer\":"@) {
                                None => None,
                                Some(s) => match parse_field(s) {
                                    None => None,
                                    Some((dim_timer, s)) => match parse_lit(
                                        s,
                                        ",\"colour_mode\":"@,
                                    ) {
                                        None => None,
                                        Some(s) => match parse_field(s) {
                                            None => None,
                                            Some((colour_mode, s)) => match parse_lit(
                                                s,
                                                ",\"custom_color\":"@,
                                            ) {
                                                None => None,
                                                Some(s) => match parse_field(s) {
                                                    None => None,
                                                    Some((custom_color, s)) => match parse_lit(
                                                        s,
                                                        "}"@,
                                                    ) {
                                                        None => None,
                                                        Some(s) => if s.len() == 0 {
                                                            Some(
                                                                SettingsModel {
                                                                    sensitivity,
                                                                    polling_rate,
                                                                    sleep_timer,
                                                                    dim_timer,
                                                                    colour_mode,
                                                                    custom_color,
                                                                },
                                                            )
                                                        } else {
                                                            None
                                                        },
                                                    },
                                                },
                                            },
                                        },
                                    },
                                },
                            },
                        },
                    },
                },
            },
        },
    }
}

/// Reading back the hexadecimal digit of a value below sixteen recovers it.
proof fn lemma_hex_roundtrip(n: int)
    requires
        0 <= n < 16,
    ensures
        hex_val(hex_digit(n)) == n,
{
}

/// The control character named by a code below U+0020 is the character
/// that carries that code.
proof fn lemma_ctrl_char_of_code(c: char)
    requires
        (c as u32) < 0x20,
    ensures
        ctrl_char((c as u32) as int) == c,
{
}

/// Parsing a string body that starts with an escaped value recovers it.
proof fn lemma_parse_escape(v: Seq<char>, rest: Seq<char>)
    ensures
        parse_str_body(escape(v) + seq!['"'] + rest) == Some((v, rest)),
    decreases v.len(),
{
    let s = escape(v) + seq!['"'] + rest;
    if v.len() == 0 {
        assert(s =~= seq!['"'] + rest);
        assert(s[0] == '"');
        assert(s.drop_first() =~= rest);
        assert(v =~= Seq::<char>::empty());
    } else {
        let c = v[0];
        let v1 = v.drop_first();
        assert(escape(v) == esc_char(c) + escape(v1));
        lemma_parse_escape(v1, rest);
        if c == '"' || c == '\\' || c == '\n' || c == '\r' || c == '\t' {
            let x = esc_char(c)[1];
            assert(s[0] == '\\');
            assert(s.len() >= 2);
            assert(s[1] == x);
            assert(x != 'u');
            assert(unesc_char(x) == Some(c));
            assert(s.skip(2) =~= escape(v1) + seq!['"'] + rest);
            assert(seq![c] + v1 =~= v);
        } else if (c as u32) < 0x20 {
            let u = (c as u32) as int;
            vstd::arithmetic::div_mod::lemma_fundamental_div_mod(u, 16);
            assert(0 <= u / 16 < 16);
            assert(0 <= u % 16 < 16);
            assert(s[0] == '\\');
            assert(s[1] == 'u');
            assert(s.len() >= 7);
            assert(s[2] == '0');
            assert(s[3] == '0');
            assert(s[4] == hex_digit(u / 16));
            assert(s[5] == hex_digit(u % 16));
            lemma_hex_roundtrip(u / 16);
            lemma_hex_roundtrip(u % 16);
            assert(16 * hex_val(s[4]) + hex_val(s[5]) == u);
            lemma_ctrl_char_of_code(c);
            assert(ctrl_char(16 * hex_val(s[4]) + hex_val(s[5])) == c);
            assert(s.skip(6) =~= escape(v1) + seq!['"'] + rest);
            assert(seq![c] + v1 =~= v);
        } else {
            assert(s[0] == c);
            assert(c != '"' && c != '\\');
            assert(s.drop_first() =~= escape(v1) + seq!['"'] + rest);
            assert(seq![c] + v1 =~= v);
        }
    }
}

/// Parsing a literal off the front of a string that carries it succeeds.
proof fn lemma_parse_lit_prefix(lit: Seq<char>, rest: Seq<char>)
    ensures
        parse_lit(lit + rest, lit) == Some(rest),
{
    let s = lit + rest;
    assert(s.subrange(0, lit.len() as int) =~= lit);
    assert(s.skip(lit.len() as int) =~= rest);
}

/// Parsing a field off the front of its encoding recovers the value.
proof fn lemma_parse_field_enc(v: Option<Seq<char>>, rest: Seq<char>)
    ensures
        parse_field(enc_field(v) + rest) == Some((v, rest)),
{
    let s = enc_field(v) + rest;
    match v {
        None => {
            reveal_strlit("null");
            assert(s[0] == 'n');
            lemma_parse_lit_prefix("null"@, rest);
        },
        Some(t) => {
            assert(s[0] == '"');
            assert(s.drop_first() =~= escape(t) + seq!['"'] + rest);
            lemma_parse_escape(t, rest);
        },
    }
}

/// The round trip: parsing the serialized form of any settings record
/// reproduces the record exactly, each present field with its value and
/// each absent field still absent.
#[verifier::rlimit(100)]
pub proof fn lemma_settings_json_roundtrip(m: SettingsModel)
    ensures
        parse_settings_json(settings_json(m)) == Some(m),
{
    let e1 = enc_field(m.sensitivity);
    let e2 = enc_field(m.polling_rate);
    let e3 = enc_field(m.sleep_timer);
    let e4 = enc_field(m.dim_timer);
    let e5 = enc_field(m.colour_mode);
    let e6 = enc_field(m.custom_color);
    let p13 = "}"@;
    let p12 = e6 + p13;
    let p11 = ",\"custom_color\":"@ + p12;
    let p10 = e5 + p11;
    let p9 = ",\"colour_mode\":"@ + p10;
    let p8 = e4 + p9;
    let p7 = ",\"dim_timer\":"@ + p8;
    let p6 = e3 + p7;
    let p5 = ",\"sleep_timer\":"@ + p6;
    let p4 = e2 + p5;
    let p3 = ",\"polling_rate\":"@ + p4;
    let p2 = e1 + p3;
    let p1 = "{\"sensitivity\":"@ + p2;
    assert(settings_json(m) == p1);
    lemma_parse_lit_prefix("{\"sensitivity\":"@, p2);
    lemma_parse_field_enc(m.sensitivity, p3);
    lemma_parse_lit_prefix(",\"polling_rate\":"@, p4);
    lemma_parse_field_enc(m.polling_rate, p5);
    lemma_parse_lit_prefix(",\"sleep_timer\":"@, p6);
    lemma_parse_field_enc(m.sleep_timer, p7);
    lemma_parse_lit_prefix(",\"dim_timer\":"@, p8);
    lemma_parse_field_enc(m.dim_timer, p9);
    lemma_parse_lit_prefix(",\"colour_mode\":"@, p10);
    lemma_parse_field_enc(m.colour_mode, p11);
    lemma_parse_lit_prefix(",\"custom_color\":"@, p12);
    lemma_parse_field_enc(m.custom_color, p13);
    assert(p13 =~= "}"@ + Seq::<char>::empty());
    lemma_parse_lit_prefix("}"@, Seq::<char>::empty());
}

/// Consume the literal at position `i`, yielding the position after it.
fn eat_lit(cs: &Vec<char>, i: usize, lit: &Vec<char>) -> (r: Option<usize>)
    requires
        i <= cs@.len(),
    ensures
        match r {
            Some(j) => i <= j <= cs@.len() && parse_lit(cs@.skip(i as int), lit@) == Some(
                cs@.skip(j as int),
            ),
            None => parse_lit(cs@.skip(i as int), lit@) is None,
        },
{
    if cs.len() - i < lit.len() {
        return None;
    }
    if matches_at(cs, lit, i) {
        proof {
            assert(cs@.skip(i as int).subrange(0, lit@.len() as int) =~= cs@.subrange(
                i as int,
                i + lit@.len(),
            ));
            assert(cs@.skip(i as int).skip(lit@.len() as int) =~= cs@.skip(i + lit@.len()));
        }
        Some(i + lit.len())
    } else {
        proof {
            assert(cs@.skip(i as int).subrange(0, lit@.len() as int) =~= cs@.subrange(
                i as int,
                i + lit@.len(),
            ));
        }
        None
    }
}

/// Parse a quoted string's body from position `i` (just after the opening
/// quote), yielding the decoded value and the position after the closing
/// quote.
fn parse_string_at(cs: &Vec<char>, i: usize) -> (r: Option<(String, usize)>)
    requires
        i <= cs@.len(),
    ensures
        match r {
            Some((v, j)) => i <= j <= cs@.len() && parse_str_body(cs@.skip(i as int)) == Some(
                (v@, cs@.skip(j as int)),
            ),
            None => parse_str_body(cs@.skip(i as int)) is None,
        },
{
    let n = cs.len();
    let mut acc = String::new();
    let mut cur: usize = i;
    loop
        invariant
            i <= cur <= n,
            n == cs@.len(),
            parse_str_body(cs@.skip(i as int)) == (match parse_str_body(cs@.skip(cur as int)) {
                None => None::<(Seq<char>, Seq<char>)>,
                Some((v, rest)) => Some((acc@ + v, rest)),
            }),
        decreases n - cur,
    {
        if cur >= n {
            proof {
                assert(cs@.skip(cur as int) =~= Seq::<char>::empty());
            }
            return None;
        }
        let c = cs[cur];
        proof {
            assert(cs@.skip(cur as int)[0] == cs@[cur as int]);
        }
        if c == '"' {
            proof {
                assert(cs@.skip(cur as int).drop_first() =~= cs@.skip(cur + 1));
                assert(acc@ + Seq::<char>::empty() =~= acc@);
            }
            return Some((acc, cur + 1));
        }
        if c == '\\' {
            if cur + 1 >= n {
                proof {
                    assert(cs@.skip(cur as int).len() < 2);
                }
                return None;
            }
            let e = cs[cur + 1];
            proof {
                assert(cs@.skip(cur as int)[1] == cs@[cur + 1]);
            }
            if e == 'u' {
                if n - cur < 6 {
                    proof {
                        assert(cs@.skip(cur as int).len() < 6);
                    }
                    return None;
                }
                proof {
                    assert(cs@.skip(cur as int)[2] == cs@[cur + 2]);
                    assert(cs@.skip(cur as int)[3] == cs@[cur + 3]);
                    assert(cs@.skip(cur as int)[4] == cs@[cur + 4]);
                    assert(cs@.skip(cur as int)[5] == cs@[cur + 5]);
                    assert(cs@.skip(cur as int).skip(6) =~= cs@.skip(cur + 6));
                }
                if cs[cur + 2] != '0' || cs[cur + 3] != '0' {
                    return None;
                }
                let h4 = hex_val_of(cs[cur + 4]);
                let h5 = hex_val_of(cs[cur + 5]);
                if h4 >= 16 || h5 >= 16 {
                    return None;
                }
                let code = 16 * h4 + h5;
                if code >= 0x20 {
                    return None;
                }
                let d = ctrl_char_of(code);
                let ghost pre = acc@;
                push_char(&mut acc, d);
                proof {
                    assert forall|v: Seq<char>, rest: Seq<char>|
                        parse_str_body(cs@.skip(cur + 6)) == Some((v, rest)) implies acc@ + v == pre
                        + (seq![d] + v) by {
                        assert(acc@ + v =~= pre + (seq![d] + v));
                    }
                }
                cur = cur + 6;
            } else {
                proof {
                    assert(cs@.skip(cur as int).skip(2) =~= cs@.skip(cur + 2));
                }
                let d: char = if e == '"' {
                    '"'
                } else if e == '\\' {
                    '\\'
                } else if e == 'n' {
                    '\n'
                } else if e == 'r' {
                    '\r'
                } else if e == 't' {
                    '\t'
                } else {
                    return None;
                };
                let ghost pre = acc@;
                push_char(&mut acc, d);
                proof {
                    assert forall|v: Seq<char>, rest: Seq<char>|
                        parse_str_body(cs@.skip(cur + 2)) == Some((v, rest)) implies acc@ + v == pre
                        + (seq![d] + v) by {
                        assert(acc@ + v =~= pre + (seq![d] + v));
                    }
                }
                cur = cur + 2;
            }
        } else {
            let ghost pre = acc@;
            push_char(&mut acc, c);
            proof {
                assert(cs@.skip(cur as int).drop_first() =~= cs@.skip(cur + 1));
                assert forall|v: Seq<char>, rest: Seq<char>|
                    parse_str_body(cs@.skip(cur + 1)) == Some((v, rest)) implies acc@ + v == pre + (
                seq![c] + v) by {
                    assert(acc@ + v =~= pre + (seq![c] + v));
                }
            }
            cur = cur + 1;
        }
    }
}

/// Parse one field at position `i`.
fn parse_field_at(cs: &Vec<char>, i: usize, null_lit: &Vec<char>) -> (r: Option<
    (Option<String>, usize),
>)
    requires
        i <= cs@.len(),
        null_lit@ == "null"@,
    ensures
        match r {
            Some((v, j)) => i <= j <= cs@.len() && parse_field(cs@.skip(i as int)) == Some(
                (v.deep_view(), cs@.skip(j as int)),
            ),
            None => parse_field(cs@.skip(i as int)) is None,
        },
{
    if i < cs.len() && cs[i] == '"' {
        proof {
            assert(cs@.skip(i as int)[0] == cs@[i as int]);
            assert(cs@.skip(i as int).drop_first() =~= cs@.skip(i + 1));
        }
        match parse_string_at(cs, i + 1) {
            Some((v, j)) => Some((Some(v), j)),
            None => None,
        }
    } else {
        proof {
            if i < cs@.len() {
                assert(cs@.skip(i as int)[0] == cs@[i as int]);
            }
        }
        match eat_lit(cs, i, null_lit) {
            Some(j) => Some((None, j)),
            None => None,
        }
    }
}

/// Parse a settings record from its JSON object form. The accepted form
/// is the canonical one `settings_to_json` emits: the six keys in fixed
/// order and no whitespace between tokens. A reordered or
/// whitespace-padded object is rejected, and the caller falls back to
/// defaults, as for any unreadable file.
pub fn settings_from_json(text: &str) -> (r: Option<Settings>)
    ensures
        match r {
            Some(st) => parse_settings_json(text@) == Some(st@),
            None => parse_settings_json(text@) is None,
        },
{
    let cs = str_to_chars(text);
    let null_lit = str_to_chars("null");
    proof {
        assert(cs@.skip(0) =~= cs@);
    }
    let l1 = str_to_chars("{\"sensitivity\":");
    let j = match eat_lit(&cs, 0, &l1) {
        Some(j) => j,
        None => {
            return None;
        },
    };
    let (sensitivity, j) = match parse_field_at(&cs, j, &null_lit) {
        Some(r) => r,
        None => {
            return None;
        },
    };
    let l2 = str_to_chars(",\"polling_rate\":");
    let j = match eat_lit(&cs, j, &l2) {
        Some(j) => j,
        None => {
            return None;
        },
    };
    let (polling_rate, j) = match parse_field_at(&cs, j, &null_lit) {
        Some(r) => r,
        None => {
            return None;
        },
    };
    let l3 = str_to_chars(",\"sleep_timer\":");
    let j = match eat_lit(&cs, j, &l3) {
        Some(j) => j,
        None => {
            return None;
        },
    };
    let (sleep_timer, j) = match parse_field_at(&cs, j, &null_lit) {
        Some(r) => r,
        None => {
            return None;
        },
    };
    let l4 = str_to_chars(",\"dim_timer\":");
    let j = match eat_lit(&cs, j, &l4) {
        Some(j) => j,
        None => {
            return None;
        },
    };
    let (dim_timer, j) = match parse_field_at(&cs, j, &null_lit) {
        Some(r) => r,
        None => {
            return None;
        },
    };
    let l5 = str_to_chars(",\"colour_mode\":");
    let j = match eat_lit(&cs, j, &l5) {
        Some(j) => j,
        None => {
            return None;
        },
    };
    let (colour_mode, j) = match parse_field_at(&cs, j, &null_lit) {
        Some(r) => r,
        None => {
            return None;
        },
    };
    let l6 = str_to_chars(",\"custom_color\":");
    let j = match eat_lit(&cs, j, &l6) {
        Some(j) => j,
        None => {
            return None;
        },
    };
    let (custom_color, j) = match parse_field_at(&cs, j, &null_lit) {
        Some(r) => r,
        None => {
            return None;
        },
    };
    let l7 = str_to_chars("}");
    let j = match eat_lit(&cs, j, &l7) {
        Some(j) => j,
        None => {
            return None;
        },
    };
    if j != cs.len() {
        proof {
            assert(cs@.skip(j as int).len() > 0);
        }
        return None;
    }
    proof {
        assert(cs@.skip(j as int).len() == 0);
    }
    Some(
        Settings {
            sensitivity,
            polling_rate,
            sleep_timer,
            dim_timer,
            colour_mode,
            custom_color,
        },
    )
}

/// Appending the pieces left to right builds the same sequence that
/// `settings_json` describes.
#[verifier::rlimit(100)]
proof fn lemma_emit_flatten(
    e1: Seq<char>,
    e2: Seq<char>,
    e3: Seq<char>,
    e4: Seq<char>,
    e5: Seq<char>,
    e6: Seq<char>,
)
    ensures
        "{\"sensitivity\":"@ + e1 + ",\"polling_rate\":"@ + e2 + ",\"sleep_timer\":"@ + e3
            + ",\"dim_timer\":"@ + e4 + ",\"colour_mode\":"@ + e5 + ",\"custom_color\":"@ + e6
            + "}"@ == "{\"sensitivity\":"@ + (e1 + (",\"polling_rate\":"@ + (e2
            + (",\"sleep_timer\":"@ + (e3 + (",\"dim_timer\":"@ + (e4 + (",\"colour_mode\":"@ + (e5
            + (",\"custom_color\":"@ + (e6 + "}"@))))))))))),
{
    assert("{\"sensitivity\":"@ + e1 + ",\"polling_rate\":"@ + e2 + ",\"sleep_timer\":"@ + e3
        + ",\"dim_timer\":"@ + e4 + ",\"colour_mode\":"@ + e5 + ",\"custom_color\":"@ + e6 + "}"@
        =~= "{\"sensitivity\":"@ + (e1 + (",\"polling_rate\":"@ + (e2 + (",\"sleep_timer\":"@ + (e3
        + (",\"dim_timer\":"@ + (e4 + (",\"colour_mode\":"@ + (e5 + (",\"custom_color\":"@ + (e6
        + "}"@))))))))))));
}

/// Serialize a settings record to its JSON object.
pub fn settings_to_json(s: &Settings) -> (r: String)
    ensures
        r@ == settings_json(s@),
{
    let mut out = "{\"sensitivity\":".to_owned();
    append_field(&mut out, &s.sensitivity);
    out.append(",\"polling_rate\":");
    append_field(&mut out, &s.polling_rate);
    out.append(",\"sleep_timer\":");
    append_field(&mut out, &s.sleep_timer);
    out.append(",\"dim_timer\":");
    append_field(&mut out, &s.dim_timer);
    out.append(",\"colour_mode\":");
    append_field(&mut out, &s.colour_mode);
    out.append(",\"custom_color\":");
    append_field(&mut out, &s.custom_color);
    out.append("}");
    proof {
        lemma_emit_flatten(
            enc_field(s@.sensitivity),
            enc_field(s@.polling_rate),
            enc_field(s@.sleep_timer),
            enc_field(s@.dim_timer),
            enc_field(s@.colour_mode),
            enc_field(s@.custom_color),
        );
    }
    out
}

} // verus!
