//! The parameter file codec: a pretty-printed, human-diffable textual
//! serialization of an ordered sequence of parameter records, and a
//! permissive parser for it that tolerates hand-edited files.

use vstd::prelude::*;
use crate::errors::CodecError;
use crate::params::{ParamJson, ParamView, params_view, default_field, default_field_exec};
use crate::text::{chars_of, string_of, char_from_code};

verus! {

// ---------------------------------------------------------------------------
// Member names of a serialized record, in their stable on-disk order.
// ---------------------------------------------------------------------------

pub open spec fn key_name() -> Seq<char> {
    "parameter_key"@
}

pub open spec fn value_name() -> Seq<char> {
    "parameter_value"@
}

pub open spec fn resolved_name() -> Seq<char> {
    "resolved_value"@
}

pub open spec fn previous_name() -> Seq<char> {
    "use_previous_value"@
}

// ---------------------------------------------------------------------------
// String escaping.
// ---------------------------------------------------------------------------

/// Characters below the space character must be written escaped.
pub open spec fn is_control(c: char) -> bool {
    (c as u32) < 0x20
}

/// A character that is written as itself, with no escape.
pub open spec fn is_plain(c: char) -> bool {
    c != '"' && c != '\\' && !is_control(c)
}

/// The lower-case hexadecimal digit of a value below sixteen.
pub open spec fn hex_digit(d: int) -> char {
    if d == 0 { '0' } else if d == 1 { '1' } else if d == 2 { '2' } else if d == 3 { '3' }
    else if d == 4 { '4' } else if d == 5 { '5' } else if d == 6 { '6' } else if d == 7 { '7' }
    else if d == 8 { '8' } else if d == 9 { '9' } else if d == 10 { 'a' } else if d == 11 { 'b' }
    else if d == 12 { 'c' } else if d == 13 { 'd' } else if d == 14 { 'e' } else { 'f' }
}

/// How one character is written inside a quoted string: quote, backslash and
/// the common control characters get a two-character escape, every other
/// control character a four-digit code escape, and the rest stand as they are.
pub open spec fn escape_char(c: char) -> Seq<char> {
    if c == '"' { seq!['\\', '"'] }
    else if c == '\\' { seq!['\\', '\\'] }
    else if c == '\n' { seq!['\\', 'n'] }
    else if c == '\t' { seq!['\\', 't'] }
    else if c == '\r' { seq!['\\', 'r'] }
    else if is_control(c) {
        seq!['\\', 'u', '0', '0', hex_digit((c as u32) as int / 16), hex_digit((c as u32) as int % 16)]
    } else { seq![c] }
}

/// A whole character sequence, escaped character for character.
pub open spec fn escape_seq(s: Seq<char>) -> Seq<char>
    decreases s.len(),
{
    if s.len() == 0 {
        Seq::empty()
    } else {
        escape_char(s[0]) + escape_seq(s.drop_first())
    }
}

/// A quoted, escaped string literal.
pub open spec fn enc_string(s: Seq<char>) -> Seq<char> {
    seq!['"'] + escape_seq(s) + seq!['"']
}

/// A boolean literal.
pub open spec fn enc_bool(b: bool) -> Seq<char> {
    if b { seq!['t', 'r', 'u', 'e'] } else { seq!['f', 'a', 'l', 's', 'e'] }
}

// ---------------------------------------------------------------------------
// The pretty-printed document: a two-space-indented sequence of objects.
// ---------------------------------------------------------------------------

/// One member line of a record: four spaces of indent, the quoted member
/// name, a colon and a space, then the value.
pub open spec fn enc_member(name: Seq<char>, val: Seq<char>) -> Seq<char> {
    seq![' ', ' ', ' ', ' '] + enc_string(name) + seq![':', ' '] + val
}

/// One record, with its four members in stable order.
pub open spec fn enc_record(p: ParamView) -> Seq<char> {
    seq!['{', '\n']
        + enc_member(key_name(), enc_string(p.parameter_key)) + seq![',', '\n']
        + enc_member(value_name(), enc_string(p.parameter_value)) + seq![',', '\n']
        + enc_member(resolved_name(), enc_string(p.resolved_value)) + seq![',', '\n']
        + enc_member(previous_name(), enc_bool(p.use_previous_value)) + seq!['\n', ' ', ' ', '}']
}

/// A non-empty list of records, separated by a comma, a line break and the
/// two-space indent of the next record.
pub open spec fn enc_list(ps: Seq<ParamView>) -> Seq<char>
    decreases ps.len(),
{
    if ps.len() == 0 {
        Seq::empty()
    } else if ps.len() == 1 {
        enc_record(ps[0])
    } else {
        enc_record(ps[0]) + seq![',', '\n', ' ', ' '] + enc_list(ps.drop_first())
    }
}

/// The whole document an ordered record sequence serializes to.
pub open spec fn spec_encode(ps: Seq<ParamView>) -> Seq<char> {
    if ps.len() == 0 {
        seq!['[', ']']
    } else {
        seq!['[', '\n', ' ', ' '] + enc_list(ps) + seq!['\n', ']']
    }
}

// ---------------------------------------------------------------------------
// The executable encoder.
// ---------------------------------------------------------------------------

/// The lower-case hexadecimal digit of a value below sixteen.
fn hex_digit_exec(d: u32) -> (r: char)
    requires
        d < 16,
    ensures
        r == hex_digit(d as int),
{
    if d == 0 { '0' } else if d == 1 { '1' } else if d == 2 { '2' } else if d == 3 { '3' }
    else if d == 4 { '4' } else if d == 5 { '5' } else if d == 6 { '6' } else if d == 7 { '7' }
    else if d == 8 { '8' } else if d == 9 { '9' } else if d == 10 { 'a' } else if d == 11 { 'b' }
    else if d == 12 { 'c' } else if d == 13 { 'd' } else if d == 14 { 'e' } else { 'f' }
}

proof fn lemma_escape_snoc(s: Seq<char>, c: char)
    ensures
        escape_seq(s.push(c)) == escape_seq(s) + escape_char(c),
    decreases s.len(),
{
    if s.len() == 0 {
        assert(s.push(c)[0] == c);
        assert(s.push(c).drop_first() =~= Seq::<char>::empty());
        assert(escape_seq(Seq::<char>::empty()) == Seq::<char>::empty());
        assert(escape_seq(s.push(c)) == escape_char(c) + Seq::<char>::empty());
        assert(escape_seq(s.push(c)) =~= escape_seq(s) + escape_char(c));
    } else {
        lemma_escape_snoc(s.drop_first(), c);
        assert(s.push(c).drop_first() =~= s.drop_first().push(c));
        assert(s.push(c)[0] == s[0]);
        assert(escape_seq(s.push(c)) == escape_char(s[0]) + escape_seq(s.drop_first().push(c)));
        assert(escape_seq(s.push(c)) == escape_char(s[0]) + (escape_seq(s.drop_first())
            + escape_char(c)));
        assert(escape_seq(s) == escape_char(s[0]) + escape_seq(s.drop_first()));
        assert(escape_char(s[0]) + (escape_seq(s.drop_first()) + escape_char(c))
            =~= (escape_char(s[0]) + escape_seq(s.drop_first())) + escape_char(c));
    }
}

/// Append the quoted, escaped form of `s` to `out`.
fn push_quoted(out: &mut Vec<char>, s: &str)
    ensures
        final(out)@ == old(out)@ + enc_string(s@),
{
    out.push('"');
    let cs = chars_of(s);
    let mut j: usize = 0;
    while j < cs.len()
        invariant
            0 <= j <= cs.len(),
            cs@ == s@,
            out@ == old(out)@ + seq!['"'] + escape_seq(cs@.take(j as int)),
        decreases cs.len() - j,
    {
        let c = cs[j];
        let ghost pre = out@;
        if c == '"' {
            out.push('\\');
            out.push('"');
        } else if c == '\\' {
            out.push('\\');
            out.push('\\');
        } else if c == '\n' {
            out.push('\\');
            out.push('n');
        } else if c == '\t' {
            out.push('\\');
            out.push('t');
        } else if c == '\r' {
            out.push('\\');
            out.push('r');
        } else if (c as u32) < 0x20 {
            let n = c as u32;
            out.push('\\');
            out.push('u');
            out.push('0');
            out.push('0');
            out.push(hex_digit_exec(n / 16));
            out.push(hex_digit_exec(n % 16));
        } else {
            out.push(c);
        }
        assert(out@ =~= pre + escape_char(c));
        proof {
            lemma_escape_snoc(cs@.take(j as int), c);
            assert(cs@.take(j + 1) =~= cs@.take(j as int).push(cs@[j as int]));
        }
        j = j + 1;
        assert(out@ =~= old(out)@ + seq!['"'] + escape_seq(cs@.take(j as int)));
    }
    assert(cs@.take(cs@.len() as int) =~= cs@);
    out.push('"');
    assert(out@ =~= old(out)@ + enc_string(s@));
}

/// Append one member line to `out`.
fn push_member_str(out: &mut Vec<char>, name: &str, val: &str)
    ensures
        final(out)@ == old(out)@ + enc_member(name@, enc_string(val@)),
{
    out.push(' ');
    out.push(' ');
    out.push(' ');
    out.push(' ');
    push_quoted(out, name);
    out.push(':');
    out.push(' ');
    push_quoted(out, val);
    assert(out@ =~= old(out)@ + enc_member(name@, enc_string(val@)));
}

/// Append one boolean member line to `out`.
fn push_member_bool(out: &mut Vec<char>, name: &str, val: bool)
    ensures
        final(out)@ == old(out)@ + enc_member(name@, enc_bool(val)),
{
    out.push(' ');
    out.push(' ');
    out.push(' ');
    out.push(' ');
    push_quoted(out, name);
    out.push(':');
    out.push(' ');
    if val {
        out.push('t');
        out.push('r');
        out.push('u');
        out.push('e');
    } else {
        out.push('f');
        out.push('a');
        out.push('l');
        out.push('s');
        out.push('e');
    }
    assert(out@ =~= old(out)@ + enc_member(name@, enc_bool(val)));
}

/// Append one whole record to `out`.
fn push_record(out: &mut Vec<char>, p: &ParamJson)
    ensures
        final(out)@ == old(out)@ + enc_record(p@),
{
    out.push('{');
    out.push('\n');
    push_member_str(out, "parameter_key", p.parameter_key.as_str());
    out.push(',');
    out.push('\n');
    push_member_str(out, "parameter_value", p.parameter_value.as_str());
    out.push(',');
    out.push('\n');
    push_member_str(out, "resolved_value", p.resolved_value.as_str());
    out.push(',');
    out.push('\n');
    push_member_bool(out, "use_previous_value", p.use_previous_value);
    out.push('\n');
    out.push(' ');
    out.push(' ');
    out.push('}');
    assert(out@ =~= old(out)@ + enc_record(p@));
}

proof fn lemma_enc_list_snoc(ps: Seq<ParamView>)
    requires
        ps.len() >= 2,
    ensures
        enc_list(ps) == enc_list(ps.drop_last()) + seq![',', '\n', ' ', ' '] + enc_record(ps.last()),
    decreases ps.len(),
{
    if ps.len() == 2 {
        assert(ps.drop_first().len() == 1);
        assert(ps.drop_first()[0] == ps.last());
        assert(ps.drop_last().len() == 1);
        assert(ps.drop_last()[0] == ps[0]);
        assert(enc_list(ps) =~= enc_list(ps.drop_last()) + seq![',', '\n', ' ', ' ']
            + enc_record(ps.last()));
    } else {
        lemma_enc_list_snoc(ps.drop_first());
        assert(ps.drop_first().drop_last() =~= ps.drop_last().drop_first());
        assert(ps.drop_first().last() == ps.last());
        assert(ps.drop_last()[0] == ps[0]);
        assert(ps.drop_last().len() >= 2);
        let sep = seq![',', '\n', ' ', ' '];
        assert(enc_list(ps) == enc_record(ps[0]) + sep + enc_list(ps.drop_first()));
        assert(enc_list(ps.drop_first()) == enc_list(ps.drop_last().drop_first()) + sep
            + enc_record(ps.last()));
        assert(enc_list(ps.drop_last()) == enc_record(ps[0]) + sep
            + enc_list(ps.drop_last().drop_first()));
        assert(enc_record(ps[0]) + sep + (enc_list(ps.drop_last().drop_first()) + sep
            + enc_record(ps.last())) =~= (enc_record(ps[0]) + sep
            + enc_list(ps.drop_last().drop_first())) + sep + enc_record(ps.last()));
    }
}

/// Serialize an ordered record sequence into its pretty-printed textual
/// form. The result always parses back: see `lemma_codec_round_trip`.
pub fn encode(records: &Vec<ParamJson>) -> (r: String)
    ensures
        r@ == spec_encode(params_view(records@)),
{
    let ghost ps = params_view(records@);
    assert(ps.len() == records@.len());
    let mut out: Vec<char> = Vec::new();
    if records.len() == 0 {
        out.push('[');
        out.push(']');
        assert(out@ =~= spec_encode(ps));
    } else {
        out.push('[');
        out.push('\n');
        out.push(' ');
        out.push(' ');
        let mut i: usize = 0;
        while i < records.len()
            invariant
                0 < records.len() == ps.len(),
                0 <= i <= records.len(),
                ps == params_view(records@),
                i == 0 ==> out@ == seq!['[', '\n', ' ', ' '],
                i > 0 ==> out@ == seq!['[', '\n', ' ', ' '] + enc_list(ps.take(i as int)),
            decreases records.len() - i,
        {
            let ghost pre = out@;
            if i > 0 {
                out.push(',');
                out.push('\n');
                out.push(' ');
                out.push(' ');
            }
            push_record(&mut out, &records[i]);
            assert(records@[i as int]@ == ps[i as int]);
            proof {
                if i == 0 {
                    assert(ps.take(1)[0] == ps[0]);
                    assert(enc_list(ps.take(1)) == enc_record(ps[0]));
                    assert(out@ =~= seq!['[', '\n', ' ', ' '] + enc_list(ps.take(1)));
                } else {
                    lemma_enc_list_snoc(ps.take(i + 1));
                    assert(ps.take(i + 1).drop_last() =~= ps.take(i as int));
                    assert(ps.take(i + 1).last() == ps[i as int]);
                    assert(out@ =~= seq!['[', '\n', ' ', ' '] + enc_list(ps.take(i + 1)));
                }
            }
            i = i + 1;
        }
        assert(ps.take(ps.len() as int) =~= ps);
        out.push('\n');
        out.push(']');
        assert(out@ =~= spec_encode(ps));
    }
    string_of(&out)
}

// ---------------------------------------------------------------------------
// The specification-level parser. Each function takes the remaining input
// and yields the parsed value together with what is left, or nothing when
// the text is malformed. The executable decoder is proved to agree with
// these functions exactly.
// ---------------------------------------------------------------------------

/// The characters the parser skips between tokens.
pub open spec fn is_ws(c: char) -> bool {
    c == ' ' || c == '\n' || c == '\t' || c == '\r'
}

/// The input with its leading whitespace removed.
pub open spec fn sp_ws(s: Seq<char>) -> Seq<char>
    decreases s.len(),
{
    if s.len() > 0 && is_ws(s[0]) {
        sp_ws(s.drop_first())
    } else {
        s
    }
}

/// The value of one hexadecimal digit, upper or lower case.
pub open spec fn hex_val(c: char) -> Option<int> {
    if c == '0' { Some(0int) } else if c == '1' { Some(1int) } else if c == '2' { Some(2int) }
    else if c == '3' { Some(3int) } else if c == '4' { Some(4int) } else if c == '5' { Some(5int) }
    else if c == '6' { Some(6int) } else if c == '7' { Some(7int) } else if c == '8' { Some(8int) }
    else if c == '9' { Some(9int) } else if c == 'a' || c == 'A' { Some(10int) }
    else if c == 'b' || c == 'B' { Some(11int) } else if c == 'c' || c == 'C' { Some(12int) }
    else if c == 'd' || c == 'D' { Some(13int) } else if c == 'e' || c == 'E' { Some(14int) }
    else if c == 'f' || c == 'F' { Some(15int) } else { None }
}

/// What a two-character escape stands for.
pub open spec fn simple_unescape(c: char) -> Option<char> {
    if c == '"' { Some('"') } else if c == '\\' { Some('\\') } else if c == '/' { Some('/') }
    else if c == 'n' { Some('\n') } else if c == 't' { Some('\t') } else if c == 'r' { Some('\r') }
    else if c == 'b' { Some('\u{8}') } else if c == 'f' { Some('\u{c}') } else { None }
}

/// A code a four-digit escape may carry: any Unicode scalar value that four
/// hexadecimal digits can write, so anything below the surrogate range or
/// above it.
pub open spec fn is_scalar_code(n: int) -> bool {
    (0 <= n < 0xD800) || (0xE000 <= n <= 0xFFFF)
}

/// The body of a quoted string, after its opening quote: the decoded
/// characters and the input after the closing quote.
pub open spec fn sp_str_body(s: Seq<char>) -> Option<(Seq<char>, Seq<char>)>
    decreases s.len(),
{
    if s.len() == 0 {
        None
    } else if s[0] == '"' {
        Some((Seq::empty(), s.drop_first()))
    } else if s[0] == '\\' {
        if s.len() < 2 {
            None
        } else if s[1] == 'u' {
            if s.len() < 6 {
                None
            } else {
                match (hex_val(s[2]), hex_val(s[3]), hex_val(s[4]), hex_val(s[5])) {
                    (Some(h2), Some(h3), Some(h4), Some(h5)) => {
                        let n = h2 * 4096 + h3 * 256 + h4 * 16 + h5;
                        if is_scalar_code(n) {
                            match sp_str_body(s.skip(6)) {
                                Some((t, r)) => Some((seq![n as char] + t, r)),
                                None => None,
                            }
                        } else {
                            None
                        }
                    }
                    _ => None,
                }
            }
        } else {
            match simple_unescape(s[1]) {
                Some(c) => match sp_str_body(s.skip(2)) {
                    Some((t, r)) => Some((seq![c] + t, r)),
                    None => None,
                },
                None => None,
            }
        }
    } else if is_control(s[0]) {
        None
    } else {
        match sp_str_body(s.drop_first()) {
            Some((t, r)) => Some((seq![s[0]] + t, r)),
            None => None,
        }
    }
}

/// A quoted string at the head of the input.
pub open spec fn sp_string(s: Seq<char>) -> Option<(Seq<char>, Seq<char>)> {
    if s.len() > 0 && s[0] == '"' {
        sp_str_body(s.drop_first())
    } else {
        None
    }
}

/// A boolean literal at the head of the input.
pub open spec fn sp_bool(s: Seq<char>) -> Option<(bool, Seq<char>)> {
    if s.len() >= 4 && s[0] == 't' && s[1] == 'r' && s[2] == 'u' && s[3] == 'e' {
        Some((true, s.skip(4)))
    } else if s.len() >= 5 && s[0] == 'f' && s[1] == 'a' && s[2] == 'l' && s[3] == 's'
        && s[4] == 'e' {
        Some((false, s.skip(5)))
    } else {
        None
    }
}

/// A member's value: a string or a boolean. Nothing else may stand in a
/// parameter record.
pub ghost enum GVal {
    S(Seq<char>),
    B(bool),
}

/// The fields of one parameter object as found in the text, each possibly
/// absent.
pub ghost struct RawRec {
    pub key: Option<Seq<char>>,
    pub value: Option<Seq<char>>,
    pub previous: Option<bool>,
    pub resolved: Option<Seq<char>>,
}

/// A record with no member seen yet.
pub open spec fn empty_raw() -> RawRec {
    RawRec { key: None, value: None, previous: None, resolved: None }
}

/// Record one named member. A name that is not one of the four member
/// names, or a value of the wrong kind, makes the record malformed. A
/// repeated member keeps the later value.
pub open spec fn assign(acc: RawRec, name: Seq<char>, val: GVal) -> Option<RawRec> {
    if name == key_name() {
        match val {
            GVal::S(s) => Some(RawRec { key: Some(s), ..acc }),
            _ => None,
        }
    } else if name == value_name() {
        match val {
            GVal::S(s) => Some(RawRec { value: Some(s), ..acc }),
            _ => None,
        }
    } else if name == resolved_name() {
        match val {
            GVal::S(s) => Some(RawRec { resolved: Some(s), ..acc }),
            _ => None,
        }
    } else if name == previous_name() {
        match val {
            GVal::B(b) => Some(RawRec { previous: Some(b), ..acc }),
            _ => None,
        }
    } else {
        None
    }
}

/// One `"name": value` member at the head of the input.
pub open spec fn sp_member(s: Seq<char>) -> Option<((Seq<char>, GVal), Seq<char>)> {
    match sp_string(s) {
        Some((name, r)) => {
            let r1 = sp_ws(r);
            if r1.len() > 0 && r1[0] == ':' {
                let r2 = sp_ws(r1.drop_first());
                if r2.len() > 0 && r2[0] == '"' {
                    match sp_string(r2) {
                        Some((v, r3)) => Some(((name, GVal::S(v)), r3)),
                        None => None,
                    }
                } else {
                    match sp_bool(r2) {
                        Some((b, r3)) => Some(((name, GVal::B(b)), r3)),
                        None => None,
                    }
                }
            } else {
                None
            }
        }
        None => None,
    }
}

/// The members of an object from the first member on, ending at the
/// closing brace.
pub open spec fn sp_members(s: Seq<char>, acc: RawRec) -> Option<(RawRec, Seq<char>)>
    decreases s.len(),
{
    match sp_member(s) {
        None => None,
        Some(((name, val), r)) => match assign(acc, name, val) {
            None => None,
            Some(acc2) => {
                let r1 = sp_ws(r);
                if r1.len() > 0 && r1[0] == ',' {
                    let r2 = sp_ws(r1.drop_first());
                    if r2.len() < s.len() {
                        sp_members(r2, acc2)
                    } else {
                        None
                    }
                } else if r1.len() > 0 && r1[0] == '}' {
                    Some((acc2, r1.drop_first()))
                } else {
                    None
                }
            }
        },
    }
}

/// One parameter object at the head of the input.
pub open spec fn sp_record(s: Seq<char>) -> Option<(RawRec, Seq<char>)> {
    if s.len() > 0 && s[0] == '{' {
        let s1 = sp_ws(s.drop_first());
        if s1.len() > 0 && s1[0] == '}' {
            Some((empty_raw(), s1.drop_first()))
        } else {
            sp_members(s1, empty_raw())
        }
    } else {
        None
    }
}

/// The objects of the top-level array from the first object on, ending at
/// the closing bracket.
pub open spec fn sp_records(s: Seq<char>, acc: Seq<RawRec>) -> Option<(Seq<RawRec>, Seq<char>)>
    decreases s.len(),
{
    match sp_record(s) {
        None => None,
        Some((rec, r)) => {
            let r1 = sp_ws(r);
            if r1.len() > 0 && r1[0] == ',' {
                let r2 = sp_ws(r1.drop_first());
                if r2.len() < s.len() {
                    sp_records(r2, acc.push(rec))
                } else {
                    None
                }
            } else if r1.len() > 0 && r1[0] == ']' {
                Some((acc.push(rec), r1.drop_first()))
            } else {
                None
            }
        },
    }
}

/// The whole document: one array of parameter objects and nothing after it.
pub open spec fn sp_document(s: Seq<char>) -> Option<Seq<RawRec>> {
    let s1 = sp_ws(s);
    if s1.len() > 0 && s1[0] == '[' {
        let s2 = sp_ws(s1.drop_first());
        if s2.len() > 0 && s2[0] == ']' {
            if sp_ws(s2.drop_first()).len() == 0 {
                Some(Seq::empty())
            } else {
                None
            }
        } else {
            match sp_records(s2, Seq::empty()) {
                Some((recs, r)) => if sp_ws(r).len() == 0 {
                    Some(recs)
                } else {
                    None
                },
                None => None,
            }
        }
    } else {
        None
    }
}

/// The record a parsed object stands for: the absent string members fall
/// back to `"N/A"`, the absent boolean to `false`. Meaningful only when
/// the key member is present; the key falls back to the same placeholder.
pub open spec fn assemble_fields(raw: RawRec) -> ParamView {
    ParamView {
        parameter_key: match raw.key {
            Some(k) => k,
            None => default_field(),
        },
        parameter_value: match raw.value {
            Some(v) => v,
            None => default_field(),
        },
        use_previous_value: match raw.previous {
            Some(b) => b,
            None => false,
        },
        resolved_value: match raw.resolved {
            Some(v) => v,
            None => default_field(),
        },
    }
}

/// What decoding a parameter file yields: the parsed records when the text
/// is an array of well-formed parameter objects each carrying its key;
/// `MalformedParameterData` when it is no such array; `EmptyOrMissingField`
/// when only a key is missing.
pub open spec fn spec_decode(s: Seq<char>) -> Result<Seq<ParamView>, CodecError> {
    match sp_document(s) {
        None => Err(CodecError::MalformedParameterData),
        Some(raws) => {
            if forall|i: int| 0 <= i < raws.len() ==> (#[trigger] raws[i]).key is Some {
                Ok(raws.map_values(|r: RawRec| assemble_fields(r)))
            } else {
                Err(CodecError::EmptyOrMissingField)
            }
        },
    }
}

// ---------------------------------------------------------------------------
// The executable decoder. Each function returns exactly what the
// specification parser says for the input from its position on.
// ---------------------------------------------------------------------------

/// The fields of one parameter object as the executable parser collects
/// them.
pub struct RawRecX {
    pub key: Option<Vec<char>>,
    pub value: Option<Vec<char>>,
    pub previous: Option<bool>,
    pub resolved: Option<Vec<char>>,
}

/// The parsed fields a collected record stands for.
pub open spec fn raw_x_view(x: RawRecX) -> RawRec {
    RawRec {
        key: match x.key {
            Some(v) => Some(v@),
            None => None,
        },
        value: match x.value {
            Some(v) => Some(v@),
            None => None,
        },
        previous: x.previous,
        resolved: match x.resolved {
            Some(v) => Some(v@),
            None => None,
        },
    }
}

/// The parsed fields of a whole collected record list.
pub open spec fn raws_view(s: Seq<RawRecX>) -> Seq<RawRec> {
    s.map_values(|x: RawRecX| raw_x_view(x))
}

/// A member value as the executable parser yields it.
pub enum ValX {
    S(Vec<char>),
    B(bool),
}

/// The value a parsed member stands for.
pub open spec fn val_view(v: ValX) -> GVal {
    match v {
        ValX::S(s) => GVal::S(s@),
        ValX::B(b) => GVal::B(b),
    }
}

fn is_ws_exec(c: char) -> (r: bool)
    ensures
        r == is_ws(c),
{
    c == ' ' || c == '\n' || c == '\t' || c == '\r'
}

/// Skip whitespace from position `i` on; the input from the returned
/// position is the input from `i` with its leading whitespace removed.
fn parse_ws(v: &Vec<char>, i: usize) -> (j: usize)
    requires
        i <= v@.len(),
    ensures
        i <= j <= v@.len(),
        v@.skip(j as int) == sp_ws(v@.skip(i as int)),
{
    let mut j = i;
    while j < v.len() && is_ws_exec(v[j])
        invariant
            i <= j <= v@.len(),
            sp_ws(v@.skip(i as int)) == sp_ws(v@.skip(j as int)),
        decreases v@.len() - j,
    {
        proof {
            assert(v@.skip(j as int)[0] == v@[j as int]);
            assert(v@.skip(j as int).drop_first() =~= v@.skip(j + 1));
        }
        j = j + 1;
    }
    proof {
        if j < v@.len() {
            assert(v@.skip(j as int)[0] == v@[j as int]);
        }
        assert(sp_ws(v@.skip(j as int)) == v@.skip(j as int));
    }
    j
}

fn hex_val_exec(c: char) -> (r: Option<u32>)
    ensures
        match r {
            Some(n) => n < 16 && hex_val(c) == Some(n as int),
            None => hex_val(c) is None,
        },
{
    if c == '0' { Some(0) } else if c == '1' { Some(1) } else if c == '2' { Some(2) }
    else if c == '3' { Some(3) } else if c == '4' { Some(4) } else if c == '5' { Some(5) }
    else if c == '6' { Some(6) } else if c == '7' { Some(7) } else if c == '8' { Some(8) }
    else if c == '9' { Some(9) } else if c == 'a' || c == 'A' { Some(10) }
    else if c == 'b' || c == 'B' { Some(11) } else if c == 'c' || c == 'C' { Some(12) }
    else if c == 'd' || c == 'D' { Some(13) } else if c == 'e' || c == 'E' { Some(14) }
    else if c == 'f' || c == 'F' { Some(15) } else { None }
}

fn simple_unescape_exec(c: char) -> (r: Option<char>)
    ensures
        r == simple_unescape(c),
{
    if c == '"' { Some('"') } else if c == '\\' { Some('\\') } else if c == '/' { Some('/') }
    else if c == 'n' { Some('\n') } else if c == 't' { Some('\t') } else if c == 'r' { Some('\r') }
    else if c == 'b' { Some('\u{8}') } else if c == 'f' { Some('\u{c}') } else { None }
}

/// The parsed prefix tacked onto the front of a string-body parse.
pub open spec fn prepend(pre: Seq<char>, o: Option<(Seq<char>, Seq<char>)>) -> Option<
    (Seq<char>, Seq<char>),
> {
    match o {
        Some(p) => Some((pre + p.0, p.1)),
        None => None,
    }
}

proof fn lemma_prepend_assoc(a: Seq<char>, b: Seq<char>, o: Option<(Seq<char>, Seq<char>)>)
    ensures
        prepend(a, prepend(b, o)) == prepend(a + b, o),
{
    match o {
        Some(p) => {
            assert(a + (b + p.0) =~= (a + b) + p.0);
        },
        None => {},
    }
}

/// Parse a quoted string whose opening quote stands at position `i`.
fn parse_string(v: &Vec<char>, i: usize) -> (res: Option<(Vec<char>, usize)>)
    requires
        i <= v@.len(),
    ensures
        match res {
            Some(p) => i < p.1 <= v@.len() && sp_string(v@.skip(i as int)) == Some(
                (p.0@, v@.skip(p.1 as int)),
            ),
            None => sp_string(v@.skip(i as int)) is None,
        },
{
    if i >= v.len() || v[i] != '"' {
        proof {
            if i < v@.len() {
                assert(v@.skip(i as int)[0] == v@[i as int]);
            }
        }
        return None;
    }
    assert(v@.skip(i as int)[0] == '"');
    let start = i + 1;
    proof {
        assert(v@.skip(i as int).drop_first() =~= v@.skip(start as int));
    }
    let ghost goal = sp_str_body(v@.skip(start as int));
    assert(sp_string(v@.skip(i as int)) == goal);
    let mut acc: Vec<char> = Vec::new();
    let mut k = start;
    while k < v.len()
        invariant
            i < k,
            start <= k <= v@.len(),
            goal == sp_str_body(v@.skip(start as int)),
            goal == prepend(acc@, sp_str_body(v@.skip(k as int))),
            sp_string(v@.skip(i as int)) == goal,
            i < v@.len(),
        decreases v@.len() - k,
    {
        let c = v[k];
        assert(v@.skip(k as int)[0] == c);
        let ghost rem = v@.skip(k as int);
        let ghost acc0 = acc@;
        if c == '"' {
            proof {
                assert(rem.drop_first() =~= v@.skip(k + 1));
                assert(sp_str_body(rem) == Some((Seq::<char>::empty(), v@.skip(k + 1))));
                assert(goal == prepend(acc0, Some((Seq::<char>::empty(), v@.skip(k + 1)))));
                assert(goal == Some((acc0 + Seq::<char>::empty(), v@.skip(k + 1))));
                assert(acc0 + Seq::<char>::empty() =~= acc0);
                assert(goal == Some((acc0, v@.skip(k + 1))));
            }
            return Some((acc, k + 1));
        } else if c == '\\' {
            if v.len() - k < 2 {
                assert(rem.len() < 2);
                return None;
            }
            let e = v[k + 1];
            assert(rem[1] == e);
            if e == 'u' {
                if v.len() - k < 6 {
                    assert(rem.len() < 6);
                    return None;
                }
                assert(rem[2] == v@[k + 2] && rem[3] == v@[k + 3] && rem[4] == v@[k + 4]
                    && rem[5] == v@[k + 5]);
                let h2 = match hex_val_exec(v[k + 2]) {
                    Some(h) => h,
                    None => {
                        return None;
                    },
                };
                let h3 = match hex_val_exec(v[k + 3]) {
                    Some(h) => h,
                    None => {
                        return None;
                    },
                };
                let h4 = match hex_val_exec(v[k + 4]) {
                    Some(h) => h,
                    None => {
                        return None;
                    },
                };
                let h5 = match hex_val_exec(v[k + 5]) {
                    Some(h) => h,
                    None => {
                        return None;
                    },
                };
                let n = h2 * 4096 + h3 * 256 + h4 * 16 + h5;
                assert(n < 0x10000);
                if 0xD800 <= n && n < 0xE000 {
                    assert(!is_scalar_code(n as int));
                    return None;
                }
                assert(is_scalar_code(n as int));
                let c2 = char_from_code(n);
                proof {
                    assert(rem.skip(6) =~= v@.skip(k + 6));
                    assert(sp_str_body(rem) == prepend(
                        seq![(n as int) as char],
                        sp_str_body(v@.skip(k + 6)),
                    ));
                    assert(c2 == (n as int) as char);
                    assert(seq![c2] =~= seq![(n as int) as char]);
                    lemma_prepend_assoc(acc0, seq![c2], sp_str_body(v@.skip(k + 6)));
                    assert(acc0 + seq![c2] =~= acc0.push(c2));
                }
                acc.push(c2);
                k = k + 6;
            } else {
                let c2 = match simple_unescape_exec(e) {
                    Some(c2) => c2,
                    None => {
                        return None;
                    },
                };
                proof {
                    assert(rem.skip(2) =~= v@.skip(k + 2));
                    assert(sp_str_body(rem) == prepend(seq![c2], sp_str_body(v@.skip(k + 2))));
                    lemma_prepend_assoc(acc0, seq![c2], sp_str_body(v@.skip(k + 2)));
                    assert(acc0 + seq![c2] =~= acc0.push(c2));
                }
                acc.push(c2);
                k = k + 2;
            }
        } else if (c as u32) < 0x20 {
            assert(is_control(c));
            return None;
        } else {
            proof {
                assert(rem.drop_first() =~= v@.skip(k + 1));
                assert(sp_str_body(rem) == prepend(seq![c], sp_str_body(v@.skip(k + 1))));
                lemma_prepend_assoc(acc0, seq![c], sp_str_body(v@.skip(k + 1)));
                assert(acc0 + seq![c] =~= acc0.push(c));
            }
            acc.push(c);
            k = k + 1;
        }
    }
    assert(v@.skip(k as int).len() == 0);
    None
}

/// Parse a boolean literal at position `i`.
fn parse_bool(v: &Vec<char>, i: usize) -> (res: Option<(bool, usize)>)
    requires
        i <= v@.len(),
    ensures
        match res {
            Some(p) => i < p.1 <= v@.len() && sp_bool(v@.skip(i as int)) == Some(
                (p.0, v@.skip(p.1 as int)),
            ),
            None => sp_bool(v@.skip(i as int)) is None,
        },
{
    let ghost rem = v@.skip(i as int);
    proof {
        assert(forall|m: int| 0 <= m < rem.len() ==> rem[m] == v@[i + m]);
    }
    if v.len() - i >= 4 && v[i] == 't' && v[i + 1] == 'r' && v[i + 2] == 'u' && v[i + 3] == 'e' {
        proof {
            assert(rem.skip(4) =~= v@.skip(i + 4));
        }
        Some((true, i + 4))
    } else if v.len() - i >= 5 && v[i] == 'f' && v[i + 1] == 'a' && v[i + 2] == 'l' && v[i + 3]
        == 's' && v[i + 4] == 'e' {
        proof {
            assert(rem.skip(5) =~= v@.skip(i + 5));
        }
        Some((false, i + 5))
    } else {
        None
    }
}

/// Whether a parsed name is the given member name.
fn eq_lit(a: &Vec<char>, lit: &str) -> (r: bool)
    ensures
        r == (a@ == lit@),
{
    let cs = chars_of(lit);
    crate::text::eq_chars(a, &cs)
}

/// Parse one `"name": value` member at position `i`.
fn parse_member(v: &Vec<char>, i: usize) -> (res: Option<((Vec<char>, ValX), usize)>)
    requires
        i <= v@.len(),
    ensures
        match res {
            Some(p) => i < p.1 <= v@.len() && sp_member(v@.skip(i as int)) == Some(
                (((p.0).0@, val_view((p.0).1)), v@.skip(p.1 as int)),
            ),
            None => sp_member(v@.skip(i as int)) is None,
        },
{
    let (name, j) = match parse_string(v, i) {
        Some(p) => p,
        None => {
            return None;
        },
    };
    let j1 = parse_ws(v, j);
    if j1 >= v.len() || v[j1] != ':' {
        proof {
            if j1 < v@.len() {
                assert(v@.skip(j1 as int)[0] == v@[j1 as int]);
            }
        }
        return None;
    }
    assert(v@.skip(j1 as int)[0] == ':');
    proof {
        assert(v@.skip(j1 as int).drop_first() =~= v@.skip(j1 + 1));
    }
    let j2 = parse_ws(v, j1 + 1);
    if j2 < v.len() && v[j2] == '"' {
        assert(v@.skip(j2 as int)[0] == '"');
        match parse_string(v, j2) {
            Some((val, j3)) => Some(((name, ValX::S(val)), j3)),
            None => None,
        }
    } else {
        proof {
            if j2 < v@.len() {
                assert(v@.skip(j2 as int)[0] == v@[j2 as int]);
            }
        }
        match parse_bool(v, j2) {
            Some((b, j3)) => Some(((name, ValX::B(b)), j3)),
            None => None,
        }
    }
}

/// Record one parsed member into the collected fields, or reject an
/// unknown name or a value of the wrong kind.
fn assign_exec(acc: RawRecX, name: Vec<char>, val: ValX) -> (r: Option<RawRecX>)
    ensures
        match r {
            Some(a2) => assign(raw_x_view(acc), name@, val_view(val)) == Some(raw_x_view(a2)),
            None => assign(raw_x_view(acc), name@, val_view(val)) is None,
        },
{
    if eq_lit(&name, "parameter_key") {
        match val {
            ValX::S(s) => Some(RawRecX { key: Some(s), ..acc }),
            _ => None,
        }
    } else if eq_lit(&name, "parameter_value") {
        match val {
            ValX::S(s) => Some(RawRecX { value: Some(s), ..acc }),
            _ => None,
        }
    } else if eq_lit(&name, "resolved_value") {
        match val {
            ValX::S(s) => Some(RawRecX { resolved: Some(s), ..acc }),
            _ => None,
        }
    } else if eq_lit(&name, "use_previous_value") {
        match val {
            ValX::B(b) => Some(RawRecX { previous: Some(b), ..acc }),
            _ => None,
        }
    } else {
        None
    }
}

/// Parse one parameter object whose opening brace stands at position `i`.
fn parse_record(v: &Vec<char>, i: usize) -> (res: Option<(RawRecX, usize)>)
    requires
        i <= v@.len(),
    ensures
        match res {
            Some(p) => i < p.1 <= v@.len() && sp_record(v@.skip(i as int)) == Some(
                (raw_x_view(p.0), v@.skip(p.1 as int)),
            ),
            None => sp_record(v@.skip(i as int)) is None,
        },
{
    if i >= v.len() || v[i] != '{' {
        proof {
            if i < v@.len() {
                assert(v@.skip(i as int)[0] == v@[i as int]);
            }
        }
        return None;
    }
    assert(v@.skip(i as int)[0] == '{');
    proof {
        assert(v@.skip(i as int).drop_first() =~= v@.skip(i + 1));
    }
    let j0 = parse_ws(v, i + 1);
    if j0 < v.len() && v[j0] == '}' {
        assert(v@.skip(j0 as int)[0] == '}');
        proof {
            assert(v@.skip(j0 as int).drop_first() =~= v@.skip(j0 + 1));
        }
        let empty = RawRecX { key: None, value: None, previous: None, resolved: None };
        assert(raw_x_view(empty) == empty_raw());
        return Some((empty, j0 + 1));
    }
    proof {
        if j0 < v@.len() {
            assert(v@.skip(j0 as int)[0] == v@[j0 as int]);
        }
        assert(sp_record(v@.skip(i as int)) == sp_members(v@.skip(j0 as int), empty_raw()));
    }
    let ghost goal = sp_members(v@.skip(j0 as int), empty_raw());
    let mut acc = RawRecX { key: None, value: None, previous: None, resolved: None };
    assert(raw_x_view(acc) == empty_raw());
    let mut cur = j0;
    loop
        invariant
            j0 <= cur <= v@.len(),
            goal == sp_members(v@.skip(cur as int), raw_x_view(acc)),
            sp_record(v@.skip(i as int)) == goal,
            i < cur,
        decreases v@.len() - cur,
    {
        let ghost accv = raw_x_view(acc);
        let ((name, val), r) = match parse_member(v, cur) {
            Some(p) => p,
            None => {
                return None;
            },
        };
        let a2 = match assign_exec(acc, name, val) {
            Some(a2) => a2,
            None => {
                return None;
            },
        };
        let r1 = parse_ws(v, r);
        if r1 < v.len() && v[r1] == ',' {
            assert(v@.skip(r1 as int)[0] == ',');
            proof {
                assert(v@.skip(r1 as int).drop_first() =~= v@.skip(r1 + 1));
            }
            let r2 = parse_ws(v, r1 + 1);
            proof {
                assert(v@.skip(r2 as int).len() < v@.skip(cur as int).len());
                assert(sp_members(v@.skip(cur as int), accv) == sp_members(
                    v@.skip(r2 as int),
                    raw_x_view(a2),
                ));
            }
            acc = a2;
            cur = r2;
        } else if r1 < v.len() && v[r1] == '}' {
            assert(v@.skip(r1 as int)[0] == '}');
            proof {
                assert(v@.skip(r1 as int).drop_first() =~= v@.skip(r1 + 1));
                assert(sp_members(v@.skip(cur as int), accv) == Some(
                    (raw_x_view(a2), v@.skip(r1 + 1)),
                ));
            }
            return Some((a2, r1 + 1));
        } else {
            proof {
                if r1 < v@.len() {
                    assert(v@.skip(r1 as int)[0] == v@[r1 as int]);
                }
            }
            return None;
        }
    }
}

/// Parse the objects of the top-level array from the first object on.
fn parse_list(v: &Vec<char>, i: usize) -> (res: Option<(Vec<RawRecX>, usize)>)
    requires
        i <= v@.len(),
    ensures
        match res {
            Some(p) => i < p.1 <= v@.len() && sp_records(v@.skip(i as int), Seq::empty()) == Some(
                (raws_view(p.0@), v@.skip(p.1 as int)),
            ),
            None => sp_records(v@.skip(i as int), Seq::empty()) is None,
        },
{
    let ghost goal = sp_records(v@.skip(i as int), Seq::empty());
    let mut raws: Vec<RawRecX> = Vec::new();
    assert(raws_view(raws@) =~= Seq::<RawRec>::empty());
    let mut cur = i;
    loop
        invariant
            i <= cur <= v@.len(),
            goal == sp_records(v@.skip(cur as int), raws_view(raws@)),
            goal == sp_records(v@.skip(i as int), Seq::empty()),
        decreases v@.len() - cur,
    {
        let ghost racc = raws_view(raws@);
        let (rec, r) = match parse_record(v, cur) {
            Some(p) => p,
            None => {
                return None;
            },
        };
        let ghost recv = raw_x_view(rec);
        let r1 = parse_ws(v, r);
        proof {
            assert(raws_view(raws@.push(rec)) =~= racc.push(recv));
        }
        if r1 < v.len() && v[r1] == ',' {
            assert(v@.skip(r1 as int)[0] == ',');
            proof {
                assert(v@.skip(r1 as int).drop_first() =~= v@.skip(r1 + 1));
            }
            let r2 = parse_ws(v, r1 + 1);
            proof {
                assert(v@.skip(r2 as int).len() < v@.skip(cur as int).len());
                assert(sp_records(v@.skip(cur as int), racc) == sp_records(
                    v@.skip(r2 as int),
                    racc.push(recv),
                ));
            }
            raws.push(rec);
            cur = r2;
        } else if r1 < v.len() && v[r1] == ']' {
            assert(v@.skip(r1 as int)[0] == ']');
            proof {
                assert(v@.skip(r1 as int).drop_first() =~= v@.skip(r1 + 1));
                assert(sp_records(v@.skip(cur as int), racc) == Some(
                    (racc.push(recv), v@.skip(r1 + 1)),
                ));
            }
            raws.push(rec);
            return Some((raws, r1 + 1));
        } else {
            proof {
                if r1 < v@.len() {
                    assert(v@.skip(r1 as int)[0] == v@[r1 as int]);
                }
            }
            return None;
        }
    }
}

/// Decode a parameter file.
///
/// Succeeds exactly on a document that is one array of parameter objects,
/// each object holding only the four member names with values of the right
/// kind and at least its `parameter_key`; the other three members may be
/// absent and fall back to `"N/A"` and `false`. Fails with
/// `MalformedParameterData` on any other text and with
/// `EmptyOrMissingField` when only a key is missing.
pub fn decode(s: &str) -> (r: Result<Vec<ParamJson>, CodecError>)
    ensures
        match r {
            Ok(ps) => spec_decode(s@) == Ok::<Seq<ParamView>, CodecError>(params_view(ps@)),
            Err(e) => spec_decode(s@) == Err::<Seq<ParamView>, CodecError>(e),
        },
{
    let v = chars_of(s);
    assert(v@.skip(0) =~= v@);
    let i1 = parse_ws(&v, 0);
    if i1 >= v.len() || v[i1] != '[' {
        proof {
            if i1 < v@.len() {
                assert(v@.skip(i1 as int)[0] == v@[i1 as int]);
            }
        }
        return Err(CodecError::MalformedParameterData);
    }
    assert(v@.skip(i1 as int)[0] == '[');
    proof {
        assert(v@.skip(i1 as int).drop_first() =~= v@.skip(i1 + 1));
    }
    let i2 = parse_ws(&v, i1 + 1);
    if i2 < v.len() && v[i2] == ']' {
        assert(v@.skip(i2 as int)[0] == ']');
        proof {
            assert(v@.skip(i2 as int).drop_first() =~= v@.skip(i2 + 1));
        }
        let i3 = parse_ws(&v, i2 + 1);
        if i3 == v.len() {
            let out: Vec<ParamJson> = Vec::new();
            proof {
                assert(v@.skip(i3 as int).len() == 0);
                assert(sp_document(s@) == Some(Seq::<RawRec>::empty()));
                assert(params_view(out@) =~= Seq::<RawRec>::empty().map_values(
                    |r: RawRec| assemble_fields(r),
                ));
            }
            return Ok(out);
        } else {
            assert(v@.skip(i3 as int).len() > 0);
            return Err(CodecError::MalformedParameterData);
        }
    }
    proof {
        if i2 < v@.len() {
            assert(v@.skip(i2 as int)[0] == v@[i2 as int]);
        }
    }
    let (raws, r) = match parse_list(&v, i2) {
        Some(p) => p,
        None => {
            return Err(CodecError::MalformedParameterData);
        },
    };
    let i3 = parse_ws(&v, r);
    if i3 != v.len() {
        assert(v@.skip(i3 as int).len() > 0);
        return Err(CodecError::MalformedParameterData);
    }
    assert(v@.skip(i3 as int).len() == 0);
    let ghost raw_seq = raws_view(raws@);
    assert(sp_document(s@) == Some(raw_seq));
    // every record must carry its key; the other members fall back
    let mut out: Vec<ParamJson> = Vec::new();
    let mut raws = raws;
    let total = raws.len();
    assert(raw_seq.len() == total);
    let mut idx: usize = 0;
    while raws.len() > 0
        invariant
            sp_document(s@) == Some(raw_seq),
            raw_seq.len() == total <= usize::MAX,
            idx + raws.len() == total,
            out.len() == idx,
            raws_view(raws@) =~= raw_seq.skip(idx as int),
            forall|m: int| 0 <= m < idx ==> (#[trigger] raw_seq[m]).key is Some,
            forall|m: int| 0 <= m < idx ==> #[trigger] out@[m]@ == assemble_fields(raw_seq[m]),
        decreases raws.len(),
    {
        let ghost before = raws@;
        let rec = raws.remove(0);
        proof {
            assert(raws_view(before)[0] == raw_x_view(before[0]));
            assert(raw_x_view(rec) == raw_seq[idx as int]);
        }
        let RawRecX { key, value, previous, resolved } = rec;
        let k = match key {
            Some(k) => k,
            None => {
                proof {
                    assert(raw_seq[idx as int].key is None);
                    assert(!(forall|m: int|
                        0 <= m < raw_seq.len() ==> (#[trigger] raw_seq[m]).key is Some)) by {
                        assert(0 <= idx < raw_seq.len());
                        assert(!(raw_seq[idx as int].key is Some));
                    }
                }
                return Err(CodecError::EmptyOrMissingField);
            },
        };
        let p = ParamJson {
            parameter_key: string_of(&k),
            parameter_value: match value {
                Some(w) => string_of(&w),
                None => default_field_exec(),
            },
            use_previous_value: match previous {
                Some(b) => b,
                None => false,
            },
            resolved_value: match resolved {
                Some(w) => string_of(&w),
                None => default_field_exec(),
            },
        };
        assert(p@ == assemble_fields(raw_seq[idx as int]));
        out.push(p);
        idx = idx + 1;
        proof {
            assert(raws@ =~= before.drop_first());
            assert forall|m: int| 0 <= m < raws@.len() implies raws_view(raws@)[m] == raw_seq.skip(
                idx as int,
            )[m] by {
                assert(raws@[m] == before[m + 1]);
                assert(raws_view(before)[m + 1] == raw_x_view(before[m + 1]));
                assert(raws_view(before)[m + 1] == raw_seq.skip(idx - 1)[m + 1]);
            }
            assert(raws_view(raws@) =~= raw_seq.skip(idx as int));
        }
    }
    assert(forall|m: int| 0 <= m < raw_seq.len() ==> (#[trigger] raw_seq[m]).key is Some);
    proof {
        assert(params_view(out@) =~= raw_seq.map_values(|r: RawRec| assemble_fields(r)));
    }
    Ok(out)
}

// ---------------------------------------------------------------------------
// The round trip: everything the encoder writes, the parser reads back
// unchanged.
// ---------------------------------------------------------------------------

proof fn lemma_sp_ws_all(w: Seq<char>, rest: Seq<char>)
    requires
        forall|i: int| 0 <= i < w.len() ==> is_ws(#[trigger] w[i]),
        rest.len() == 0 || !is_ws(rest[0]),
    ensures
        sp_ws(w + rest) == rest,
    decreases w.len(),
{
    if w.len() == 0 {
        assert(w + rest =~= rest);
    } else {
        assert((w + rest)[0] == w[0]);
        assert((w + rest).drop_first() =~= w.drop_first() + rest);
        lemma_sp_ws_all(w.drop_first(), rest);
    }
}

proof fn lemma_hex_digit_val(d: int)
    requires
        0 <= d < 16,
    ensures
        hex_val(hex_digit(d)) == Some(d),
{
}

proof fn lemma_char_code_roundtrip(c: char)
    requires
        (c as u32) < 0x20,
    ensures
        (((c as u32) as int) as char) == c,
{
}

proof fn lemma_parse_enc_str_body(x: Seq<char>, rest: Seq<char>)
    ensures
        sp_str_body(escape_seq(x) + seq!['"'] + rest) == Some((x, rest)),
    decreases x.len(),
{
    let s = escape_seq(x) + seq!['"'] + rest;
    if x.len() == 0 {
        assert(escape_seq(x) == Seq::<char>::empty());
        assert(s =~= seq!['"'] + rest);
        assert(s[0] == '"');
        assert(s.drop_first() =~= rest);
        assert(x =~= Seq::<char>::empty());
    } else {
        let c = x[0];
        let x1 = x.drop_first();
        lemma_parse_enc_str_body(x1, rest);
        let t = escape_seq(x1) + seq!['"'] + rest;
        assert(escape_seq(x) == escape_char(c) + escape_seq(x1));
        assert(s =~= escape_char(c) + t);
        assert(seq![c] + x1 =~= x);
        if c == '"' {
            assert(s[0] == '\\' && s[1] == '"');
            assert(s.skip(2) =~= t);
            assert(sp_str_body(s) == Some((seq![c] + x1, rest)));
        } else if c == '\\' {
            assert(s[0] == '\\' && s[1] == '\\');
            assert(s.skip(2) =~= t);
            assert(sp_str_body(s) == Some((seq![c] + x1, rest)));
        } else if c == '\n' {
            assert(s[0] == '\\' && s[1] == 'n');
            assert(s.skip(2) =~= t);
            assert(sp_str_body(s) == Some((seq![c] + x1, rest)));
        } else if c == '\t' {
            assert(s[0] == '\\' && s[1] == 't');
            assert(s.skip(2) =~= t);
            assert(sp_str_body(s) == Some((seq![c] + x1, rest)));
        } else if c == '\r' {
            assert(s[0] == '\\' && s[1] == 'r');
            assert(s.skip(2) =~= t);
            assert(sp_str_body(s) == Some((seq![c] + x1, rest)));
        } else if is_control(c) {
            let n = (c as u32) as int;
            assert(escape_char(c) == seq!['\\', 'u', '0', '0', hex_digit(n / 16), hex_digit(
                n % 16,
            )]);
            assert(s.len() >= 6);
            assert(s[0] == '\\' && s[1] == 'u' && s[2] == '0' && s[3] == '0');
            assert(s[4] == hex_digit(n / 16) && s[5] == hex_digit(n % 16));
            assert(0 <= n < 32);
            assert(0 <= n / 16 < 16);
            assert(0 <= n % 16 < 16);
            lemma_hex_digit_val(n / 16);
            lemma_hex_digit_val(n % 16);
            assert(hex_val(s[2]) == Some(0int));
            assert(hex_val(s[3]) == Some(0int));
            let m = 0 * 4096 + 0 * 256 + (n / 16) * 16 + n % 16;
            assert(m == n) by {
                vstd::arithmetic::div_mod::lemma_fundamental_div_mod(n, 16);
            }
            assert(is_scalar_code(n));
            lemma_char_code_roundtrip(c);
            assert((n as char) == c);
            assert(s.skip(6) =~= t);
            assert(sp_str_body(s) == Some((seq![n as char] + x1, rest)));
            assert(seq![n as char] =~= seq![c]);
            assert(sp_str_body(s) == Some((seq![c] + x1, rest)));
        } else {
            assert(is_plain(c));
            assert(escape_char(c) == seq![c]);
            assert(s[0] == c);
            assert(s.drop_first() =~= t);
            assert(sp_str_body(s) == Some((seq![c] + x1, rest)));
        }
        assert(sp_str_body(s) == Some((x, rest)));
    }
}

proof fn lemma_parse_enc_string(x: Seq<char>, rest: Seq<char>)
    ensures
        sp_string(enc_string(x) + rest) == Some((x, rest)),
{
    let s = enc_string(x) + rest;
    assert(s[0] == '"');
    assert(s.drop_first() =~= escape_seq(x) + seq!['"'] + rest);
    lemma_parse_enc_str_body(x, rest);
}

proof fn lemma_parse_enc_bool(b: bool, rest: Seq<char>)
    ensures
        sp_bool(enc_bool(b) + rest) == Some((b, rest)),
{
    let s = enc_bool(b) + rest;
    if b {
        assert(s[0] == 't' && s[1] == 'r' && s[2] == 'u' && s[3] == 'e');
        assert(s.skip(4) =~= rest);
    } else {
        assert(s[0] == 'f' && s[1] == 'a' && s[2] == 'l' && s[3] == 's' && s[4] == 'e');
        assert(s.skip(5) =~= rest);
    }
}

/// One member from its name on, without the indent before it.
pub open spec fn m_val(name: Seq<char>, val: Seq<char>) -> Seq<char> {
    enc_string(name) + seq![':', ' '] + val
}

proof fn lemma_parse_member_str(name: Seq<char>, v: Seq<char>, rest: Seq<char>)
    ensures
        sp_member(m_val(name, enc_string(v)) + rest) == Some(((name, GVal::S(v)), rest)),
{
    let s = m_val(name, enc_string(v)) + rest;
    let t1 = seq![':', ' '] + (enc_string(v) + rest);
    assert(s =~= enc_string(name) + t1);
    lemma_parse_enc_string(name, t1);
    assert(sp_string(s) == Some((name, t1)));
    assert(t1[0] == ':');
    assert(!is_ws(':'));
    assert(sp_ws(t1) == t1);
    let t2 = t1.drop_first();
    assert(t2 =~= seq![' '] + (enc_string(v) + rest));
    assert((enc_string(v) + rest)[0] == '"');
    lemma_sp_ws_all(seq![' '], enc_string(v) + rest);
    assert(sp_ws(t2) == enc_string(v) + rest);
    lemma_parse_enc_string(v, rest);
}

proof fn lemma_parse_member_bool(name: Seq<char>, b: bool, rest: Seq<char>)
    ensures
        sp_member(m_val(name, enc_bool(b)) + rest) == Some(((name, GVal::B(b)), rest)),
{
    let s = m_val(name, enc_bool(b)) + rest;
    let t1 = seq![':', ' '] + (enc_bool(b) + rest);
    assert(s =~= enc_string(name) + t1);
    lemma_parse_enc_string(name, t1);
    assert(sp_string(s) == Some((name, t1)));
    assert(t1[0] == ':');
    assert(sp_ws(t1) == t1);
    let t2 = t1.drop_first();
    assert(t2 =~= seq![' '] + (enc_bool(b) + rest));
    assert((enc_bool(b) + rest)[0] == (if b { 't' } else { 'f' }));
    lemma_sp_ws_all(seq![' '], enc_bool(b) + rest);
    assert(sp_ws(t2) == enc_bool(b) + rest);
    assert((enc_bool(b) + rest)[0] != '"');
    lemma_parse_enc_bool(b, rest);
}

/// The parsed fields of a fully written record: every member present.
pub open spec fn full_raw(p: ParamView) -> RawRec {
    RawRec {
        key: Some(p.parameter_key),
        value: Some(p.parameter_value),
        previous: Some(p.use_previous_value),
        resolved: Some(p.resolved_value),
    }
}

#[verifier::rlimit(100)]
#[verifier::spinoff_prover]
proof fn lemma_parse_enc_record(p: ParamView, rest: Seq<char>)
    ensures
        sp_record(enc_record(p) + rest) == Some((full_raw(p), rest)),
{
    reveal_strlit("parameter_key");
    reveal_strlit("parameter_value");
    reveal_strlit("resolved_value");
    reveal_strlit("use_previous_value");
    let w = seq!['\n', ' ', ' ', ' ', ' '];
    let m1 = m_val(key_name(), enc_string(p.parameter_key));
    let m2 = m_val(value_name(), enc_string(p.parameter_value));
    let m3 = m_val(resolved_name(), enc_string(p.resolved_value));
    let m4 = m_val(previous_name(), enc_bool(p.use_previous_value));
    let tail = seq!['\n', ' ', ' ', '}'];
    let s = enc_record(p) + rest;

    let s4 = m4 + (tail + rest);
    let s3 = m3 + (seq![','] + (w + s4));
    let s2 = m2 + (seq![','] + (w + s3));
    let s1 = m1 + (seq![','] + (w + s2));
    assert(s =~= seq!['{'] + (w + s1));

    assert(s[0] == '{');
    assert(s.drop_first() =~= w + s1);
    assert(s1[0] == '"');
    lemma_sp_ws_all(w, s1);
    assert(sp_record(s) == sp_members(s1, empty_raw()));

    lemma_parse_member_str(key_name(), p.parameter_key, seq![','] + (w + s2));
    let r1 = empty_raw();
    let r2 = RawRec { key: Some(p.parameter_key), ..r1 };
    assert(assign(r1, key_name(), GVal::S(p.parameter_key)) == Some(r2));
    let c1 = seq![','] + (w + s2);
    assert(c1[0] == ',');
    assert(sp_ws(c1) == c1);
    assert(c1.drop_first() =~= w + s2);
    assert(s2[0] == '"');
    lemma_sp_ws_all(w, s2);
    assert(s2.len() < s1.len());
    assert(sp_members(s1, r1) == sp_members(s2, r2));

    lemma_parse_member_str(value_name(), p.parameter_value, seq![','] + (w + s3));
    assert(value_name() != key_name());
    let r3 = RawRec { value: Some(p.parameter_value), ..r2 };
    assert(assign(r2, value_name(), GVal::S(p.parameter_value)) == Some(r3));
    let c2 = seq![','] + (w + s3);
    assert(c2[0] == ',');
    assert(sp_ws(c2) == c2);
    assert(c2.drop_first() =~= w + s3);
    assert(s3[0] == '"');
    lemma_sp_ws_all(w, s3);
    assert(s3.len() < s2.len());
    assert(sp_members(s2, r2) == sp_members(s3, r3));

    lemma_parse_member_str(resolved_name(), p.resolved_value, seq![','] + (w + s4));
    assert(resolved_name() != key_name() && resolved_name() != value_name());
    let r4 = RawRec { resolved: Some(p.resolved_value), ..r3 };
    assert(assign(r3, resolved_name(), GVal::S(p.resolved_value)) == Some(r4));
    let c3 = seq![','] + (w + s4);
    assert(c3[0] == ',');
    assert(sp_ws(c3) == c3);
    assert(c3.drop_first() =~= w + s4);
    assert(s4[0] == '"');
    lemma_sp_ws_all(w, s4);
    assert(s4.len() < s3.len());
    assert(sp_members(s3, r3) == sp_members(s4, r4));

    lemma_parse_member_bool(previous_name(), p.use_previous_value, tail + rest);
    assert(previous_name() != key_name() && previous_name() != value_name() && previous_name()
        != resolved_name());
    let r5 = RawRec { previous: Some(p.use_previous_value), ..r4 };
    assert(assign(r4, previous_name(), GVal::B(p.use_previous_value)) == Some(r5));
    let c4 = tail + rest;
    assert(c4 =~= seq!['\n', ' ', ' '] + (seq!['}'] + rest));
    assert((seq!['}'] + rest)[0] == '}');
    lemma_sp_ws_all(seq!['\n', ' ', ' '], seq!['}'] + rest);
    assert(sp_ws(c4) == seq!['}'] + rest);
    assert((seq!['}'] + rest)[0] != ',');
    assert((seq!['}'] + rest).drop_first() =~= rest);
    assert(sp_members(s4, r4) == Some((r5, rest)));
    assert(r5 == full_raw(p));
}

proof fn lemma_enc_record_first(p: ParamView)
    ensures
        enc_record(p).len() > 0,
        enc_record(p)[0] == '{',
{
}

#[verifier::rlimit(100)]
#[verifier::spinoff_prover]
proof fn lemma_parse_enc_list(ps: Seq<ParamView>, acc: Seq<RawRec>, rest: Seq<char>)
    requires
        ps.len() >= 1,
        rest.len() == 0 || !is_ws(rest[0]),
    ensures
        sp_records(enc_list(ps) + seq!['\n', ']'] + rest, acc) == Some(
            (acc + ps.map_values(|q: ParamView| full_raw(q)), rest),
        ),
    decreases ps.len(),
{
    let s = enc_list(ps) + seq!['\n', ']'] + rest;
    let raws = ps.map_values(|q: ParamView| full_raw(q));
    if ps.len() == 1 {
        assert(enc_list(ps) == enc_record(ps[0]));
        let after = seq!['\n', ']'] + rest;
        assert(s =~= enc_record(ps[0]) + after);
        lemma_parse_enc_record(ps[0], after);
        assert(after =~= seq!['\n'] + (seq![']'] + rest));
        assert((seq![']'] + rest)[0] == ']');
        lemma_sp_ws_all(seq!['\n'], seq![']'] + rest);
        assert(sp_ws(after) == seq![']'] + rest);
        assert((seq![']'] + rest)[0] != ',');
        assert((seq![']'] + rest).drop_first() =~= rest);
        assert(sp_records(s, acc) == Some((acc.push(full_raw(ps[0])), rest)));
        assert(acc.push(full_raw(ps[0])) =~= acc + raws);
    } else {
        let ps1 = ps.drop_first();
        assert(enc_list(ps) == enc_record(ps[0]) + seq![',', '\n', ' ', ' '] + enc_list(ps1));
        let after1 = enc_list(ps1) + seq!['\n', ']'] + rest;
        let c0 = seq![','] + (seq!['\n', ' ', ' '] + after1);
        assert(s =~= enc_record(ps[0]) + c0);
        lemma_parse_enc_record(ps[0], c0);
        assert(c0[0] == ',');
        assert(sp_ws(c0) == c0);
        assert(c0.drop_first() =~= seq!['\n', ' ', ' '] + after1);
        lemma_enc_record_first(ps1[0]);
        assert(enc_list(ps1)[0] == '{') by {
            if ps1.len() == 1 {
                assert(enc_list(ps1) == enc_record(ps1[0]));
            } else {
                assert(enc_list(ps1) == enc_record(ps1[0]) + seq![',', '\n', ' ', ' '] + enc_list(
                    ps1.drop_first(),
                ));
            }
        }
        assert(after1[0] == '{');
        lemma_sp_ws_all(seq!['\n', ' ', ' '], after1);
        assert(after1.len() < s.len());
        assert(sp_records(s, acc) == sp_records(after1, acc.push(full_raw(ps[0]))));
        lemma_parse_enc_list(ps1, acc.push(full_raw(ps[0])), rest);
        assert(acc.push(full_raw(ps[0])) + ps1.map_values(|q: ParamView| full_raw(q)) =~= acc
            + raws);
    }
}

/// Every record the encoder writes comes back exactly: decoding the
/// encoding of any ordered record sequence succeeds and yields that
/// sequence, key, value, previous-value flag and resolved value alike.
#[verifier::rlimit(100)]
#[verifier::spinoff_prover]
pub proof fn lemma_codec_round_trip(ps: Seq<ParamView>)
    ensures
        spec_decode(spec_encode(ps)) == Ok::<Seq<ParamView>, CodecError>(ps),
{
    let s = spec_encode(ps);
    if ps.len() == 0 {
        assert(s == seq!['[', ']']);
        assert(!is_ws('['));
        assert(sp_ws(s) == s);
        assert(s[0] == '[');
        assert(s.drop_first() =~= seq![']']);
        assert(sp_ws(seq![']']) == seq![']']);
        assert(seq![']'][0] == ']');
        assert(seq![']'].drop_first() =~= Seq::<char>::empty());
        assert(sp_ws(Seq::<char>::empty()).len() == 0);
        assert(sp_document(s) == Some(Seq::<RawRec>::empty()));
        assert(Seq::<RawRec>::empty().map_values(|r: RawRec| assemble_fields(r)) =~= ps);
    } else {
        let body = enc_list(ps) + seq!['\n', ']'] + Seq::<char>::empty();
        assert(s =~= seq!['['] + (seq!['\n', ' ', ' '] + body));
        assert(sp_ws(s) == s) by {
            assert(!is_ws('['));
            assert(s[0] == '[');
        }
        assert(s[0] == '[');
        assert(s.drop_first() =~= seq!['\n', ' ', ' '] + body);
        lemma_enc_record_first(ps[0]);
        assert(enc_list(ps)[0] == '{') by {
            if ps.len() == 1 {
                assert(enc_list(ps) == enc_record(ps[0]));
            } else {
                assert(enc_list(ps) == enc_record(ps[0]) + seq![',', '\n', ' ', ' '] + enc_list(
                    ps.drop_first(),
                ));
            }
        }
        assert(body[0] == '{');
        lemma_sp_ws_all(seq!['\n', ' ', ' '], body);
        assert(sp_ws(s.drop_first()) == body);
        let raws = ps.map_values(|q: ParamView| full_raw(q));
        lemma_parse_enc_list(ps, Seq::<RawRec>::empty(), Seq::<char>::empty());
        assert(sp_records(body, Seq::<RawRec>::empty()) == Some(
            (Seq::<RawRec>::empty() + raws, Seq::<char>::empty()),
        ));
        assert(Seq::<RawRec>::empty() + raws =~= raws);
        assert(sp_ws(Seq::<char>::empty()).len() == 0);
        assert(sp_document(s) == Some(raws));
        assert(forall|i: int| 0 <= i < raws.len() ==> (#[trigger] raws[i]).key is Some);
        let out = raws.map_values(|r: RawRec| assemble_fields(r));
        assert forall|i: int| 0 <= i < ps.len() implies out[i] == ps[i] by {
            assert(raws[i] == full_raw(ps[i]));
            assert(assemble_fields(full_raw(ps[i])) == ps[i]);
        }
        assert(out =~= ps);
    }
}

// ---------------------------------------------------------------------------
// Permissive decoding: a parameter object may omit any member but its key.
// ---------------------------------------------------------------------------

/// A parameter object holding one string member and nothing else.
pub open spec fn rec_single_str(name: Seq<char>, v: Seq<char>) -> Seq<char> {
    seq!['{', '\n', ' ', ' ', ' ', ' '] + m_val(name, enc_string(v)) + seq!['\n', ' ', ' ', '}']
}

/// A document holding one parameter object and nothing else.
pub open spec fn doc_single(rec_enc: Seq<char>) -> Seq<char> {
    seq!['[', '\n', ' ', ' '] + rec_enc + seq!['\n', ']']
}

#[verifier::rlimit(100)]
#[verifier::spinoff_prover]
proof fn lemma_parse_record_single_str(name: Seq<char>, v: Seq<char>, raw: RawRec, rest: Seq<char>)
    requires
        assign(empty_raw(), name, GVal::S(v)) == Some(raw),
    ensures
        sp_record(rec_single_str(name, v) + rest) == Some((raw, rest)),
{
    let w = seq!['\n', ' ', ' ', ' ', ' '];
    let m1 = m_val(name, enc_string(v));
    let tail = seq!['\n', ' ', ' ', '}'];
    let s = rec_single_str(name, v) + rest;
    let s1 = m1 + (tail + rest);
    assert(s =~= seq!['{'] + (w + s1));
    assert(s[0] == '{');
    assert(s.drop_first() =~= w + s1);
    assert(s1[0] == '"');
    lemma_sp_ws_all(w, s1);
    assert(sp_record(s) == sp_members(s1, empty_raw()));
    lemma_parse_member_str(name, v, tail + rest);
    let c1 = tail + rest;
    assert(c1 =~= seq!['\n', ' ', ' '] + (seq!['}'] + rest));
    assert((seq!['}'] + rest)[0] == '}');
    lemma_sp_ws_all(seq!['\n', ' ', ' '], seq!['}'] + rest);
    assert(sp_ws(c1) == seq!['}'] + rest);
    assert((seq!['}'] + rest)[0] != ',');
    assert((seq!['}'] + rest).drop_first() =~= rest);
    assert(sp_members(s1, empty_raw()) == Some((raw, rest)));
}

#[verifier::rlimit(100)]
#[verifier::spinoff_prover]
proof fn lemma_doc_of_single_record(rec_enc: Seq<char>, raw: RawRec)
    requires
        rec_enc.len() > 0,
        rec_enc[0] == '{',
        sp_record(rec_enc + seq!['\n', ']']) == Some((raw, seq!['\n', ']'])),
    ensures
        sp_document(doc_single(rec_enc)) == Some(seq![raw]),
{
    let s = doc_single(rec_enc);
    let body = rec_enc + seq!['\n', ']'];
    assert(s =~= seq!['['] + (seq!['\n', ' ', ' '] + body));
    assert(s[0] == '[');
    assert(!is_ws('['));
    assert(sp_ws(s) == s);
    assert(s.drop_first() =~= seq!['\n', ' ', ' '] + body);
    assert(body[0] == '{');
    lemma_sp_ws_all(seq!['\n', ' ', ' '], body);
    assert(sp_ws(s.drop_first()) == body);
    let after = seq!['\n', ']'];
    assert(after =~= seq!['\n'] + (seq![']'] + Seq::<char>::empty()));
    assert((seq![']'] + Seq::<char>::empty())[0] == ']');
    lemma_sp_ws_all(seq!['\n'], seq![']'] + Seq::<char>::empty());
    assert(sp_ws(after) == seq![']'] + Seq::<char>::empty());
    assert((seq![']'] + Seq::<char>::empty())[0] != ',');
    assert((seq![']'] + Seq::<char>::empty()).drop_first() =~= Seq::<char>::empty());
    assert(sp_records(body, Seq::<RawRec>::empty()) == Some(
        (Seq::<RawRec>::empty().push(raw), Seq::<char>::empty()),
    ));
    assert(sp_ws(Seq::<char>::empty()).len() == 0);
    assert(Seq::<RawRec>::empty().push(raw) =~= seq![raw]);
}

/// A parameter object that carries only its `parameter_key` member decodes
/// without failing: the absent `parameter_value` and `resolved_value`
/// members fall back to `"N/A"` and the absent `use_previous_value` member
/// to `false`.
#[verifier::rlimit(100)]
#[verifier::spinoff_prover]
pub proof fn lemma_decode_defaults_for_missing_members(k: Seq<char>)
    ensures
        spec_decode(doc_single(rec_single_str(key_name(), k))) == Ok::<
            Seq<ParamView>,
            CodecError,
        >(
            seq![
                ParamView {
                    parameter_key: k,
                    parameter_value: default_field(),
                    use_previous_value: false,
                    resolved_value: default_field(),
                },
            ],
        ),
{
    let raw = RawRec { key: Some(k), value: None, previous: None, resolved: None };
    assert(assign(empty_raw(), key_name(), GVal::S(k)) == Some(raw));
    lemma_parse_record_single_str(key_name(), k, raw, seq!['\n', ']']);
    let rec_enc = rec_single_str(key_name(), k);
    assert(rec_enc[0] == '{');
    lemma_doc_of_single_record(rec_enc, raw);
    let raws = seq![raw];
    assert(forall|i: int| 0 <= i < raws.len() ==> (#[trigger] raws[i]).key is Some);
    let out = raws.map_values(|r: RawRec| assemble_fields(r));
    assert(out[0] == assemble_fields(raw));
    assert(out =~= seq![
        ParamView {
            parameter_key: k,
            parameter_value: default_field(),
            use_previous_value: false,
            resolved_value: default_field(),
        },
    ]);
}

/// A parameter object that lacks its `parameter_key` member makes the
/// whole decode fail with `EmptyOrMissingField`, however well-formed the
/// rest of it is.
#[verifier::rlimit(100)]
#[verifier::spinoff_prover]
pub proof fn lemma_decode_missing_key_fails(v: Seq<char>)
    ensures
        spec_decode(doc_single(rec_single_str(value_name(), v))) == Err::<
            Seq<ParamView>,
            CodecError,
        >(CodecError::EmptyOrMissingField),
{
    reveal_strlit("parameter_key");
    reveal_strlit("parameter_value");
    let raw = RawRec { key: None, value: Some(v), previous: None, resolved: None };
    assert(value_name() != key_name());
    assert(assign(empty_raw(), value_name(), GVal::S(v)) == Some(raw));
    lemma_parse_record_single_str(value_name(), v, raw, seq!['\n', ']']);
    let rec_enc = rec_single_str(value_name(), v);
    assert(rec_enc[0] == '{');
    lemma_doc_of_single_record(rec_enc, raw);
    let raws = seq![raw];
    assert(!(forall|i: int| 0 <= i < raws.len() ==> (#[trigger] raws[i]).key is Some)) by {
        assert(!(raws[0].key is Some));
    }
}

} // verus!
