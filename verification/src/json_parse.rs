//! Parsing JSON text back into [`JsonValue`].
//!
//! The specification parser is a total recursive-descent reading of a
//! character sequence: every parsing function takes a position and returns
//! the parsed piece together with the position after it, or `None` for
//! malformed input.  Positions only ever move forward; the defensive bound
//! checks inside the definitions never fire on input the functions
//! themselves produced, which the lemmas below make precise.
//!
//! The executable parser mirrors the specification exactly; its result is
//! stated, branch for branch, as equal to the specification's.

use vstd::prelude::*;

use crate::chars::{char_from_u32, chars_to_string, is_digit, str_to_chars};
use crate::errors::JiraError;
use crate::json::{arr_model, hex_val, obj_model, JVal, JsonValue};

verus! {

broadcast use {vstd::utf8::char_is_scalar, vstd::utf8::char_u32_cast};

/// JSON whitespace.
pub open spec fn is_ws(c: char) -> bool {
    c == ' ' || c == '\t' || c == '\n' || c == '\r'
}

/// The first position at or after `pos` holding no whitespace.
pub open spec fn skip_ws(s: Seq<char>, pos: int) -> int
    decreases s.len() - pos,
{
    if 0 <= pos < s.len() && is_ws(s[pos]) {
        skip_ws(s, pos + 1)
    } else {
        pos
    }
}

/// `skip_ws` stays within bounds and stops on the first non-blank.
pub proof fn lemma_skip_ws_bounds(s: Seq<char>, pos: int)
    requires
        0 <= pos <= s.len(),
    ensures
        pos <= skip_ws(s, pos) <= s.len(),
        skip_ws(s, pos) == s.len() || !is_ws(s[skip_ws(s, pos)]),
    decreases s.len() - pos,
{
    if pos < s.len() && is_ws(s[pos]) {
        lemma_skip_ws_bounds(s, pos + 1);
    }
}

/// The first position at or after `pos` holding no digit.
pub open spec fn scan_digits(s: Seq<char>, pos: int) -> int
    decreases s.len() - pos,
{
    if 0 <= pos < s.len() && is_digit(s[pos]) {
        scan_digits(s, pos + 1)
    } else {
        pos
    }
}

/// `scan_digits` stays within bounds, passes only digits, and stops on the
/// first non-digit.
pub proof fn lemma_scan_digits_bounds(s: Seq<char>, pos: int)
    requires
        0 <= pos <= s.len(),
    ensures
        pos <= scan_digits(s, pos) <= s.len(),
        forall|i: int| pos <= i < scan_digits(s, pos) ==> is_digit(#[trigger] s[i]),
        scan_digits(s, pos) == s.len() || !is_digit(s[scan_digits(s, pos)]),
    decreases s.len() - pos,
{
    if pos < s.len() && is_digit(s[pos]) {
        lemma_scan_digits_bounds(s, pos + 1);
    }
}

/// The single character an escape letter stands for, if it is a valid
/// one-letter escape.
pub open spec fn unescape_char(e: char) -> Option<char> {
    if e == '"' {
        Some('"')
    } else if e == '\\' {
        Some('\\')
    } else if e == '/' {
        Some('/')
    } else if e == 'b' {
        Some('\u{0008}')
    } else if e == 'f' {
        Some('\u{000c}')
    } else if e == 'n' {
        Some('\n')
    } else if e == 'r' {
        Some('\r')
    } else if e == 't' {
        Some('\t')
    } else {
        None
    }
}

/// The code of four hexadecimal digits at `pos`, if all four are such.
pub open spec fn hex4(s: Seq<char>, pos: int) -> Option<nat>
    recommends
        0 <= pos,
        pos + 4 <= s.len(),
{
    match (hex_val(s[pos]), hex_val(s[pos + 1]), hex_val(s[pos + 2]), hex_val(s[pos + 3])) {
        (Some(a), Some(b), Some(c), Some(d)) => Some(a * 4096 + b * 256 + c * 16 + d),
        _ => None,
    }
}

/// Parses a string body after its opening quote: the characters up to the
/// closing quote, unescaped, and the position after that quote.  A `\u`
/// escape of a high surrogate must be followed by a `\u` escape of a low
/// surrogate; the pair denotes the one character they encode together.  A
/// lone surrogate escape is malformed.
pub open spec fn p_string_body(s: Seq<char>, pos: int) -> Option<(Seq<char>, int)>
    decreases s.len() - pos,
{
    if !(0 <= pos < s.len()) {
        None
    } else {
        let c = s[pos];
        if c == '"' {
            Some((Seq::empty(), pos + 1))
        } else if c == '\\' {
            if pos + 1 >= s.len() {
                None
            } else {
                let e = s[pos + 1];
                if e == 'u' {
                    if pos + 6 > s.len() {
                        None
                    } else {
                        match hex4(s, pos + 2) {
                            None => None,
                            Some(code) => if 0xD800 <= code < 0xDC00 {
                                if pos + 12 > s.len() || s[pos + 6] != '\\' || s[pos + 7] != 'u' {
                                    None
                                } else {
                                    match hex4(s, pos + 8) {
                                        None => None,
                                        Some(lo) => if !(0xDC00 <= lo < 0xE000) {
                                            None
                                        } else {
                                            let cp = 0x10000 + (code - 0xD800) * 0x400 + (lo
                                                - 0xDC00);
                                            match p_string_body(s, pos + 12) {
                                                None => None,
                                                Some((t, p2)) => Some(
                                                    (seq![(cp as u32) as char] + t, p2),
                                                ),
                                            }
                                        },
                                    }
                                }
                            } else if 0xDC00 <= code < 0xE000 {
                                None
                            } else {
                                match p_string_body(s, pos + 6) {
                                    None => None,
                                    Some((t, p2)) => Some((seq![(code as u32) as char] + t, p2)),
                                }
                            },
                        }
                    }
                } else {
                    match unescape_char(e) {
                        None => None,
                        Some(u) => match p_string_body(s, pos + 2) {
                            None => None,
                            Some((t, p2)) => Some((seq![u] + t, p2)),
                        },
                    }
                }
            }
        } else if (c as u32) < 32 {
            None
        } else {
            match p_string_body(s, pos + 1) {
                None => None,
                Some((t, p2)) => Some((seq![c] + t, p2)),
            }
        }
    }
}

/// The end of an optional fraction part: the position unchanged where no
/// point stands there, else the end of the digits after the point, which
/// must be non-empty.
pub open spec fn p_frac(s: Seq<char>, pos: int) -> Option<int> {
    if 0 <= pos < s.len() && s[pos] == '.' {
        if pos + 1 < s.len() && is_digit(s[pos + 1]) {
            Some(scan_digits(s, pos + 1))
        } else {
            None
        }
    } else {
        Some(pos)
    }
}

/// The end of an optional exponent part: the position unchanged where no
/// exponent letter stands there, else the end of the digits after the
/// letter and an optional sign, which must be non-empty.
pub open spec fn p_exp(s: Seq<char>, pos: int) -> Option<int> {
    if 0 <= pos < s.len() && (s[pos] == 'e' || s[pos] == 'E') {
        let q = if pos + 1 < s.len() && (s[pos + 1] == '+' || s[pos + 1] == '-') {
            pos + 2
        } else {
            pos + 1
        };
        if q < s.len() && is_digit(s[q]) {
            Some(scan_digits(s, q))
        } else {
            None
        }
    } else {
        Some(pos)
    }
}

/// Parses a number: an optional minus sign, an integer part without a
/// superfluous leading zero, and an optional fraction and exponent; the
/// whole lexeme is kept as its text.
pub open spec fn p_number(s: Seq<char>, pos: int) -> Option<(JVal, int)> {
    if !(0 <= pos < s.len()) {
        None
    } else {
        let dstart = if s[pos] == '-' {
            pos + 1
        } else {
            pos
        };
        if !(dstart < s.len() && is_digit(s[dstart])) {
            None
        } else {
            let iend = if s[dstart] == '0' {
                dstart + 1
            } else {
                scan_digits(s, dstart)
            };
            if !(dstart < iend <= s.len()) {
                None
            } else {
                match p_frac(s, iend) {
                    None => None,
                    Some(fend) => match p_exp(s, fend) {
                        None => None,
                        Some(eend) => Some((JVal::JNum(s.subrange(pos, eend)), eend)),
                    },
                }
            }
        }
    }
}

/// Parses one value starting exactly at `pos`.
pub open spec fn p_value(s: Seq<char>, pos: int) -> Option<(JVal, int)>
    decreases s.len() - pos, 0nat,
{
    if !(0 <= pos < s.len()) {
        None
    } else {
        let c = s[pos];
        if c == 'n' {
            if pos + 4 <= s.len() && s[pos + 1] == 'u' && s[pos + 2] == 'l' && s[pos + 3] == 'l' {
                Some((JVal::JNull, pos + 4))
            } else {
                None
            }
        } else if c == 't' {
            if pos + 4 <= s.len() && s[pos + 1] == 'r' && s[pos + 2] == 'u' && s[pos + 3] == 'e' {
                Some((JVal::JBool(true), pos + 4))
            } else {
                None
            }
        } else if c == 'f' {
            if pos + 5 <= s.len() && s[pos + 1] == 'a' && s[pos + 2] == 'l' && s[pos + 3] == 's'
                && s[pos + 4] == 'e' {
                Some((JVal::JBool(false), pos + 5))
            } else {
                None
            }
        } else if c == '"' {
            match p_string_body(s, pos + 1) {
                None => None,
                Some((t, p2)) => Some((JVal::JStr(t), p2)),
            }
        } else if c == '-' || is_digit(c) {
            p_number(s, pos)
        } else if c == '[' {
            let p1 = skip_ws(s, pos + 1);
            if pos + 1 <= p1 && p1 < s.len() && s[p1] == ']' {
                Some((JVal::JArr(Seq::empty()), p1 + 1))
            } else {
                match p_items(s, pos + 1) {
                    None => None,
                    Some((items, p2)) => Some((JVal::JArr(items), p2)),
                }
            }
        } else if c == '{' {
            let p1 = skip_ws(s, pos + 1);
            if pos + 1 <= p1 && p1 < s.len() && s[p1] == '}' {
                Some((JVal::JObj(Seq::empty()), p1 + 1))
            } else {
                match p_members(s, pos + 1) {
                    None => None,
                    Some((pairs, p2)) => Some((JVal::JObj(pairs), p2)),
                }
            }
        } else {
            None
        }
    }
}

/// Parses the elements of a non-empty array, starting after the opening
/// bracket or a comma, through the closing bracket.
pub open spec fn p_items(s: Seq<char>, pos: int) -> Option<(Seq<JVal>, int)>
    decreases s.len() - pos, 1nat,
{
    if !(0 <= pos <= s.len()) {
        None
    } else {
        let p1 = skip_ws(s, pos);
        if !(pos <= p1 <= s.len()) {
            None
        } else {
            match p_value(s, p1) {
                None => None,
                Some((v, p2)) => if !(p1 < p2 <= s.len()) {
                    None
                } else {
                    let p3 = skip_ws(s, p2);
                    if !(p2 <= p3 <= s.len()) {
                        None
                    } else if p3 < s.len() && s[p3] == ',' {
                        match p_items(s, p3 + 1) {
                            None => None,
                            Some((rest, p4)) => Some((seq![v] + rest, p4)),
                        }
                    } else if p3 < s.len() && s[p3] == ']' {
                        Some((seq![v], p3 + 1))
                    } else {
                        None
                    }
                },
            }
        }
    }
}

/// Parses the members of a non-empty object, starting after the opening
/// brace or a comma, through the closing brace.
pub open spec fn p_members(s: Seq<char>, pos: int) -> Option<(Seq<(Seq<char>, JVal)>, int)>
    decreases s.len() - pos, 1nat,
{
    if !(0 <= pos <= s.len()) {
        None
    } else {
        let p1 = skip_ws(s, pos);
        if !(pos <= p1 <= s.len() && p1 < s.len() && s[p1] == '"') {
            None
        } else {
            match p_string_body(s, p1 + 1) {
                None => None,
                Some((k, p2)) => if !(p1 + 1 < p2 <= s.len()) {
                    None
                } else {
                    let p3 = skip_ws(s, p2);
                    if !(p2 <= p3 <= s.len() && p3 < s.len() && s[p3] == ':') {
                        None
                    } else {
                        let p4 = skip_ws(s, p3 + 1);
                        if !(p3 + 1 <= p4 <= s.len()) {
                            None
                        } else {
                            match p_value(s, p4) {
                                None => None,
                                Some((v, p5)) => if !(p4 < p5 <= s.len()) {
                                    None
                                } else {
                                    let p6 = skip_ws(s, p5);
                                    if !(p5 <= p6 <= s.len()) {
                                        None
                                    } else if p6 < s.len() && s[p6] == ',' {
                                        match p_members(s, p6 + 1) {
                                            None => None,
                                            Some((rest, p7)) => Some((seq![(k, v)] + rest, p7)),
                                        }
                                    } else if p6 < s.len() && s[p6] == '}' {
                                        Some((seq![(k, v)], p6 + 1))
                                    } else {
                                        None
                                    }
                                },
                            }
                        }
                    }
                },
            }
        }
    }
}

/// The value a whole document parses to: one value, surrounded only by
/// whitespace.
pub open spec fn spec_parse(s: Seq<char>) -> Option<JVal> {
    let p0 = skip_ws(s, 0);
    match p_value(s, p0) {
        None => None,
        Some((v, p)) => if skip_ws(s, p) == s.len() {
            Some(v)
        } else {
            None
        },
    }
}

/// Prepends characters to the string part of a string-body parse.
pub open spec fn str_prepend(pre: Seq<char>, o: Option<(Seq<char>, int)>) -> Option<
    (Seq<char>, int),
> {
    match o {
        Some((t, e)) => Some((pre + t, e)),
        None => None,
    }
}

/// Prepends values to the list part of an item-list parse.
pub open spec fn items_prepend(pre: Seq<JVal>, o: Option<(Seq<JVal>, int)>) -> Option<
    (Seq<JVal>, int),
> {
    match o {
        Some((t, e)) => Some((pre + t, e)),
        None => None,
    }
}

/// Prepends members to the list part of a member-list parse.
pub open spec fn members_prepend(
    pre: Seq<(Seq<char>, JVal)>,
    o: Option<(Seq<(Seq<char>, JVal)>, int)>,
) -> Option<(Seq<(Seq<char>, JVal)>, int)> {
    match o {
        Some((t, e)) => Some((pre + t, e)),
        None => None,
    }
}

proof fn lemma_str_prepend_assoc(a: Seq<char>, b: Seq<char>, o: Option<(Seq<char>, int)>)
    ensures
        str_prepend(a, str_prepend(b, o)) == str_prepend(a + b, o),
{
    match o {
        Some((t, e)) => {
            assert(a + (b + t) =~= (a + b) + t);
        },
        None => {},
    }
}

proof fn lemma_items_prepend_assoc(a: Seq<JVal>, b: Seq<JVal>, o: Option<(Seq<JVal>, int)>)
    ensures
        items_prepend(a, items_prepend(b, o)) == items_prepend(a + b, o),
{
    match o {
        Some((t, e)) => {
            assert(a + (b + t) =~= (a + b) + t);
        },
        None => {},
    }
}

proof fn lemma_members_prepend_assoc(
    a: Seq<(Seq<char>, JVal)>,
    b: Seq<(Seq<char>, JVal)>,
    o: Option<(Seq<(Seq<char>, JVal)>, int)>,
)
    ensures
        members_prepend(a, members_prepend(b, o)) == members_prepend(a + b, o),
{
    match o {
        Some((t, e)) => {
            assert(a + (b + t) =~= (a + b) + t);
        },
        None => {},
    }
}

/// Pushing onto a vector extends its element model by the element's view.
pub proof fn lemma_arr_model_push(items: Seq<JsonValue>, v: JsonValue)
    ensures
        arr_model(items.push(v)) == arr_model(items) + seq![v@],
{
    assert(arr_model(items.push(v)) =~= arr_model(items) + seq![v@]);
}

/// Pushing onto a vector of members extends its model likewise.
pub proof fn lemma_obj_model_push(pairs: Seq<(String, JsonValue)>, k: String, v: JsonValue)
    ensures
        obj_model(pairs.push((k, v))) == obj_model(pairs) + seq![(k@, v@)],
{
    assert(obj_model(pairs.push((k, v))) =~= obj_model(pairs) + seq![(k@, v@)]);
}

fn e_is_digit(c: char) -> (r: bool)
    ensures
        r == is_digit(c),
{
    '0' <= c && c <= '9'
}

fn e_is_ws(c: char) -> (r: bool)
    ensures
        r == is_ws(c),
{
    c == ' ' || c == '\t' || c == '\n' || c == '\r'
}

fn e_skip_ws(s: &Vec<char>, pos: usize) -> (r: usize)
    requires
        pos <= s@.len(),
    ensures
        r as int == skip_ws(s@, pos as int),
        pos <= r <= s@.len(),
{
    let mut p = pos;
    while p < s.len() && e_is_ws(s[p])
        invariant
            pos <= p <= s@.len(),
            skip_ws(s@, pos as int) == skip_ws(s@, p as int),
        decreases s@.len() - p,
    {
        p = p + 1;
    }
    p
}

fn e_scan_digits(s: &Vec<char>, pos: usize) -> (r: usize)
    requires
        pos <= s@.len(),
    ensures
        r as int == scan_digits(s@, pos as int),
        pos <= r <= s@.len(),
{
    let mut p = pos;
    while p < s.len() && e_is_digit(s[p])
        invariant
            pos <= p <= s@.len(),
            scan_digits(s@, pos as int) == scan_digits(s@, p as int),
        decreases s@.len() - p,
    {
        p = p + 1;
    }
    p
}

fn e_hex_val(c: char) -> (r: Option<u32>)
    ensures
        match r {
            Some(v) => hex_val(c) == Some(v as nat) && v < 16,
            None => hex_val(c) is None,
        },
{
    if '0' <= c && c <= '9' {
        Some(c as u32 - '0' as u32)
    } else if 'a' <= c && c <= 'f' {
        Some(c as u32 - 'a' as u32 + 10)
    } else if 'A' <= c && c <= 'F' {
        Some(c as u32 - 'A' as u32 + 10)
    } else {
        None
    }
}

fn e_unescape(e: char) -> (r: Option<char>)
    ensures
        r == unescape_char(e),
{
    if e == '"' {
        Some('"')
    } else if e == '\\' {
        Some('\\')
    } else if e == '/' {
        Some('/')
    } else if e == 'b' {
        Some('\u{0008}')
    } else if e == 'f' {
        Some('\u{000c}')
    } else if e == 'n' {
        Some('\n')
    } else if e == 'r' {
        Some('\r')
    } else if e == 't' {
        Some('\t')
    } else {
        None
    }
}

/// Parses one `\u` escape, with the low-surrogate escape that must follow
/// a high surrogate, returning the decoded character and the position
/// after the whole escape.
#[verifier::rlimit(100)]
#[verifier::spinoff_prover]
fn e_u_escape(s: &Vec<char>, pos: usize) -> (r: Option<(char, usize)>)
    requires
        pos + 1 < s@.len(),
        s@[pos as int] == '\\',
        s@[pos + 1int] == 'u',
    ensures
        match r {
            Some((c, p)) => p_string_body(s@, pos as int) == str_prepend(
                seq![c],
                p_string_body(s@, p as int),
            ) && pos < p <= s@.len(),
            None => p_string_body(s@, pos as int) is None,
        },
{
    if s.len() - pos < 6 {
        return None;
    }
    let h0 = e_hex_val(s[pos + 2]);
    let h1 = e_hex_val(s[pos + 3]);
    let h2 = e_hex_val(s[pos + 4]);
    let h3 = e_hex_val(s[pos + 5]);
    match (h0, h1, h2, h3) {
        (Some(a), Some(b), Some(cc), Some(d)) => {
            let code = a * 4096 + b * 256 + cc * 16 + d;
            if 0xD800 <= code && code < 0xDC00 {
                if s.len() - pos < 12 {
                    return None;
                }
                if s[pos + 6] != '\\' || s[pos + 7] != 'u' {
                    return None;
                }
                let g0 = e_hex_val(s[pos + 8]);
                let g1 = e_hex_val(s[pos + 9]);
                let g2 = e_hex_val(s[pos + 10]);
                let g3 = e_hex_val(s[pos + 11]);
                match (g0, g1, g2, g3) {
                    (Some(a2), Some(b2), Some(c2), Some(d2)) => {
                        let lo = a2 * 4096 + b2 * 256 + c2 * 16 + d2;
                        if !(0xDC00 <= lo && lo < 0xE000) {
                            return None;
                        }
                        let cp = 0x10000 + (code - 0xD800) * 0x400 + (lo - 0xDC00);
                        match char_from_u32(cp) {
                            Some(u) => {
                                proof {
                                    let ghost hi_spec = hex4(s@, pos + 2int)->Some_0;
                                    let ghost lo_spec = hex4(s@, pos + 8int)->Some_0;
                                    assert(hi_spec == code as nat);
                                    assert(lo_spec == lo as nat);
                                    let ghost cp_spec = 0x10000 + (hi_spec - 0xD800) * 0x400 + (
                                    lo_spec - 0xDC00);
                                    assert(cp_spec == cp as int);
                                    vstd::utf8::char_u32_cast(u, cp);
                                    assert(((cp_spec as u32) as char) == u);
                                    assert(p_string_body(s@, pos as int) == str_prepend(
                                        seq![u],
                                        p_string_body(s@, pos + 12int),
                                    ));
                                }
                                Some((u, pos + 12))
                            },
                            None => {
                                proof {
                                    assert(false);
                                }
                                None
                            },
                        }
                    },
                    _ => None,
                }
            } else if 0xDC00 <= code && code < 0xE000 {
                None
            } else {
                match char_from_u32(code) {
                    Some(u) => {
                        proof {
                            let ghost cspec = hex4(s@, pos + 2int)->Some_0;
                            assert(cspec == code as nat);
                            assert((cspec as u32) == code);
                            vstd::utf8::char_u32_cast(u, code);
                            assert(((cspec as u32) as char) == u);
                            assert(p_string_body(s@, pos as int) == str_prepend(
                                seq![u],
                                p_string_body(s@, pos + 6int),
                            ));
                        }
                        Some((u, pos + 6))
                    },
                    None => {
                        proof {
                            assert(false);
                        }
                        None
                    },
                }
            }
        },
        _ => None,
    }
}

#[verifier::rlimit(100)]
#[verifier::spinoff_prover]
fn e_string_body(s: &Vec<char>, pos: usize) -> (r: Option<(Vec<char>, usize)>)
    requires
        pos <= s@.len(),
    ensures
        match r {
            Some((t, p)) => p_string_body(s@, pos as int) == Some((t@, p as int)) && pos < p
                <= s@.len(),
            None => p_string_body(s@, pos as int) is None,
        },
{
    let mut cur = pos;
    let mut built: Vec<char> = Vec::new();
    loop
        invariant
            pos <= cur <= s@.len(),
            p_string_body(s@, pos as int) == str_prepend(
                built@,
                p_string_body(s@, cur as int),
            ),
        decreases s@.len() - cur,
    {
        if cur >= s.len() {
            return None;
        }
        let c = s[cur];
        if c == '"' {
            proof {
                assert(built@ + Seq::<char>::empty() =~= built@);
            }
            return Some((built, cur + 1));
        } else if c == '\\' {
            if cur + 1 >= s.len() {
                return None;
            }
            let e = s[cur + 1];
            if e == 'u' {
                match e_u_escape(s, cur) {
                    Some((u, p)) => {
                        proof {
                            let ghost prev = built@;
                            lemma_str_prepend_assoc(prev, seq![u], p_string_body(s@, p as int));
                            assert(prev.push(u) =~= prev + seq![u]);
                        }
                        built.push(u);
                        cur = p;
                    },
                    None => {
                        return None;
                    },
                }
            } else {
                match e_unescape(e) {
                    None => {
                        return None;
                    },
                    Some(u) => {
                        proof {
                            assert(p_string_body(s@, cur as int) == str_prepend(
                                seq![u],
                                p_string_body(s@, cur + 2int),
                            ));
                            lemma_str_prepend_assoc(built@, seq![u], p_string_body(s@, cur + 2int));
                        }
                        built.push(u);
                        cur = cur + 2;
                    },
                }
            }
        } else if (c as u32) < 32 {
            return None;
        } else {
            proof {
                assert(p_string_body(s@, cur as int) == str_prepend(
                    seq![c],
                    p_string_body(s@, cur + 1int),
                ));
                lemma_str_prepend_assoc(built@, seq![c], p_string_body(s@, cur + 1int));
            }
            built.push(c);
            cur = cur + 1;
        }
    }
}

fn e_frac(s: &Vec<char>, pos: usize) -> (r: Option<usize>)
    requires
        pos <= s@.len(),
    ensures
        match r {
            Some(p) => p_frac(s@, pos as int) == Some(p as int) && pos <= p <= s@.len(),
            None => p_frac(s@, pos as int) is None,
        },
{
    if pos < s.len() && s[pos] == '.' {
        if pos + 1 < s.len() && e_is_digit(s[pos + 1]) {
            Some(e_scan_digits(s, pos + 1))
        } else {
            None
        }
    } else {
        Some(pos)
    }
}

fn e_exp(s: &Vec<char>, pos: usize) -> (r: Option<usize>)
    requires
        pos <= s@.len(),
    ensures
        match r {
            Some(p) => p_exp(s@, pos as int) == Some(p as int) && pos <= p <= s@.len(),
            None => p_exp(s@, pos as int) is None,
        },
{
    if pos < s.len() && (s[pos] == 'e' || s[pos] == 'E') {
        let q = if pos + 1 < s.len() && (s[pos + 1] == '+' || s[pos + 1] == '-') {
            pos + 2
        } else {
            pos + 1
        };
        if q < s.len() && e_is_digit(s[q]) {
            Some(e_scan_digits(s, q))
        } else {
            None
        }
    } else {
        Some(pos)
    }
}

fn e_number(s: &Vec<char>, pos: usize) -> (r: Option<(JsonValue, usize)>)
    requires
        pos <= s@.len(),
    ensures
        match r {
            Some((v, p)) => p_number(s@, pos as int) == Some((v@, p as int)) && pos < p
                <= s@.len(),
            None => p_number(s@, pos as int) is None,
        },
{
    if pos >= s.len() {
        return None;
    }
    let dstart = if s[pos] == '-' {
        pos + 1
    } else {
        pos
    };
    if dstart >= s.len() {
        return None;
    }
    if !e_is_digit(s[dstart]) {
        return None;
    }
    let iend = if s[dstart] == '0' {
        dstart + 1
    } else {
        e_scan_digits(s, dstart)
    };
    proof {
        lemma_scan_digits_bounds(s@, dstart as int);
        assert(dstart < iend <= s@.len());
    }
    let fend = match e_frac(s, iend) {
        Some(p) => p,
        None => {
            return None;
        },
    };
    let eend = match e_exp(s, fend) {
        Some(p) => p,
        None => {
            return None;
        },
    };
    let mut lex: Vec<char> = Vec::new();
    let mut i = pos;
    while i < eend
        invariant
            pos <= i <= eend <= s@.len(),
            lex@ == s@.subrange(pos as int, i as int),
        decreases eend - i,
    {
        lex.push(s[i]);
        i = i + 1;
        proof {
            assert(lex@ =~= s@.subrange(pos as int, i as int));
        }
    }
    let text = chars_to_string(&lex);
    Some((JsonValue::Num(text), eend))
}

fn e_value(s: &Vec<char>, pos: usize) -> (r: Option<(JsonValue, usize)>)
    requires
        pos <= s@.len(),
    ensures
        match r {
            Some((v, p)) => p_value(s@, pos as int) == Some((v@, p as int)) && pos < p
                <= s@.len(),
            None => p_value(s@, pos as int) is None,
        },
    decreases s@.len() - pos, 0nat,
{
    if pos >= s.len() {
        return None;
    }
    let c = s[pos];
    if c == 'n' {
        if s.len() - pos >= 4 && s[pos + 1] == 'u' && s[pos + 2] == 'l' && s[pos + 3] == 'l' {
            Some((JsonValue::Null, pos + 4))
        } else {
            None
        }
    } else if c == 't' {
        if s.len() - pos >= 4 && s[pos + 1] == 'r' && s[pos + 2] == 'u' && s[pos + 3] == 'e' {
            Some((JsonValue::Bool(true), pos + 4))
        } else {
            None
        }
    } else if c == 'f' {
        if s.len() - pos >= 5 && s[pos + 1] == 'a' && s[pos + 2] == 'l' && s[pos + 3] == 's' && s[
            pos + 4] == 'e' {
            Some((JsonValue::Bool(false), pos + 5))
        } else {
            None
        }
    } else if c == '"' {
        match e_string_body(s, pos + 1) {
            Some((t, p2)) => {
                let text = chars_to_string(&t);
                Some((JsonValue::Str(text), p2))
            },
            None => None,
        }
    } else if c == '-' || e_is_digit(c) {
        e_number(s, pos)
    } else if c == '[' {
        let p1 = e_skip_ws(s, pos + 1);
        if p1 < s.len() && s[p1] == ']' {
            proof {
                assert(arr_model(Seq::<JsonValue>::empty()) =~= Seq::<JVal>::empty());
            }
            Some((JsonValue::Arr(Vec::new()), p1 + 1))
        } else {
            match e_items(s, pos + 1) {
                Some((items, p2)) => Some((JsonValue::Arr(items), p2)),
                None => None,
            }
        }
    } else if c == '{' {
        let p1 = e_skip_ws(s, pos + 1);
        if p1 < s.len() && s[p1] == '}' {
            proof {
                assert(obj_model(Seq::<(String, JsonValue)>::empty()) =~= Seq::<
                    (Seq<char>, JVal),
                >::empty());
            }
            Some((JsonValue::Obj(Vec::new()), p1 + 1))
        } else {
            match e_members(s, pos + 1) {
                Some((pairs, p2)) => Some((JsonValue::Obj(pairs), p2)),
                None => None,
            }
        }
    } else {
        None
    }
}

fn e_items(s: &Vec<char>, pos: usize) -> (r: Option<(Vec<JsonValue>, usize)>)
    requires
        pos <= s@.len(),
    ensures
        match r {
            Some((items, p)) => p_items(s@, pos as int) == Some((arr_model(items@), p as int))
                && pos < p <= s@.len(),
            None => p_items(s@, pos as int) is None,
        },
    decreases s@.len() - pos, 1nat,
{
    let mut acc: Vec<JsonValue> = Vec::new();
    let mut cur = pos;
    loop
        invariant
            pos <= cur <= s@.len(),
            p_items(s@, pos as int) == items_prepend(arr_model(acc@), p_items(s@, cur as int)),
        decreases s@.len() - cur,
    {
        let p1 = e_skip_ws(s, cur);
        match e_value(s, p1) {
            None => {
                return None;
            },
            Some((v, p2)) => {
                let p3 = e_skip_ws(s, p2);
                if p3 < s.len() && s[p3] == ',' {
                    proof {
                        let ghost prev = acc@;
                        assert(p_items(s@, cur as int) == items_prepend(
                            seq![v@],
                            p_items(s@, p3 + 1int),
                        ));
                        lemma_items_prepend_assoc(
                            arr_model(prev),
                            seq![v@],
                            p_items(s@, p3 + 1int),
                        );
                        lemma_arr_model_push(prev, v);
                    }
                    acc.push(v);
                    cur = p3 + 1;
                } else if p3 < s.len() && s[p3] == ']' {
                    proof {
                        assert(p_items(s@, cur as int) == Some(
                            (seq![v@], p3 + 1int),
                        ));
                        lemma_arr_model_push(acc@, v);
                        assert(arr_model(acc@) + seq![v@] =~= arr_model(acc@.push(v)));
                    }
                    acc.push(v);
                    return Some((acc, p3 + 1));
                } else {
                    return None;
                }
            },
        }
    }
}

fn e_members(s: &Vec<char>, pos: usize) -> (r: Option<(Vec<(String, JsonValue)>, usize)>)
    requires
        pos <= s@.len(),
    ensures
        match r {
            Some((pairs, p)) => p_members(s@, pos as int) == Some(
                (obj_model(pairs@), p as int),
            ) && pos < p <= s@.len(),
            None => p_members(s@, pos as int) is None,
        },
    decreases s@.len() - pos, 1nat,
{
    let mut acc: Vec<(String, JsonValue)> = Vec::new();
    let mut cur = pos;
    loop
        invariant
            pos <= cur <= s@.len(),
            p_members(s@, pos as int) == members_prepend(
                obj_model(acc@),
                p_members(s@, cur as int),
            ),
        decreases s@.len() - cur,
    {
        let p1 = e_skip_ws(s, cur);
        if p1 >= s.len() {
            return None;
        }
        if s[p1] != '"' {
            return None;
        }
        match e_string_body(s, p1 + 1) {
            None => {
                return None;
            },
            Some((kchars, p2)) => {
                let p3 = e_skip_ws(s, p2);
                if p3 >= s.len() {
                    return None;
                }
                if s[p3] != ':' {
                    return None;
                }
                let p4 = e_skip_ws(s, p3 + 1);
                match e_value(s, p4) {
                    None => {
                        return None;
                    },
                    Some((v, p5)) => {
                        let p6 = e_skip_ws(s, p5);
                        let k = chars_to_string(&kchars);
                        if p6 < s.len() && s[p6] == ',' {
                            proof {
                                let ghost prev = acc@;
                                assert(p_members(s@, cur as int) == members_prepend(
                                    seq![(k@, v@)],
                                    p_members(s@, p6 + 1int),
                                ));
                                lemma_members_prepend_assoc(
                                    obj_model(prev),
                                    seq![(k@, v@)],
                                    p_members(s@, p6 + 1int),
                                );
                                lemma_obj_model_push(prev, k, v);
                            }
                            acc.push((k, v));
                            cur = p6 + 1;
                        } else if p6 < s.len() && s[p6] == '}' {
                            proof {
                                assert(p_members(s@, cur as int) == Some(
                                    (seq![(k@, v@)], p6 + 1int),
                                ));
                                lemma_obj_model_push(acc@, k, v);
                                assert(obj_model(acc@) + seq![(k@, v@)] =~= obj_model(
                                    acc@.push((k, v)),
                                ));
                            }
                            acc.push((k, v));
                            return Some((acc, p6 + 1));
                        } else {
                            return None;
                        }
                    },
                }
            },
        }
    }
}

/// Parses a JSON document: exactly one value surrounded only by whitespace.
pub fn from_json_text(s: &str) -> (r: Result<JsonValue, JiraError>)
    ensures
        match r {
            Ok(v) => spec_parse(s@) == Some(v@),
            Err(e) => spec_parse(s@) is None && e matches JiraError::Deserialization,
        },
{
    let cs = str_to_chars(s);
    let p0 = e_skip_ws(&cs, 0);
    match e_value(&cs, p0) {
        None => Err(JiraError::Deserialization),
        Some((v, p)) => {
            let p9 = e_skip_ws(&cs, p);
            if p9 == cs.len() {
                Ok(v)
            } else {
                Err(JiraError::Deserialization)
            }
        },
    }
}

} // verus!
