//! A structured value model for the tracker's JSON documents.
//!
//! The client owns two JSON-shaped formats: the per-project cache files and
//! the story-creation payloads.  Both are values of [`JsonValue`]; the
//! mathematical model is [`JVal`].  [`render`] gives the exact character
//! sequence a value serializes to, and [`to_json_text`] is the verified
//! serializer.  The values the client builds carry decimal integer number
//! literals; the parser accepts any JSON number and keeps its text.

use vstd::prelude::*;

use crate::chars::{chars_to_string, is_digit, str_to_chars};

verus! {

broadcast use {
    vstd::seq::axiom_seq_index_decreases,
    vstd::std_specs::vec::axiom_vec_index_decreases,
    vstd::std_specs::vec::axiom_vec_decreases_to_view,
};

/// The mathematical model of a JSON value.
#[verifier::ext_equal]
pub enum JVal {
    JNull,
    JBool(bool),
    /// A decimal integer literal, kept as its characters.
    JNum(Seq<char>),
    JStr(Seq<char>),
    JArr(Seq<JVal>),
    /// Members in document order; duplicate keys are kept as written.
    JObj(Seq<(Seq<char>, JVal)>),
}

/// A JSON value as the executable code holds it.
#[derive(Debug)]
pub enum JsonValue {
    Null,
    Bool(bool),
    /// A decimal integer literal, kept as its text.
    Num(String),
    Str(String),
    Arr(Vec<JsonValue>),
    /// Members in document order; duplicate keys are kept as written.
    Obj(Vec<(String, JsonValue)>),
}

/// The model of a sequence of values.  The range guard keeps the element
/// view inside the domain `Seq::new` ever evaluates.
pub open spec fn arr_model(items: Seq<JsonValue>) -> Seq<JVal>
    decreases items,
{
    Seq::new(
        items.len(),
        |i: int|
            if 0 <= i < items.len() {
                items[i]@
            } else {
                JVal::JNull
            },
    )
}

/// The model of a sequence of members, under the same range guard.
pub open spec fn obj_model(pairs: Seq<(String, JsonValue)>) -> Seq<(Seq<char>, JVal)>
    decreases pairs,
{
    Seq::new(
        pairs.len(),
        |i: int|
            if 0 <= i < pairs.len() {
                (pairs[i].0@, pairs[i].1@)
            } else {
                (Seq::empty(), JVal::JNull)
            },
    )
}

impl View for JsonValue {
    type V = JVal;

    open spec fn view(&self) -> JVal
        decreases self,
    {
        match self {
            JsonValue::Null => JVal::JNull,
            JsonValue::Bool(b) => JVal::JBool(*b),
            JsonValue::Num(s) => JVal::JNum(s@),
            JsonValue::Str(s) => JVal::JStr(s@),
            JsonValue::Arr(items) => JVal::JArr(arr_model(items@)),
            JsonValue::Obj(pairs) => JVal::JObj(obj_model(pairs@)),
        }
    }
}

/// A non-empty digit run without a superfluous leading zero.
pub open spec fn digits_ok(d: Seq<char>) -> bool {
    &&& d.len() >= 1
    &&& forall|i: int| 0 <= i < d.len() ==> is_digit(#[trigger] d[i])
    &&& (d[0] == '0' ==> d.len() == 1)
}

/// A decimal integer literal: digits, optionally preceded by a minus sign.
pub open spec fn int_lexeme(s: Seq<char>) -> bool {
    if s.len() >= 1 && s[0] == '-' {
        digits_ok(s.skip(1))
    } else {
        digits_ok(s)
    }
}

/// Well-formedness: every number literal in the value is a decimal integer.
pub open spec fn wf(j: JVal) -> bool
    decreases j,
{
    match j {
        JVal::JNull => true,
        JVal::JBool(_) => true,
        JVal::JNum(s) => int_lexeme(s),
        JVal::JStr(_) => true,
        JVal::JArr(items) => forall|i: int| 0 <= i < items.len() ==> wf(#[trigger] items[i]),
        JVal::JObj(pairs) => forall|i: int|
            0 <= i < pairs.len() ==> wf(#[trigger] pairs[i].1),
    }
}

/// The lower-case hexadecimal digit for a value below sixteen.
pub open spec fn hex_char(n: nat) -> char
    recommends
        n < 16,
{
    if n == 0 {
        '0'
    } else if n == 1 {
        '1'
    } else if n == 2 {
        '2'
    } else if n == 3 {
        '3'
    } else if n == 4 {
        '4'
    } else if n == 5 {
        '5'
    } else if n == 6 {
        '6'
    } else if n == 7 {
        '7'
    } else if n == 8 {
        '8'
    } else if n == 9 {
        '9'
    } else if n == 10 {
        'a'
    } else if n == 11 {
        'b'
    } else if n == 12 {
        'c'
    } else if n == 13 {
        'd'
    } else if n == 14 {
        'e'
    } else {
        'f'
    }
}

/// The value of a hexadecimal digit character, upper or lower case.
pub open spec fn hex_val(c: char) -> Option<nat> {
    if '0' <= c && c <= '9' {
        Some((c as nat - '0' as nat) as nat)
    } else if 'a' <= c && c <= 'f' {
        Some((c as nat - 'a' as nat + 10) as nat)
    } else if 'A' <= c && c <= 'F' {
        Some((c as nat - 'A' as nat + 10) as nat)
    } else {
        None
    }
}

/// How one character appears inside a serialized string: quotes and
/// backslashes get a backslash escape, control characters a `\u00XX` escape,
/// everything else stands as itself.
pub open spec fn escape_char(c: char) -> Seq<char> {
    if c == '"' {
        seq!['\\', '"']
    } else if c == '\\' {
        seq!['\\', '\\']
    } else if (c as u32) < 32 {
        seq![
            '\\',
            'u',
            '0',
            '0',
            hex_char(((c as u32) / 16) as nat),
            hex_char(((c as u32) % 16) as nat),
        ]
    } else {
        seq![c]
    }
}

/// The escaped body of a serialized string.
pub open spec fn escape(s: Seq<char>) -> Seq<char>
    decreases s.len(),
{
    if s.len() == 0 {
        Seq::empty()
    } else {
        escape_char(s[0]) + escape(s.skip(1))
    }
}

/// Escaping a single character is exactly its escape sequence.
pub proof fn lemma_escape_single(c: char)
    ensures
        escape(seq![c]) == escape_char(c),
{
    assert(seq![c].skip(1) =~= Seq::<char>::empty());
    assert(escape(Seq::<char>::empty()) =~= Seq::<char>::empty());
    assert(escape(seq![c]) =~= escape_char(c) + escape(seq![c].skip(1)));
    assert(escape_char(c) + Seq::<char>::empty() =~= escape_char(c));
}

/// Escaping distributes over concatenation.
pub proof fn lemma_escape_concat(a: Seq<char>, b: Seq<char>)
    ensures
        escape(a + b) == escape(a) + escape(b),
    decreases a.len(),
{
    if a.len() == 0 {
        assert(a + b =~= b);
        assert(escape(a) + escape(b) =~= escape(b));
    } else {
        assert((a + b).skip(1) =~= a.skip(1) + b);
        lemma_escape_concat(a.skip(1), b);
        assert(escape(a + b) =~= escape(a) + escape(b));
    }
}

/// The exact serialized form of a value.
pub open spec fn render(j: JVal) -> Seq<char>
    decreases j, 0nat,
{
    match j {
        JVal::JNull => seq!['n', 'u', 'l', 'l'],
        JVal::JBool(b) => if b {
            seq!['t', 'r', 'u', 'e']
        } else {
            seq!['f', 'a', 'l', 's', 'e']
        },
        JVal::JNum(s) => s,
        JVal::JStr(s) => seq!['"'] + escape(s) + seq!['"'],
        JVal::JArr(items) => seq!['['] + render_items(items, 0) + seq![']'],
        JVal::JObj(pairs) => seq!['{'] + render_members(pairs, 0) + seq!['}'],
    }
}

/// The serialized elements of an array from index `i` on, comma-separated.
pub open spec fn render_items(items: Seq<JVal>, i: int) -> Seq<char>
    decreases items, (items.len() - i) as nat + 1nat,
{
    if i < 0 || i >= items.len() {
        Seq::empty()
    } else if i == items.len() - 1 {
        render(items[i])
    } else {
        render(items[i]) + seq![','] + render_items(items, i + 1)
    }
}

/// The serialized members of an object from index `i` on, comma-separated.
pub open spec fn render_members(pairs: Seq<(Seq<char>, JVal)>, i: int) -> Seq<char>
    decreases pairs, (pairs.len() - i) as nat + 1nat,
{
    if i < 0 || i >= pairs.len() {
        Seq::empty()
    } else {
        let member = seq!['"'] + escape(pairs[i].0) + seq!['"', ':'] + render(pairs[i].1);
        if i == pairs.len() - 1 {
            member
        } else {
            member + seq![','] + render_members(pairs, i + 1)
        }
    }
}

/// Exec mirror of [`hex_char`].
fn hex_char_exec(n: u32) -> (r: char)
    requires
        n < 16,
    ensures
        r == hex_char(n as nat),
{
    if n == 0 {
        '0'
    } else if n == 1 {
        '1'
    } else if n == 2 {
        '2'
    } else if n == 3 {
        '3'
    } else if n == 4 {
        '4'
    } else if n == 5 {
        '5'
    } else if n == 6 {
        '6'
    } else if n == 7 {
        '7'
    } else if n == 8 {
        '8'
    } else if n == 9 {
        '9'
    } else if n == 10 {
        'a'
    } else if n == 11 {
        'b'
    } else if n == 12 {
        'c'
    } else if n == 13 {
        'd'
    } else if n == 14 {
        'e'
    } else {
        'f'
    }
}

/// Appends the escaped form of one character.
fn push_escaped(out: &mut Vec<char>, c: char)
    ensures
        final(out)@ == old(out)@ + escape_char(c),
{
    if c == '"' {
        out.push('\\');
        out.push('"');
        proof {
            assert(out@ =~= old(out)@ + escape_char(c));
        }
    } else if c == '\\' {
        out.push('\\');
        out.push('\\');
        proof {
            assert(out@ =~= old(out)@ + escape_char(c));
        }
    } else if (c as u32) < 32 {
        let code = c as u32;
        out.push('\\');
        out.push('u');
        out.push('0');
        out.push('0');
        out.push(hex_char_exec(code / 16));
        out.push(hex_char_exec(code % 16));
        proof {
            assert(out@ =~= old(out)@ + escape_char(c));
        }
    } else {
        out.push(c);
        proof {
            assert(out@ =~= old(out)@ + escape_char(c));
        }
    }
}

/// Appends a serialized string: quote, escaped body, quote.
fn ser_string(out: &mut Vec<char>, s: &String)
    ensures
        final(out)@ == old(out)@ + seq!['"'] + escape(s@) + seq!['"'],
{
    out.push('"');
    let cs = str_to_chars(s.as_str());
    let mut i: usize = 0;
    while i < cs.len()
        invariant
            cs@ == s@,
            i <= cs@.len(),
            out@ == old(out)@ + seq!['"'] + escape(s@.subrange(0, i as int)),
        decreases cs@.len() - i,
    {
        let c = cs[i];
        push_escaped(out, c);
        proof {
            assert(s@.subrange(0, i + 1int) =~= s@.subrange(0, i as int) + seq![s@[i as int]]);
            lemma_escape_concat(s@.subrange(0, i as int), seq![s@[i as int]]);
            lemma_escape_single(s@[i as int]);
            assert(out@ =~= old(out)@ + seq!['"'] + escape(s@.subrange(0, i + 1int)));
        }
        i = i + 1;
    }
    out.push('"');
    proof {
        assert(s@.subrange(0, s@.len() as int) =~= s@);
        assert(out@ =~= old(out)@ + seq!['"'] + escape(s@) + seq!['"']);
    }
}

/// Appends the serialized form of `v`.
fn ser_value(out: &mut Vec<char>, v: &JsonValue)
    ensures
        final(out)@ == old(out)@ + render(v@),
    decreases v, 0nat,
{
    match v {
        JsonValue::Null => {
            out.push('n');
            out.push('u');
            out.push('l');
            out.push('l');
            proof {
                assert(out@ =~= old(out)@ + render(v@));
            }
        },
        JsonValue::Bool(b) => {
            if *b {
                out.push('t');
                out.push('r');
                out.push('u');
                out.push('e');
            } else {
                out.push('f');
                out.push('a');
                out.push('l');
                out.push('s');
                out.push('e');
            }
            proof {
                assert(out@ =~= old(out)@ + render(v@));
            }
        },
        JsonValue::Num(s) => {
            let mut cs = str_to_chars(s.as_str());
            out.append(&mut cs);
            proof {
                assert(out@ =~= old(out)@ + render(v@));
            }
        },
        JsonValue::Str(s) => {
            ser_string(out, s);
            proof {
                assert(seq!['"'] + escape(s@) + seq!['"'] =~= render(v@));
            }
        },
        JsonValue::Arr(items) => {
            out.push('[');
            ser_items(out, items, 0);
            out.push(']');
            proof {
                assert(out@ =~= old(out)@ + render(v@));
            }
        },
        JsonValue::Obj(pairs) => {
            out.push('{');
            ser_members(out, pairs, 0);
            out.push('}');
            proof {
                assert(out@ =~= old(out)@ + render(v@));
            }
        },
    }
}

/// Appends the serialized elements of `items` from index `i` on.
fn ser_items(out: &mut Vec<char>, items: &Vec<JsonValue>, i: usize)
    requires
        i <= items@.len(),
    ensures
        final(out)@ == old(out)@ + render_items(arr_model(items@), i as int),
    decreases items, (items@.len() - i) as nat + 1nat,
{
    let ghost model = arr_model(items@);
    if i < items.len() {
        ser_value(out, &items[i]);
        if i + 1 < items.len() {
            out.push(',');
            ser_items(out, items, i + 1);
            proof {
                assert(out@ =~= old(out)@ + render_items(model, i as int));
            }
        } else {
            proof {
                assert(out@ =~= old(out)@ + render_items(model, i as int));
            }
        }
    } else {
        proof {
            assert(out@ =~= old(out)@ + render_items(model, i as int));
        }
    }
}

/// Appends the serialized members of `pairs` from index `i` on.
fn ser_members(out: &mut Vec<char>, pairs: &Vec<(String, JsonValue)>, i: usize)
    requires
        i <= pairs@.len(),
    ensures
        final(out)@ == old(out)@ + render_members(obj_model(pairs@), i as int),
    decreases pairs, (pairs@.len() - i) as nat + 1nat,
{
    let ghost model = obj_model(pairs@);
    if i < pairs.len() {
        ser_string(out, &pairs[i].0);
        out.push(':');
        ser_value(out, &pairs[i].1);
        if i + 1 < pairs.len() {
            out.push(',');
            ser_members(out, pairs, i + 1);
            proof {
                assert(out@ =~= old(out)@ + render_members(model, i as int));
            }
        } else {
            proof {
                assert(out@ =~= old(out)@ + render_members(model, i as int));
            }
        }
    } else {
        proof {
            assert(out@ =~= old(out)@ + render_members(model, i as int));
        }
    }
}

/// Serializes a value to its exact JSON text.
pub fn to_json_text(v: &JsonValue) -> (r: String)
    ensures
        r@ == render(v@),
{
    let mut out: Vec<char> = Vec::new();
    ser_value(&mut out, v);
    chars_to_string(&out)
}

} // verus!
