//! The serializer and the parser are inverse: parsing a rendered value
//! yields the value back.
//!
//! The main result is [`lemma_render_parse_round_trip`]; the lemmas before
//! it walk the grammar, each showing that one parsing function recovers the
//! corresponding rendered piece and stops exactly after it.

use vstd::prelude::*;

use vstd::arithmetic::div_mod::lemma_fundamental_div_mod;


use crate::chars::is_digit;
use crate::json::{
    digits_ok, escape, escape_char, hex_char, hex_val, int_lexeme, render, render_items,
    render_members, wf, JVal,
};
use crate::json_parse::{
    hex4, is_ws, p_exp, p_frac, p_members, p_number, p_string_body, p_value, p_items,
    scan_digits, skip_ws, spec_parse, unescape_char, lemma_scan_digits_bounds,
};

verus! {

broadcast use {vstd::utf8::char_is_scalar, vstd::utf8::char_u32_cast};

/// The characters of `s` from `pos` to its end.
pub open spec fn tail_at(s: Seq<char>, pos: int) -> Seq<char> {
    s.subrange(pos, s.len() as int)
}

/// Moving the start of a tail forward drops just that many characters.
proof fn lemma_tail_shift(s: Seq<char>, pos: int, k: int)
    requires
        0 <= pos,
        0 <= k,
        pos + k <= s.len(),
    ensures
        tail_at(s, pos + k) == tail_at(s, pos).skip(k),
{
    assert(tail_at(s, pos + k) =~= tail_at(s, pos).skip(k));
}

/// Dropping a prefix of a concatenation keeps the rest.
proof fn lemma_skip_of_concat(a: Seq<char>, b: Seq<char>, k: int)
    requires
        0 <= k <= a.len(),
    ensures
        (a + b).skip(k) == a.skip(k) + b,
{
    assert((a + b).skip(k) =~= a.skip(k) + b);
}

/// A rendered value is non-empty and starts with no whitespace, separator
/// or closer.
proof fn lemma_render_first_char(j: JVal)
    requires
        wf(j),
    ensures
        render(j).len() >= 1,
        !is_ws(render(j)[0]),
        render(j)[0] != ']',
        render(j)[0] != '}',
        render(j)[0] != ',',
        render(j)[0] != ':',
{
    match j {
        JVal::JNum(lex) => {
            assert(int_lexeme(lex));
            if lex[0] == '-' {
            } else {
                assert(digits_ok(lex));
                assert(is_digit(lex[0]));
            }
        },
        _ => {},
    }
}

/// Parsing the escaped body of `t` followed by a closing quote recovers
/// `t` and stops after the quote.
proof fn lemma_rt_string_body(t: Seq<char>, s: Seq<char>, pos: int, rest: Seq<char>)
    requires
        0 <= pos <= s.len(),
        tail_at(s, pos) == escape(t) + seq!['"'] + rest,
    ensures
        p_string_body(s, pos) == Some((t, pos + escape(t).len() + 1)),
    decreases t.len(),
{
    let tl = tail_at(s, pos);
    assert(tl.len() == s.len() - pos);
    if t.len() == 0 {
        assert(escape(t) =~= Seq::<char>::empty());
        assert(tl[0] == '"');
        assert(s[pos] == tl[0]);
    } else {
        let c = t[0];
        let t1 = t.skip(1);
        assert(escape(t) == escape_char(c) + escape(t1));
        let ec = escape_char(c);
        assert forall|i: int| 0 <= i < ec.len() implies s[pos + i] == ec[i] by {
            assert(tl[i] == ((escape(t) + seq!['"']) + rest)[i]);
            assert(tl[i] == ec[i]);
            assert(s[pos + i] == tl[i]);
        }
        let k = ec.len() as int;
        lemma_tail_shift(s, pos, k);
        lemma_skip_of_concat(escape(t) + seq!['"'], rest, k);
        lemma_skip_of_concat(escape(t), seq!['"'], k);
        lemma_skip_of_concat(escape_char(c), escape(t1), k);
        assert(escape(t).skip(k) =~= escape(t1));
        assert(tail_at(s, pos + k) =~= escape(t1) + seq!['"'] + rest);
        lemma_rt_string_body(t1, s, pos + k, rest);
        if c == '"' {
            assert(s[pos] == '\\');
            assert(s[pos + 1] == '"');
            assert(unescape_char('"') == Some('"'));
            assert(seq!['"'] + t1 =~= t);
        } else if c == '\\' {
            assert(s[pos] == '\\');
            assert(s[pos + 1] == '\\');
            assert(seq!['\\'] + t1 =~= t);
        } else if (c as u32) < 32 {
            let cu = c as u32;
            assert(s[pos] == '\\');
            assert(s[pos + 1] == 'u');
            assert(s[pos + 2] == '0');
            assert(s[pos + 3] == '0');
            assert(s[pos + 4] == hex_char(((cu / 16) as nat)));
            assert(s[pos + 5] == hex_char(((cu % 16) as nat)));
            lemma_fundamental_div_mod(cu as int, 16);
            lemma_hex_char_val((cu / 16) as nat);
            lemma_hex_char_val((cu % 16) as nat);
            assert(hex_val('0') == Some(0nat));
            let code = ((cu / 16) as nat) * 16 + ((cu % 16) as nat);
            assert(hex4(s, pos + 2) == Some(code));
            assert(code == cu as nat);
            assert(code < 32);
            assert((code as u32) == cu);
            vstd::utf8::char_u32_cast(c, code as u32);
            assert(((code as u32) as char) == c);
            assert(pos + 6 <= s.len());
            assert(seq![c] + t1 =~= t);
        } else {
            assert(ec =~= seq![c]);
            assert(s[pos + 0int] == ec[0]);
            assert(s[pos] == c);
            assert(c != '"');
            assert(seq![c] + t1 =~= t);
        }
    }
}

/// The value a lower-case hexadecimal digit character parses back to.
proof fn lemma_hex_char_val(n: nat)
    requires
        n < 16,
    ensures
        hex_val(hex_char(n)) == Some(n),
{
}

/// A run of digits is scanned to exactly its end.
proof fn lemma_scan_digits_run(s: Seq<char>, start: int, k: int)
    requires
        0 <= start,
        0 <= k,
        start + k <= s.len(),
        forall|i: int| start <= i < start + k ==> is_digit(#[trigger] s[i]),
        start + k == s.len() || !is_digit(s[start + k]),
    ensures
        scan_digits(s, start) == start + k,
    decreases k,
{
    if k > 0 {
        lemma_scan_digits_run(s, start + 1, k - 1);
    }
}

/// Parsing a rendered integer literal recovers it, provided what follows
/// cannot extend a number.
proof fn lemma_rt_number(lex: Seq<char>, s: Seq<char>, pos: int, rest: Seq<char>)
    requires
        int_lexeme(lex),
        0 <= pos <= s.len(),
        tail_at(s, pos) == lex + rest,
        rest.len() > 0 ==> !(is_digit(rest[0]) || rest[0] == '.' || rest[0] == 'e' || rest[0]
            == 'E'),
    ensures
        p_number(s, pos) == Some((JVal::JNum(lex), pos + lex.len())),
{
    let tl = tail_at(s, pos);
    assert(tl.len() == s.len() - pos);
    assert forall|i: int| 0 <= i < lex.len() implies s[pos + i] == lex[i] by {
        assert(tl[i] == (lex + rest)[i]);
        assert(s[pos + i] == tl[i]);
    }
    let dstart = if lex[0] == '-' {
        pos + 1
    } else {
        pos
    };
    let digits = if lex[0] == '-' {
        lex.skip(1)
    } else {
        lex
    };
    assert(digits_ok(digits));
    assert forall|i: int| 0 <= i < digits.len() implies s[dstart + i] == digits[i] by {
        if lex[0] == '-' {
            assert(lex[i + 1] == digits[i]);
        }
    }
    let dend = pos + lex.len();
    assert(dend == dstart + digits.len());
    if dend < s.len() {
        assert(s[dend] == rest[0]) by {
            assert(tl[lex.len() as int] == rest[0]);
        }
    }
    assert(s[dstart] == digits[0]);
    assert(is_digit(s[dstart]));
    if digits[0] == '0' {
        assert(digits.len() == 1);
    } else {
        assert forall|i: int| dstart <= i < dstart + digits.len() implies is_digit(
            #[trigger] s[i],
        ) by {
            assert(s[i] == digits[i - dstart]);
        }
        lemma_scan_digits_run(s, dstart, digits.len() as int);
    }
    assert(p_frac(s, dend) == Some(dend));
    assert(p_exp(s, dend) == Some(dend));
    assert(s.subrange(pos, dend) =~= lex);
}

/// Characters under a framed prefix: if the tail at `pos` is `a + b`, the
/// characters of `a` stand at `pos` onward.
proof fn lemma_frame(s: Seq<char>, pos: int, a: Seq<char>, b: Seq<char>)
    requires
        0 <= pos <= s.len(),
        tail_at(s, pos) == a + b,
    ensures
        a.len() + pos <= s.len(),
        forall|i: int| 0 <= i < a.len() ==> #[trigger] a[i] == s[pos + i],
{
    assert(tail_at(s, pos).len() == s.len() - pos);
    assert(tail_at(s, pos).len() == a.len() + b.len());
    assert forall|i: int| 0 <= i < a.len() implies #[trigger] a[i] == s[pos + i] by {
        assert(tail_at(s, pos)[i] == a[i]);
        assert(tail_at(s, pos)[i] == s[pos + i]);
    }
}

/// Parsing a rendered value recovers it and stops exactly after it,
/// provided a rendered number is not followed by a character that could
/// extend it.
proof fn lemma_rt_value(j: JVal, s: Seq<char>, pos: int, rest: Seq<char>)
    requires
        wf(j),
        0 <= pos <= s.len(),
        tail_at(s, pos) == render(j) + rest,
        j is JNum ==> (rest.len() > 0 ==> !(is_digit(rest[0]) || rest[0] == '.' || rest[0]
            == 'e' || rest[0] == 'E')),
    ensures
        p_value(s, pos) == Some((j, pos + render(j).len())),
    decreases j, 0nat,
{
    let r = render(j);
    lemma_render_first_char(j);
    lemma_frame(s, pos, r, rest);
    assert(s[pos] == r[0]) by {
        assert(r[0] == s[pos + 0int]);
    }
    match j {
        JVal::JNull => {
            assert(s[pos + 1] == 'u');
            assert(s[pos + 2] == 'l');
            assert(s[pos + 3] == 'l');
        },
        JVal::JBool(b) => {
            if b {
                assert(s[pos + 1] == 'r');
                assert(s[pos + 2] == 'u');
                assert(s[pos + 3] == 'e');
            } else {
                assert(s[pos + 1] == 'a');
                assert(s[pos + 2] == 'l');
                assert(s[pos + 3] == 's');
                assert(s[pos + 4] == 'e');
            }
        },
        JVal::JNum(lex) => {
            lemma_rt_number(lex, s, pos, rest);
        },
        JVal::JStr(t) => {
            assert(s[pos] == '"');
            lemma_tail_shift(s, pos, 1);
            lemma_skip_of_concat(r, rest, 1);
            assert(r.skip(1) =~= escape(t) + seq!['"']);
            assert(tail_at(s, pos + 1) =~= escape(t) + seq!['"'] + rest) by {
                assert((escape(t) + seq!['"']) + rest =~= escape(t) + seq!['"'] + rest);
            }
            lemma_rt_string_body(t, s, pos + 1, rest);
        },
        JVal::JArr(items) => {
            assert(s[pos] == '[');
            if items.len() == 0 {
                assert(render_items(items, 0) =~= Seq::<char>::empty());
                assert(r =~= seq!['[', ']']);
                assert(s[pos + 1] == ']');
                assert(skip_ws(s, pos + 1) == pos + 1);
                assert(items =~= Seq::<JVal>::empty());
            } else {
                let ri = render_items(items, 0);
                assert(wf(items[0]));
                lemma_render_first_char(items[0]);
                assert(ri[0] == render(items[0])[0]);
                assert(s[pos + 1] == ri[0]) by {
                    assert(r[1] == ri[0]);
                }
                assert(skip_ws(s, pos + 1) == pos + 1);
                assert(s[pos + 1] != ']');
                lemma_tail_shift(s, pos, 1);
                lemma_skip_of_concat(r, rest, 1);
                assert(r.skip(1) =~= ri + seq![']']);
                assert(tail_at(s, pos + 1) =~= ri + seq![']'] + rest) by {
                    assert((ri + seq![']']) + rest =~= ri + seq![']'] + rest);
                }
                lemma_rt_items(items, 0, s, pos + 1, rest);
                assert(items.skip(0) =~= items);
            }
        },
        JVal::JObj(pairs) => {
            assert(s[pos] == '{');
            if pairs.len() == 0 {
                assert(render_members(pairs, 0) =~= Seq::<char>::empty());
                assert(r =~= seq!['{', '}']);
                assert(s[pos + 1] == '}');
                assert(skip_ws(s, pos + 1) == pos + 1);
                assert(pairs =~= Seq::<(Seq<char>, JVal)>::empty());
            } else {
                let rm = render_members(pairs, 0);
                assert(rm[0] == '"');
                assert(s[pos + 1] == rm[0]) by {
                    assert(r[1] == rm[0]);
                }
                assert(skip_ws(s, pos + 1) == pos + 1);
                assert(s[pos + 1] != '}');
                lemma_tail_shift(s, pos, 1);
                lemma_skip_of_concat(r, rest, 1);
                assert(r.skip(1) =~= rm + seq!['}']);
                assert(tail_at(s, pos + 1) =~= rm + seq!['}'] + rest) by {
                    assert((rm + seq!['}']) + rest =~= rm + seq!['}'] + rest);
                }
                lemma_rt_members(pairs, 0, s, pos + 1, rest);
                assert(pairs.skip(0) =~= pairs);
            }
        },
    }
}

/// Parsing the rendered elements of an array from index `i`, followed by
/// the closing bracket, recovers the remaining elements.
proof fn lemma_rt_items(items: Seq<JVal>, i: int, s: Seq<char>, pos: int, rest: Seq<char>)
    requires
        forall|k: int| 0 <= k < items.len() ==> wf(#[trigger] items[k]),
        0 <= i < items.len(),
        0 <= pos <= s.len(),
        tail_at(s, pos) == render_items(items, i) + seq![']'] + rest,
    ensures
        p_items(s, pos) == Some((items.skip(i), pos + render_items(items, i).len() + 1)),
    decreases items, (items.len() - i) as nat,
{
    let ri = render_items(items, i);
    let rv = render(items[i]);
    assert(wf(items[i]));
    lemma_render_first_char(items[i]);
    assert(tail_at(s, pos) =~= ri + (seq![']'] + rest));
    lemma_frame(s, pos, ri, seq![']'] + rest);
    assert(s[pos] == ri[0]) by {
        assert(ri[0] == s[pos + 0int]);
    }
    assert(ri[0] == rv[0]);
    assert(skip_ws(s, pos) == pos);
    let p2 = pos + rv.len();
    if i == items.len() - 1 {
        assert(ri =~= rv);
        assert(tail_at(s, pos) =~= rv + (seq![']'] + rest)) by {
            assert((rv + seq![']']) + rest =~= rv + (seq![']'] + rest));
        }
        lemma_rt_value(items[i], s, pos, seq![']'] + rest);
        assert(tail_at(s, pos) =~= (rv + seq![']']) + rest);
        lemma_frame(s, pos, rv + seq![']'], rest);
        assert(s[p2] == ']') by {
            assert((rv + seq![']'])[rv.len() as int] == s[pos + rv.len()]);
        }
        assert(skip_ws(s, p2) == p2);
        assert(seq![items[i]] =~= items.skip(i));
    } else {
        let rn = render_items(items, i + 1);
        assert(ri == rv + seq![','] + rn);
        let tail2 = seq![','] + rn + seq![']'] + rest;
        assert(tail_at(s, pos) =~= rv + tail2) by {
            assert(((rv + seq![',']) + rn + seq![']']) + rest =~= rv + (seq![','] + rn
                + seq![']'] + rest));
        }
        lemma_rt_value(items[i], s, pos, tail2);
        assert(tail_at(s, pos) =~= (rv + seq![',']) + (rn + seq![']'] + rest));
        lemma_frame(s, pos, rv + seq![','], rn + seq![']'] + rest);
        assert(s[p2] == ',') by {
            assert((rv + seq![','])[rv.len() as int] == s[pos + rv.len()]);
        }
        assert(skip_ws(s, p2) == p2);
        assert(s[p2] != ']');
        lemma_tail_shift(s, pos, rv.len() as int + 1);
        lemma_skip_of_concat(rv + tail2, Seq::<char>::empty(), 0);
        assert(tail_at(s, p2 + 1) =~= rn + seq![']'] + rest) by {
            assert(tail_at(s, p2 + 1) =~= tail_at(s, pos).skip(rv.len() as int + 1));
            assert(tail_at(s, pos).skip(rv.len() as int + 1) =~= (rv + tail2).skip(rv.len() as int + 1));
            assert((rv + tail2).skip(rv.len() as int + 1) =~= (rn + seq![']']) + rest);
            assert((rn + seq![']']) + rest =~= rn + seq![']'] + rest);
        }
        lemma_rt_items(items, i + 1, s, p2 + 1, rest);
        assert(seq![items[i]] + items.skip(i + 1) =~= items.skip(i));
    }
}

/// Parsing the rendered members of an object from index `i`, followed by
/// the closing brace, recovers the remaining members.
proof fn lemma_rt_members(
    pairs: Seq<(Seq<char>, JVal)>,
    i: int,
    s: Seq<char>,
    pos: int,
    rest: Seq<char>,
)
    requires
        forall|k: int| 0 <= k < pairs.len() ==> wf(#[trigger] pairs[k].1),
        0 <= i < pairs.len(),
        0 <= pos <= s.len(),
        tail_at(s, pos) == render_members(pairs, i) + seq!['}'] + rest,
    ensures
        p_members(s, pos) == Some((pairs.skip(i), pos + render_members(pairs, i).len() + 1)),
    decreases pairs, (pairs.len() - i) as nat,
{
    let rm = render_members(pairs, i);
    let k0 = pairs[i].0;
    let v0 = pairs[i].1;
    let rk = seq!['"'] + escape(k0) + seq!['"', ':'];
    let rv = render(v0);
    let member = rk + rv;
    assert(wf(v0));
    lemma_render_first_char(v0);
    assert(tail_at(s, pos) =~= rm + (seq!['}'] + rest));
    lemma_frame(s, pos, rm, seq!['}'] + rest);
    assert(s[pos] == rm[0]) by {
        assert(rm[0] == s[pos + 0int]);
    }
    assert(rm[0] == '"');
    assert(skip_ws(s, pos) == pos);
    let tail_after_member = if i == pairs.len() - 1 {
        seq!['}'] + rest
    } else {
        seq![','] + render_members(pairs, i + 1) + seq!['}'] + rest
    };
    assert(tail_at(s, pos) =~= member + tail_after_member) by {
        if i == pairs.len() - 1 {
            assert(rm == member);
        } else {
            assert(rm == member + seq![','] + render_members(pairs, i + 1));
            assert(((member + seq![',']) + render_members(pairs, i + 1) + seq!['}']) + rest
                =~= member + (seq![','] + render_members(pairs, i + 1) + seq!['}'] + rest));
        }
    }
    // the key string
    lemma_tail_shift(s, pos, 1);
    assert(tail_at(s, pos + 1) =~= escape(k0) + seq!['"'] + (seq![':'] + rv
        + tail_after_member)) by {
        assert(tail_at(s, pos + 1) =~= (member + tail_after_member).skip(1));
    }
    lemma_rt_string_body(k0, s, pos + 1, seq![':'] + rv + tail_after_member);
    let p2 = pos + 1 + escape(k0).len() + 1;
    assert(p2 == pos + rk.len() - 1);
    lemma_frame(s, pos, member + tail_after_member, Seq::<char>::empty());
    assert((member + tail_after_member) + Seq::<char>::empty() =~= member + tail_after_member);
    assert(s[p2] == ':') by {
        assert(member[rk.len() as int - 1] == rk[rk.len() as int - 1]);
        assert(rk[rk.len() as int - 1] == ':');
        assert((member + tail_after_member)[rk.len() as int - 1] == member[rk.len() as int - 1]);
        assert((member + tail_after_member)[rk.len() as int - 1] == s[pos + rk.len() - 1]);
    }
    assert(skip_ws(s, p2) == p2);
    let p4 = p2 + 1;
    assert(p4 == pos + rk.len());
    assert(s[p4] == rv[0]) by {
        assert(member[rk.len() as int] == rv[0]);
        assert((member + tail_after_member)[rk.len() as int] == member[rk.len() as int]);
        assert((member + tail_after_member)[rk.len() as int] == s[pos + rk.len()]);
    }
    assert(skip_ws(s, p4) == p4);
    assert(tail_at(s, p4) =~= rv + tail_after_member) by {
        lemma_tail_shift(s, pos, rk.len() as int);
        assert(tail_at(s, p4) =~= tail_at(s, pos).skip(rk.len() as int));
        assert(tail_at(s, pos).skip(rk.len() as int) =~= (member + tail_after_member).skip(
            rk.len() as int,
        ));
        assert((member + tail_after_member).skip(rk.len() as int) =~= rv + tail_after_member);
    }
    lemma_rt_value(v0, s, p4, tail_after_member);
    let p5 = p4 + rv.len();
    assert(p5 == pos + member.len());
    assert(s[p5] == tail_after_member[0]) by {
        assert((member + tail_after_member)[member.len() as int] == tail_after_member[0]);
        assert((member + tail_after_member)[member.len() as int] == s[pos + member.len()]);
    }
    if i == pairs.len() - 1 {
        assert(s[p5] == '}');
        assert(skip_ws(s, p5) == p5);
        assert(seq![(k0, v0)] =~= pairs.skip(i)) by {
            assert(pairs.skip(i).len() == 1);
            assert(pairs.skip(i)[0] == pairs[i]);
            assert((k0, v0) == pairs[i]);
        }
        assert(rm == member);
    } else {
        let rn = render_members(pairs, i + 1);
        assert(s[p5] == ',');
        assert(skip_ws(s, p5) == p5);
        assert(s[p5] != '}');
        assert(tail_at(s, p5 + 1) =~= rn + seq!['}'] + rest) by {
            lemma_tail_shift(s, pos, member.len() as int + 1);
            assert(tail_at(s, p5 + 1) =~= tail_at(s, pos).skip(member.len() as int + 1));
            assert(tail_at(s, pos).skip(member.len() as int + 1) =~= (member + tail_after_member).skip(
                member.len() as int + 1,
            ));
            assert((member + tail_after_member).skip(member.len() as int + 1)
                =~= tail_after_member.skip(1));
            assert(tail_after_member.skip(1) =~= (rn + seq!['}']) + rest);
            assert((rn + seq!['}']) + rest =~= rn + seq!['}'] + rest);
        }
        lemma_rt_members(pairs, i + 1, s, p5 + 1, rest);
        assert(seq![(k0, v0)] + pairs.skip(i + 1) =~= pairs.skip(i)) by {
            assert((k0, v0) == pairs[i]);
        }
        assert(rm.len() == member.len() + 1 + rn.len());
    }
}

/// Parsing the exact text a well-formed value renders to yields that value.
///
/// Serializing any well-formed JSON value and parsing the text back is the
/// identity: the round trip loses nothing and changes nothing.
pub proof fn lemma_render_parse_round_trip(j: JVal)
    requires
        wf(j),
    ensures
        spec_parse(render(j)) == Some(j),
{
    let s = render(j);
    lemma_render_first_char(j);
    assert(skip_ws(s, 0) == 0);
    assert(tail_at(s, 0) =~= render(j) + Seq::<char>::empty());
    lemma_rt_value(j, s, 0, Seq::<char>::empty());
    assert(skip_ws(s, s.len() as int) == s.len());
}

} // verus!
