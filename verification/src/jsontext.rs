//! Compact JSON text of a value: no whitespace, strings quoted with `"` `\` and control
//! characters escaped (`\b \t \n \f \r`, else `\u00XX` in lower-case hexadecimal), numbers as
//! they were read, object entries in their order.
use vstd::prelude::*;

use crate::model::Json;
use crate::strs::push_char;

verus! {

pub open spec fn hex_digit(d: u32) -> char {
    if d < 10 {
        (('0' as u32) + d) as char
    } else {
        (('a' as u32) + d - 10) as char
    }
}

/// How one character of a string stands inside the quotes.
pub open spec fn escape_char(c: char) -> Seq<char> {
    if c == '"' {
        seq!['\\', '"']
    } else if c == '\\' {
        seq!['\\', '\\']
    } else if c == '\n' {
        seq!['\\', 'n']
    } else if c == '\r' {
        seq!['\\', 'r']
    } else if c == '\t' {
        seq!['\\', 't']
    } else if c == '\u{8}' {
        seq!['\\', 'b']
    } else if c == '\u{c}' {
        seq!['\\', 'f']
    } else if (c as u32) < 0x20 {
        seq!['\\', 'u', '0', '0', hex_digit((c as u32) / 16), hex_digit((c as u32) % 16)]
    } else {
        seq![c]
    }
}

pub open spec fn escape_str(s: Seq<char>) -> Seq<char>
    decreases s.len(),
{
    if s.len() == 0 {
        seq![]
    } else {
        escape_str(s.drop_last()) + escape_char(s.last())
    }
}

/// A JSON string literal.
pub open spec fn quoted(s: Seq<char>) -> Seq<char> {
    seq!['"'] + escape_str(s) + seq!['"']
}

/// The compact JSON text of `v`.
pub open spec fn json_text(v: Json) -> Seq<char>
    decreases v,
{
    match v {
        Json::Null => "null"@,
        Json::Bool(b) => if b {
            "true"@
        } else {
            "false"@
        },
        Json::Number(n) => n.text@,
        Json::Str(s) => quoted(s@),
        Json::Array(items) => seq!['['] + items_text(items@) + seq![']'],
        Json::Object(es) => seq!['{'] + entries_text(es@) + seq!['}'],
    }
}

/// The elements of an array, separated by commas.
pub open spec fn items_text(items: Seq<Json>) -> Seq<char>
    decreases items,
{
    if items.len() == 0 {
        seq![]
    } else if items.len() == 1 {
        json_text(items[0])
    } else {
        items_text(items.drop_last()) + seq![','] + json_text(items.last())
    }
}

/// The members of an object, separated by commas.
pub open spec fn entries_text(es: Seq<(String, Json)>) -> Seq<char>
    decreases es,
{
    if es.len() == 0 {
        seq![]
    } else if es.len() == 1 {
        quoted(es[0].0@) + seq![':'] + json_text(es[0].1)
    } else {
        entries_text(es.drop_last()) + seq![','] + quoted(es.last().0@) + seq![':'] + json_text(
            es.last().1,
        )
    }
}

fn hex_exec(d: u32) -> (c: char)
    requires
        d < 16,
    ensures
        c == hex_digit(d),
{
    if d < 10 {
        crate::strs::char_from_ascii_code(48 + d)
    } else {
        crate::strs::char_from_ascii_code(97 + d - 10)
    }
}

fn push_escaped(out: &mut String, c: char)
    ensures
        final(out)@ == old(out)@ + escape_char(c),
{
    let ghost o = out@;
    if c == '"' {
        push_char(out, '\\');
        push_char(out, '"');
    } else if c == '\\' {
        push_char(out, '\\');
        push_char(out, '\\');
    } else if c == '\n' {
        push_char(out, '\\');
        push_char(out, 'n');
    } else if c == '\r' {
        push_char(out, '\\');
        push_char(out, 'r');
    } else if c == '\t' {
        push_char(out, '\\');
        push_char(out, 't');
    } else if c == '\u{8}' {
        push_char(out, '\\');
        push_char(out, 'b');
    } else if c == '\u{c}' {
        push_char(out, '\\');
        push_char(out, 'f');
    } else if (c as u32) < 0x20 {
        let n = c as u32;
        push_char(out, '\\');
        push_char(out, 'u');
        push_char(out, '0');
        push_char(out, '0');
        push_char(out, hex_exec(n / 16));
        push_char(out, hex_exec(n % 16));
    } else {
        push_char(out, c);
    }
    assert(out@ =~= o + escape_char(c));
}

fn push_quoted(out: &mut String, s: &str)
    ensures
        final(out)@ == old(out)@ + quoted(s@),
{
    let v = crate::strs::chars_of(s);
    let ghost o = out@;
    push_char(out, '"');
    let mut i: usize = 0;
    assert(v@.take(0) =~= Seq::<char>::empty());
    while i < v.len()
        invariant
            v@ == s@,
            i <= v@.len(),
            out@ == o + seq!['"'] + escape_str(v@.take(i as int)),
        decreases v@.len() - i,
    {
        proof {
            let pre = v@.take(i + 1);
            assert(pre.drop_last() =~= v@.take(i as int));
            assert(pre.last() == v@[i as int]);
        }
        push_escaped(out, v[i]);
        i = i + 1;
    }
    assert(v@.take(v@.len() as int) =~= v@);
    push_char(out, '"');
}

/// Appends the compact JSON text of `v`.
pub fn push_json(out: &mut String, v: &Json)
    ensures
        final(out)@ == old(out)@ + json_text(*v),
    decreases *v,
{
    let ghost o = out@;
    match v {
        Json::Null => out.append("null"),
        Json::Bool(b) => out.append(if *b {
            "true"
        } else {
            "false"
        }),
        Json::Number(n) => out.append(n.text.as_str()),
        Json::Str(s) => push_quoted(out, s.as_str()),
        Json::Array(items) => {
            push_char(out, '[');
            push_items(out, items);
            push_char(out, ']');
        },
        Json::Object(es) => {
            push_char(out, '{');
            push_entries(out, es);
            push_char(out, '}');
        },
    }
}

fn push_items(out: &mut String, items: &Vec<Json>)
    ensures
        final(out)@ == old(out)@ + items_text(items@),
    decreases items@,
{
    let ghost o = out@;
    let mut i: usize = 0;
    assert(items@.take(0) =~= Seq::<Json>::empty());
    assert(o + items_text(items@.take(0)) =~= o);
    while i < items.len()
        invariant
            i <= items@.len(),
            out@ == o + items_text(items@.take(i as int)),
        decreases items@.len() - i,
    {
        proof {
            let pre = items@.take(i + 1);
            assert(pre.drop_last() =~= items@.take(i as int));
            assert(pre.last() == items@[i as int]);
            if i == 0 {
                assert(pre[0] == items@[0]);
            }
        }
        if i > 0 {
            push_char(out, ',');
        }
        push_json(out, &items[i]);
        i = i + 1;
    }
    assert(items@.take(items@.len() as int) =~= items@);
}

fn push_entries(out: &mut String, es: &Vec<(String, Json)>)
    ensures
        final(out)@ == old(out)@ + entries_text(es@),
    decreases es@,
{
    let ghost o = out@;
    let mut i: usize = 0;
    assert(es@.take(0) =~= Seq::<(String, Json)>::empty());
    assert(o + entries_text(es@.take(0)) =~= o);
    while i < es.len()
        invariant
            i <= es@.len(),
            out@ == o + entries_text(es@.take(i as int)),
        decreases es@.len() - i,
    {
        proof {
            let pre = es@.take(i + 1);
            assert(pre.drop_last() =~= es@.take(i as int));
            assert(pre.last() == es@[i as int]);
            if i == 0 {
                assert(pre[0] == es@[0]);
            }
        }
        if i > 0 {
            push_char(out, ',');
        }
        push_quoted(out, es[i].0.as_str());
        push_char(out, ':');
        push_json(out, &es[i].1);
        i = i + 1;
    }
    assert(es@.take(es@.len() as int) =~= es@);
}

/// The compact JSON text of `v`.
pub fn json_string(v: &Json) -> (r: String)
    ensures
        r@ == json_text(*v),
{
    let mut s = String::new();
    push_json(&mut s, v);
    assert(s@ =~= json_text(*v));
    s
}

} // verus!
