//! The printed form of values.
use vstd::prelude::*;
use crate::value::{datum, datums, lemma_datums_push, Datum, Value};
use crate::text::string_of;

verus! {

broadcast use vstd::std_specs::vec::group_vec_axioms, vstd::seq::group_seq_axioms;

/// The digit for `d` (below sixteen), lower case past nine.
pub open spec fn digit(d: nat) -> char {
    if d == 0 { '0' }
    else if d == 1 { '1' }
    else if d == 2 { '2' }
    else if d == 3 { '3' }
    else if d == 4 { '4' }
    else if d == 5 { '5' }
    else if d == 6 { '6' }
    else if d == 7 { '7' }
    else if d == 8 { '8' }
    else if d == 9 { '9' }
    else if d == 10 { 'a' }
    else if d == 11 { 'b' }
    else if d == 12 { 'c' }
    else if d == 13 { 'd' }
    else if d == 14 { 'e' }
    else { 'f' }
}

/// The decimal digits of `n`, most significant first.
pub open spec fn decimal(n: nat) -> Seq<char>
    decreases n,
{
    if n < 10 {
        seq![digit(n)]
    } else {
        decimal(n / 10).push(digit(n % 10))
    }
}

/// The canonical text of a value: `nil`, `t`, bytes as `0x` and two hex
/// digits, integers in decimal, strings in double quotes, symbols bare,
/// lists in parentheses with single spaces, and a leading `'` on quoted
/// symbols and lists.
pub open spec fn render(d: Datum) -> Seq<char>
    decreases d,
{
    match d {
        Datum::Nil => seq!['n', 'i', 'l'],
        Datum::T => seq!['t'],
        Datum::Byte(b) => seq!['0', 'x', digit(b as nat / 16), digit(b as nat % 16)],
        Datum::UnsignedInteger(u) => decimal(u as nat),
        Datum::Integer(i) => if i < 0 {
            seq!['-'] + decimal((-i) as nat)
        } else {
            decimal(i as nat)
        },
        Datum::Text(s) => seq!['"'] + s + seq!['"'],
        Datum::Symbol(s) => s,
        Datum::QuotedSymbol(s) => seq!['\''] + s,
        Datum::List(s) => seq!['('] + render_all(s) + seq![')'],
        Datum::QuotedList(s) => seq!['\'', '('] + render_all(s) + seq![')'],
    }
}

/// The texts of `s` separated by single spaces.
pub open spec fn render_all(s: Seq<Datum>) -> Seq<char>
    decreases s,
{
    if s.len() == 0 {
        Seq::empty()
    } else if s.len() == 1 {
        render(s[0])
    } else {
        render_all(s.drop_last()) + seq![' '] + render(s.last())
    }
}

fn digit_char(d: u64) -> (c: char)
    requires
        d < 16,
    ensures
        c == digit(d as nat),
{
    if d == 0 { '0' }
    else if d == 1 { '1' }
    else if d == 2 { '2' }
    else if d == 3 { '3' }
    else if d == 4 { '4' }
    else if d == 5 { '5' }
    else if d == 6 { '6' }
    else if d == 7 { '7' }
    else if d == 8 { '8' }
    else if d == 9 { '9' }
    else if d == 10 { 'a' }
    else if d == 11 { 'b' }
    else if d == 12 { 'c' }
    else if d == 13 { 'd' }
    else if d == 14 { 'e' }
    else { 'f' }
}

pub fn write_decimal(n: u64, out: &mut Vec<char>)
    ensures
        final(out)@ == old(out)@ + decimal(n as nat),
    decreases n,
{
    if n < 10 {
        out.push(digit_char(n));
        assert(old(out)@.push(digit(n as nat)) =~= old(out)@ + decimal(n as nat));
    } else {
        write_decimal(n / 10, out);
        out.push(digit_char(n % 10));
        assert(final(out)@ =~= old(out)@ + decimal(n as nat));
    }
}

pub fn push_all(out: &mut Vec<char>, s: &String)
    ensures
        final(out)@ == old(out)@ + s@,
{
    let chars = crate::text::chars_of(s.as_str());
    let mut i: usize = 0;
    while i < chars.len()
        invariant
            i <= chars.len(),
            chars@ == s@,
            out@ == old(out)@ + s@.subrange(0, i as int),
        decreases chars.len() - i,
    {
        out.push(chars[i]);
        i = i + 1;
        assert(out@ =~= old(out)@ + s@.subrange(0, i as int));
    }
    assert(s@.subrange(0, s@.len() as int) =~= s@);
}

/// Writes the text of each element of `items`, separated by spaces.
pub fn write_items(items: &Vec<Value>, out: &mut Vec<char>)
    ensures
        final(out)@ == old(out)@ + render_all(datums(items@)),
    decreases items,
{
    let mut i: usize = 0;
    proof {
        assert(items@.subrange(0, 0) =~= Seq::<Value>::empty());
        assert(datums(Seq::<Value>::empty()) =~= Seq::<Datum>::empty());
        assert(out@ =~= old(out)@ + Seq::<char>::empty());
    }
    while i < items.len()
        invariant
            i <= items.len(),
            out@ == old(out)@ + render_all(datums(items@.subrange(0, i as int))),
        decreases items.len() - i,
    {
        let ghost pre = datums(items@.subrange(0, i as int));
        proof {
            lemma_datums_push(items@.subrange(0, i as int), items@[i as int]);
            assert(items@.subrange(0, i as int).push(items@[i as int]) =~= items@.subrange(0, i + 1));
            assert(pre.push(datum(items@[i as int])).drop_last() =~= pre);
            crate::value::lemma_datums_len(items@.subrange(0, i as int));
        }
        if i > 0 {
            out.push(' ');
        }
        write_value(&items[i], out);
        proof {
            let post = pre.push(datum(items@[i as int]));
            if i == 0 {
                assert(post =~= seq![datum(items@[0])]);
                assert(out@ =~= old(out)@ + render_all(post));
            } else {
                assert(out@ =~= old(out)@ + render_all(post));
            }
        }
        i = i + 1;
    }
    assert(items@.subrange(0, items@.len() as int) =~= items@);
}

/// Writes the text of `v` at the end of `out`.
pub fn write_value(v: &Value, out: &mut Vec<char>)
    ensures
        final(out)@ == old(out)@ + render(v@),
    decreases v,
{
    match v {
        Value::Nil => {
            out.push('n');
            out.push('i');
            out.push('l');
        },
        Value::T => {
            out.push('t');
        },
        Value::Byte(b) => {
            out.push('0');
            out.push('x');
            out.push(digit_char(*b as u64 / 16));
            out.push(digit_char(*b as u64 % 16));
        },
        Value::UnsignedInteger(u) => {
            write_decimal(*u, out);
        },
        Value::Integer(i) => {
            if *i < 0 {
                out.push('-');
                let m: u64 = (-(*i as i128)) as u64;
                write_decimal(m, out);
            } else {
                write_decimal(*i as u64, out);
            }
        },
        Value::String(s) => {
            out.push('"');
            push_all(out, s);
            out.push('"');
        },
        Value::Symbol(s) => {
            push_all(out, s);
        },
        Value::QuotedSymbol(s) => {
            out.push('\'');
            push_all(out, s);
        },
        Value::List(items) => {
            out.push('(');
            write_items(items, out);
            out.push(')');
        },
        Value::QuotedList(items) => {
            out.push('\'');
            out.push('(');
            write_items(items, out);
            out.push(')');
        },
    }
    assert(final(out)@ =~= old(out)@ + render(v@));
}

impl Value {
    /// The canonical text of this value.
    pub fn to_string(&self) -> (r: String)
        ensures
            r@ == render(self@),
    {
        let mut out: Vec<char> = Vec::new();
        write_value(self, &mut out);
        assert(out@ =~= render(self@));
        string_of(&out)
    }
}

} // verus!
