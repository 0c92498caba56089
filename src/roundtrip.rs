//! Reading back the printed form of a value gives the value.
use vstd::prelude::*;
use crate::parser::{
    all_digit, atom, budget, dec_value, digit_of, is_delimiter, is_digit, is_space, read,
    read_items, reads, skip_spaces, quote_end, token_end,
};
use crate::render::{decimal, digit, render, render_all};
use crate::value::{list_of, quote_of, Datum};

verus! {

broadcast use vstd::seq::group_seq_axioms;

/// A symbol name that prints and reads back as itself: not empty, free of
/// delimiters, and not the spelling of `nil`, `t` or a number.
pub open spec fn plain_name(n: Seq<char>) -> bool {
    &&& n.len() > 0
    &&& forall|i: int| 0 <= i < n.len() ==> !is_delimiter(#[trigger] n[i])
    &&& atom(n) == Some(Datum::Symbol(n))
}

/// A value whose printed form reads back as the value: no bytes, no
/// non-negative signed integers (they print as unsigned ones), no double
/// quote inside a string, plain symbol names, and no empty lists.
pub open spec fn printable(d: Datum) -> bool
    decreases d,
{
    match d {
        Datum::Nil => true,
        Datum::T => true,
        Datum::Byte(_) => false,
        Datum::UnsignedInteger(_) => true,
        Datum::Integer(i) => i < 0,
        Datum::Text(t) => forall|i: int| 0 <= i < t.len() ==> #[trigger] t[i] != '"',
        Datum::Symbol(n) => plain_name(n),
        Datum::QuotedSymbol(n) => plain_name(n),
        Datum::List(s) => s.len() > 0 && printable_all(s),
        Datum::QuotedList(s) => s.len() > 0 && printable_all(s),
    }
}

pub open spec fn printable_all(s: Seq<Datum>) -> bool
    decreases s,
{
    if s.len() == 0 {
        true
    } else {
        printable(s[0]) && printable_all(s.drop_first())
    }
}

/// The nested reads that reading `d` back takes.
pub open spec fn need(d: Datum) -> nat
    decreases d,
{
    match d {
        Datum::QuotedSymbol(_) => 2,
        Datum::List(s) => 1 + need_items(s),
        Datum::QuotedList(s) => 2 + need_items(s),
        _ => 1,
    }
}

pub open spec fn need_items(s: Seq<Datum>) -> nat
    decreases s,
{
    if s.len() == 0 {
        1
    } else {
        let a = need(s[0]);
        let b = need_items(s.drop_first());
        1 + if a > b { a } else { b }
    }
}

proof fn lemma_at(s: Seq<char>, p: int, t: Seq<char>, k: int)
    requires
        0 <= p,
        p + t.len() <= s.len(),
        s.subrange(p, p + t.len()) == t,
        0 <= k < t.len(),
    ensures
        s[p + k] == t[k],
{
    assert(s.subrange(p, p + t.len())[k] == s[p + k]);
}

proof fn lemma_render_all_split(s: Seq<Datum>)
    requires
        s.len() > 0,
    ensures
        render_all(s) == if s.len() == 1 {
            render(s[0])
        } else {
            render(s[0]) + seq![' '] + render_all(s.drop_first())
        },
    decreases s.len(),
{
    if s.len() > 2 {
        lemma_render_all_split(s.drop_last());
        assert(s.drop_last().drop_first() =~= s.drop_first().drop_last());
        assert(s.drop_first().last() == s.last());
        assert(s.drop_last()[0] == s[0]);
        let a = render(s[0]);
        let m = render_all(s.drop_first().drop_last());
        let l = render(s.last());
        assert(s.drop_first().len() > 1);
        assert(render_all(s.drop_first()) == m + seq![' '] + l);
        assert(render_all(s) == (a + seq![' '] + m) + seq![' '] + l);
        assert((a + seq![' '] + m) + seq![' '] + l =~= a + seq![' '] + (m + seq![' '] + l));
    } else if s.len() == 2 {
        assert(s.drop_last() =~= seq![s[0]]);
        assert(s.drop_first() =~= seq![s[1]]);
        assert(render_all(s.drop_last()) == render(s[0]));
        assert(render_all(s.drop_first()) == render(s[1]));
    }
}

proof fn lemma_digit(k: nat)
    requires
        k < 10,
    ensures
        is_digit(digit(k)),
        digit_of(digit(k)) == k,
        !is_delimiter(digit(k)),
{
}

proof fn lemma_decimal(n: nat)
    ensures
        decimal(n).len() > 0,
        all_digit(decimal(n)),
        dec_value(decimal(n)) == n,
        forall|i: int| 0 <= i < decimal(n).len() ==> !is_delimiter(#[trigger] decimal(n)[i]),
    decreases n,
{
    if n < 10 {
        lemma_digit(n);
        assert(decimal(n).drop_last() =~= Seq::<char>::empty());
        assert(dec_value(decimal(n)) == dec_value(Seq::<char>::empty()) * 10 + digit_of(digit(n)));
    } else {
        lemma_decimal(n / 10);
        lemma_digit(n % 10);
        let t = decimal(n);
        let h = decimal(n / 10);
        assert(t == h.push(digit(n % 10)));
        assert(t.drop_last() =~= h);
        assert(t.last() == digit(n % 10));
        assert(dec_value(t) == dec_value(h) * 10 + digit_of(digit(n % 10)));
        assert(dec_value(h) * 10 + n % 10 == n) by (nonlinear_arith)
            requires
                dec_value(h) == n / 10,
        ;
        assert forall|i: int| 0 <= i < t.len() implies is_digit(#[trigger] t[i]) && !is_delimiter(t[i]) by {
            if i < h.len() {
                assert(t[i] == h[i]);
            }
        }
    }
}

proof fn lemma_token_end(s: Seq<char>, a: int, b: int)
    requires
        0 <= a <= b <= s.len(),
        forall|i: int| a <= i < b ==> !is_delimiter(#[trigger] s[i]),
        b == s.len() || is_delimiter(s[b]),
    ensures
        token_end(s, a) == b,
    decreases b - a,
{
    if a < b {
        lemma_token_end(s, a + 1, b);
    }
}

proof fn lemma_quote_end(s: Seq<char>, a: int, b: int)
    requires
        0 <= a <= b < s.len(),
        forall|i: int| a <= i < b ==> #[trigger] s[i] != '"',
        s[b] == '"',
    ensures
        quote_end(s, a) == b,
    decreases b - a,
{
    if a < b {
        lemma_quote_end(s, a + 1, b);
    }
}

proof fn lemma_no_skip(s: Seq<char>, p: int)
    requires
        0 <= p < s.len(),
        !is_space(s[p]),
    ensures
        skip_spaces(s, p) == p,
{
}

/// The printed form of an atom: non-empty, free of delimiters, and read as the atom.
proof fn lemma_atom_text(d: Datum)
    requires
        printable(d),
        d is Nil || d is T || d is UnsignedInteger || d is Integer || d is Symbol,
    ensures
        render(d).len() > 0,
        forall|i: int| 0 <= i < render(d).len() ==> !is_delimiter(#[trigger] render(d)[i]),
        atom(render(d)) == Some(d),
{
    match d {
        Datum::Nil => {
            assert(render(d) =~= seq!['n', 'i', 'l']);
        },
        Datum::T => {
            assert(render(d) =~= seq!['t']);
        },
        Datum::UnsignedInteger(u) => {
            lemma_decimal(u as nat);
            let t = decimal(u as nat);
            assert(t != seq!['n', 'i', 'l']) by {
                if t == seq!['n', 'i', 'l'] {
                    assert(is_digit(t[0]));
                }
            }
            assert(t != seq!['t'] && t != seq!['T']) by {
                if t == seq!['t'] || t == seq!['T'] {
                    assert(is_digit(t[0]));
                }
            }
        },
        Datum::Integer(i) => {
            let m = (-i) as nat;
            lemma_decimal(m);
            let t = render(d);
            assert(t =~= seq!['-'] + decimal(m));
            assert(t.drop_first() =~= decimal(m));
            assert(!all_digit(t)) by {
                assert(!is_digit(t[0]));
            }
            assert(t != seq!['n', 'i', 'l']) by {
                if t == seq!['n', 'i', 'l'] {
                    assert(t[0] == 'n');
                }
            }
            assert(t != seq!['t'] && t != seq!['T']) by {
                if t == seq!['t'] || t == seq!['T'] {
                    assert(t[0] == '-');
                }
            }
            assert(forall|k: int| 0 <= k < t.len() ==> !is_delimiter(#[trigger] t[k])) by {
                assert forall|k: int| 0 <= k < t.len() implies !is_delimiter(#[trigger] t[k]) by {
                    if k > 0 {
                        assert(t[k] == decimal(m)[k - 1]);
                    }
                }
            }
        },
        _ => {},
    }
}

pub proof fn lemma_need_bound(d: Datum)
    requires
        printable(d),
    ensures
        need(d) <= render(d).len() + 1,
        render(d).len() > 0,
        !is_space(render(d)[0]),
        render(d)[0] != ')',
    decreases d,
{
    match d {
        Datum::List(s) => {
            lemma_need_items_bound(s);
        },
        Datum::QuotedList(s) => {
            lemma_need_items_bound(s);
        },
        Datum::Symbol(n) => {},
        Datum::QuotedSymbol(n) => {},
        Datum::Text(t) => {},
        Datum::Nil => {},
        Datum::T => {},
        Datum::UnsignedInteger(u) => {
            lemma_decimal(u as nat);
            assert(is_digit(decimal(u as nat)[0]));
        },
        Datum::Integer(i) => {
            lemma_decimal((-i) as nat);
        },
        Datum::Byte(_) => {},
    }
}

proof fn lemma_need_items_bound(s: Seq<Datum>)
    requires
        printable_all(s),
    ensures
        need_items(s) <= render_all(s).len() + 2,
    decreases s,
{
    if s.len() > 0 {
        lemma_need_bound(s[0]);
        lemma_need_items_bound(s.drop_first());
        lemma_render_all_split(s);
        if s.len() == 1 {
            assert(s.drop_first().len() == 0);
        }
    }
}

/// Reading at `p`, where `render(d)` is written and followed by a
/// delimiter or the end, gives `d` and the index past it.
pub proof fn lemma_read_rendered(s: Seq<char>, p: int, d: Datum, fuel: nat)
    requires
        printable(d),
        0 <= p,
        p + render(d).len() <= s.len(),
        s.subrange(p, p + render(d).len()) == render(d),
        p + render(d).len() == s.len() || is_delimiter(s[p + render(d).len()]),
        fuel >= need(d),
    ensures
        read(s, p, fuel) == Some((d, p + render(d).len())),
    decreases render(d).len(),
{
    let r = render(d);
    let e = p + r.len();
    lemma_need_bound(d);
    lemma_at(s, p, r, 0);
    lemma_no_skip(s, p);
    match d {
        Datum::Text(t) => {
            assert(r =~= seq!['"'] + t + seq!['"']);
            assert forall|i: int| p + 1 <= i < e - 1 implies #[trigger] s[i] != '"' by {
                lemma_at(s, p, r, i - p);
                assert(r[i - p] == t[i - p - 1]);
            }
            lemma_at(s, p, r, r.len() - 1);
            lemma_quote_end(s, p + 1, e - 1);
            assert forall|i: int| 0 <= i < t.len() implies s.subrange(p + 1, e - 1)[i] == t[i] by {
                lemma_at(s, p, r, i + 1);
            }
            assert(s.subrange(p + 1, e - 1) =~= t);
        },
        Datum::QuotedSymbol(n) => {
            assert(r =~= seq!['\''] + n);
            lemma_at(s, p, r, 1);
            assert(s[p + 1] == n[0]);
            assert forall|i: int| 0 <= i < n.len() implies s.subrange(p + 1, e)[i] == n[i] by {
                lemma_at(s, p, r, i + 1);
            }
            assert(s.subrange(p + 1, e) =~= render(Datum::Symbol(n)));
            lemma_read_rendered(s, p + 1, Datum::Symbol(n), (fuel - 1) as nat);
        },
        Datum::List(items) => {
            assert(r =~= seq!['('] + render_all(items) + seq![')']);
            assert forall|i: int| 0 <= i < r.len() - 1 implies s.subrange(p + 1, e)[i] == (render_all(
                items,
            ) + seq![')'])[i] by {
                lemma_at(s, p, r, i + 1);
            }
            assert(s.subrange(p + 1, e) =~= render_all(items) + seq![')']);
            lemma_read_items_rendered(s, p + 1, items, (fuel - 1) as nat);
        },
        Datum::QuotedList(items) => {
            assert(r =~= seq!['\'', '('] + render_all(items) + seq![')']);
            lemma_at(s, p, r, 1);
            assert(s[p + 1] == '(');
            let inner = Datum::List(items);
            assert(render(inner) =~= seq!['('] + render_all(items) + seq![')']);
            assert forall|i: int| 0 <= i < r.len() - 1 implies s.subrange(p + 1, e)[i] == render(
                inner,
            )[i] by {
                lemma_at(s, p, r, i + 1);
            }
            assert(s.subrange(p + 1, e) =~= render(inner));
            lemma_read_rendered(s, p + 1, inner, (fuel - 1) as nat);
        },
        _ => {
            lemma_atom_text(d);
            assert forall|i: int| p + 1 <= i < e implies !is_delimiter(#[trigger] s[i]) by {
                lemma_at(s, p, r, i - p);
            }
            lemma_token_end(s, p + 1, e);
        },
    }
}

/// Reading list elements at `p`, where the elements are printed separated
/// by single spaces and followed by `)`, gives the elements and the index
/// past the `)`.
pub proof fn lemma_read_items_rendered(s: Seq<char>, p: int, items: Seq<Datum>, fuel: nat)
    requires
        printable_all(items),
        0 <= p,
        p + render_all(items).len() + 1 <= s.len(),
        s.subrange(p, p + render_all(items).len() + 1) == render_all(items) + seq![')'],
        fuel >= need_items(items),
    ensures
        read_items(s, p, fuel) == Some((items, p + render_all(items).len() + 1)),
    decreases render_all(items).len() + 1,
{
    let r = render_all(items);
    let rc = r + seq![')'];
    let end = p + r.len() + 1;
    if items.len() == 0 {
        assert(r.len() == 0);
        lemma_at(s, p, rc, 0);
        assert(s[p] == ')');
        lemma_no_skip(s, p);
        assert(items =~= Seq::<Datum>::empty());
    } else {
        let x = items[0];
        let rest = items.drop_first();
        lemma_render_all_split(items);
        lemma_need_bound(x);
        let rx = render(x);
        let e = p + rx.len();
        lemma_at(s, p, rc, 0);
        assert(s[p] == rx[0]);
        lemma_no_skip(s, p);
        assert(s.subrange(p, e) =~= rx) by {
            assert forall|k: int| 0 <= k < rx.len() implies s.subrange(p, e)[k] == rx[k] by {
                lemma_at(s, p, rc, k);
                assert(rc[k] == rx[k]);
            }
        }
        if items.len() == 1 {
            assert(r == rx);
            lemma_at(s, p, rc, rx.len() as int);
            assert(s[e] == ')');
            lemma_read_rendered(s, p, x, (fuel - 1) as nat);
            assert(rest.len() == 0);
            lemma_no_skip(s, e);
            assert(rest =~= Seq::<Datum>::empty());
            assert(seq![x] + Seq::<Datum>::empty() =~= items);
        } else {
            lemma_at(s, p, rc, rx.len() as int);
            assert(s[e] == ' ');
            lemma_read_rendered(s, p, x, (fuel - 1) as nat);
            let rr = render_all(rest);
            assert(s.subrange(e + 1, e + 1 + rr.len() + 1) =~= rr + seq![')']) by {
                assert forall|k: int| 0 <= k < rr.len() + 1 implies s.subrange(
                    e + 1,
                    e + 1 + rr.len() + 1,
                )[k] == (rr + seq![')'])[k] by {
                    lemma_at(s, p, rc, rx.len() + 1 + k);
                }
            }
            lemma_read_items_rendered(s, e + 1, rest, (fuel - 1) as nat);
            assert(skip_spaces(s, e) == skip_spaces(s, e + 1));
            assert(read_items(s, e, (fuel - 1) as nat) == read_items(s, e + 1, (fuel - 1) as nat));
            assert(seq![x] + rest =~= items);
        }
    }
}

/// Display round trip: the printed form of a printable value reads back as
/// the value.
pub proof fn lemma_display_round_trip(d: Datum)
    requires
        printable(d),
        render(d).len() <= 1000000000,
    ensures
        reads(render(d)) == Some(d),
{
    let s = render(d);
    lemma_need_bound(d);
    lemma_no_skip(s, 0);
    assert(s.subrange(0, s.len() as int) =~= s);
    lemma_read_rendered(s, 0, d, budget(s));
}

} // verus!
