//! The value model: atoms, strings, symbols and lists, with quoting.
use vstd::prelude::*;
use vstd::string::StringExecFns;

verus! {

broadcast use vstd::std_specs::vec::group_vec_axioms, vstd::seq::group_seq_axioms;

/// A value of the language.
///
/// `List` and `QuotedList` hold the elements of a proper list; the empty
/// list is `Nil`.
#[derive(Debug, PartialEq, Eq)]
pub enum Value {
    Nil,
    T,
    Byte(u8),
    UnsignedInteger(u64),
    Integer(i64),
    String(String),
    Symbol(String),
    QuotedSymbol(String),
    List(Vec<Value>),
    QuotedList(Vec<Value>),
}

/// The mathematical model of a [`Value`].
pub enum Datum {
    Nil,
    T,
    Byte(u8),
    UnsignedInteger(u64),
    Integer(i64),
    Text(Seq<char>),
    Symbol(Seq<char>),
    QuotedSymbol(Seq<char>),
    List(Seq<Datum>),
    QuotedList(Seq<Datum>),
}

pub open spec fn datum(v: Value) -> Datum
    decreases v,
{
    match v {
        Value::Nil => Datum::Nil,
        Value::T => Datum::T,
        Value::Byte(b) => Datum::Byte(b),
        Value::UnsignedInteger(u) => Datum::UnsignedInteger(u),
        Value::Integer(i) => Datum::Integer(i),
        Value::String(s) => Datum::Text(s@),
        Value::Symbol(s) => Datum::Symbol(s@),
        Value::QuotedSymbol(s) => Datum::QuotedSymbol(s@),
        Value::List(items) => Datum::List(datums(items@)),
        Value::QuotedList(items) => Datum::QuotedList(datums(items@)),
    }
}

pub open spec fn datums(s: Seq<Value>) -> Seq<Datum>
    decreases s,
{
    if s.len() == 0 {
        Seq::empty()
    } else {
        datums(s.drop_last()).push(datum(s.last()))
    }
}

impl View for Value {
    type V = Datum;

    open spec fn view(&self) -> Datum {
        datum(*self)
    }
}

pub proof fn lemma_datums_len(s: Seq<Value>)
    ensures
        datums(s).len() == s.len(),
    decreases s.len(),
{
    if s.len() > 0 {
        lemma_datums_len(s.drop_last());
    }
}

pub proof fn lemma_datums_index(s: Seq<Value>, i: int)
    requires
        0 <= i < s.len(),
    ensures
        datums(s).len() == s.len(),
        datums(s)[i] == datum(s[i]),
    decreases s.len(),
{
    lemma_datums_len(s);
    if i < s.len() - 1 {
        lemma_datums_index(s.drop_last(), i);
    }
}


pub proof fn lemma_datums_push(s: Seq<Value>, x: Value)
    ensures
        datums(s.push(x)) == datums(s).push(datum(x)),
{
    assert(s.push(x).drop_last() =~= s);
}

/// Whether a value is marked as data that evaluation must not enter.
pub open spec fn is_quoted(d: Datum) -> bool {
    d is QuotedSymbol || d is QuotedList
}

/// Whether a value is a list, quoted or not (the empty list `Nil` is not).
pub open spec fn is_list(d: Datum) -> bool {
    d is List || d is QuotedList
}

/// Whether a value is a symbol, quoted or not.
pub open spec fn is_symbol(d: Datum) -> bool {
    d is Symbol || d is QuotedSymbol
}

/// The empty list: `Nil`, or a list without elements.
pub open spec fn is_nil(d: Datum) -> bool {
    match d {
        Datum::Nil => true,
        Datum::List(s) => s.len() == 0,
        Datum::QuotedList(s) => s.len() == 0,
        _ => false,
    }
}

/// The quoted form of a value: lists and symbols gain the mark, other
/// values stand for themselves.
pub open spec fn quote_of(d: Datum) -> Datum {
    match d {
        Datum::List(s) => Datum::QuotedList(s),
        Datum::Symbol(s) => Datum::QuotedSymbol(s),
        _ => d,
    }
}

/// The list holding `s`: `Nil` when `s` is empty.
pub open spec fn list_of(s: Seq<Datum>) -> Datum {
    if s.len() == 0 {
        Datum::Nil
    } else {
        Datum::List(s)
    }
}

/// The chain of values that a value stands for when read as a list: the
/// elements of a list, nothing for `Nil`, and the value itself for a scalar.
pub open spec fn elements(d: Datum) -> Seq<Datum> {
    match d {
        Datum::Nil => Seq::empty(),
        Datum::List(s) => s,
        Datum::QuotedList(s) => s,
        _ => seq![d],
    }
}

/// The number of elements of the chain that `d` stands for.
pub open spec fn length(d: Datum) -> nat {
    elements(d).len()
}

/// The first element of a list; the head of a quoted list comes out quoted.
pub open spec fn car_of(d: Datum) -> Datum {
    let s = elements(d);
    if s.len() == 0 {
        Datum::Nil
    } else if d is QuotedList {
        quote_of(s[0])
    } else {
        s[0]
    }
}

/// All but the first element of a list, quoted as the list was.
pub open spec fn cdr_of(d: Datum) -> Datum {
    let s = elements(d);
    if s.len() <= 1 {
        Datum::Nil
    } else if d is QuotedList {
        Datum::QuotedList(s.drop_first())
    } else {
        Datum::List(s.drop_first())
    }
}

/// The chains of `s`, one after the other.
pub open spec fn splice(s: Seq<Datum>) -> Seq<Datum>
    decreases s.len(),
{
    if s.len() == 0 {
        Seq::empty()
    } else {
        splice(s.drop_last()) + elements(s.last())
    }
}

/// `x` put in front of the list `d`, quoted as `d` is.
pub open spec fn cons_of(x: Datum, d: Datum) -> Datum {
    let s = seq![x] + elements(d);
    if d is QuotedList {
        Datum::QuotedList(s)
    } else {
        Datum::List(s)
    }
}

impl Value {
    pub fn nil() -> (r: Value)
        ensures
            r@ == Datum::Nil,
    {
        Value::Nil
    }

    pub fn symbol(name: &str) -> (r: Value)
        ensures
            r@ == Datum::Symbol(name@),
    {
        Value::Symbol(String::from_str(name))
    }

    pub fn quoted_symbol(name: &str) -> (r: Value)
        ensures
            r@ == Datum::QuotedSymbol(name@),
    {
        Value::QuotedSymbol(String::from_str(name))
    }

    pub fn string(text: &str) -> (r: Value)
        ensures
            r@ == Datum::Text(text@),
    {
        Value::String(String::from_str(text))
    }

    pub fn unsigned_integer(n: u64) -> (r: Value)
        ensures
            r@ == Datum::UnsignedInteger(n),
    {
        Value::UnsignedInteger(n)
    }

    pub fn integer(n: i64) -> (r: Value)
        ensures
            r@ == Datum::Integer(n),
    {
        Value::Integer(n)
    }

    pub fn byte(n: u8) -> (r: Value)
        ensures
            r@ == Datum::Byte(n),
    {
        Value::Byte(n)
    }

    /// The list of `items`, or `Nil` when there are none.
    pub fn list(items: Vec<Value>) -> (r: Value)
        ensures
            r@ == list_of(datums(items@)),
    {
        proof {
            lemma_datums_len(items@);
        }
        if items.len() == 0 {
            Value::Nil
        } else {
            Value::List(items)
        }
    }

    /// Marks a list or a symbol as quoted; other values are returned as they are.
    pub fn quote(self) -> (r: Value)
        ensures
            r@ == quote_of(self@),
    {
        match self {
            Value::List(items) => Value::QuotedList(items),
            Value::Symbol(name) => Value::QuotedSymbol(name),
            other => other,
        }
    }

    pub fn is_quoted(&self) -> (r: bool)
        ensures
            r == is_quoted(self@),
    {
        match self {
            Value::QuotedSymbol(_) | Value::QuotedList(_) => true,
            _ => false,
        }
    }

    pub fn is_list(&self) -> (r: bool)
        ensures
            r == is_list(self@),
    {
        match self {
            Value::List(_) | Value::QuotedList(_) => true,
            _ => false,
        }
    }

    pub fn is_symbol(&self) -> (r: bool)
        ensures
            r == is_symbol(self@),
    {
        match self {
            Value::Symbol(_) | Value::QuotedSymbol(_) => true,
            _ => false,
        }
    }

    pub fn is_nil(&self) -> (r: bool)
        ensures
            r == is_nil(self@),
    {
        match self {
            Value::Nil => true,
            Value::List(items) | Value::QuotedList(items) => {
                proof {
                    lemma_datums_len(items@);
                }
                items.len() == 0
            },
            _ => false,
        }
    }

    /// The number of elements of the chain this value stands for.
    pub fn len(&self) -> (r: usize)
        ensures
            r == length(self@),
    {
        match self {
            Value::Nil => 0,
            Value::List(items) | Value::QuotedList(items) => {
                proof {
                    lemma_datums_len(items@);
                }
                items.len()
            },
            _ => 1,
        }
    }

    pub fn is_empty(&self) -> (r: bool)
        ensures
            r == (length(self@) == 0),
    {
        self.len() == 0
    }

    /// A copy of this value that shares nothing with it.
    pub fn copy(&self) -> (r: Value)
        ensures
            r@ == self@,
        decreases self,
    {
        match self {
            Value::Nil => Value::Nil,
            Value::T => Value::T,
            Value::Byte(b) => Value::Byte(*b),
            Value::UnsignedInteger(u) => Value::UnsignedInteger(*u),
            Value::Integer(i) => Value::Integer(*i),
            Value::String(s) => Value::String(s.clone()),
            Value::Symbol(s) => Value::Symbol(s.clone()),
            Value::QuotedSymbol(s) => Value::QuotedSymbol(s.clone()),
            Value::List(items) => Value::List(copy_items(items)),
            Value::QuotedList(items) => Value::QuotedList(copy_items(items)),
        }
    }

    /// Structural equality: same variant, same payload, lists element by element.
    pub fn equals(&self, other: &Value) -> (r: bool)
        ensures
            r == (self@ == other@),
        decreases self,
    {
        match (self, other) {
            (Value::Nil, Value::Nil) => true,
            (Value::T, Value::T) => true,
            (Value::Byte(a), Value::Byte(b)) => *a == *b,
            (Value::UnsignedInteger(a), Value::UnsignedInteger(b)) => *a == *b,
            (Value::Integer(a), Value::Integer(b)) => *a == *b,
            (Value::String(a), Value::String(b)) => *a == *b,
            (Value::Symbol(a), Value::Symbol(b)) => *a == *b,
            (Value::QuotedSymbol(a), Value::QuotedSymbol(b)) => *a == *b,
            (Value::List(a), Value::List(b)) => items_equal(a, b),
            (Value::QuotedList(a), Value::QuotedList(b)) => items_equal(a, b),
            _ => false,
        }
    }
}

/// Copies each element of `items`.
pub fn copy_items(items: &Vec<Value>) -> (r: Vec<Value>)
    ensures
        datums(r@) == datums(items@),
    decreases items,
{
    let mut out: Vec<Value> = Vec::new();
    let mut i: usize = 0;
    while i < items.len()
        invariant
            i <= items.len(),
            datums(out@) == datums(items@.subrange(0, i as int)),
        decreases items.len() - i,
    {
        let c = items[i].copy();
        proof {
            lemma_datums_push(out@, c);
            lemma_datums_push(items@.subrange(0, i as int), items@[i as int]);
            assert(items@.subrange(0, i as int).push(items@[i as int]) =~= items@.subrange(0, i + 1));
        }
        out.push(c);
        i = i + 1;
    }
    assert(items@.subrange(0, items@.len() as int) =~= items@);
    out
}

/// Compares two element vectors element by element.
pub fn items_equal(a: &Vec<Value>, b: &Vec<Value>) -> (r: bool)
    ensures
        r == (datums(a@) == datums(b@)),
    decreases a,
{
    proof {
        lemma_datums_len(a@);
        lemma_datums_len(b@);
    }
    if a.len() != b.len() {
        return false;
    }
    let mut i: usize = 0;
    while i < a.len()
        invariant
            i <= a.len(),
            a.len() == b.len(),
            datums(a@).len() == a.len(),
            datums(b@).len() == b.len(),
            forall|j: int| 0 <= j < i ==> datums(a@)[j] == datums(b@)[j],
        decreases a.len() - i,
    {
        proof {
            lemma_datums_index(a@, i as int);
            lemma_datums_index(b@, i as int);
        }
        if !a[i].equals(&b[i]) {
            return false;
        }
        i = i + 1;
    }
    assert(datums(a@) =~= datums(b@));
    true
}


/// Appends to `out` copies of `items[from..]`.
fn copy_from(out: &mut Vec<Value>, items: &Vec<Value>, from: usize)
    requires
        from <= items.len(),
    ensures
        datums(final(out)@) == datums(old(out)@) + datums(items@).subrange(
            from as int,
            items@.len() as int,
        ),
{
    let ghost start = out@;
    let mut i: usize = from;
    proof {
        lemma_datums_len(items@);
        assert(datums(items@).subrange(from as int, from as int) =~= Seq::<Datum>::empty());
        assert(datums(out@) =~= datums(start) + Seq::<Datum>::empty());
    }
    while i < items.len()
        invariant
            from <= i <= items.len(),
            datums(items@).len() == items@.len(),
            datums(out@) == datums(start) + datums(items@).subrange(from as int, i as int),
        decreases items.len() - i,
    {
        let c = items[i].copy();
        proof {
            lemma_datums_push(out@, c);
            lemma_datums_index(items@, i as int);
            assert(datums(items@).subrange(from as int, i + 1) =~= datums(items@).subrange(
                from as int,
                i as int,
            ).push(datum(items@[i as int])));
            assert(datums(out@).push(datum(c)) =~= datums(start) + datums(items@).subrange(
                from as int,
                i + 1,
            ));
        }
        out.push(c);
        i = i + 1;
    }
}

/// Appends to `out` copies of the elements of the chain `v` stands for.
pub fn push_elements(out: &mut Vec<Value>, v: &Value)
    ensures
        datums(final(out)@) == datums(old(out)@) + elements(v@),
{
    match v {
        Value::Nil => {
            assert(datums(out@) =~= datums(out@) + Seq::<Datum>::empty());
        },
        Value::List(items) | Value::QuotedList(items) => {
            proof {
                lemma_datums_len(items@);
                assert(datums(items@).subrange(0, items@.len() as int) =~= datums(items@));
            }
            copy_from(out, items, 0);
        },
        _ => {
            let c = v.copy();
            proof {
                lemma_datums_push(out@, c);
                assert(datums(out@).push(datum(c)) =~= datums(out@) + seq![v@]);
            }
            out.push(c);
        },
    }
}

/// The first element of a list (`Nil` for the empty list, the value itself
/// for a scalar); the head of a quoted list comes out quoted.
pub fn car(v: &Value) -> (r: Value)
    ensures
        r@ == car_of(v@),
{
    match v {
        Value::Nil => Value::Nil,
        Value::List(items) => {
            proof {
                lemma_datums_len(items@);
            }
            if items.len() == 0 {
                Value::Nil
            } else {
                proof {
                    lemma_datums_index(items@, 0);
                }
                items[0].copy()
            }
        },
        Value::QuotedList(items) => {
            proof {
                lemma_datums_len(items@);
            }
            if items.len() == 0 {
                Value::Nil
            } else {
                proof {
                    lemma_datums_index(items@, 0);
                }
                items[0].copy().quote()
            }
        },
        _ => v.copy(),
    }
}

/// The list without its first element, quoted as the list was.
pub fn cdr(v: &Value) -> (r: Value)
    ensures
        r@ == cdr_of(v@),
{
    match v {
        Value::List(items) | Value::QuotedList(items) => {
            proof {
                lemma_datums_len(items@);
            }
            if items.len() <= 1 {
                Value::Nil
            } else {
                let mut rest: Vec<Value> = Vec::new();
                copy_from(&mut rest, items, 1);
                proof {
                    assert(datums(Seq::<Value>::empty()) =~= Seq::<Datum>::empty());
                    assert(datums(rest@) =~= datums(items@).drop_first());
                }
                if v.is_quoted() {
                    Value::QuotedList(rest)
                } else {
                    Value::List(rest)
                }
            }
        },
        _ => Value::Nil,
    }
}

/// `x` put in front of the elements of `list`, quoted as `list` is.
pub fn cons(x: Value, list: &Value) -> (r: Value)
    ensures
        r@ == cons_of(x@, list@),
{
    let mut items: Vec<Value> = Vec::new();
    items.push(x);
    proof {
        lemma_datums_push(Seq::<Value>::empty(), x);
        assert(datums(Seq::<Value>::empty()) =~= Seq::<Datum>::empty());
        assert(Seq::<Value>::empty().push(x) =~= items@);
        assert(datums(items@) =~= seq![x@]);
    }
    push_elements(&mut items, list);
    if list.is_quoted() && list.is_list() {
        Value::QuotedList(items)
    } else {
        Value::List(items)
    }
}

/// The chains of `values` joined into one unquoted list: each list gives
/// its elements, each scalar itself, `Nil` nothing.
pub fn append(values: &Vec<Value>) -> (r: Value)
    ensures
        r@ == list_of(splice(datums(values@))),
{
    let mut out: Vec<Value> = Vec::new();
    let mut i: usize = 0;
    proof {
        assert(datums(Seq::<Value>::empty()) =~= Seq::<Datum>::empty());
        assert(values@.subrange(0, 0) =~= Seq::<Value>::empty());
        assert(out@ =~= Seq::<Value>::empty());
    }
    while i < values.len()
        invariant
            i <= values.len(),
            datums(out@) == splice(datums(values@.subrange(0, i as int))),
        decreases values.len() - i,
    {
        proof {
            lemma_datums_push(values@.subrange(0, i as int), values@[i as int]);
            assert(values@.subrange(0, i as int).push(values@[i as int]) =~= values@.subrange(
                0,
                i + 1,
            ));
            let pre = datums(values@.subrange(0, i as int));
            assert(pre.push(datum(values@[i as int])).drop_last() =~= pre);
        }
        push_elements(&mut out, &values[i]);
        i = i + 1;
    }
    proof {
        assert(values@.subrange(0, values@.len() as int) =~= values@);
    }
    Value::list(out)
}

/// The list of `items`, or `Nil` when there are none.
pub fn list(items: Vec<Value>) -> (r: Value)
    ensures
        r@ == list_of(datums(items@)),
{
    Value::list(items)
}


impl Value {
    /// The first element of a list, as it stands in the list.
    pub fn head(&self) -> (r: Option<Value>)
        ensures
            match r {
                Some(h) => elements(self@).len() > 0 && h@ == elements(self@)[0],
                None => elements(self@).len() == 0,
            },
    {
        match self {
            Value::Nil => None,
            Value::List(items) | Value::QuotedList(items) => {
                proof {
                    lemma_datums_len(items@);
                }
                if items.len() == 0 {
                    None
                } else {
                    proof {
                        lemma_datums_index(items@, 0);
                    }
                    Some(items[0].copy())
                }
            },
            _ => Some(self.copy()),
        }
    }

    /// Copies of the elements of the chain this value stands for.
    pub fn values(&self) -> (r: Vec<Value>)
        ensures
            datums(r@) == elements(self@),
    {
        let mut out: Vec<Value> = Vec::new();
        push_elements(&mut out, self);
        proof {
            assert(datums(Seq::<Value>::empty()) =~= Seq::<Datum>::empty());
            assert(Seq::<Datum>::empty() + elements(self@) =~= elements(self@));
        }
        out
    }
}

impl From<&str> for Value {
    /// A string value holding `text`.
    fn from(text: &str) -> (r: Value) {
        Value::String(String::from_str(text))
    }
}

impl vstd::std_specs::convert::FromSpecImpl<&str> for Value {
    open spec fn obeys_from_spec() -> bool {
        false
    }

    open spec fn from_spec(text: &str) -> Value {
        Value::Nil
    }
}

impl From<u8> for Value {
    /// A byte value.
    fn from(n: u8) -> (r: Value) {
        Value::Byte(n)
    }
}

impl vstd::std_specs::convert::FromSpecImpl<u8> for Value {
    open spec fn obeys_from_spec() -> bool {
        true
    }

    open spec fn from_spec(n: u8) -> Value {
        Value::Byte(n)
    }
}

impl From<i64> for Value {
    /// The narrowest value for `n`: a byte up to 255, an unsigned integer
    /// above, a signed integer below zero.
    fn from(n: i64) -> (r: Value) {
        if n < 0 {
            Value::Integer(n)
        } else if n <= 255 {
            Value::Byte(n as u8)
        } else {
            Value::UnsignedInteger(n as u64)
        }
    }
}

impl vstd::std_specs::convert::FromSpecImpl<i64> for Value {
    open spec fn obeys_from_spec() -> bool {
        true
    }

    open spec fn from_spec(n: i64) -> Value {
        if n < 0 {
            Value::Integer(n)
        } else if n <= 255 {
            Value::Byte(n as u8)
        } else {
            Value::UnsignedInteger(n as u64)
        }
    }
}


/// List equality is structural: nil equals nil; lists of equal length with
/// pairwise equal elements are equal; lists of different lengths never are.
pub proof fn lemma_list_equality(a: Seq<Datum>, b: Seq<Datum>)
    ensures
        Datum::Nil == Datum::Nil,
        a.len() == b.len() && (forall|i: int| 0 <= i < a.len() ==> a[i] == b[i]) ==> Datum::List(a)
            == Datum::List(b) && Datum::QuotedList(a) == Datum::QuotedList(b),
        a.len() != b.len() ==> Datum::List(a) != Datum::List(b) && Datum::QuotedList(a)
            != Datum::QuotedList(b),
{
    if a.len() == b.len() && (forall|i: int| 0 <= i < a.len() ==> a[i] == b[i]) {
        assert(a =~= b);
    }
}

/// Quoting marks a symbol or a list as quoted, and quoting twice is
/// quoting once.
pub proof fn lemma_quote_marks(d: Datum)
    requires
        d is Symbol || d is QuotedSymbol || d is List || d is QuotedList,
    ensures
        is_quoted(quote_of(d)),
        quote_of(quote_of(d)) == quote_of(d),
        elements(quote_of(d)) == elements(d) || d is Symbol || d is QuotedSymbol,
{
}


impl From<u64> for Value {
    /// The narrowest value for `n`: a byte up to 255, an unsigned integer above.
    fn from(n: u64) -> (r: Value) {
        if n <= 255 {
            Value::Byte(n as u8)
        } else {
            Value::UnsignedInteger(n)
        }
    }
}

impl vstd::std_specs::convert::FromSpecImpl<u64> for Value {
    open spec fn obeys_from_spec() -> bool {
        true
    }

    open spec fn from_spec(n: u64) -> Value {
        if n <= 255 {
            Value::Byte(n as u8)
        } else {
            Value::UnsignedInteger(n)
        }
    }
}

} // verus!
