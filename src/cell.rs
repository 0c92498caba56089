//! Cons cells that may share tails or form rings, kept in a store and
//! addressed by index. Every walk along a chain visits at most as many
//! cells as the store holds, so it ends on rings too.
use vstd::prelude::*;
use crate::value::{datum, datums, is_quoted, lemma_datums_len, lemma_datums_push, Datum, Value};

verus! {

broadcast use vstd::std_specs::vec::group_vec_axioms, vstd::seq::group_seq_axioms;

/// One cons cell: an optional head value, the index of the next cell, and
/// the quoted mark. A cell with neither head nor tail is nil.
#[derive(Debug, PartialEq, Eq)]
pub struct Cell {
    pub head: Option<Value>,
    pub tail: Option<usize>,
    pub quoted: bool,
}

/// The head of a cell as a sequence of zero or one values.
pub open spec fn head_seq(c: Cell) -> Seq<Datum> {
    match c.head {
        Some(v) => seq![v@],
        None => Seq::empty(),
    }
}

/// The values met walking from `cur`, visiting at most `fuel` cells.
pub open spec fn heads_from(c: Seq<Cell>, cur: Option<usize>, fuel: nat) -> Seq<Datum>
    decreases fuel,
{
    match cur {
        None => Seq::empty(),
        Some(i) => if fuel == 0 || i >= c.len() {
            Seq::empty()
        } else {
            head_seq(c[i as int]) + heads_from(c, c[i as int].tail, (fuel - 1) as nat)
        },
    }
}

impl Cell {
    /// The empty cell.
    pub fn nil() -> (r: Cell)
        ensures
            r.head is None,
            r.tail is None,
            !r.quoted,
    {
        Cell { head: None, tail: None, quoted: false }
    }

    /// A cell holding `item`, if any, with the given mark.
    pub fn quoted(item: Option<Value>, quoted: bool) -> (r: Cell)
        ensures
            r.head == item,
            r.tail is None,
            r.quoted == quoted,
    {
        Cell { head: item, tail: None, quoted }
    }

    /// A cell holding `item`, quoted when `item` is.
    pub fn new(item: Value) -> (r: Cell)
        ensures
            r.head == Some(item),
            r.tail is None,
            r.quoted == is_quoted(item@),
    {
        let quoted = item.is_quoted();
        Cell { head: Some(item), tail: None, quoted }
    }

    pub fn is_nil(&self) -> (r: bool)
        ensures
            r == (self.head is None && self.tail is None),
    {
        self.head.is_none() && self.tail.is_none()
    }

    /// A copy of the head value.
    pub fn head(&self) -> (r: Option<Value>)
        ensures
            match r {
                Some(v) => self.head matches Some(h) && v@ == h@,
                None => self.head is None,
            },
    {
        match &self.head {
            Some(v) => Some(v.copy()),
            None => None,
        }
    }

    pub fn tail(&self) -> (r: Option<usize>)
        ensures
            r == self.tail,
    {
        self.tail
    }

    pub fn is_quoted(&self) -> (r: bool)
        ensures
            r == self.quoted,
    {
        self.quoted
    }
}

/// A store of cells. A list is named by the index of its first cell; cells
/// may be shared by several lists.
#[derive(Debug, PartialEq, Eq)]
pub struct Cells {
    pub cells: Vec<Cell>,
}

impl Cells {
    /// Every tail names a cell of the store.
    pub open spec fn wf(&self) -> bool {
        forall|i: int|
            0 <= i < self.cells@.len() ==> ((#[trigger] self.cells@[i]).tail matches Some(t) ==> t
                < self.cells@.len())
    }

    /// The values of the list starting at cell `id`.
    pub open spec fn chain(&self, id: usize) -> Seq<Datum> {
        heads_from(self.cells@, Some(id), self.cells@.len())
    }

    pub fn new() -> (r: Cells)
        ensures
            r.wf(),
            r.cells@.len() == 0,
    {
        Cells { cells: Vec::new() }
    }

    /// Stores `cell`; returns its index.
    pub fn insert(&mut self, cell: Cell) -> (r: usize)
        requires
            old(self).wf(),
            cell.tail matches Some(t) ==> t < old(self).cells@.len(),
        ensures
            final(self).wf(),
            r == old(self).cells@.len(),
            final(self).cells@ == old(self).cells@.push(cell),
    {
        let r = self.cells.len();
        self.cells.push(cell);
        r
    }

    /// Stores a new nil cell; returns its index.
    pub fn nil(&mut self) -> (r: usize)
        requires
            old(self).wf(),
        ensures
            final(self).wf(),
            r == old(self).cells@.len(),
            final(self).cells@.len() == old(self).cells@.len() + 1,
            final(self).cells@[r as int].head is None,
            final(self).cells@[r as int].tail is None,
            forall|i: int| 0 <= i < old(self).cells@.len() ==> final(self).cells@[i] == old(
                self,
            ).cells@[i],
    {
        self.insert(Cell::nil())
    }

    /// The head value of cell `id` (`Nil` when it has none).
    pub fn car(&self, id: usize) -> (r: Value)
        requires
            id < self.cells@.len(),
        ensures
            r@ == match self.cells@[id as int].head {
                Some(v) => v@,
                None => Datum::Nil,
            },
    {
        match &self.cells[id].head {
            Some(v) => v.copy(),
            None => Value::Nil,
        }
    }

    /// The cell after cell `id`, if any.
    pub fn cdr(&self, id: usize) -> (r: Option<usize>)
        requires
            id < self.cells@.len(),
        ensures
            r == self.cells@[id as int].tail,
    {
        self.cells[id].tail
    }

    /// Makes `target` the cell after cell `id`; the other cells keep their
    /// links, so this may close a ring.
    pub fn set_tail(&mut self, id: usize, target: Option<usize>)
        requires
            old(self).wf(),
            id < old(self).cells@.len(),
            target matches Some(t) ==> t < old(self).cells@.len(),
        ensures
            final(self).wf(),
            final(self).cells@.len() == old(self).cells@.len(),
            final(self).cells@[id as int].tail == target,
            head_seq(final(self).cells@[id as int]) == head_seq(old(self).cells@[id as int]),
            final(self).cells@[id as int].quoted == old(self).cells@[id as int].quoted,
            forall|i: int| 0 <= i < old(self).cells@.len() && i != id ==> final(self).cells@[i] == old(
                self,
            ).cells@[i],
    {
        let head = match &self.cells[id].head {
            Some(v) => Some(v.copy()),
            None => None,
        };
        let quoted = self.cells[id].quoted;
        self.cells.set(id, Cell { head, tail: target, quoted });
    }

    /// The values of the list starting at cell `id`, in order.
    pub fn values(&self, id: usize) -> (r: Vec<Value>)
        ensures
            datums(r@) == self.chain(id),
    {
        let n = self.cells.len();
        let mut out: Vec<Value> = Vec::new();
        let mut cur: Option<usize> = Some(id);
        let mut fuel: usize = n;
        proof {
            assert(datums(Seq::<Value>::empty()) =~= Seq::<Datum>::empty());
            assert(datums(out@) + heads_from(self.cells@, cur, fuel as nat) =~= self.chain(id));
        }
        while fuel > 0 && cur.is_some() && cur.unwrap() < n
            invariant
                n == self.cells@.len(),
                fuel <= n,
                self.chain(id) == datums(out@) + heads_from(self.cells@, cur, fuel as nat),
            decreases fuel,
        {
            let i = cur.unwrap();
            let ghost before = out@;
            match &self.cells[i].head {
                Some(v) => {
                    let c = v.copy();
                    proof {
                        lemma_datums_push(out@, c);
                    }
                    out.push(c);
                },
                None => {},
            }
            proof {
                assert(datums(out@) =~= datums(before) + head_seq(self.cells@[i as int]));
            }
            cur = self.cells[i].tail;
            fuel = fuel - 1;
            proof {
                assert(self.chain(id) =~= datums(out@) + heads_from(self.cells@, cur, fuel as nat));
            }
        }
        proof {
            assert(heads_from(self.cells@, cur, fuel as nat) =~= Seq::<Datum>::empty());
            assert(datums(out@) + Seq::<Datum>::empty() =~= datums(out@));
        }
        out
    }

    /// The values of the list starting at cell `id`.
    pub fn to_vec(&self, id: usize) -> (r: Vec<Value>)
        ensures
            datums(r@) == self.chain(id),
    {
        self.values(id)
    }

    /// The number of values of the list starting at cell `id`.
    pub fn len(&self, id: usize) -> (r: usize)
        ensures
            r == self.chain(id).len(),
    {
        let v = self.values(id);
        proof {
            lemma_datums_len(v@);
        }
        v.len()
    }

    pub fn is_empty(&self, id: usize) -> (r: bool)
        ensures
            r == (self.chain(id).len() == 0),
    {
        self.len(id) == 0
    }

    /// Whether the lists starting at `a` and `b` hold equal values, pairwise.
    pub fn equal(&self, a: usize, b: usize) -> (r: bool)
        ensures
            r == (self.chain(a) == self.chain(b)),
    {
        let x = self.values(a);
        let y = self.values(b);
        crate::value::items_equal(&x, &y)
    }

    /// The list starting at `id` as a value: `Nil` when it holds nothing,
    /// its single value when it holds one and is not quoted, otherwise a
    /// list, quoted as its first cell is.
    pub fn unwrap_value(&self, id: usize) -> (r: Value)
        requires
            id < self.cells@.len(),
        ensures
            r@ == if self.chain(id).len() == 0 {
                Datum::Nil
            } else if self.chain(id).len() == 1 && !self.cells@[id as int].quoted {
                self.chain(id)[0]
            } else if self.cells@[id as int].quoted {
                Datum::QuotedList(self.chain(id))
            } else {
                Datum::List(self.chain(id))
            },
    {
        let mut items = self.values(id);
        proof {
            lemma_datums_len(items@);
        }
        if items.len() == 0 {
            Value::Nil
        } else if items.len() == 1 && !self.cells[id].quoted {
            proof {
                crate::value::lemma_datums_index(items@, 0);
            }
            items.pop().unwrap()
        } else if self.cells[id].quoted {
            Value::QuotedList(items)
        } else {
            Value::List(items)
        }
    }
}


/// The last cell met walking from `cur` (the first without a tail),
/// visiting at most `fuel` cells; `None` when the walk does not end there.
pub open spec fn last_from(c: Seq<Cell>, cur: usize, fuel: nat) -> Option<usize>
    decreases fuel,
{
    if fuel == 0 || cur >= c.len() {
        None
    } else {
        match c[cur as int].tail {
            None => Some(cur),
            Some(t) => last_from(c, t, (fuel - 1) as nat),
        }
    }
}

pub proof fn lemma_last_from_bounds(c: Seq<Cell>, cur: usize, fuel: nat)
    ensures
        last_from(c, cur, fuel) matches Some(l) ==> l < c.len() && c[l as int].tail is None,
    decreases fuel,
{
    if fuel > 0 && cur < c.len() {
        if let Some(t) = c[cur as int].tail {
            lemma_last_from_bounds(c, t, (fuel - 1) as nat);
        }
    }
}

/// A walk from any cell yields at most as many values as it may visit
/// cells: walks along shared tails and rings end.
pub proof fn lemma_walk_bounded(c: Seq<Cell>, cur: Option<usize>, fuel: nat)
    ensures
        heads_from(c, cur, fuel).len() <= fuel,
    decreases fuel,
{
    if let Some(i) = cur {
        if fuel > 0 && i < c.len() {
            lemma_walk_bounded(c, c[i as int].tail, (fuel - 1) as nat);
        }
    }
}

/// In a ring of two cells, `a -> b -> a`, following the tail twice comes
/// back to `a`, so the head reached by `cdr`, `cdr`, `car` is the head of `a`.
pub proof fn lemma_two_cell_ring(cells: Cells, a: usize, b: usize)
    requires
        cells.wf(),
        a < cells.cells@.len(),
        b < cells.cells@.len(),
        cells.cells@[a as int].tail == Some(b),
        cells.cells@[b as int].tail == Some(a),
    ensures
        cells.cells@[cells.cells@[a as int].tail->0 as int].tail == Some(a),
        cells.cells@[cells.cells@[cells.cells@[a as int].tail->0 as int].tail->0 as int].head
            == cells.cells@[a as int].head,
        cells.chain(a).len() <= cells.cells@.len(),
{
    lemma_walk_bounded(cells.cells@, Some(a), cells.cells@.len());
}

impl Cells {
    /// Stores a cell holding `head` followed by the cell `tail`; returns its
    /// index. The tail is shared, not copied.
    pub fn cons(&mut self, head: Value, tail: usize) -> (r: usize)
        requires
            old(self).wf(),
            tail < old(self).cells@.len(),
        ensures
            final(self).wf(),
            r == old(self).cells@.len(),
            final(self).cells@ == old(self).cells@.push(
                Cell { head: Some(head), tail: Some(tail), quoted: false },
            ),
    {
        self.insert(Cell { head: Some(head), tail: Some(tail), quoted: false })
    }

    /// The last cell of the list starting at `id`, if the list ends.
    fn last(&self, id: usize) -> (r: Option<usize>)
        ensures
            r == last_from(self.cells@, id, self.cells@.len()),
    {
        let n = self.cells.len();
        let mut cur: usize = id;
        let mut fuel: usize = n;
        while fuel > 0 && cur < n
            invariant
                n == self.cells@.len(),
                fuel <= n,
                last_from(self.cells@, id, n as nat) == last_from(self.cells@, cur, fuel as nat),
            decreases fuel,
        {
            match self.cells[cur].tail {
                None => {
                    return Some(cur);
                },
                Some(t) => {
                    cur = t;
                },
            }
            fuel = fuel - 1;
        }
        None
    }

    /// Appends `value` to the list starting at `id`: a nil first cell takes
    /// it as its head; otherwise a new cell holding it follows the last
    /// cell. A ring has no last cell: nothing changes and the result is
    /// false.
    pub fn push_value(&mut self, id: usize, value: Value) -> (r: bool)
        requires
            old(self).wf(),
            id < old(self).cells@.len(),
        ensures
            final(self).wf(),
            old(self).cells@[id as int].head is None && old(self).cells@[id as int].tail is None
                ==> r && final(self).cells@ == old(self).cells@.update(
                id as int,
                Cell { head: Some(value), tail: None, quoted: is_quoted(value@) },
            ),
            !(old(self).cells@[id as int].head is None && old(self).cells@[id as int].tail is None)
                ==> match last_from(old(self).cells@, id, old(self).cells@.len()) {
                Some(l) => r && final(self).cells@.len() == old(self).cells@.len() + 1
                    && final(self).cells@[old(self).cells@.len() as int] == Cell::new_spec(value)
                    && final(self).cells@[l as int].tail == Some(old(self).cells@.len() as usize)
                    && head_seq(final(self).cells@[l as int]) == head_seq(old(self).cells@[l as int])
                    && forall|i: int|
                    0 <= i < old(self).cells@.len() && i != l ==> final(self).cells@[i] == old(
                        self,
                    ).cells@[i],
                None => !r && final(self).cells@ == old(self).cells@,
            },
    {
        if self.cells[id].head.is_none() && self.cells[id].tail.is_none() {
            let quoted = value.is_quoted();
            self.cells.set(id, Cell { head: Some(value), tail: None, quoted });
            return true;
        }
        match self.last(id) {
            Some(l) => {
                proof {
                    lemma_last_from_bounds(self.cells@, id, self.cells@.len() as nat);
                }
                let fresh = self.insert(Cell::new(value));
                self.set_tail(l, Some(fresh));
                true
            },
            None => false,
        }
    }

    /// Grafts the list starting at `other` onto the list starting at `id`.
    /// A nil `other` changes nothing. A nil first cell takes the head and
    /// tail of `other`; otherwise the last cell of `id` is linked to
    /// `other`, which is then shared. A ring has no last cell: nothing
    /// changes and the result is false.
    pub fn add(&mut self, id: usize, other: usize) -> (r: bool)
        requires
            old(self).wf(),
            id < old(self).cells@.len(),
            other < old(self).cells@.len(),
        ensures
            final(self).wf(),
            final(self).cells@.len() == old(self).cells@.len(),
            old(self).cells@[other as int].head is None && old(self).cells@[other as int].tail is None
                ==> r && final(self).cells@ == old(self).cells@,
            !(old(self).cells@[other as int].head is None && old(self).cells@[other as int].tail
                is None) && (old(self).cells@[id as int].head is None && old(self).cells@[id as int].tail
                is None) ==> r && head_seq(final(self).cells@[id as int]) == head_seq(
                old(self).cells@[other as int],
            ) && final(self).cells@[id as int].tail == old(self).cells@[other as int].tail && final(self).cells@[id as int].quoted
                == old(self).cells@[other as int].quoted && forall|i: int|
                0 <= i < old(self).cells@.len() && i != id ==> final(self).cells@[i] == old(
                    self,
                ).cells@[i],
            !(old(self).cells@[other as int].head is None && old(self).cells@[other as int].tail
                is None) && !(old(self).cells@[id as int].head is None && old(self).cells@[id as int].tail
                is None) ==> match last_from(old(self).cells@, id, old(self).cells@.len()) {
                Some(l) => r && final(self).cells@[l as int].tail == Some(other) && head_seq(
                    final(self).cells@[l as int],
                ) == head_seq(old(self).cells@[l as int]) && final(self).cells@[l as int].quoted
                    == old(self).cells@[l as int].quoted && forall|i: int|
                    0 <= i < old(self).cells@.len() && i != l ==> final(self).cells@[i] == old(
                        self,
                    ).cells@[i],
                None => !r && final(self).cells@ == old(self).cells@,
            },
    {
        if self.cells[other].head.is_none() && self.cells[other].tail.is_none() {
            return true;
        }
        if self.cells[id].head.is_none() && self.cells[id].tail.is_none() {
            let head = match &self.cells[other].head {
                Some(v) => Some(v.copy()),
                None => None,
            };
            let tail = self.cells[other].tail;
            let quoted = self.cells[other].quoted;
            self.cells.set(id, Cell { head, tail, quoted });
            return true;
        }
        match self.last(id) {
            Some(l) => {
                proof {
                    lemma_last_from_bounds(self.cells@, id, self.cells@.len() as nat);
                }
                self.set_tail(l, Some(other));
                true
            },
            None => false,
        }
    }

    /// Drops the tail of cell `id` if it has one, else its head; false when
    /// it has neither.
    pub fn pop(&mut self, id: usize) -> (r: bool)
        requires
            old(self).wf(),
            id < old(self).cells@.len(),
        ensures
            final(self).wf(),
            final(self).cells@.len() == old(self).cells@.len(),
            r == !(old(self).cells@[id as int].head is None && old(self).cells@[id as int].tail is None),
            old(self).cells@[id as int].tail is Some ==> final(self).cells@[id as int].tail is None
                && head_seq(final(self).cells@[id as int]) == head_seq(old(self).cells@[id as int]),
            old(self).cells@[id as int].tail is None ==> final(self).cells@[id as int].head is None
                && final(self).cells@[id as int].tail is None,
            forall|i: int| 0 <= i < old(self).cells@.len() && i != id ==> final(self).cells@[i] == old(
                self,
            ).cells@[i],
    {
        if self.cells[id].tail.is_some() {
            self.set_tail(id, None);
            true
        } else if self.cells[id].head.is_some() {
            let quoted = self.cells[id].quoted;
            self.cells.set(id, Cell { head: None, tail: None, quoted });
            true
        } else {
            false
        }
    }
}

impl Cell {
    pub open spec fn new_spec(item: Value) -> Cell {
        Cell { head: Some(item), tail: None, quoted: is_quoted(item@) }
    }
}

} // verus!
