//! Call-site records carried by errors.
use vstd::prelude::*;
use crate::error::push_str;
use crate::render::{decimal, push_all, write_decimal};
use crate::text::string_of;

verus! {

/// A call site: function name, source name and line.
#[derive(Debug, PartialEq, Eq)]
pub struct Caller(pub String, pub String, pub u32);

impl Caller {
    pub fn new(function_name: String, file: String, line: u32) -> (r: Caller)
        ensures
            r.0@ == function_name@,
            r.1@ == file@,
            r.2 == line,
    {
        Caller(function_name, file, line)
    }

    pub fn function_name(&self) -> (r: String)
        ensures
            r@ == self.0@,
    {
        self.0.clone()
    }

    pub fn file(&self) -> (r: String)
        ensures
            r@ == self.1@,
    {
        self.1.clone()
    }

    pub fn line(&self) -> (r: u32)
        ensures
            r == self.2,
    {
        self.2
    }
}


/// The display of a call site: name, ` @ `, file and line, in colour.
pub open spec fn caller_text(c: Caller) -> Seq<char> {
    "    \x1b[1;38;5;79m"@ + c.0@ + "\x1b[1;38;5;235m @ \x1b[1;38;5;159m"@ + c.1@ + ":"@
        + decimal(c.2 as nat) + "\x1b[0m"@
}

/// `unit` written `k` times.
pub open spec fn repeat(unit: Seq<char>, k: nat) -> Seq<char>
    decreases k,
{
    if k == 0 {
        Seq::empty()
    } else {
        repeat(unit, (k - 1) as nat) + unit
    }
}

/// The trace of `callers`, one per line, the one at place `i` indented by
/// `i` times `indent` spaces.
pub open spec fn trace_text(callers: Seq<Caller>, indent: nat) -> Seq<char>
    decreases callers.len(),
{
    if callers.len() == 0 {
        Seq::empty()
    } else {
        let last = repeat(Seq::new(indent, |_i: int| ' '), (callers.len() - 1) as nat) + caller_text(
            callers.last(),
        );
        if callers.len() == 1 {
            last
        } else {
            trace_text(callers.drop_last(), indent) + seq!['\n'] + last
        }
    }
}

impl Caller {
    /// Writes the display of this call site at the end of `out`.
    pub fn write_to(&self, out: &mut Vec<char>)
        ensures
            final(out)@ == old(out)@ + caller_text(*self),
    {
        push_str(out, "    \x1b[1;38;5;79m");
        push_all(out, &self.0);
        push_str(out, "\x1b[1;38;5;235m @ \x1b[1;38;5;159m");
        push_all(out, &self.1);
        push_str(out, ":");
        write_decimal(self.2 as u64, out);
        push_str(out, "\x1b[0m");
        assert(final(out)@ =~= old(out)@ + caller_text(*self));
    }

    /// The display of this call site.
    pub fn to_string(&self) -> (r: String)
        ensures
            r@ == caller_text(*self),
    {
        let mut out: Vec<char> = Vec::new();
        self.write_to(&mut out);
        assert(out@ =~= caller_text(*self));
        string_of(&out)
    }
}

fn push_spaces(out: &mut Vec<char>, indent: usize)
    ensures
        final(out)@ == old(out)@ + Seq::new(indent as nat, |_i: int| ' '),
{
    let mut k: usize = 0;
    while k < indent
        invariant
            k <= indent,
            out@ == old(out)@ + Seq::new(k as nat, |_i: int| ' '),
        decreases indent - k,
    {
        out.push(' ');
        k = k + 1;
        assert(out@ =~= old(out)@ + Seq::new(k as nat, |_i: int| ' '));
    }
}

/// The trace of `callers`, one per line, the one at place `i` indented by
/// `i` times `indent` spaces.
pub fn callers_to_string(callers: &Vec<Caller>, indent: usize) -> (r: String)
    ensures
        r@ == trace_text(callers@, indent as nat),
{
    let ghost unit = Seq::new(indent as nat, |_i: int| ' ');
    let mut out: Vec<char> = Vec::new();
    let mut i: usize = 0;
    assert(callers@.subrange(0, 0) =~= Seq::<Caller>::empty());
    while i < callers.len()
        invariant
            i <= callers@.len(),
            unit == Seq::new(indent as nat, |_i: int| ' '),
            out@ == trace_text(callers@.subrange(0, i as int), indent as nat),
        decreases callers.len() - i,
    {
        let ghost before = out@;
        if i > 0 {
            out.push('\n');
        }
        let mut j: usize = 0;
        let ghost start = out@;
        while j < i
            invariant
                j <= i,
                out@ == start + repeat(unit, j as nat),
                unit == Seq::new(indent as nat, |_i: int| ' '),
            decreases i - j,
        {
            push_spaces(&mut out, indent);
            j = j + 1;
            assert(out@ =~= start + repeat(unit, j as nat));
        }
        callers[i].write_to(&mut out);
        proof {
            let pre = callers@.subrange(0, i as int);
            let post = callers@.subrange(0, i + 1);
            assert(post.drop_last() =~= pre);
            assert(post.last() == callers@[i as int]);
            if i == 0 {
                assert(repeat(unit, 0) =~= Seq::<char>::empty());
                assert(out@ =~= trace_text(post, indent as nat));
            } else {
                assert(out@ =~= trace_text(post, indent as nat));
            }
        }
        i = i + 1;
    }
    assert(callers@.subrange(0, callers@.len() as int) =~= callers@);
    string_of(&out)
}

} // verus!
