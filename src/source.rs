//! Source text, positions and spans, used to place parse errors.
use vstd::prelude::*;
use vstd::string::{StringExecFns, StringSliceAdditionalSpecFns};

verus! {

broadcast use vstd::std_specs::vec::group_vec_axioms, vstd::seq::group_seq_axioms;

/// A source text and the name of the file it came from, if any.
#[derive(Debug, PartialEq, Eq)]
pub struct Source {
    pub source: String,
    pub filename: Option<String>,
}

/// The characters of an optional string.
pub open spec fn opt_text(o: Option<String>) -> Option<Seq<char>> {
    match o {
        Some(s) => Some(s@),
        None => None,
    }
}

fn copy_opt(o: &Option<String>) -> (r: Option<String>)
    ensures
        opt_text(r) == opt_text(*o),
{
    match o {
        Some(s) => Some(s.clone()),
        None => None,
    }
}

impl Source {
    pub fn new(source: &str, filename: Option<&str>) -> (r: Source)
        ensures
            r.source@ == source@,
            opt_text(r.filename) == match filename {
                Some(f) => Some(f@),
                None => None,
            },
    {
        let filename = match filename {
            Some(f) => Some(String::from_str(f)),
            None => None,
        };
        Source { source: String::from_str(source), filename }
    }

    pub fn without_filename(source: &str) -> (r: Source)
        ensures
            r.source@ == source@,
            r.filename is None,
    {
        Source { source: String::from_str(source), filename: None }
    }

    pub fn filename(&self) -> (r: Option<String>)
        ensures
            opt_text(r) == opt_text(self.filename),
    {
        copy_opt(&self.filename)
    }

    pub fn copy(&self) -> (r: Source)
        ensures
            r.source@ == self.source@,
            opt_text(r.filename) == opt_text(self.filename),
    {
        Source { source: self.source.clone(), filename: copy_opt(&self.filename) }
    }
}

/// A line and a column, both counted from one.
#[derive(Clone, Copy, Debug, PartialEq, Eq, Structural)]
pub struct SpanPosition {
    pub line: usize,
    pub column: usize,
}

impl SpanPosition {
    pub fn from_tuple(line_col: (usize, usize)) -> (r: SpanPosition)
        ensures
            r.line == line_col.0,
            r.column == line_col.1,
    {
        let (line, column) = line_col;
        SpanPosition { line, column }
    }

    pub fn to_tuple(&self) -> (r: (usize, usize))
        ensures
            r == (self.line, self.column),
    {
        (self.line, self.column)
    }
}

/// A stretch of source text: the text itself, an optional rule name, where
/// it starts and ends, the source it belongs to, and the spans inside it.
#[derive(Debug, PartialEq, Eq)]
pub struct Span {
    pub input: String,
    pub name: Option<String>,
    pub start_pos: SpanPosition,
    pub end_pos: SpanPosition,
    pub source: Source,
    pub inner: Option<Vec<Span>>,
}

/// Two spans that hold the same text, name, positions and source, and
/// the same inner spans, one for one.
pub open spec fn span_same(a: Span, b: Span) -> bool
    decreases a,
{
    &&& a.input@ == b.input@
    &&& opt_text(a.name) == opt_text(b.name)
    &&& a.start_pos == b.start_pos
    &&& a.end_pos == b.end_pos
    &&& a.source.source@ == b.source.source@
    &&& opt_text(a.source.filename) == opt_text(b.source.filename)
    &&& match (a.inner, b.inner) {
        (None, None) => true,
        (Some(x), Some(y)) => x@.len() == y@.len() && forall|i: int|
            0 <= i < x@.len() ==> span_same(#[trigger] x@[i], y@[i]),
        _ => false,
    }
}

/// The number of spans directly inside a span.
pub open spec fn inner_len(o: Option<Vec<Span>>) -> nat {
    match o {
        Some(v) => v@.len(),
        None => 0,
    }
}

impl Span {
    pub fn input(&self) -> (r: &str)
        ensures
            r@ == self.input@,
    {
        self.input.as_str()
    }

    /// Copies of the spans directly inside this one.
    pub fn inner(&self) -> (r: Vec<Span>)
        ensures
            r@.len() == inner_len(self.inner),
            self.inner matches Some(v) ==> forall|i: int|
                0 <= i < v@.len() ==> span_same(#[trigger] r@[i], v@[i]),
    {
        match &self.inner {
            Some(spans) => copy_spans(spans),
            None => Vec::new(),
        }
    }

    pub fn filename(&self) -> (r: Option<String>)
        ensures
            opt_text(r) == opt_text(self.source.filename),
    {
        self.source.filename()
    }

    /// This span with its text replaced by `input`.
    pub fn with_input(&self, input: &str) -> (r: Span)
        ensures
            r.input@ == input@,
            r.start_pos == self.start_pos,
            r.end_pos == self.end_pos,
            r.source.source@ == self.source.source@,
            inner_len(r.inner) == inner_len(self.inner),
            span_same(r, Span { input: r.input, ..*self }),
    {
        let mut info = self.copy();
        info.input = String::from_str(input);
        info
    }

    /// A copy of this span.
    pub fn info(&self) -> (r: Span)
        ensures
            r.input@ == self.input@,
            r.start_pos == self.start_pos,
            r.end_pos == self.end_pos,
            r.source.source@ == self.source.source@,
            inner_len(r.inner) == inner_len(self.inner),
            span_same(r, *self),
    {
        self.copy()
    }

    pub fn start_pos(&self) -> (r: (usize, usize))
        ensures
            r == (self.start_pos.line, self.start_pos.column),
    {
        self.start_pos.to_tuple()
    }

    pub fn end_pos(&self) -> (r: (usize, usize))
        ensures
            r == (self.end_pos.line, self.end_pos.column),
    {
        self.end_pos.to_tuple()
    }

    pub fn copy(&self) -> (r: Span)
        ensures
            r.input@ == self.input@,
            opt_text(r.name) == opt_text(self.name),
            r.start_pos == self.start_pos,
            r.end_pos == self.end_pos,
            r.source.source@ == self.source.source@,
            opt_text(r.source.filename) == opt_text(self.source.filename),
            inner_len(r.inner) == inner_len(self.inner),
            span_same(r, *self),
        decreases self,
    {
        let inner = match &self.inner {
            Some(spans) => Some(copy_spans(spans)),
            None => None,
        };
        Span {
            input: self.input.clone(),
            name: copy_opt(&self.name),
            start_pos: self.start_pos,
            end_pos: self.end_pos,
            source: self.source.copy(),
            inner,
        }
    }
}

fn copy_spans(spans: &Vec<Span>) -> (r: Vec<Span>)
    ensures
        r@.len() == spans@.len(),
        forall|i: int| 0 <= i < spans@.len() ==> span_same(#[trigger] r@[i], spans@[i]),
    decreases spans,
{
    let mut out: Vec<Span> = Vec::new();
    let mut i: usize = 0;
    while i < spans.len()
        invariant
            i <= spans.len(),
            out@.len() == i,
            forall|j: int| 0 <= j < i ==> span_same(#[trigger] out@[j], spans@[j]),
        decreases spans.len() - i,
    {
        out.push(spans[i].copy());
        i = i + 1;
    }
    out
}

/// A span over the whole of `input`, from `start_pos` to `end_pos`, with no
/// file name, rule name or inner spans.
pub fn stub_span_info(input: &str, start_pos: (usize, usize), end_pos: (usize, usize)) -> (r: Span)
    ensures
        r.input@ == input@,
        r.source.source@ == input@,
        r.source.filename is None,
        r.name is None,
        r.inner is None,
        (r.start_pos.line, r.start_pos.column) == start_pos,
        (r.end_pos.line, r.end_pos.column) == end_pos,
{
    Span {
        source: Source { source: String::from_str(input), filename: None },
        name: None,
        input: String::from_str(input),
        start_pos: SpanPosition::from_tuple(start_pos),
        end_pos: SpanPosition::from_tuple(end_pos),
        inner: None,
    }
}

/// `input` as a string, with a one-line span over it that ends one column
/// past its last byte.
pub fn stub_input(input: &str) -> (r: (String, Span))
    requires
        input.spec_bytes().len() < usize::MAX,
    ensures
        r.0@ == input@,
        r.1.input@ == input@,
        r.1.start_pos.line == 1 && r.1.start_pos.column == 1,
        r.1.end_pos.line == 1 && r.1.end_pos.column == input.spec_bytes().len() + 1,
{
    let n = input.len();
    let span_info = stub_span_info(input, (1, 1), (1, n + 1));
    (String::from_str(input), span_info)
}

} // verus!
