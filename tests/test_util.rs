use sexprs::caller::Caller;
use sexprs::color;
use sexprs::source::{stub_input, stub_span_info, Source, SpanPosition};

#[test]
fn colours() {
    assert_eq!(color::wrap(256), 1);
    assert_eq!(color::wrap(255), 0);
    assert_eq!(color::wrap(0), 0);
    assert_eq!(color::invert_bw(0), 231);
    assert_eq!(color::invert_bw(17), 231);
    assert_eq!(color::invert_bw(21), 16);
    assert_eq!(color::invert_bw(235), 231);
    assert_eq!(color::couple(300), (45, 16));
    assert_eq!(color::fg("x", 1), "\x1b[1;38;5;1mx");
    assert_eq!(color::bg("x", 300), "\x1b[1;48;5;45mx");
    assert_eq!(color::reset("x"), "x\x1b[0m");
    assert_eq!(color::bgfg("t", 2, 3), "\x1b[1;48;5;3m\x1b[1;38;5;2mt");
    assert_eq!(color::ansi("t", 2, 3), "\x1b[1;48;5;3m\x1b[1;38;5;2mt\x1b[0m");
    assert_eq!(color::fore("t", 0), "\x1b[1;48;5;231m\x1b[1;38;5;0mt\x1b[0m");
    assert_eq!(color::back("t", 0), "\x1b[1;48;5;0m\x1b[1;38;5;231mt\x1b[0m");
    assert_eq!(color::ansi_clear(), "\x1b[2J\x1b[3J\x1b[H");
    assert_eq!(color::rgb_from_bytes(b"abcd"), [b'd', b'b', b'c']);
    assert_eq!(color::rgb_from_string("ab"), [b'a', b'b', 0]);
    assert_eq!(color::from_string("abc"), b'a' ^ b'b' ^ b'c');
}

#[test]
fn spans_and_sources() {
    let (text, span) = stub_input("abc");
    assert_eq!(text, "abc");
    assert_eq!(span.start_pos(), (1, 1));
    assert_eq!(span.end_pos(), (1, 4));
    assert_eq!(span.input(), "abc");
    assert_eq!(span.filename(), None);
    assert!(span.inner().is_empty());
    let other = span.with_input("xyz");
    assert_eq!(other.input(), "xyz");
    assert_eq!(other.end_pos(), (1, 4));
    assert_eq!(span.info().input(), "abc");
    let s = stub_span_info("q", (2, 3), (4, 5));
    assert_eq!(s.start_pos(), (2, 3));
    let source = Source::new("code", Some("file.lisp"));
    assert_eq!(source.filename(), Some("file.lisp".to_string()));
    assert_eq!(Source::without_filename("code").filename(), None);
    assert_eq!(SpanPosition::from_tuple((7, 8)).to_tuple(), (7, 8));
}

#[test]
fn callers() {
    let c = Caller::new("f".to_string(), "g.rs".to_string(), 3);
    assert_eq!(c.function_name(), "f");
    assert_eq!(c.file(), "g.rs");
    assert_eq!(c.line(), 3);
}

#[test]
fn trace_lines_are_indented_by_depth() {
    let callers = vec![
        Caller::new("f".to_string(), "a".to_string(), 1),
        Caller::new("g".to_string(), "b".to_string(), 22),
    ];
    let text = sexprs::caller::callers_to_string(&callers, 2);
    assert_eq!(
        text,
        "    \x1b[1;38;5;79mf\x1b[1;38;5;235m @ \x1b[1;38;5;159ma:1\x1b[0m\n  \
         \x20   \x1b[1;38;5;79mg\x1b[1;38;5;235m @ \x1b[1;38;5;159mb:22\x1b[0m"
    );
    assert_eq!(callers[0].to_string(), "    \x1b[1;38;5;79mf\x1b[1;38;5;235m @ \x1b[1;38;5;159ma:1\x1b[0m");
}
