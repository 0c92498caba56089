//! ANSI terminal colours for error and trace display.
use vstd::prelude::*;
use crate::error::push_str;
use vstd::string::StringSliceAdditionalSpecFns;
use crate::render::{decimal, write_decimal};
use crate::text::string_of;

verus! {

broadcast use vstd::std_specs::vec::group_vec_axioms, vstd::seq::group_seq_axioms;

/// A colour number taken into the 256-colour palette.
pub open spec fn wrapped(color: usize) -> u8 {
    (color % 255) as u8
}

/// The contrasting colour for `color`: white on the dark ones, black on
/// the others.
pub open spec fn inverted(color: u8) -> u8 {
    if color == 0 || color == 8 || (16 <= color < 21) || (52 <= color < 61) || (88 <= color < 93)
        || (232 <= color < 239) {
        231
    } else {
        16
    }
}

pub open spec fn fg_text(text: Seq<char>, fg: usize) -> Seq<char> {
    "\x1b[1;38;5;"@ + decimal(wrapped(fg) as nat) + "m"@ + text
}

pub open spec fn bg_text(text: Seq<char>, bg: usize) -> Seq<char> {
    "\x1b[1;48;5;"@ + decimal(wrapped(bg) as nat) + "m"@ + text
}

pub open spec fn reset_text(text: Seq<char>) -> Seq<char> {
    text + "\x1b[0m"@
}

/// The last byte of `b` at each position modulo three, zero where none.
pub open spec fn rgb_of(b: Seq<u8>) -> Seq<u8>
    decreases b.len(),
{
    if b.len() == 0 {
        seq![0u8, 0u8, 0u8]
    } else {
        rgb_of(b.drop_last()).update((b.len() - 1) % 3, b.last())
    }
}

pub proof fn lemma_rgb_len(b: Seq<u8>)
    ensures
        rgb_of(b).len() == 3,
    decreases b.len(),
{
    if b.len() > 0 {
        lemma_rgb_len(b.drop_last());
    }
}

pub fn wrap(color: usize) -> (r: u8)
    ensures
        r == wrapped(color),
{
    (if color > 0 {
        color % 255
    } else {
        color
    }) as u8
}

pub fn invert_bw(color: u8) -> (r: u8)
    ensures
        r == inverted(color),
{
    if color == 0 || color == 8 || (16 <= color && color < 21) || (52 <= color && color < 61) || (88
        <= color && color < 93) || (232 <= color && color < 239) {
        231
    } else {
        16
    }
}

/// A colour and its contrasting colour.
pub fn couple(color: usize) -> (r: (u8, u8))
    ensures
        r == (wrapped(color), inverted(wrapped(color))),
{
    let fore = wrap(color);
    let back = invert_bw(fore);
    (fore, back)
}

fn push_text(out: &mut Vec<char>, text: &str)
    ensures
        final(out)@ == old(out)@ + text@,
{
    push_str(out, text);
}

/// `text` in foreground colour `fg`.
pub fn fg(text: &str, color: usize) -> (r: String)
    ensures
        r@ == fg_text(text@, color),
{
    let mut out: Vec<char> = Vec::new();
    push_str(&mut out, "\x1b[1;38;5;");
    write_decimal(wrap(color) as u64, &mut out);
    push_str(&mut out, "m");
    push_text(&mut out, text);
    assert(out@ =~= fg_text(text@, color));
    string_of(&out)
}

/// `text` on background colour `bg`.
pub fn bg(text: &str, color: usize) -> (r: String)
    ensures
        r@ == bg_text(text@, color),
{
    let mut out: Vec<char> = Vec::new();
    push_str(&mut out, "\x1b[1;48;5;");
    write_decimal(wrap(color) as u64, &mut out);
    push_str(&mut out, "m");
    push_text(&mut out, text);
    assert(out@ =~= bg_text(text@, color));
    string_of(&out)
}

/// `text` followed by the code that resets all attributes.
pub fn reset(text: &str) -> (r: String)
    ensures
        r@ == reset_text(text@),
{
    let mut out: Vec<char> = Vec::new();
    push_text(&mut out, text);
    push_str(&mut out, "\x1b[0m");
    assert(out@ =~= reset_text(text@));
    string_of(&out)
}

/// `text` in foreground colour `fore` on background colour `back`.
pub fn bgfg(text: &str, fore: usize, back: usize) -> (r: String)
    ensures
        r@ == bg_text(fg_text(text@, wrapped(fore) as usize), wrapped(back) as usize),
{
    let inner = fg(text, wrap(fore) as usize);
    bg(inner.as_str(), wrap(back) as usize)
}

/// [`bgfg`], then a reset.
pub fn ansi(text: &str, fore: usize, back: usize) -> (r: String)
    ensures
        r@ == reset_text(bg_text(fg_text(text@, wrapped(fore) as usize), wrapped(back) as usize)),
{
    let coloured = bgfg(text, fore, back);
    reset(coloured.as_str())
}

/// The codes that clear the screen and its scroll-back and move home.
pub fn ansi_clear() -> (r: String)
    ensures
        r@ == "\x1b[2J\x1b[3J\x1b[H"@,
{
    let mut out: Vec<char> = Vec::new();
    push_str(&mut out, "\x1b[2J\x1b[3J\x1b[H");
    assert(out@ =~= "\x1b[2J\x1b[3J\x1b[H"@);
    string_of(&out)
}

/// `text` in colour `fore` on its contrasting colour.
pub fn fore(text: &str, color: usize) -> (r: String)
    ensures
        r@ == reset_text(
            bg_text(
                fg_text(text@, wrapped(color) as usize),
                inverted(wrapped(color)) as usize,
            ),
        ),
{
    let (f, b) = couple(color);
    proof {
        assert(wrapped(f as usize) == f);
        assert(wrapped(b as usize) == b);
    }
    ansi(text, f as usize, b as usize)
}

/// `text` on background colour `back`, in its contrasting colour.
pub fn back(text: &str, color: usize) -> (r: String)
    ensures
        r@ == reset_text(
            bg_text(
                fg_text(text@, inverted(wrapped(color)) as usize),
                wrapped(color) as usize,
            ),
        ),
{
    let (b, f) = couple(color);
    proof {
        assert(wrapped(f as usize) == f);
        assert(wrapped(b as usize) == b);
    }
    ansi(text, f as usize, b as usize)
}

/// Three colour components from `bytes`: component `k` is the last byte
/// whose index is `k` modulo three, zero where there is none.
pub fn rgb_from_bytes(bytes: &[u8]) -> (r: [u8; 3])
    ensures
        r@ == rgb_of(bytes@),
{
    let mut color: [u8; 3] = [0, 0, 0];
    let mut index: usize = 0;
    assert(bytes@.subrange(0, 0) =~= Seq::<u8>::empty());
    assert(color@ =~= rgb_of(Seq::<u8>::empty()));
    while index < bytes.len()
        invariant
            index <= bytes@.len(),
            color@ == rgb_of(bytes@.subrange(0, index as int)),
        decreases bytes@.len() - index,
    {
        proof {
            lemma_rgb_len(bytes@.subrange(0, index as int));
            assert(bytes@.subrange(0, index + 1).drop_last() =~= bytes@.subrange(0, index as int));
        }
        color[index % 3] = bytes[index];
        index = index + 1;
        assert(color@ =~= rgb_of(bytes@.subrange(0, index as int)));
    }
    assert(bytes@.subrange(0, bytes@.len() as int) =~= bytes@);
    color
}

/// [`rgb_from_bytes`] over the UTF-8 bytes of `word`.
pub fn rgb_from_string(word: &str) -> (r: [u8; 3])
    ensures
        r@ == rgb_of(word.spec_bytes()),
{
    rgb_from_bytes(word.as_bytes())
}

/// One colour for `word`: its three components combined by exclusive or.
pub fn from_string(word: &str) -> (r: u8)
    ensures
        r == rgb_of(word.spec_bytes())[0] ^ rgb_of(word.spec_bytes())[1] ^ rgb_of(
            word.spec_bytes(),
        )[2],
{
    let rgb = rgb_from_string(word);
    let red = rgb[0];
    let green = rgb[1];
    let blue = rgb[2];
    red ^ green ^ blue
}

} // verus!
