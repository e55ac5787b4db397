//! Palette: an ordered, never-empty list of reference colors, read from a
//! plain-text source of hex triplets and defaulted when nothing parses.

use vstd::prelude::*;
use crate::color::Color;

verus! {

/// True of the ASCII code of a hexadecimal digit, either case.
pub open spec fn is_hex_digit(b: u8) -> bool {
    (48 <= b <= 57) || (97 <= b <= 102) || (65 <= b <= 70)
}

/// Numeric value of a hexadecimal digit given by its ASCII code.
pub open spec fn hex_val(b: u8) -> int
    recommends
        is_hex_digit(b),
{
    if 48 <= b <= 57 {
        b - 48
    } else if 97 <= b <= 102 {
        b - 87
    } else {
        b - 55
    }
}

/// A valid palette line: exactly six bytes, every single one a hex digit.
pub open spec fn line_valid(line: Seq<u8>) -> bool {
    line.len() == 6 && forall|j: int| 0 <= j < 6 ==> is_hex_digit(#[trigger] line[j])
}

/// The color a valid line denotes: two hex digits per channel, red first,
/// then green, then blue.
pub open spec fn color_of_line(line: Seq<u8>) -> Color
    recommends
        line_valid(line),
{
    Color {
        r: (16 * hex_val(line[0]) + hex_val(line[1])) as u8,
        g: (16 * hex_val(line[2]) + hex_val(line[3])) as u8,
        b: (16 * hex_val(line[4]) + hex_val(line[5])) as u8,
    }
}

/// Position of the first line feed at or after `p`, or the end of the text.
pub open spec fn line_end(s: Seq<u8>, p: int) -> int
    decreases s.len() - p when 0 <= p <= s.len()
{
    if p >= s.len() {
        s.len() as int
    } else if s[p] == 10 {
        p
    } else {
        line_end(s, p + 1)
    }
}

/// The line running from `p` up to the next line feed, with one trailing
/// carriage return stripped, as line-based text readers deliver it.
pub open spec fn line_at(s: Seq<u8>, p: int) -> Seq<u8> {
    let raw = s.subrange(p, line_end(s, p));
    if raw.len() > 0 && raw[raw.len() - 1] == 13 {
        raw.drop_last()
    } else {
        raw
    }
}

/// `line_end` never moves backwards and never passes the end of the text.
pub proof fn lemma_line_end_bounds(s: Seq<u8>, p: int)
    requires
        0 <= p <= s.len(),
    ensures
        p <= line_end(s, p) <= s.len(),
    decreases s.len() - p,
{
    if p < s.len() && s[p] != 10 {
        lemma_line_end_bounds(s, p + 1);
    }
}

/// The colors of all valid lines from position `p` to the end, in file order.
pub open spec fn parse_from(s: Seq<u8>, p: int) -> Seq<Color>
    decreases s.len() - p when 0 <= p <= s.len() via parse_from_decreases
{
    if p >= s.len() {
        Seq::empty()
    } else {
        let e = line_end(s, p);
        let head: Seq<Color> = if line_valid(line_at(s, p)) {
            seq![color_of_line(line_at(s, p))]
        } else {
            Seq::empty()
        };
        let rest: Seq<Color> = if e + 1 <= s.len() {
            parse_from(s, e + 1)
        } else {
            Seq::empty()
        };
        head + rest
    }
}

#[via_fn]
proof fn parse_from_decreases(s: Seq<u8>, p: int) {
    lemma_line_end_bounds(s, p);
}

/// The colors of all valid lines of a palette text, in file order.
pub open spec fn parse_palette(s: Seq<u8>) -> Seq<Color> {
    parse_from(s, 0)
}

/// The built-in fallback palette: near-black and white.
pub open spec fn default_palette() -> Seq<Color> {
    seq![Color { r: 3, g: 3, b: 3 }, Color { r: 255, g: 255, b: 255 }]
}

/// An ordered, non-empty list of reference colors.
pub struct Palette {
    pub colors: Vec<Color>,
}

impl View for Palette {
    type V = Seq<Color>;

    open spec fn view(&self) -> Seq<Color> {
        self.colors@
    }
}

impl Palette {
    /// The palette invariant: never empty once built.
    pub open spec fn wf(&self) -> bool {
        self.colors@.len() >= 1
    }
}

/// `line_end` lands exactly on the first line feed, or on the end of the
/// text when no line feed remains.
proof fn lemma_line_end_is(s: Seq<u8>, p: int, e: int)
    requires
        0 <= p <= e <= s.len(),
        forall|k: int| p <= k < e ==> #[trigger] s[k] != 10,
        e == s.len() || s[e] == 10,
    ensures
        line_end(s, p) == e,
    decreases e - p,
{
    if p < e {
        lemma_line_end_is(s, p + 1, e);
    }
}

/// Decodes one hexadecimal digit from its ASCII code.
fn hex_digit_val(b: u8) -> (v: u8)
    requires
        is_hex_digit(b),
    ensures
        v == hex_val(b),
        v < 16,
{
    if b >= 97 {
        b - 87
    } else if b >= 65 {
        b - 55
    } else {
        b - 48
    }
}

/// Tests whether a byte is an ASCII hexadecimal digit.
fn is_hex_digit_exec(b: u8) -> (r: bool)
    ensures
        r == is_hex_digit(b),
{
    (48 <= b && b <= 57) || (97 <= b && b <= 102) || (65 <= b && b <= 70)
}

/// Reads the line `source[start..end]` as a color if it is exactly six hex
/// digits; rejects it otherwise. Every byte is checked: a line with any
/// non-hex byte among the six is skipped, never patched.
fn parse_hex_line(source: &Vec<u8>, start: usize, end: usize) -> (r: Option<Color>)
    requires
        start <= end <= source@.len(),
    ensures
        line_valid(source@.subrange(start as int, end as int)) ==> r == Some(
            color_of_line(source@.subrange(start as int, end as int)),
        ),
        !line_valid(source@.subrange(start as int, end as int)) ==> r is None,
{
    let ghost line = source@.subrange(start as int, end as int);
    if end - start != 6 {
        return None;
    }
    let mut j: usize = 0;
    while j < 6
        invariant
            0 <= j <= 6,
            start + 6 == end <= source@.len(),
            line == source@.subrange(start as int, end as int),
            forall|k: int| 0 <= k < j ==> is_hex_digit(#[trigger] line[k]),
        decreases 6 - j,
    {
        if !is_hex_digit_exec(source[start + j]) {
            proof {
                assert(line[j as int] == source@[start + j as int]);
            }
            return None;
        }
        j = j + 1;
    }
    proof {
        assert(line_valid(line));
        assert(line[0] == source@[start as int]);
        assert(line[1] == source@[start + 1int]);
        assert(line[2] == source@[start + 2int]);
        assert(line[3] == source@[start + 3int]);
        assert(line[4] == source@[start + 4int]);
        assert(line[5] == source@[start + 5int]);
    }
    let r: u8 = 16 * hex_digit_val(source[start]) + hex_digit_val(source[start + 1]);
    let g: u8 = 16 * hex_digit_val(source[start + 2]) + hex_digit_val(source[start + 3]);
    let b: u8 = 16 * hex_digit_val(source[start + 4]) + hex_digit_val(source[start + 5]);
    Some(Color { r, g, b })
}

/// Builds the color palette from the raw bytes of a palette text.
///
/// Each line of exactly six hexadecimal digits (no prefix, no punctuation)
/// contributes one color in file order; every other line is skipped
/// silently. When not a single line qualifies, the built-in default palette
/// is substituted and the second result is true, so the caller can show a
/// notice.
pub fn setup_palette(source: &Vec<u8>) -> (r: (Palette, bool))
    ensures
        r.0.wf(),
        parse_palette(source@).len() > 0 ==> r.0@ == parse_palette(source@) && !r.1,
        parse_palette(source@).len() == 0 ==> r.0@ == default_palette() && r.1,
{
    let n = source.len();
    let mut colors: Vec<Color> = Vec::new();
    let mut p: usize = 0;
    while p < n
        invariant
            0 <= p <= n,
            n == source@.len(),
            parse_palette(source@) == colors@ + parse_from(source@, p as int),
        decreases n - p,
    {
        let mut e: usize = p;
        while e < n && source[e] != 10
            invariant
                p <= e <= n,
                n == source@.len(),
                forall|k: int| p <= k < e ==> #[trigger] source@[k] != 10,
            decreases n - e,
        {
            e = e + 1;
        }
        proof {
            lemma_line_end_is(source@, p as int, e as int);
        }
        let mut stripped: usize = e;
        if stripped > p && source[stripped - 1] == 13 {
            stripped = stripped - 1;
        }
        proof {
            let raw = source@.subrange(p as int, e as int);
            if raw.len() > 0 && raw[raw.len() - 1] == 13 {
                assert(raw.drop_last() =~= source@.subrange(p as int, e - 1));
            }
            assert(line_at(source@, p as int) == source@.subrange(p as int, stripped as int));
        }
        let parsed = parse_hex_line(source, p, stripped);
        let ghost colors_before = colors@;
        match parsed {
            Some(c) => {
                colors.push(c);
            },
            None => {},
        }
        proof {
            let head: Seq<Color> = if line_valid(line_at(source@, p as int)) {
                seq![color_of_line(line_at(source@, p as int))]
            } else {
                Seq::empty()
            };
            assert(colors@ =~= colors_before + head);
            let rest: Seq<Color> = if e + 1 <= n {
                parse_from(source@, e + 1)
            } else {
                Seq::empty()
            };
            assert(parse_from(source@, p as int) == head + rest);
            assert(colors_before + (head + rest) =~= (colors_before + head) + rest);
        }
        if e < n {
            p = e + 1;
        } else {
            p = n;
            proof {
                assert(colors@ + Seq::<Color>::empty() =~= colors@);
            }
        }
    }
    proof {
        assert(colors@ + parse_from(source@, n as int) =~= colors@);
    }
    if colors.len() == 0 {
        let mut defaults: Vec<Color> = Vec::new();
        defaults.push(Color { r: 3, g: 3, b: 3 });
        defaults.push(Color { r: 255, g: 255, b: 255 });
        proof {
            assert(defaults@ =~= default_palette());
        }
        (Palette { colors: defaults }, true)
    } else {
        (Palette { colors }, false)
    }
}

} // verus!
