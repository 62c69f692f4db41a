//! A comment as it arrives: when it is shown, what it says and how it looks.
use vstd::prelude::*;


verus! {

/// How a comment asks to be displayed.
#[derive(Debug, Clone, Copy, PartialEq, Eq, Structural)]
pub enum DanmuType {
    Float,
    Top,
    Bottom,
    Reverse,
}

impl Default for DanmuType {
    fn default() -> (r: Self)
        ensures
            r == DanmuType::Float,
    {
        DanmuType::Float
    }
}

impl DanmuType {
    /// The pool a comment of this type is placed in. Every type shares the
    /// pool of scrolling comments.
    pub open spec fn pool(self) -> DanmuType {
        DanmuType::Float
    }

    /// The pool of this type, as `pool` defines it.
    pub fn placement_pool(self) -> (r: DanmuType)
        ensures
            r == self.pool(),
    {
        match self {
            DanmuType::Float => DanmuType::Float,
            DanmuType::Top => DanmuType::Float,
            DanmuType::Bottom => DanmuType::Float,
            DanmuType::Reverse => DanmuType::Float,
        }
    }
}

/// One comment, without a position on the screen.
#[derive(Debug, PartialEq, Eq)]
pub struct Danmu {
    /// Playback time at which the comment appears, in seconds, as the text
    /// of a floating-point number.
    pub timeline_s: String,
    pub content: String,
    pub kind: DanmuType,
    /// Font size in pixels.
    pub fontsize: u32,
    pub rgb: (u8, u8, u8),
}

/// The mathematical value of a `Danmu`.
pub struct DanmuView {
    pub timeline_s: Seq<char>,
    pub content: Seq<char>,
    pub kind: DanmuType,
    pub fontsize: nat,
    pub rgb: (u8, u8, u8),
}

impl View for Danmu {
    type V = DanmuView;

    open spec fn view(&self) -> DanmuView {
        DanmuView {
            timeline_s: self.timeline_s@,
            content: self.content@,
            kind: self.kind,
            fontsize: self.fontsize as nat,
            rgb: self.rgb,
        }
    }
}

impl Clone for Danmu {
    fn clone(&self) -> (r: Self)
        ensures
            r@ == self@,
    {
        Danmu {
            timeline_s: self.timeline_s.clone(),
            content: self.content.clone(),
            kind: self.kind,
            fontsize: self.fontsize,
            rgb: (self.rgb.0, self.rgb.1, self.rgb.2),
        }
    }
}

impl Default for Danmu {
    fn default() -> (r: Self)
        ensures
            r@ == (DanmuView {
                timeline_s: "0"@,
                content: Seq::<char>::empty(),
                kind: DanmuType::Float,
                fontsize: 0,
                rgb: (0u8, 0u8, 0u8),
            }),
    {
        Danmu {
            timeline_s: "0".to_owned(),
            content: String::new(),
            kind: DanmuType::Float,
            fontsize: 0,
            rgb: (0, 0, 0),
        }
    }
}

/// Width of one character in thirds of the font size: an ASCII character
/// takes two thirds, any other a full width.
pub open spec fn char_units(c: char) -> nat {
    if (c as u32) < 128 {
        2
    } else {
        3
    }
}

/// Width of a text in thirds of the font size.
pub open spec fn text_units(s: Seq<char>) -> nat
    decreases s.len(),
{
    if s.len() == 0 {
        0
    } else {
        text_units(s.drop_last()) + char_units(s.last())
    }
}

/// Width of a text in whole points: its width in thirds of the font size,
/// times the font size, divided by three and rounded down. Its length in
/// pixels is this width times the width ratio of the screen.
pub open spec fn points_of(fontsize: nat, content: Seq<char>) -> nat {
    fontsize * text_units(content) / 3
}

impl DanmuView {
    /// Width of the comment in whole points.
    pub open spec fn points(self) -> nat {
        points_of(self.fontsize, self.content)
    }
}

proof fn lemma_text_units_bound(s: Seq<char>)
    ensures
        text_units(s) <= 3 * s.len(),
    decreases s.len(),
{
    if s.len() > 0 {
        lemma_text_units_bound(s.drop_last());
    }
}

/// A text has at most as many characters as its UTF-8 encoding has bytes.
proof fn lemma_chars_le_bytes(s: Seq<char>)
    ensures
        s.len() <= vstd::utf8::encode_utf8(s).len(),
    decreases s.len(),
{
    if s.len() > 0 {
        lemma_chars_le_bytes(s.drop_first());
    }
}

/// Sum of the widths of the characters of `s`.
fn units_of(s: &str) -> (r: u128)
    ensures
        r == text_units(s@),
        r <= 3 * usize::MAX,
{
    // The byte length bounds the number of characters.
    let bytes: usize = s.as_bytes().len();
    proof {
        lemma_chars_le_bytes(s@);
    }
    if bytes == 0 {
        return 0;
    }
    let mut total: u128 = 0;
    let ghost mut seen: Seq<char> = Seq::empty();
    for c in it: s.chars()
        invariant
            it.seq() == s@,
            s@.len() <= usize::MAX,
            seen == s@.take(it.index() as int),
            total == text_units(seen),
            total <= 3 * it.index(),
            it.index() <= s@.len(),
    {
        proof {
            let next = s@.take(it.index() + 1);
            assert(next.drop_last() =~= seen);
            assert(next.last() == c);
            seen = next;
        }
        let u: u128 = if (c as u32) < 128 {
            2
        } else {
            3
        };
        total = total + u;
    }
    proof {
        assert(s@.take(s@.len() as int) =~= s@);
    }
    total
}

/// Width of a text of the font size `fontsize` in whole points, as
/// `points_of` defines it.
pub fn text_points(fontsize: u32, content: &str) -> (r: u128)
    ensures
        r == points_of(fontsize as nat, content@),
{
    let units: u128 = units_of(content);
    let font: u128 = fontsize as u128;
    assert(font * units <= 0xffff_ffff * (3 * usize::MAX)) by (nonlinear_arith)
        requires
            0 <= font <= 0xffff_ffff,
            0 <= units <= 3 * usize::MAX,
    ;
    font * units / 3
}

impl Danmu {
    /// Width of the comment in whole points.
    pub fn points(&self) -> (r: u128)
        ensures
            r == self@.points(),
    {
        text_points(self.fontsize, self.content.as_str())
    }
}

} // verus!
