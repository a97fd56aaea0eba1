//! Text in which some values still stand as values.
//!
//! How a price or an identity is printed is settled where it is printed, so a
//! line built here is a run of glyphs: characters, and the values that its
//! printer renders.
use vstd::prelude::*;

use crate::value::{InstrumentId, Notional, OrderId, Px, Qty};

verus! {

/// A character, or a value that stands for its own rendering.
#[derive(Debug, Clone, Copy, PartialEq, Eq)]
pub enum Mark<C> {
    Letter(C),
    Px(Px),
    Qty(Qty),
    Money(Notional),
    Order(OrderId),
    Instrument(InstrumentId),
    /// The value that follows ends this many columns further on.
    Right(usize),
}

/// What a line is made of.
pub type Glyph = Mark<char>;

/// A run of glyphs.
#[derive(Debug, Clone, PartialEq, Eq)]
pub struct Text {
    pub glyphs: Vec<Glyph>,
}

impl View for Text {
    type V = Seq<Glyph>;

    open spec fn view(&self) -> Seq<Glyph> {
        self.glyphs@
    }
}

/// Appends a character, by `String::push`.
pub assume_specification[ String::push ](string: &mut String, c: char)
    ensures
        final(string)@ == old(string)@.push(c),
;

/// What the standard library's `Debug` prints of a string: the string in quotes,
/// with what does not print escaped.
pub uninterp spec fn quoted_by_debug(s: Seq<char>) -> Seq<char>;

/// A string as its `Debug` prints it, by `format!`. Which characters are escaped
/// is the standard library's to say, so the result only has a name.
#[verifier::external_body]
pub(crate) fn debug_string(s: &str) -> (quoted: String)
    ensures
        quoted@ == quoted_by_debug(s@),
{
    format!("{s:?}")
}

/// Characters as glyphs.
pub open spec fn glyphs_of(s: Seq<char>) -> Seq<Glyph>
    decreases s.len(),
{
    if s.len() == 0 {
        Seq::empty()
    } else {
        glyphs_of(s.drop_last()).push(Glyph::Letter(s.last()))
    }
}

/// A digit's character.
pub open spec fn digit(d: nat) -> char {
    (48 + d) as char
}

/// A number in decimal digits, without leading zeros.
pub open spec fn digits(n: nat) -> Seq<char>
    decreases n,
{
    if n < 10 {
        seq![digit(n)]
    } else {
        digits(n / 10).push(digit(n % 10))
    }
}

/// A number in decimal, with a sign where it is negative.
pub open spec fn decimal(i: int) -> Seq<char> {
    if i < 0 {
        seq!['-'] + digits((-i) as nat)
    } else {
        digits(i as nat)
    }
}

/// A hexadecimal digit's character.
pub open spec fn hex_digit(d: nat) -> char {
    if d < 10 {
        (48 + d) as char
    } else {
        (87 + d) as char
    }
}

/// The lowest `width` digits of a number in a power-of-two base, zeros in front.
pub open spec fn base_padded(n: nat, base: nat, width: nat) -> Seq<char>
    decreases width,
{
    if width == 0 {
        Seq::empty()
    } else {
        base_padded(n / base, base, (width - 1) as nat).push(hex_digit(n % base))
    }
}

/// The characters of a string.
pub fn chars_of(s: &str) -> (chars: Vec<char>)
    ensures
        chars@ == s@,
{
    let mut chars: Vec<char> = Vec::new();
    for c in it: s.chars()
        invariant
            it.seq() == s@,
            chars@ == s@.take(it.index() as int),
    {
        chars.push(c);
        assert(chars@ =~= s@.take(it.index() + 1));
    }
    assert(s@.take(s@.len() as int) =~= s@);
    chars
}

fn digit_char(d: u8) -> (c: char)
    requires
        d < 16,
    ensures
        c == hex_digit(d as nat),
{
    if d < 10 {
        (48 + d) as char
    } else {
        (87 + d) as char
    }
}

/// A number in decimal digits.
pub fn number_string(n: u128) -> (s: String)
    ensures
        s@ == digits(n as nat),
    decreases n,
{
    let mut s = if n < 10 {
        String::new()
    } else {
        number_string(n / 10)
    };
    s.push(digit_char((n % 10) as u8));
    assert(s@ =~= digits(n as nat));
    s
}

/// A number in decimal, with a sign where it is negative.
pub fn int_string(i: i128) -> (s: String)
    ensures
        s@ == decimal(i as int),
{
    if i < 0 {
        let mut s = String::new();
        s.push('-');
        let magnitude: u128 = if i == i128::MIN {
            170141183460469231731687303715884105728
        } else {
            (-i) as u128
        };
        let rest = number_string(magnitude);
        s.append(rest.as_str());
        assert(s@ =~= decimal(i as int));
        s
    } else {
        number_string(i as u128)
    }
}

/// The lowest `width` digits of a number in `base`, zeros in front.
pub fn padded_string(n: u128, base: u8, width: usize) -> (s: String)
    requires
        2 <= base <= 16,
    ensures
        s@ == base_padded(n as nat, base as nat, width as nat),
    decreases width,
{
    if width == 0 {
        String::new()
    } else {
        let mut s = padded_string(n / base as u128, base, width - 1);
        s.push(digit_char((n % base as u128) as u8));
        s
    }
}

/// Blanks.
pub open spec fn blanks(n: int) -> Seq<char>
    decreases n,
{
    if n <= 0 {
        Seq::empty()
    } else {
        blanks(n - 1).push(' ')
    }
}

/// Characters at the left of a column.
pub open spec fn at_left(s: Seq<char>, width: nat) -> Seq<char> {
    s + blanks(width - s.len())
}

/// Characters at the right of a column.
pub open spec fn at_right(s: Seq<char>, width: nat) -> Seq<char> {
    blanks(width - s.len()) + s
}

fn blank_string(n: usize) -> (s: String)
    ensures
        s@ == blanks(n as int),
    decreases n,
{
    if n == 0 {
        String::new()
    } else {
        let mut s = blank_string(n - 1);
        s.push(' ');
        s
    }
}

/// A string at the left of a column.
pub fn left(s: &str, width: usize) -> (column: String)
    ensures
        column@ == at_left(s@, width as nat),
{
    let len: usize = chars_of(s).len();
    let gap = blank_string(if len < width {
        width - len
    } else {
        0
    });
    glue(s, gap.as_str())
}

/// A string at the right of a column.
pub fn right(s: &str, width: usize) -> (column: String)
    ensures
        column@ == at_right(s@, width as nat),
{
    let len: usize = chars_of(s).len();
    let gap = blank_string(if len < width {
        width - len
    } else {
        0
    });
    glue(gap.as_str(), s)
}

/// A string of its own.
pub fn said(s: &str) -> (own: String)
    ensures
        own@ == s@,
{
    let mut own = String::new();
    own.append(s);
    assert(own@ =~= s@);
    own
}

/// One string behind another.
pub fn glue(a: &str, b: &str) -> (s: String)
    ensures
        s@ == a@ + b@,
{
    let mut s = String::new();
    s.append(a);
    s.append(b);
    assert(s@ =~= a@ + b@);
    s
}

impl Text {
    /// No glyphs.
    pub fn new() -> (text: Text)
        ensures
            text@ == Seq::<Glyph>::empty(),
    {
        Text { glyphs: Vec::new() }
    }

    /// Appends characters.
    pub fn lit(&mut self, s: &str)
        ensures
            final(self)@ == old(self)@ + glyphs_of(s@),
    {
        assert(old(self)@ + glyphs_of(s@.take(0)) =~= old(self)@);
        let all = chars_of(s);
        let mut i: usize = 0;
        while i < all.len()
            invariant
                all@ == s@,
                i <= s@.len(),
                self@ == old(self)@ + glyphs_of(s@.take(i as int)),
            decreases s@.len() - i,
        {
            self.glyphs.push(Glyph::Letter(all[i]));
            assert(s@.take(i + 1).drop_last() =~= s@.take(i as int));
            i += 1;
            assert(self@ =~= old(self)@ + glyphs_of(s@.take(i as int)));
        }
        assert(s@.take(s@.len() as int) =~= s@);
    }

    /// Appends a number in decimal.
    pub fn number(&mut self, n: u128)
        ensures
            final(self)@ == old(self)@ + glyphs_of(digits(n as nat)),
    {
        let s = number_string(n);
        self.lit(s.as_str());
    }

    /// Appends a signed number in decimal.
    pub fn signed(&mut self, i: i128)
        ensures
            final(self)@ == old(self)@ + glyphs_of(decimal(i as int)),
    {
        let s = int_string(i);
        self.lit(s.as_str());
    }

    /// Appends the glyphs of `other`.
    pub fn join(&mut self, other: &Text)
        ensures
            final(self)@ == old(self)@ + other@,
    {
        let mut i: usize = 0;
        assert(old(self)@ + other@.take(0) =~= old(self)@);
        while i < other.glyphs.len()
            invariant
                i <= other@.len(),
                self@ == old(self)@ + other@.take(i as int),
            decreases other@.len() - i,
        {
            self.glyphs.push(other.glyphs[i]);
            i += 1;
            assert(self@ =~= old(self)@ + other@.take(i as int));
        }
        assert(other@.take(i as int) =~= other@);
    }

    /// Appends a value for its printer to render.
    pub fn px(&mut self, px: Px)
        ensures
            final(self)@ == old(self)@.push(Glyph::Px(px)),
    {
        self.glyphs.push(Glyph::Px(px));
    }

    /// Appends a value for its printer to render.
    pub fn qty(&mut self, qty: Qty)
        ensures
            final(self)@ == old(self)@.push(Glyph::Qty(qty)),
    {
        self.glyphs.push(Glyph::Qty(qty));
    }

    /// Appends a value for its printer to render.
    pub fn money(&mut self, amount: Notional)
        ensures
            final(self)@ == old(self)@.push(Glyph::Money(amount)),
    {
        self.glyphs.push(Glyph::Money(amount));
    }

    /// Appends a value for its printer to render.
    pub fn order(&mut self, order: OrderId)
        ensures
            final(self)@ == old(self)@.push(Glyph::Order(order)),
    {
        self.glyphs.push(Glyph::Order(order));
    }

    /// Appends a value for its printer to render.
    pub fn instrument(&mut self, id: InstrumentId)
        ensures
            final(self)@ == old(self)@.push(Glyph::Instrument(id)),
    {
        self.glyphs.push(Glyph::Instrument(id));
    }


    /// Has the value that follows end `width` columns further on.
    pub fn column(&mut self, width: usize)
        ensures
            final(self)@ == old(self)@.push(Glyph::Right(width)),
    {
        self.glyphs.push(Glyph::Right(width));
    }

    /// The text as a string, where every glyph is a character.
    pub fn plain(&self) -> (plain: Option<String>)
        ensures
            match plain {
                Some(s) => self@ == glyphs_of(s@),
                None => exists|i: int| 0 <= i < self@.len() && !(self@[i] is Letter),
            },
    {
        let mut s = String::new();
        let mut i: usize = 0;
        while i < self.glyphs.len()
            invariant
                i <= self@.len(),
                self@.take(i as int) == glyphs_of(s@),
            decreases self@.len() - i,
        {
            let ghost before = s@;
            match self.glyphs[i] {
                Glyph::Letter(c) => {
                    s.push(c);
                },
                _ => {
                    assert(!(self@[i as int] is Letter));
                    return None;
                },
            }
            assert(s@.drop_last() =~= before);
            assert(self@.take(i + 1) =~= glyphs_of(s@));
            i += 1;
        }
        assert(self@.take(i as int) =~= self@);
        Some(s)
    }
}

/// The glyphs of several lines.
pub open spec fn lines_of(lines: Seq<Text>) -> Seq<Seq<Glyph>> {
    Seq::new(lines.len(), |i: int| lines[i]@)
}

/// Appends a line.
pub fn put(lines: &mut Vec<Text>, line: Text)
    ensures
        lines_of(final(lines)@) == lines_of(old(lines)@).push(line@),
{
    lines.push(line);
    assert(lines_of(lines@) =~= lines_of(old(lines)@).push(line@));
}

/// Appends a line of characters.
pub fn say(lines: &mut Vec<Text>, s: &str)
    ensures
        lines_of(final(lines)@) == lines_of(old(lines)@).push(glyphs_of(s@)),
{
    let mut t = Text::new();
    t.lit(s);
    assert(t@ =~= glyphs_of(s@));
    put(lines, t);
}

} // verus!
