//! Source text with gaps.
//!
//! How a type or a variable is spelled is the target dialect's concern. What is emitted here is
//! therefore a text in which those spellings are left out, each gap saying what belongs there.

use crate::element::Elem;
use crate::item::Item;
use crate::variable::{IndexedVariable, Instruction, Variable};
use vstd::prelude::*;

verus! {

/// What stands in a gap of the text.
#[derive(Clone, Copy, Debug, PartialEq, Eq, Structural)]
pub enum Shown {
    /// The name of an element type.
    Elem(Elem),
    /// The name of a value's type.
    Item(Item),
    /// A variable, where it is read.
    Variable(Variable),
    /// A variable on the left of an assignment: with its declaration, if this declares it.
    Left(Variable),
    /// One element of a variable, where it is read.
    Indexed(IndexedVariable),
    /// A whole instruction.
    Instruction(Instruction),
}

/// One character of the text, or one gap.
pub enum Glyph {
    Char(char),
    Gap(Shown),
}

/// A text with gaps.
#[verifier::ext_equal]
pub struct Text {
    pub glyphs: Seq<Glyph>,
}

pub open spec fn character(c: char) -> Glyph {
    Glyph::Char(c)
}

pub open spec fn characters(chars: Seq<char>) -> Seq<Glyph> {
    Seq::new(chars.len(), |i: int| character(chars[i]))
}

impl Text {
    pub open spec fn empty() -> Text {
        Text { glyphs: Seq::empty() }
    }

    /// The text, then some characters.
    pub open spec fn lit(self, chars: Seq<char>) -> Text {
        Text { glyphs: self.glyphs + characters(chars) }
    }

    /// The text, then a gap.
    pub open spec fn show(self, shown: Shown) -> Text {
        Text { glyphs: self.glyphs.push(Glyph::Gap(shown)) }
    }

    /// The text, then another.
    pub open spec fn cat(self, other: Text) -> Text {
        Text { glyphs: self.glyphs + other.glyphs }
    }
}

/// The entries in order, with `separator` between each two.
pub open spec fn join(entries: Seq<Text>, separator: Seq<char>) -> Text
    decreases entries.len(),
{
    if entries.len() == 0 {
        Text::empty()
    } else if entries.len() == 1 {
        entries[0]
    } else {
        join(entries.drop_last(), separator).lit(separator).cat(entries.last())
    }
}

pub proof fn lemma_cat_assoc(a: Text, b: Text, c: Text)
    ensures
        a.cat(b).cat(c) == a.cat(b.cat(c)),
{
    assert(a.cat(b).cat(c) =~= a.cat(b.cat(c)));
}

pub proof fn lemma_cat_empty(a: Text)
    ensures
        a.cat(Text::empty()) == a,
        Text::empty().cat(a) == a,
        a.lit(""@) == a,
{
    reveal_strlit("");
    assert(a.cat(Text::empty()) =~= a);
    assert(Text::empty().cat(a) =~= a);
    assert(a.lit(""@) =~= a);
}

/// A stretch of text, or a gap.
#[derive(Debug)]
pub enum Piece {
    Text(String),
    Gap(Shown),
}

impl Piece {
    pub open spec fn append_to(self, text: Text) -> Text {
        match self {
            Piece::Text(chars) => text.lit(chars@),
            Piece::Gap(shown) => text.show(shown),
        }
    }
}

/// The text that the pieces make up.
pub open spec fn text_of(pieces: Seq<Piece>) -> Text
    decreases pieces.len(),
{
    if pieces.len() == 0 {
        Text::empty()
    } else {
        pieces.last().append_to(text_of(pieces.drop_last()))
    }
}

proof fn lemma_text_of_push(pieces: Seq<Piece>, piece: Piece)
    ensures
        text_of(pieces.push(piece)) == piece.append_to(text_of(pieces)),
{
    assert(pieces.push(piece).drop_last() =~= pieces);
}

proof fn lemma_append_to_cat(a: Text, b: Text, piece: Piece)
    ensures
        piece.append_to(a.cat(b)) == a.cat(piece.append_to(b)),
{
    match piece {
        Piece::Text(chars) => {
            assert(a.cat(b).lit(chars@).glyphs =~= a.cat(b.lit(chars@)).glyphs);
        },
        Piece::Gap(shown) => {
            assert(a.cat(b).show(shown).glyphs =~= a.cat(b.show(shown)).glyphs);
        },
    }
}

proof fn lemma_text_of_add(a: Seq<Piece>, b: Seq<Piece>)
    ensures
        text_of(a + b) == text_of(a).cat(text_of(b)),
    decreases b.len(),
{
    if b.len() == 0 {
        assert(a + b =~= a);
        lemma_cat_empty(text_of(a));
    } else {
        assert((a + b).drop_last() =~= a + b.drop_last());
        lemma_text_of_add(a, b.drop_last());
        lemma_append_to_cat(text_of(a), text_of(b.drop_last()), b.last());
    }
}

/// A text under construction.
#[derive(Debug)]
pub struct Fragment {
    pub pieces: Vec<Piece>,
}

impl View for Fragment {
    type V = Text;

    open spec fn view(&self) -> Text {
        text_of(self.pieces@)
    }
}

impl Fragment {
    /// The empty text.
    pub fn new() -> (fragment: Fragment)
        ensures
            fragment@ == Text::empty(),
    {
        Fragment { pieces: Vec::new() }
    }

    /// Adds characters.
    pub fn write_str(&mut self, s: &str)
        ensures
            final(self)@ == old(self)@.lit(s@),
    {
        let piece = Piece::Text(s.to_owned());
        proof {
            lemma_text_of_push(self.pieces@, piece);
        }
        self.pieces.push(piece);
    }

    /// Adds a gap.
    pub fn show(&mut self, shown: Shown)
        ensures
            final(self)@ == old(self)@.show(shown),
    {
        proof {
            lemma_text_of_push(self.pieces@, Piece::Gap(shown));
        }
        self.pieces.push(Piece::Gap(shown));
    }

    /// Adds a whole text.
    pub fn append(&mut self, other: &Fragment)
        ensures
            final(self)@ == old(self)@.cat(other@),
    {
        let mut i: usize = 0;
        assert(self.pieces@ =~= old(self).pieces@ + other.pieces@.take(0));
        while i < other.pieces.len()
            invariant
                0 <= i <= other.pieces.len(),
                self.pieces@ == old(self).pieces@ + other.pieces@.take(i as int),
            decreases other.pieces.len() - i,
        {
            let piece = match &other.pieces[i] {
                Piece::Text(chars) => Piece::Text(chars.clone()),
                Piece::Gap(shown) => Piece::Gap(*shown),
            };
            self.pieces.push(piece);
            i += 1;
            assert(self.pieces@ =~= old(self).pieces@ + other.pieces@.take(i as int));
        }
        proof {
            assert(other.pieces@.take(i as int) =~= other.pieces@);
            lemma_text_of_add(old(self).pieces@, other.pieces@);
        }
    }
}

/// Where the statements go: the text so far, and the number of the next temporary.
#[derive(Debug)]
pub struct Formatter {
    pub text: Fragment,
    pub next_tmp: u32,
}

/// The number after `id`. Numbers start over when they run out.
pub open spec fn next_id(id: u32) -> u32 {
    id.wrapping_add(1)
}

impl Formatter {
    /// An empty text, whose first temporary is to have the number `next_tmp`.
    pub fn new(next_tmp: u32) -> (f: Formatter)
        ensures
            f.text@ == Text::empty(),
            f.next_tmp == next_tmp,
    {
        Formatter { text: Fragment::new(), next_tmp }
    }

    /// Adds a whole text.
    pub fn append(&mut self, fragment: &Fragment)
        ensures
            final(self).text@ == old(self).text@.cat(fragment@),
            final(self).next_tmp == old(self).next_tmp,
    {
        self.text.append(fragment);
    }

    /// A new temporary of the given type. Nothing is written.
    pub fn tmp(&mut self, item: Item) -> (var: Variable)
        ensures
            var == (Variable::Tmp { id: old(self).next_tmp, item }),
            final(self).text@ == old(self).text@,
            final(self).next_tmp == next_id(old(self).next_tmp),
    {
        let id: u32 = self.next_tmp;
        self.next_tmp = id.wrapping_add(1);
        Variable::Tmp { id, item }
    }
}

} // verus!
