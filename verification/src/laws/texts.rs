//! How texts are put together.

use crate::convert::{writes, written_in_order};
use crate::text::{join, text_of, Fragment, Glyph, Piece, Shown, Text};
use vstd::prelude::*;

verus! {

/// The empty text has nothing in it.
pub proof fn law_empty_text()
    ensures
        Text::empty().glyphs.len() == 0,
{
}

/// Characters go behind the text, each as it is and in order.
pub proof fn law_characters_follow(text: Text, chars: Seq<char>)
    ensures
        ({
            let longer = text.lit(chars).glyphs;
            let n = text.glyphs.len() as int;
            &&& longer.len() == n + chars.len()
            &&& longer.take(n) == text.glyphs
            &&& forall|i: int|
                0 <= i < chars.len() ==> (#[trigger] longer[n + i]) == Glyph::Char(chars[i])
        }),
{
    assert(text.lit(chars).glyphs.take(text.glyphs.len() as int) =~= text.glyphs);
}

/// A gap goes behind the text.
pub proof fn law_gap_follows(text: Text, shown: Shown)
    ensures
        text.show(shown).glyphs == text.glyphs + seq![Glyph::Gap(shown)],
{
    assert(text.show(shown).glyphs =~= text.glyphs + seq![Glyph::Gap(shown)]);
}

/// A text goes behind the text, whole.
pub proof fn law_text_follows(text: Text, other: Text)
    ensures
        text.cat(other).glyphs == text.glyphs + other.glyphs,
{
}

/// Two texts that are joined keep their order, with the separator once between them; what is
/// joined to more texts goes behind them in the same way.
pub proof fn law_joining(entries: Seq<Text>, entry: Text, separator: Seq<char>)
    ensures
        join(Seq::empty(), separator).glyphs == Seq::<Glyph>::empty(),
        join(seq![entry], separator).glyphs == entry.glyphs,
        entries.len() > 0 ==> join(entries.push(entry), separator).glyphs == join(
            entries,
            separator,
        ).lit(separator).glyphs + entry.glyphs,
{
    assert(entries.push(entry).drop_last() =~= entries);
}

/// The pieces of a fragment make up its text, each in its place.
pub proof fn law_pieces(pieces: Seq<Piece>, chars: String, shown: Shown)
    ensures
        text_of(Seq::empty()) == Text::empty(),
        text_of(pieces.push(Piece::Text(chars))) == text_of(pieces).lit(chars@),
        text_of(pieces.push(Piece::Gap(shown))) == text_of(pieces).show(shown),
{
    assert(pieces.push(Piece::Text(chars)).drop_last() =~= pieces);
    assert(pieces.push(Piece::Gap(shown)).drop_last() =~= pieces);
}

/// What a fragment says is what its pieces make up.
pub proof fn law_fragment(fragment: Fragment)
    ensures
        fragment@ == text_of(fragment.pieces@),
{
}

/// Entries that were written in order are what the calls on 0, 1, and so on returned, each in its
/// place and none left out.
pub proof fn law_entries_are_in_order<F: Fn(usize) -> Fragment>(
    op: F,
    n: nat,
    entries: Seq<Text>,
    i: usize,
)
    requires
        written_in_order(op, n, entries),
        i < n,
    ensures
        entries.len() == n,
        exists|fragment: Fragment| #[trigger]
            op.ensures((i,), fragment) && text_of(fragment.pieces@) == entries[i as int],
{
    assert(writes(op, i as int as usize, entries[i as int]));
}

} // verus!
