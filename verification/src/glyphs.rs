//! The strings that draw the branches of the tree.

use vstd::prelude::*;

verus! {

/// A set of three branch decorations.
///
/// `pipe` continues an open directory on the lines below it, `item` leads to
/// an entry that has siblings after it, and `last` leads to the final entry
/// of a directory. Each should be a short printable token without a line
/// break; the tree is drawn with whatever the three methods give out.
pub trait Glyphs {
    /// The vertical continuation.
    fn pipe(&self) -> String;

    /// The branch to an entry that is not the last one.
    fn item(&self) -> String;

    /// The branch to the last entry.
    fn last(&self) -> String;
}

/// A fixed glyph set, given as pipe, last and item.
#[derive(Debug)]
pub struct GlyphSet(&'static str, &'static str, &'static str);

impl GlyphSet {
    /// The text of the vertical continuation.
    pub closed spec fn pipe_text(&self) -> Seq<char> {
        self.0@
    }

    /// The text of the branch to an entry that is not the last one.
    pub closed spec fn item_text(&self) -> Seq<char> {
        self.2@
    }

    /// The text of the branch to the last entry.
    pub closed spec fn last_text(&self) -> Seq<char> {
        self.1@
    }
}

impl Glyphs for GlyphSet {
    fn pipe(&self) -> (s: String)
        ensures
            s@ == self.pipe_text(),
    {
        self.0.to_owned()
    }

    fn last(&self) -> (s: String)
        ensures
            s@ == self.last_text(),
    {
        self.1.to_owned()
    }

    fn item(&self) -> (s: String)
        ensures
            s@ == self.item_text(),
    {
        self.2.to_owned()
    }
}

/// The glyph set drawn with box-drawing characters.
pub fn unicode_glyphset() -> (glyphs: GlyphSet)
    ensures
        glyphs.pipe_text() == seq!['│'],
        glyphs.last_text() == seq!['└', '─', '─'],
        glyphs.item_text() == seq!['├', '─', '─'],
{
    proof {
        reveal_strlit("│");
        reveal_strlit("└──");
        reveal_strlit("├──");
    }
    let glyphs = GlyphSet("│", "└──", "├──");
    glyphs
}

/// The glyph set drawn with ASCII characters only.
pub fn ascii_glyphset() -> (glyphs: GlyphSet)
    ensures
        glyphs.pipe_text() == seq!['|'],
        glyphs.last_text() == seq!['`', '-', '-'],
        glyphs.item_text() == seq!['|', '-', '-'],
{
    proof {
        reveal_strlit("|");
        reveal_strlit("`--");
        reveal_strlit("|--");
    }
    let glyphs = GlyphSet("|", "`--", "|--");
    glyphs
}

} // verus!
