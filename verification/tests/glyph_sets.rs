use aldar::{ascii_glyphset, unicode_glyphset, Glyphs};

#[test]
fn unicode_glyphs() {
    let g = unicode_glyphset();
    assert_eq!(g.pipe(), "│");
    assert_eq!(g.item(), "├──");
    assert_eq!(g.last(), "└──");
}

#[test]
fn ascii_glyphs() {
    let g = ascii_glyphset();
    assert_eq!(g.pipe(), "|");
    assert_eq!(g.item(), "|--");
    assert_eq!(g.last(), "`--");
}
