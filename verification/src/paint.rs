//! Colouring names by what they name.

use vstd::prelude::*;
use colored::Colorize;

verus! {

/// The way an entry's name is set off.
#[derive(Clone, Copy, Debug, PartialEq, Eq, Structural)]
pub enum EntryStyle {
    /// A directory that is hidden.
    HiddenDirectory,
    /// Any other directory.
    Directory,
    /// A file that can be executed.
    Executable,
    /// A hidden file that cannot be executed.
    HiddenFile,
    /// Everything else: the name stays as it is.
    Plain,
}

/// The style for an entry with the given facts.
pub open spec fn style_for(dir: bool, hidden: bool, executable: bool) -> EntryStyle {
    if dir && hidden {
        EntryStyle::HiddenDirectory
    } else if dir {
        EntryStyle::Directory
    } else if executable {
        EntryStyle::Executable
    } else if hidden {
        EntryStyle::HiddenFile
    } else {
        EntryStyle::Plain
    }
}

/// The style for an entry with the given facts.
pub fn pick_style(dir: bool, hidden: bool, executable: bool) -> (style: EntryStyle)
    ensures
        style == style_for(dir, hidden, executable),
{
    if dir && hidden {
        EntryStyle::HiddenDirectory
    } else if dir {
        EntryStyle::Directory
    } else if executable {
        EntryStyle::Executable
    } else if hidden {
        EntryStyle::HiddenFile
    } else {
        EntryStyle::Plain
    }
}
/// The mark that ends a stretch of colour.
pub open spec fn colour_end() -> Seq<char> {
    seq!['\u{1b}', '[', '0', 'm']
}

/// The mark that begins a stretch in the colour with this code.
pub open spec fn colour_begin(code: Seq<char>) -> Seq<char> {
    seq!['\u{1b}', '['] + code + seq!['m']
}

/// Whether `mark` stands in `text` at position `i`.
pub open spec fn stands_at(text: Seq<char>, mark: Seq<char>, i: int) -> bool {
    0 <= i && i + mark.len() <= text.len() && text.subrange(i, i + mark.len()) == mark
}

/// Whether `text` holds the mark that ends a stretch of colour.
pub open spec fn holds_colour_end(text: Seq<char>) -> bool {
    exists|i: int| stands_at(text, colour_end(), i)
}

/// Whether `painted` is `text` as colouring with `code` gives it back: set
/// between the two marks where colouring is on, unchanged where it is off.
/// Where the switch is thrown while the text is written, the closing mark
/// may stand without the opening one.
pub open spec fn painted_as(painted: Seq<char>, code: Seq<char>, text: Seq<char>) -> bool {
    ||| painted == text
    ||| painted == colour_begin(code) + text + colour_end()
    ||| painted == text + colour_end()
}

/// `name` in the colour of `style`. A plain name comes back unchanged; any
/// other comes back as `painted_as` says for the code of its style. Nothing
/// is said of a name that itself holds the mark that ends a stretch of
/// colour, which colouring rewrites.
pub fn paint(name: String, style: EntryStyle) -> (painted: String)
    ensures
        style == EntryStyle::Plain ==> painted@ == name@,
        style != EntryStyle::Plain && !holds_colour_end(name@) ==> painted_as(
            painted@,
            colour_code(style),
            name@,
        ),
{
    match style {
        EntryStyle::HiddenDirectory => purple(name.as_str()),
        EntryStyle::Directory => blue(name.as_str()),
        EntryStyle::Executable => magenta(name.as_str()),
        EntryStyle::HiddenFile => cyan(name.as_str()),
        EntryStyle::Plain => name,
    }
}

/// The code of the colour that names of a style are set in: 35 for hidden
/// directories and for executable files, 34 for other directories, 36 for
/// hidden files. Plain names have none.
pub open spec fn colour_code(style: EntryStyle) -> Seq<char> {
    match style {
        EntryStyle::HiddenDirectory => seq!['3', '5'],
        EntryStyle::Directory => seq!['3', '4'],
        EntryStyle::Executable => seq!['3', '5'],
        EntryStyle::HiddenFile => seq!['3', '6'],
        EntryStyle::Plain => Seq::empty(),
    }
}

/// `colored::Colorize::purple`, written out through the `Display` of what it
/// returns. A text that holds no closing mark comes back as `painted_as`
/// says for the code 35: unchanged where colouring is off for this process,
/// between the opening mark and the closing mark where it is on.
#[verifier::external_body]
pub(crate) fn purple(text: &str) -> (painted: String)
    ensures
        !holds_colour_end(text@) ==> painted_as(painted@, seq!['3', '5'], text@),
{
    text.purple().to_string()
}

/// `colored::Colorize::blue`, written out through the `Display` of what it
/// returns. A text that holds no closing mark comes back as `painted_as`
/// says for the code 34: unchanged where colouring is off for this process,
/// between the opening mark and the closing mark where it is on.
#[verifier::external_body]
pub(crate) fn blue(text: &str) -> (painted: String)
    ensures
        !holds_colour_end(text@) ==> painted_as(painted@, seq!['3', '4'], text@),
{
    text.blue().to_string()
}

/// `colored::Colorize::magenta`, written out through the `Display` of what
/// it returns. A text that holds no closing mark comes back as `painted_as`
/// says for the code 35: unchanged where colouring is off for this process,
/// between the opening mark and the closing mark where it is on.
#[verifier::external_body]
pub(crate) fn magenta(text: &str) -> (painted: String)
    ensures
        !holds_colour_end(text@) ==> painted_as(painted@, seq!['3', '5'], text@),
{
    text.magenta().to_string()
}

/// `colored::Colorize::cyan`, written out through the `Display` of what it
/// returns. A text that holds no closing mark comes back as `painted_as`
/// says for the code 36: unchanged where colouring is off for this process,
/// between the opening mark and the closing mark where it is on.
#[verifier::external_body]
pub(crate) fn cyan(text: &str) -> (painted: String)
    ensures
        !holds_colour_end(text@) ==> painted_as(painted@, seq!['3', '6'], text@),
{
    text.cyan().to_string()
}

} // verus!
