//! The walk as a mathematical state, and how each step changes it.
//!
//! A walk goes through the tree depth first. The directories that are open
//! at one moment form a stack of frames, the root's at the bottom; each
//! frame holds the entries of its directory that take part, in the order
//! they are shown, and counts how many of them have been shown. The indent
//! stack holds one fragment for each open directory but the root.

use vstd::prelude::*;
use crate::fsutil::{relative_text, shown_name, EntryView, FileEntry};
use vstd::multiset::group_multiset_axioms;
use vstd::seq_lib::{to_multiset_build, to_multiset_contains};
use crate::order::{
    arranged, distinct, in_order, lemma_arranged, lemma_arranged_strict,
    lemma_arranged_whatever_order, lemma_place_index, place_index, strictly_in_order,
};
use crate::paint::{colour_code, holds_colour_end, painted_as, style_for, EntryStyle};
use crate::pattern::Matcher;
use crate::size::size_text;
use crate::text::{decimal, joined, spaces};

verus! {

/// Where a walk stands.
#[derive(Clone, Copy, Debug, PartialEq, Eq, Structural)]
pub enum Phase {
    /// No walk has been started.
    Idle,
    /// A walk has been started and its first line is due.
    Header,
    /// The tree is being shown.
    Walking,
    /// The closing line has been given out.
    Finished,
}

/// One open directory.
#[verifier::ext_equal]
pub struct FrameView {
    /// The directory's entries that take part, in the order they are shown.
    pub entries: Seq<FileEntry>,
    /// How many of them have been shown.
    pub next: nat,
}

/// The configuration and the state of a walk.
#[verifier::ext_equal]
pub struct AldarView {
    /// Whether hidden entries take part.
    pub show_hidden: bool,
    /// Whether only directories are wanted. Recorded, and without effect.
    pub dirs_only: bool,
    /// Whether patterns are compiled to match without regard to case.
    pub ignore_case: bool,
    /// The deepest level whose directories are opened; any negative number
    /// stands for no limit.
    pub level: int,
    /// The root of the walk.
    pub path: Seq<char>,
    /// The glyph that continues an open directory.
    pub pipe: Seq<char>,
    /// The glyph that leads to an entry with siblings after it.
    pub item: Seq<char>,
    /// The glyph that leads to the last entry of a directory.
    pub last: Seq<char>,
    /// Whether entries are shown by their paths relative to the base.
    pub print_fullpath: bool,
    /// Whether each line holds the entry's size.
    pub print_size: bool,
    /// Whether sizes are scaled to units.
    pub human_readable: bool,
    /// Whether unprintable characters are to be replaced. Recorded, and
    /// without effect.
    pub replace_nonprintables: bool,
    /// The include patterns as configured, for the next walk to compile.
    pub include_patterns: Option<Seq<Seq<char>>>,
    /// The exclude patterns as configured, for the next walk to compile.
    pub exclude_patterns: Option<Seq<Seq<char>>>,
    /// What file names must match to take part, once compiled.
    pub include_matcher: Option<Matcher>,
    /// What file names and directory paths must not match, once compiled.
    pub exclude_matcher: Option<Matcher>,
    /// The path that full paths are shown relative to.
    pub base: Option<Seq<char>>,
    /// The character that separates the components of a path.
    pub separator: char,
    /// How many directories have taken part so far.
    pub dirs: u64,
    /// How many files have taken part so far.
    pub files: u64,
    /// The fragments that the open directories put before each line.
    pub indent: Seq<Seq<char>>,
    /// Where the walk stands.
    pub phase: Phase,
    /// The directory whose listing is awaited.
    pub pending: Option<Seq<char>>,
    /// The open directories, the root's first.
    pub frames: Seq<FrameView>,
}

/// What the next step of a walk brings.
pub enum Turn {
    /// Nothing: no walk is under way.
    Rest,
    /// The first line, which names the directory walked.
    Header,
    /// A request for the listing of the directory with this path.
    Ask(Seq<char>),
    /// The line of this entry, which is or is not the last of its directory.
    Entry(EntryView, bool),
    /// The closing line.
    Summary,
}

/// `n + k`, held at the largest count that can be kept.
pub open spec fn counted(n: u64, k: nat) -> u64 {
    if n + k > u64::MAX {
        u64::MAX
    } else {
        (n + k) as u64
    }
}

/// How many of `entries` are directories.
pub open spec fn dirs_in(entries: Seq<FileEntry>) -> nat
    decreases entries.len(),
{
    if entries.len() == 0 {
        0
    } else {
        dirs_in(entries.drop_last()) + if entries.last().dir {
            1nat
        } else {
            0nat
        }
    }
}

/// How many of `entries` are not directories.
pub open spec fn files_in(entries: Seq<FileEntry>) -> nat
    decreases entries.len(),
{
    if entries.len() == 0 {
        0
    } else {
        files_in(entries.drop_last()) + if entries.last().dir {
            0nat
        } else {
            1nat
        }
    }
}

/// The closing line: an empty line, then the two counts.
pub open spec fn summary_text(dirs: u64, files: u64) -> Seq<char> {
    seq!['\n'] + decimal(dirs as nat) + " directories, "@ + decimal(files as nat) + " files"@
}

/// The state of a newly made walker, on a platform whose paths are
/// separated by `separator`: nothing is filtered or limited, the root is
/// `.`, the branches are drawn with box-drawing characters, and no walk is
/// under way.
pub open spec fn initial(separator: char) -> AldarView {
    AldarView {
        show_hidden: false,
        dirs_only: false,
        ignore_case: false,
        level: -1,
        path: seq!['.'],
        pipe: seq!['│'],
        item: seq!['├', '─', '─'],
        last: seq!['└', '─', '─'],
        print_fullpath: false,
        print_size: false,
        human_readable: false,
        replace_nonprintables: false,
        include_patterns: None,
        exclude_patterns: None,
        include_matcher: None,
        exclude_matcher: None,
        base: None,
        separator,
        dirs: 0,
        files: 0,
        indent: Seq::empty(),
        phase: Phase::Idle,
        pending: None,
        frames: Seq::empty(),
    }
}

/// What a set of patterns says of a name: whether one of them matches it,
/// or nothing where there is no set.
pub open spec fn verdict(matcher: Option<Matcher>, name: Seq<char>) -> Option<bool> {
    match matcher {
        Some(m) => Some(m.matches(name)),
        None => None,
    }
}

/// Whether an entry takes part, given its facts and what the include and the
/// exclude patterns say of its name.
///
/// A hidden entry takes part only where hidden entries are shown. Of the
/// others every directory takes part; a file does unless the include patterns
/// fail to match its name or the exclude patterns match it.
pub open spec fn admitted(
    show_hidden: bool,
    hidden: bool,
    dir: bool,
    included: Option<bool>,
    excluded: Option<bool>,
) -> bool {
    &&& show_hidden || !hidden
    &&& dir || (included != Some(false) && excluded != Some(true))
}

/// Whether an entry takes part, given its facts and what the include and the
/// exclude patterns say of its name.
pub fn admits(
    show_hidden: bool,
    hidden: bool,
    dir: bool,
    included: Option<bool>,
    excluded: Option<bool>,
) -> (accepted: bool)
    ensures
        accepted == admitted(show_hidden, hidden, dir, included, excluded),
{
    if hidden && !show_hidden {
        return false;
    }
    if dir {
        return true;
    }
    if let Some(false) = included {
        return false;
    }
    if let Some(true) = excluded {
        return false;
    }
    true
}

/// The style an entry's name is set off in.
pub open spec fn style_of(e: EntryView) -> EntryStyle {
    style_for(e.dir, e.hidden, e.executable)
}

impl AldarView {
    /// Whether an entry takes part in the tree.
    ///
    /// A hidden entry takes part only where hidden entries are shown. Of the
    /// others every directory takes part; a file does if its name matches one
    /// of the include patterns, where there are any, and none of the exclude
    /// patterns.
    pub open spec fn accepts(self, e: EntryView) -> bool {
        admitted(
            self.show_hidden,
            e.hidden,
            e.dir,
            verdict(self.include_matcher, shown_name(e)),
            verdict(self.exclude_matcher, shown_name(e)),
        )
    }

    /// The entries of a listing that take part, in the listing's order.
    pub open spec fn selected(self, raw: Seq<FileEntry>) -> Seq<FileEntry> {
        raw.filter(|e: FileEntry| self.accepts(e@))
    }

    /// Whether the directory with this path is left out with all below it.
    pub open spec fn excludes(self, path: Seq<char>) -> bool {
        self.exclude_matcher matches Some(m) && m.matches(path)
    }

    /// Whether directories at `depth` are opened. The root is at depth 0.
    pub open spec fn descends(self, depth: nat) -> bool {
        self.level < 0 || depth <= self.level
    }

    /// The fragment that an open directory adds to the lines below it:
    /// blanks as wide as the `last` glyph and one more where the directory is
    /// the last of its siblings, else the pipe and blanks as wide as the
    /// `item` glyph.
    pub open spec fn fragment(self, is_last: bool) -> Seq<char> {
        if is_last {
            spaces(self.last.len() + 1)
        } else {
            self.pipe + spaces(self.item.len())
        }
    }

    /// The branch that leads to an entry.
    pub open spec fn glyph(self, is_last: bool) -> Seq<char> {
        if is_last {
            self.last
        } else {
            self.item
        }
    }

    /// The size cell of an entry's line, empty where sizes are not shown.
    pub open spec fn size_part(self, e: EntryView) -> Seq<char> {
        if self.print_size {
            size_text(e.size, self.human_readable)
        } else {
            Seq::empty()
        }
    }

    /// An entry's line up to its name: the fragments of the open
    /// directories, the branch, the size cell and one blank.
    pub open spec fn line_prefix(self, e: EntryView, is_last: bool) -> Seq<char> {
        joined(self.indent) + self.glyph(is_last) + self.size_part(e) + seq![' ']
    }

    /// The name an entry is shown by, before any colouring: its path relative
    /// to the base where full paths are asked for and a base is known, else
    /// its name.
    pub open spec fn shown_text(self, e: EntryView) -> Seq<char> {
        if self.print_fullpath && self.base is Some {
            relative_text(e, self.base->0, self.separator)
        } else {
            shown_name(e)
        }
    }

    /// The line of an entry whose name has come back from colouring as
    /// `painted`.
    pub open spec fn line(self, e: EntryView, is_last: bool, painted: Seq<char>) -> Seq<char> {
        self.line_prefix(e, is_last) + painted
    }

    /// Whether `text` is a line for the entry: the entry's prefix, followed
    /// by the name it is shown by as it comes back from colouring. A name
    /// that is not coloured follows as it is; any other follows as
    /// `painted_as` says for the code of the entry's style. Of a coloured
    /// name that itself holds the mark that ends a stretch of colour, only
    /// its place behind the prefix is said.
    pub open spec fn is_line_for(self, text: Seq<char>, e: EntryView, is_last: bool) -> bool {
        &&& self.line_prefix(e, is_last).is_prefix_of(text)
        &&& style_of(e) == EntryStyle::Plain ==> text == self.line(e, is_last, self.shown_text(e))
        &&& style_of(e) != EntryStyle::Plain && !holds_colour_end(self.shown_text(e))
            ==> exists|painted: Seq<char>|
            #[trigger] painted_as(painted, colour_code(style_of(e)), self.shown_text(e)) && text
                == self.line(e, is_last, painted)
    }

    /// Whether `text` is the first line of a walk: the root's path as it
    /// comes back from colouring in the colour of directories. Nothing is
    /// said of a path that itself holds the mark that ends a stretch of
    /// colour.
    pub open spec fn is_header(self, text: Seq<char>) -> bool {
        !holds_colour_end(self.path) ==> painted_as(
            text,
            colour_code(EntryStyle::Directory),
            self.path,
        )
    }

    /// The state with one more fragment on the indent stack.
    pub open spec fn indented(self, is_last: bool) -> AldarView {
        AldarView { indent: self.indent.push(self.fragment(is_last)), ..self }
    }

    /// The state with the top fragment taken off the indent stack.
    pub open spec fn unindented(self) -> AldarView {
        AldarView {
            indent: if self.indent.len() > 0 {
                self.indent.drop_last()
            } else {
                self.indent
            },
            ..self
        }
    }

    /// How many fragments the indent stack holds while the frames and the
    /// awaited listing are as they are: one for each open or awaited
    /// directory but the root.
    pub open spec fn depth(self) -> int {
        let open = self.frames.len() + if self.pending is Some {
            1int
        } else {
            0int
        };
        if open == 0 {
            0
        } else {
            open - 1
        }
    }

    /// The state is one that a walk can be in.
    pub open spec fn wf(self) -> bool {
        &&& self.phase != Phase::Walking ==> self.frames.len() == 0 && self.pending is None
        &&& self.indent.len() == self.depth()
        &&& forall|i: int|
            0 <= i < self.frames.len() ==> (#[trigger] self.frames[i]).next
                <= self.frames[i].entries.len() && in_order(self.frames[i].entries)
    }

    /// Whether the directory on top of the stack has been shown in full.
    pub open spec fn top_done(self) -> bool {
        self.frames.len() > 0 && self.frames.last().next >= self.frames.last().entries.len()
    }

    /// The state with the top directory closed: its frame is gone, and so is
    /// its fragment unless it is the root.
    pub open spec fn closed(self) -> AldarView {
        AldarView {
            frames: self.frames.drop_last(),
            indent: if self.frames.len() > 1 {
                self.indent.drop_last()
            } else {
                self.indent
            },
            ..self
        }
    }

    /// The state with every directory closed that has been shown in full and
    /// has no open directory above it.
    pub open spec fn unwound(self) -> AldarView
        decreases self.frames.len(),
    {
        if self.top_done() {
            self.closed().unwound()
        } else {
            self
        }
    }

    /// Whether the walk goes into the directory `e`, which is an entry of
    /// the directory on top of the stack: its depth is within the limit and
    /// its path is not excluded.
    pub open spec fn enters(self, e: EntryView) -> bool {
        e.dir && self.descends(self.frames.len()) && !self.excludes(e.path)
    }

    /// The state after the next entry of the top directory has been shown.
    /// Where the walk goes into that entry, its fragment is pushed and its
    /// listing awaited.
    pub open spec fn advanced(self) -> AldarView
        recommends
            self.frames.len() > 0,
            !self.top_done(),
    {
        let top = self.frames.last();
        let e = top.entries[top.next as int]@;
        let is_last = top.next + 1 == top.entries.len();
        let frames = self.frames.drop_last().push(FrameView { next: top.next + 1, ..top });
        if self.enters(e) {
            AldarView { frames, pending: Some(e.path), ..self.indented(is_last) }
        } else {
            AldarView { frames, ..self }
        }
    }

    /// What the next step brings.
    pub open spec fn turn(self) -> Turn {
        match self.phase {
            Phase::Idle => Turn::Rest,
            Phase::Finished => Turn::Rest,
            Phase::Header => Turn::Header,
            Phase::Walking => {
                if self.pending is Some {
                    Turn::Ask(self.pending->0)
                } else {
                    let u = self.unwound();
                    if u.frames.len() == 0 {
                        Turn::Summary
                    } else {
                        let top = u.frames.last();
                        Turn::Entry(
                            top.entries[top.next as int]@,
                            top.next + 1 == top.entries.len(),
                        )
                    }
                }
            },
        }
    }

    /// The state after the next step.
    pub open spec fn stepped(self) -> AldarView {
        match self.phase {
            Phase::Idle => self,
            Phase::Finished => self,
            Phase::Header => AldarView {
                phase: Phase::Walking,
                pending: if self.excludes(self.path) {
                    None
                } else {
                    Some(self.path)
                },
                ..self
            },
            Phase::Walking => {
                if self.pending is Some {
                    self
                } else {
                    let u = self.unwound();
                    if u.frames.len() == 0 {
                        AldarView { phase: Phase::Finished, ..u }
                    } else {
                        u.advanced()
                    }
                }
            },
        }
    }

    /// The state after the entries of a listing have been taken in: those
    /// that take part are counted and arranged.
    pub open spec fn fetched(self, raw: Seq<FileEntry>) -> AldarView {
        AldarView {
            dirs: counted(self.dirs, dirs_in(self.selected(raw))),
            files: counted(self.files, files_in(self.selected(raw))),
            ..self
        }
    }

    /// The state after the awaited listing has arrived. A directory that
    /// could not be read is opened with no entries. Where no listing is
    /// awaited, nothing changes.
    pub open spec fn listed(self, listing: Option<Seq<FileEntry>>) -> AldarView {
        if self.phase == Phase::Walking && self.pending is Some {
            match listing {
                Some(raw) => AldarView {
                    frames: self.frames.push(
                        FrameView { entries: arranged(self.selected(raw)), next: 0 },
                    ),
                    pending: None,
                    ..self.fetched(raw)
                },
                None => AldarView {
                    frames: self.frames.push(FrameView { entries: Seq::empty(), next: 0 }),
                    pending: None,
                    ..self
                },
            }
        } else {
            self
        }
    }

    /// The state in which nothing is under way and nothing counted.
    pub open spec fn reset(self) -> AldarView {
        AldarView {
            dirs: 0,
            files: 0,
            indent: Seq::empty(),
            phase: Phase::Idle,
            pending: None,
            frames: Seq::empty(),
            ..self
        }
    }

    /// The include matcher that a new walk works with: compiled from the
    /// include patterns where there are any, else the one of before.
    pub open spec fn fresh_include(self) -> Option<Matcher> {
        match self.include_patterns {
            Some(patterns) => Some(Matcher { patterns, ignore_case: self.ignore_case }),
            None => self.include_matcher,
        }
    }

    /// The exclude matcher that a new walk works with.
    pub open spec fn fresh_exclude(self) -> Option<Matcher> {
        match self.exclude_patterns {
            Some(patterns) => Some(Matcher { patterns, ignore_case: self.ignore_case }),
            None => self.exclude_matcher,
        }
    }

    /// The state at the start of a walk.
    pub open spec fn started(self, base: Option<Seq<char>>) -> AldarView {
        AldarView {
            include_matcher: self.fresh_include(),
            exclude_matcher: self.fresh_exclude(),
            base,
            phase: Phase::Header,
            ..self.reset()
        }
    }

    /// At most the root is open or awaited.
    pub open spec fn shallow(self) -> bool {
        self.frames.len() + if self.pending is Some {
            1int
        } else {
            0int
        } <= 1
    }
}

/// Closing the directories that have been shown in full takes frames off
/// the top of the stack and nothing else, and only frames of which every
/// entry has been shown. Below them the stack stays as it is, and the top
/// directory that is left, if any, has an entry still to show.
pub proof fn lemma_unwound(s: AldarView)
    requires
        s.wf(),
        s.pending is None,
    ensures
        s.unwound().wf(),
        s.unwound().pending is None,
        s.unwound().frames.len() <= s.frames.len(),
        s.unwound().frames == s.frames.take(s.unwound().frames.len() as int),
        forall|i: int|
            s.unwound().frames.len() <= i < s.frames.len() ==> (#[trigger] s.frames[i]).next
                == s.frames[i].entries.len(),
        !s.unwound().top_done(),
        s.unwound() == (AldarView {
            frames: s.unwound().frames,
            indent: s.unwound().indent,
            ..s
        }),
    decreases s.frames.len(),
{
    if s.top_done() {
        let c = s.closed();
        lemma_unwound(c);
        let u = c.unwound();
        assert forall|i: int| u.frames.len() <= i < s.frames.len() implies (
        #[trigger] s.frames[i]).next == s.frames[i].entries.len() by {
            if i < c.frames.len() {
                assert(c.frames[i] == s.frames[i]);
            }
        }
    }
}

/// Every step leads from a state that a walk can be in to another.
pub proof fn lemma_stepped_wf(s: AldarView)
    requires
        s.wf(),
    ensures
        s.stepped().wf(),
{
    if s.phase == Phase::Walking && s.pending is None {
        lemma_unwound(s);
        let u = s.unwound();
        if u.frames.len() > 0 {
            let a = u.advanced();
            assert forall|i: int| 0 <= i < a.frames.len() implies (#[trigger] a.frames[i]).next
                <= a.frames[i].entries.len() && in_order(a.frames[i].entries) by {}
        }
    }
}

/// Taking in a listing leads from a state that a walk can be in to another.
pub proof fn lemma_listed_wf(s: AldarView, listing: Option<Seq<FileEntry>>)
    requires
        s.wf(),
    ensures
        s.listed(listing).wf(),
{
    if s.phase == Phase::Walking && s.pending is Some {
        let l = s.listed(listing);
        if listing is Some {
            lemma_arranged(s.selected(listing->0));
        }
        assert forall|i: int| 0 <= i < l.frames.len() implies (#[trigger] l.frames[i]).next
            <= l.frames[i].entries.len() && in_order(l.frames[i].entries) by {}
    }
}

/// A directory is opened with exactly the entries of its listing that take
/// part, none of them shown yet: arranging them drops none, adds none and
/// repeats none. What was open before stays as it was.
pub proof fn lemma_listing_opens_selection(s: AldarView, raw: Seq<FileEntry>)
    requires
        s.phase == Phase::Walking,
        s.pending is Some,
    ensures
        s.listed(Some(raw)).frames.len() == s.frames.len() + 1,
        s.listed(Some(raw)).frames.drop_last() == s.frames,
        s.listed(Some(raw)).frames.last().next == 0,
        s.listed(Some(raw)).frames.last().entries.len() == s.selected(raw).len(),
        s.listed(Some(raw)).frames.last().entries.to_multiset() == s.selected(raw).to_multiset(),
        in_order(s.listed(Some(raw)).frames.last().entries),
{
    lemma_arranged(s.selected(raw));
}

/// Every line of an entry counts for the directory it stands under, and
/// nothing else does: a step that shows an entry shows the first entry not
/// yet shown of the topmost directory that has one, and moves that
/// directory's count on by one; every other directory that stays open keeps
/// its count, and so does every directory in a step that shows no entry.
/// A directory is closed only when its count has reached the number of its
/// entries. So between its opening and its closing as many lines are shown
/// under a directory as it has entries that take part.
pub proof fn lemma_step_counts_lines(s: AldarView)
    requires
        s.wf(),
    ensures
        s.stepped().frames.len() <= s.frames.len(),
        forall|i: int|
            s.stepped().frames.len() <= i < s.frames.len() ==> (#[trigger] s.frames[i]).next
                == s.frames[i].entries.len(),
        forall|i: int|
            0 <= i < s.stepped().frames.len() ==> (#[trigger] s.stepped().frames[i]).entries
                == s.frames[i].entries,
        forall|i: int|
            0 <= i < s.stepped().frames.len() ==> (#[trigger] s.stepped().frames[i]).next
                == s.frames[i].next + if s.turn() is Entry && i == s.stepped().frames.len() - 1 {
                1int
            } else {
                0int
            },
        s.turn() matches Turn::Entry(e, last) ==> ({
            let top = s.stepped().frames.last();
            &&& s.stepped().frames.len() > 0
            &&& 0 < top.next <= top.entries.len()
            &&& e == top.entries[top.next - 1]@
            &&& last == (top.next == top.entries.len())
        }),
{
    if s.phase == Phase::Walking && s.pending is None {
        lemma_unwound(s);
        let u = s.unwound();
        let t = s.stepped();
        if u.frames.len() > 0 {
            assert forall|i: int| 0 <= i < t.frames.len() implies (#[trigger] t.frames[i]).entries
                == s.frames[i].entries && t.frames[i].next == s.frames[i].next + if i
                == t.frames.len() - 1 {
                1int
            } else {
                0int
            } by {}
        }
    }
}

/// While the line of an entry is written, the indent stack holds one
/// fragment for each open directory but the root: it is as deep as the
/// directory that the entry stands under.
pub proof fn lemma_indent_depth_at_line(s: AldarView)
    requires
        s.wf(),
        s.turn() is Entry,
    ensures
        s.unwound().frames.len() > 0,
        s.unwound().indent.len() == s.unwound().frames.len() - 1,
{
    lemma_unwound(s);
}

/// Pushing a fragment and taking it off again leaves the indent stack as it
/// was.
pub proof fn lemma_indent_balance(s: AldarView, is_last: bool)
    ensures
        s.indented(is_last).indent.len() == s.indent.len() + 1,
        s.indented(is_last).indent.drop_last() == s.indent,
        s.indented(is_last).indent.last() == s.fragment(is_last),
        s.indented(is_last).unindented() == s,
        s.indent.len() == 0 ==> s.unindented() == s,
{
}

/// A fragment is as wide as its glyphs say: one more than the `last` glyph
/// under a directory that is the last of its siblings, else the pipe and
/// the `item` glyph together. Where the pipe is one character and the two
/// branches are equally wide, both kinds of fragment are equally wide: one
/// more than a branch, which is what a branch and the blank behind it take.
pub proof fn lemma_fragment_width(s: AldarView)
    ensures
        s.fragment(true).len() == s.last.len() + 1,
        s.fragment(false).len() == s.pipe.len() + s.item.len(),
        s.pipe.len() == 1 && s.item.len() == s.last.len() ==> s.fragment(true).len()
            == s.fragment(false).len(),
        forall|i: int| 0 <= i < s.fragment(true).len() ==> s.fragment(true)[i] == ' ',
        s.pipe.is_prefix_of(s.fragment(false)),
        forall|i: int|
            s.pipe.len() <= i < s.fragment(false).len() ==> s.fragment(false)[i] == ' ',
{
}

/// The length of the indent stack goes by the depth alone: whenever a walk
/// is back where as many directories are open, and one is or is not
/// awaited, as at an earlier moment, the stack is as long as it was then.
/// In particular it is, after a directory has been shown with all below
/// it, as long as it was before that directory was gone into.
pub proof fn lemma_indent_returns(before: AldarView, after: AldarView)
    requires
        before.wf(),
        after.wf(),
        before.frames.len() == after.frames.len(),
        before.pending is Some <==> after.pending is Some,
    ensures
        before.indent.len() == after.indent.len(),
{
}

/// With a limit of 0 nothing below the root's own entries is shown: a walk
/// starts with nothing open, and as long as at most the root is open or
/// awaited, it stays so after every step and every listing, and no step
/// goes into a directory.
pub proof fn lemma_level_zero_stays_shallow(
    s: AldarView,
    listing: Option<Seq<FileEntry>>,
    base: Option<Seq<char>>,
)
    requires
        s.wf(),
        s.level == 0,
        s.shallow(),
    ensures
        s.started(base).shallow(),
        s.stepped().shallow(),
        s.listed(listing).shallow(),
        s.turn() is Entry ==> s.stepped().pending is None && s.stepped().frames.len() == 1,
{
    if s.phase == Phase::Walking && s.pending is None {
        lemma_unwound(s);
    }
}

/// A directory whose path matches an exclude pattern is shown, but the walk
/// does not go into it: after its line no listing is awaited, no fragment
/// has been pushed and no directory has been opened. As a directory's
/// entries are shown only after its listing was awaited, nothing below an
/// excluded directory is ever shown, whatever it holds.
pub proof fn lemma_excluded_directory_stays_shut(s: AldarView)
    requires
        s.wf(),
        s.turn() matches Turn::Entry(e, _) && s.excludes(e.path),
    ensures
        s.stepped().pending is None,
        s.stepped().indent == s.unwound().indent,
        s.stepped().frames.len() == s.unwound().frames.len(),
{
    lemma_unwound(s);
}

/// Where the root itself matches an exclude pattern, its listing is never
/// asked for: after the first line the closing line follows.
pub proof fn lemma_excluded_root_shows_nothing(s: AldarView)
    requires
        s.wf(),
        s.phase == Phase::Header,
        s.excludes(s.path),
    ensures
        s.stepped().turn() is Summary,
{
}

/// A listing is awaited only for the root, at the start, or for a directory
/// that has just been shown, lies within the depth limit and matches no
/// exclude pattern.
pub proof fn lemma_awaited_only_when_entered(s: AldarView)
    requires
        s.wf(),
        s.pending is None,
        s.stepped().pending is Some,
    ensures
        s.phase == Phase::Header ==> s.stepped().pending == Some(s.path) && !s.excludes(s.path),
        s.phase != Phase::Header ==> (s.turn() matches Turn::Entry(e, _) && e.dir
            && s.stepped().pending == Some(e.path) && !s.excludes(e.path) && s.descends(
            s.unwound().frames.len(),
        )),
{
    if s.phase == Phase::Walking {
        lemma_unwound(s);
    }
}

/// A walk starts in a state that a walk can be in, with nothing open or
/// awaited, nothing counted and its first line due.
pub proof fn lemma_started(s: AldarView, base: Option<Seq<char>>)
    ensures
        s.started(base).wf(),
        s.started(base).shallow(),
        s.started(base).frames.len() == 0,
        s.started(base).indent.len() == 0,
        s.started(base).dirs == 0,
        s.started(base).files == 0,
        s.started(base).turn() is Header,
{
}

/// Putting an entry into a sequence adds it to the count of its kind.
pub proof fn lemma_counts_with_one_more(entries: Seq<FileEntry>, p: int, e: FileEntry)
    requires
        0 <= p <= entries.len(),
    ensures
        dirs_in(entries.insert(p, e)) == dirs_in(entries) + if e.dir {
            1nat
        } else {
            0nat
        },
        files_in(entries.insert(p, e)) == files_in(entries) + if e.dir {
            0nat
        } else {
            1nat
        },
        dirs_in(entries) + files_in(entries) == entries.len(),
    decreases entries.len(),
{
    let more = entries.insert(p, e);
    if p == entries.len() {
        assert(more.drop_last() =~= entries);
        if entries.len() > 0 {
            lemma_counts_with_one_more(entries.drop_last(), 0, e);
        }
    } else {
        assert(more.drop_last() =~= entries.drop_last().insert(p, e));
        lemma_counts_with_one_more(entries.drop_last(), p, e);
    }
}

/// Arranging entries changes neither of the two counts.
pub proof fn lemma_counts_arranged(entries: Seq<FileEntry>)
    ensures
        dirs_in(arranged(entries)) == dirs_in(entries),
        files_in(arranged(entries)) == files_in(entries),
        dirs_in(entries) + files_in(entries) == entries.len(),
    decreases entries.len(),
{
    if entries.len() > 0 {
        let head = arranged(entries.drop_last());
        lemma_counts_arranged(entries.drop_last());
        lemma_place_index(head, entries.last());
        lemma_counts_with_one_more(head, place_index(head, entries.last()), entries.last());
    }
}

/// An entry is as often in the selection as it is in the listing, if it
/// takes part, and not at all if it does not.
pub proof fn lemma_selected_count(s: AldarView, raw: Seq<FileEntry>, e: FileEntry)
    ensures
        s.selected(raw).to_multiset().count(e) == if s.accepts(e@) {
            raw.to_multiset().count(e)
        } else {
            0
        },
    decreases raw.len(),
{
    broadcast use group_multiset_axioms;

    reveal(Seq::filter);
    if raw.len() == 0 {
        to_multiset_contains(raw, e);
    } else {
        let head = raw.drop_last();
        lemma_selected_count(s, head, e);
        to_multiset_build(head, raw.last());
        assert(head.push(raw.last()) =~= raw);
        if s.accepts(raw.last()@) {
            to_multiset_build(s.selected(head), raw.last());
        }
    }
}

/// The selection of distinct entries is distinct.
pub proof fn lemma_selected_distinct(s: AldarView, raw: Seq<FileEntry>)
    requires
        distinct(raw),
    ensures
        distinct(s.selected(raw)),
    decreases raw.len(),
{
    reveal(Seq::filter);
    if raw.len() > 0 {
        let head = raw.drop_last();
        let kept = s.selected(head);
        lemma_selected_distinct(s, head);
        if s.accepts(raw.last()@) {
            let all = s.selected(raw);
            assert forall|i: int, j: int| 0 <= i < j < all.len() implies all[i].dir != all[j].dir
                || all[i].path@ != all[j].path@ by {
                if j == kept.len() {
                    head.lemma_filter_contains_rev(|e: FileEntry| s.accepts(e@), kept[i]);
                    let k = choose|k: int| 0 <= k < head.len() && head[k] == kept[i];
                    assert(raw[k] == head[k]);
                } else {
                    assert(all[i] == kept[i] && all[j] == kept[j]);
                }
            }
        }
    }
}

/// What a directory is opened with does not depend on the order in which
/// its entries were read: two listings that hold the same entries, no path
/// twice, give the same entries in the same order and the same counts.
/// That order is strict: of two entries of one kind the one with the
/// lesser path stands first.
pub proof fn lemma_listing_whatever_order(s: AldarView, a: Seq<FileEntry>, b: Seq<FileEntry>)
    requires
        distinct(a),
        distinct(b),
        a.to_multiset() == b.to_multiset(),
    ensures
        arranged(s.selected(a)) == arranged(s.selected(b)),
        strictly_in_order(arranged(s.selected(a))),
        s.fetched(a) == s.fetched(b),
        s.listed(Some(a)) == s.listed(Some(b)),
{
    let x = s.selected(a);
    let y = s.selected(b);
    lemma_selected_distinct(s, a);
    lemma_selected_distinct(s, b);
    assert(x.to_multiset() =~= y.to_multiset()) by {
        assert forall|e: FileEntry| x.to_multiset().count(e) == y.to_multiset().count(e) by {
            lemma_selected_count(s, a, e);
            lemma_selected_count(s, b, e);
        }
    }
    lemma_arranged_whatever_order(x, y);
    lemma_arranged_strict(x);
    lemma_counts_arranged(x);
    lemma_counts_arranged(y);
}

} // verus!
