//! The walker: its configuration, and the steps of a walk.

use vstd::prelude::*;
use crate::fsutil::{main_separator, text_of, AldarExt, FileEntry};
use crate::glyphs::{unicode_glyphset, Glyphs};
use crate::order::{arranged, in_order, lemma_arranged, place};
use crate::paint::{blue, paint, pick_style};
use crate::pattern::{matcher_view, PatternSet};
use crate::size::{size_cell, size_text};
use crate::state::{
    admits, counted, dirs_in, files_in, initial, lemma_listed_wf, lemma_stepped_wf, lemma_unwound,
    summary_text, AldarView, FrameView, Phase, Turn,
};
use crate::text::{join_all, push_decimal, push_spaces, texts};

verus! {

/// Why a walk could not be started.
#[derive(Clone, Copy, Debug, PartialEq, Eq, Structural)]
pub enum AldarError {
    /// The include patterns do not compile.
    InvalidIncludePattern,
    /// The exclude patterns do not compile.
    InvalidExcludePattern,
}

impl AldarError {
    /// The error in words.
    pub open spec fn message_text(self) -> Seq<char> {
        match self {
            AldarError::InvalidIncludePattern => "invalid include pattern specified"@,
            AldarError::InvalidExcludePattern => "invalid exclude pattern specified"@,
        }
    }

    /// The error in words.
    pub fn message(&self) -> (text: String)
        ensures
            text@ == self.message_text(),
    {
        match self {
            AldarError::InvalidIncludePattern => "invalid include pattern specified".to_owned(),
            AldarError::InvalidExcludePattern => "invalid exclude pattern specified".to_owned(),
        }
    }
}

/// What the caller is to do next.
#[derive(Clone, Debug, PartialEq, Eq)]
pub enum Step {
    /// Write this line.
    Line(String),
    /// Read the directory with this path and hand its entries to `show_dir`.
    List(String),
    /// Nothing: the walk is over, or none was started.
    Done,
}

/// One open directory: its entries that take part, in the order they are
/// shown, and how many of them have been shown.
struct Frame {
    entries: Vec<FileEntry>,
    next: usize,
}

impl View for Frame {
    type V = FrameView;

    closed spec fn view(&self) -> FrameView {
        FrameView { entries: self.entries@, next: self.next as nat }
    }
}

/// The views of a stack of frames.
spec fn frame_views(frames: Seq<Frame>) -> Seq<FrameView> {
    frames.map_values(|f: Frame| f@)
}

/// The texts that a slice of string slices stands for.
pub open spec fn slice_texts(patterns: Seq<&str>) -> Seq<Seq<char>> {
    patterns.map_values(|s: &str| s@)
}

/// A walker over one directory tree.
pub struct Aldar {
    show_hidden_files: bool,
    dir_only: bool,
    ignore_case: bool,
    level: i32,
    path: String,
    pipe: String,
    item: String,
    last: String,
    // Formatting options
    print_fullpath: bool,
    print_size: bool,
    human_readable: bool,
    replace_nonprintables: bool,
    // Filter options
    exclude_pattern: Option<Vec<String>>,
    include_pattern: Option<Vec<String>>,
    exclude_set: Option<PatternSet>,
    include_set: Option<PatternSet>,
    base: Option<String>,
    separator: char,
    // Statistics
    proc_dirs: u64,
    proc_files: u64,
    indent: Vec<String>,
    sz_last: usize,
    sz_item: usize,
    // The walk
    phase: Phase,
    pending: Option<String>,
    frames: Vec<Frame>,
}

/// The entries that a listing holds, if it could be read.
pub open spec fn entries_of(listing: Option<Vec<FileEntry>>) -> Option<Seq<FileEntry>> {
    match listing {
        Some(raw) => Some(raw@),
        None => None,
    }
}

/// The texts that an optional list of strings stands for.
pub open spec fn list_texts(list: Option<Vec<String>>) -> Option<Seq<Seq<char>>> {
    match list {
        Some(list) => Some(texts(list@)),
        None => None,
    }
}

impl View for Aldar {
    type V = AldarView;

    closed spec fn view(&self) -> AldarView {
        AldarView {
            show_hidden: self.show_hidden_files,
            dirs_only: self.dir_only,
            ignore_case: self.ignore_case,
            level: self.level as int,
            path: self.path@,
            pipe: self.pipe@,
            item: self.item@,
            last: self.last@,
            print_fullpath: self.print_fullpath,
            print_size: self.print_size,
            human_readable: self.human_readable,
            replace_nonprintables: self.replace_nonprintables,
            include_patterns: list_texts(self.include_pattern),
            exclude_patterns: list_texts(self.exclude_pattern),
            include_matcher: matcher_view(self.include_set),
            exclude_matcher: matcher_view(self.exclude_set),
            base: text_of(self.base),
            separator: self.separator,
            dirs: self.proc_dirs,
            files: self.proc_files,
            indent: texts(self.indent@),
            phase: self.phase,
            pending: text_of(self.pending),
            frames: frame_views(self.frames@),
        }
    }
}

impl Aldar {
    /// The widths that blanks are measured by are those of the glyphs in
    /// force.
    pub closed spec fn measured(&self) -> bool {
        &&& self.sz_item == self.item@.len()
        &&& self.sz_last == self.last@.len()
    }

    /// The walker is in a state that a walk can be in.
    pub closed spec fn wf(&self) -> bool {
        self.measured() && self@.wf()
    }

    /// A walker that is in a state that a walk can be in has a view that is:
    /// what is stated of such views holds of the walker's.
    pub proof fn lemma_wf_of_view(&self)
        requires
            self.wf(),
        ensures
            self@.wf(),
            self.measured(),
    {
    }

    /// A walker whose glyphs are measured and whose view is in a state that
    /// a walk can be in is in such a state itself.
    pub proof fn lemma_wf_from_view(&self)
        requires
            self.measured(),
            self@.wf(),
        ensures
            self.wf(),
    {
    }

    /// Creates a walker with nothing filtered or limited, for the directory
    /// `.` and with the glyphs drawn in box-drawing characters.
    pub fn new() -> (aldar: Aldar)
        ensures
            aldar.wf(),
            aldar@.wf(),
            aldar@ == initial(aldar@.separator),
            aldar@.separator == '/' || aldar@.separator == '\\',
    {
        let glyphs = unicode_glyphset();
        let pipe = glyphs.pipe();
        let item = glyphs.item();
        let last = glyphs.last();
        let sz_item = item.as_str().unicode_len();
        let sz_last = last.as_str().unicode_len();
        proof {
            reveal_strlit(".");
        }
        let aldar = Aldar {
            show_hidden_files: false,
            dir_only: false,
            ignore_case: false,
            level: -1,
            path: ".".to_owned(),
            pipe,
            item,
            last,
            print_fullpath: false,
            print_size: false,
            human_readable: false,
            replace_nonprintables: false,
            exclude_pattern: None,
            include_pattern: None,
            exclude_set: None,
            include_set: None,
            base: None,
            separator: main_separator(),
            proc_dirs: 0,
            proc_files: 0,
            indent: Vec::new(),
            sz_last,
            sz_item,
            phase: Phase::Idle,
            pending: None,
            frames: Vec::new(),
        };
        aldar
    }

    /// Configures on which path the walker operates.
    pub fn use_path(&mut self, path: String) -> (ret: &mut Aldar)
        ensures
            ret@ == (AldarView { path: path@, ..old(self)@ }),
            old(self).wf() ==> ret.wf(),
            *final(self) == *final(ret),
    {
        self.path = path;
        self
    }

    /// Configures whether or not hidden entries are shown.
    pub fn show_hidden(&mut self, show_hidden: bool) -> (ret: &mut Aldar)
        ensures
            ret@ == (AldarView { show_hidden, ..old(self)@ }),
            old(self).wf() ==> ret.wf(),
            *final(self) == *final(ret),
    {
        self.show_hidden_files = show_hidden;
        self
    }

    /// Records whether only directories are wanted. The setting is kept but
    /// does not change which entries take part.
    pub fn show_dirs_only(&mut self, show_dirs_only: bool) -> (ret: &mut Aldar)
        ensures
            ret@ == (AldarView { dirs_only: show_dirs_only, ..old(self)@ }),
            old(self).wf() ==> ret.wf(),
            *final(self) == *final(ret),
    {
        self.dir_only = show_dirs_only;
        self
    }

    /// Configures whether or not patterns match without regard to case. The
    /// setting takes effect when the next walk is started.
    pub fn case_sensitive(&mut self, ignore_case: bool) -> (ret: &mut Aldar)
        ensures
            ret@ == (AldarView { ignore_case, ..old(self)@ }),
            old(self).wf() ==> ret.wf(),
            *final(self) == *final(ret),
    {
        self.ignore_case = ignore_case;
        self
    }

    /// Configures which glyphs draw the tree: the three strings that
    /// `glyphs` gives out are taken as they come, and measured.
    pub fn use_glyphset(&mut self, glyphs: Box<dyn Glyphs>) -> (ret: &mut Aldar)
        ensures
            ret@ == (AldarView { pipe: ret@.pipe, item: ret@.item, last: ret@.last, ..old(self)@ }),
            old(self).wf() ==> ret.wf(),
            *final(self) == *final(ret),
    {
        let pipe = glyphs.pipe();
        let item = glyphs.item();
        let last = glyphs.last();
        self.use_glyphs(pipe, item, last)
    }

    /// Configures the three strings that draw the tree, and measures them:
    /// `pipe` continues an open directory, `item` leads to an entry that has
    /// siblings after it, `last` to the final entry of a directory.
    pub fn use_glyphs(&mut self, pipe: String, item: String, last: String) -> (ret: &mut Aldar)
        ensures
            ret@ == (AldarView { pipe: pipe@, item: item@, last: last@, ..old(self)@ }),
            old(self).wf() ==> ret.wf(),
            *final(self) == *final(ret),
    {
        self.sz_item = item.as_str().unicode_len();
        self.sz_last = last.as_str().unicode_len();
        self.pipe = pipe;
        self.item = item;
        self.last = last;
        self
    }

    /// Configures how deep the walk goes: directories at depths up to `lvl`
    /// are opened, the root being at depth 0. A negative `lvl` sets no limit.
    pub fn use_max_level(&mut self, lvl: i32) -> (ret: &mut Aldar)
        ensures
            ret@ == (AldarView { level: lvl as int, ..old(self)@ }),
            old(self).wf() ==> ret.wf(),
            *final(self) == *final(ret),
    {
        self.level = lvl;
        self
    }

    /// Configures whether entries are shown by their paths relative to the
    /// walk's base or by their names.
    pub fn show_fullpath(&mut self, show_fullpath: bool) -> (ret: &mut Aldar)
        ensures
            ret@ == (AldarView { print_fullpath: show_fullpath, ..old(self)@ }),
            old(self).wf() ==> ret.wf(),
            *final(self) == *final(ret),
    {
        self.print_fullpath = show_fullpath;
        self
    }

    /// Configures whether each line holds the entry's size.
    pub fn show_size(&mut self, show_size: bool) -> (ret: &mut Aldar)
        ensures
            ret@ == (AldarView { print_size: show_size, ..old(self)@ }),
            old(self).wf() ==> ret.wf(),
            *final(self) == *final(ret),
    {
        self.print_size = show_size;
        self
    }

    /// Configures whether sizes are scaled to units.
    pub fn show_human_readable(&mut self, show_human_readable: bool) -> (ret: &mut Aldar)
        ensures
            ret@ == (AldarView { human_readable: show_human_readable, ..old(self)@ }),
            old(self).wf() ==> ret.wf(),
            *final(self) == *final(ret),
    {
        self.human_readable = show_human_readable;
        self
    }

    /// Records whether characters that cannot be printed are to be replaced.
    /// The setting is kept but does not change any line.
    pub fn do_replace_nonprintable_chars(&mut self, replace_nonprintables: bool) -> (ret:
        &mut Aldar)
        ensures
            ret@ == (AldarView { replace_nonprintables, ..old(self)@ }),
            old(self).wf() ==> ret.wf(),
            *final(self) == *final(ret),
    {
        self.replace_nonprintables = replace_nonprintables;
        self
    }

    /// Configures the patterns of which a file's name must match one. They
    /// are compiled when the next walk is started.
    pub fn set_include_patterns(&mut self, patterns: &[&str]) -> (ret: &mut Aldar)
        ensures
            ret@ == (AldarView {
                include_patterns: Some(slice_texts(patterns@)),
                ..old(self)@
            }),
            old(self).wf() ==> ret.wf(),
            *final(self) == *final(ret),
    {
        let list = owned_patterns(patterns);
        self.include_pattern = Some(list);
        self
    }

    /// Configures the patterns of which a file's name and a directory's path
    /// must match none. They are compiled when the next walk is started.
    pub fn set_exclude_patterns(&mut self, patterns: &[&str]) -> (ret: &mut Aldar)
        ensures
            ret@ == (AldarView {
                exclude_patterns: Some(slice_texts(patterns@)),
                ..old(self)@
            }),
            old(self).wf() ==> ret.wf(),
            *final(self) == *final(ret),
    {
        let list = owned_patterns(patterns);
        self.exclude_pattern = Some(list);
        self
    }

    /// Whether the directory with this path is left out of the walk with
    /// all below it: the exclude patterns are compiled and one of them
    /// matches the path.
    pub fn is_excluded(&self, path: &str) -> (excluded: bool)
        ensures
            excluded == self@.excludes(path@),
    {
        match &self.exclude_set {
            Some(set) => set.is_match(path),
            None => false,
        }
    }

    /// Whether an entry takes part in the tree. The patterns are consulted
    /// only for a file that is not left out for being hidden, and the exclude
    /// patterns only where the include patterns let it pass.
    pub fn takes_part(&self, entry: &FileEntry) -> (accepted: bool)
        ensures
            accepted == self@.accepts(entry@),
    {
        let hidden = entry.is_hidden();
        let dir = entry.is_dir();
        let mut included: Option<bool> = None;
        let mut excluded: Option<bool> = None;
        if !dir && (self.show_hidden_files || !hidden) {
            let name = entry.display_name();
            if let Some(matcher) = &self.include_set {
                included = Some(matcher.is_match(name.as_str()));
            }
            if included != Some(false) {
                if let Some(matcher) = &self.exclude_set {
                    excluded = Some(matcher.is_match(name.as_str()));
                }
            }
        }
        admits(self.show_hidden_files, hidden, dir, included, excluded)
    }

    /// Takes in the entries of one directory as they were read: those that
    /// take part are counted, directories and files apart, and come back in
    /// the order they are shown in. Each count stops at the largest number
    /// it can hold.
    pub fn fetch_directory(&mut self, raw: Vec<FileEntry>) -> (entries: Vec<FileEntry>)
        ensures
            entries@ == arranged(old(self)@.selected(raw@)),
            in_order(entries@),
            entries@.len() == old(self)@.selected(raw@).len(),
            entries@.to_multiset() == old(self)@.selected(raw@).to_multiset(),
            final(self)@ == old(self)@.fetched(raw@),
            old(self).wf() ==> final(self).wf(),
    {
        let ghost before = self@;
        let ghost listing = raw@;
        let mut entries: Vec<FileEntry> = Vec::new();
        proof {
            reveal(Seq::filter);
        }
        for entry in it: raw
            invariant
                it.seq() == listing,
                entries@ == arranged(before.selected(listing.take(it.index() as int))),
                self@ == (AldarView {
                    dirs: counted(
                        before.dirs,
                        dirs_in(before.selected(listing.take(it.index() as int))),
                    ),
                    files: counted(
                        before.files,
                        files_in(before.selected(listing.take(it.index() as int))),
                    ),
                    ..before
                }),
                self.measured() == old(self).measured(),
        {
            let ghost seen = listing.take(it.index() as int);
            let ghost more = listing.take(it.index() + 1);
            proof {
                reveal(Seq::filter);
                assert(more.drop_last() =~= seen);
            }
            if self.takes_part(&entry) {
                proof {
                    assert(before.selected(more).drop_last() =~= before.selected(seen));
                }
                if entry.is_dir() {
                    if self.proc_dirs < u64::MAX {
                        self.proc_dirs = self.proc_dirs + 1;
                    }
                } else {
                    if self.proc_files < u64::MAX {
                        self.proc_files = self.proc_files + 1;
                    }
                }
                place(&mut entries, entry);
            } else {
                assert(before.selected(more) == before.selected(seen));
            }
        }
        proof {
            assert(listing.take(listing.len() as int) =~= listing);
            lemma_arranged(before.selected(listing));
        }
        entries
    }

    /// Pushes the fragment for a directory that is being entered: blanks as
    /// wide as the `last` glyph and one more where the directory is the last
    /// of its siblings, else the pipe and blanks as wide as the `item` glyph.
    /// The fragments below stay as they are.
    ///
    /// A walk does this by itself. Done from outside, it leaves the indent
    /// stack one fragment deeper than the walk is, until `do_unindent` takes
    /// the fragment off again.
    pub fn do_indent(&mut self, is_last: bool)
        requires
            old(self).measured(),
        ensures
            final(self)@ == old(self)@.indented(is_last),
            final(self).measured(),
    {
        let mut fragment = String::new();
        if is_last {
            push_spaces(&mut fragment, self.sz_last);
            fragment.push(' ');
        } else {
            fragment.append(self.pipe.as_str());
            push_spaces(&mut fragment, self.sz_item);
        }
        assert(fragment@ =~= old(self)@.fragment(is_last));
        self.indent.push(fragment);
    }

    /// Takes the top fragment off again, and nothing else. On an empty stack
    /// nothing changes.
    pub fn do_unindent(&mut self)
        ensures
            final(self)@ == old(self)@.unindented(),
            final(self).measured() == old(self).measured(),
    {
        self.indent.pop();
    }

    /// Writes the cell that shows a size of `sz` bytes.
    pub fn size_as_str(&self, sz: u64) -> (cell: String)
        ensures
            cell@ == size_text(sz, self@.human_readable),
    {
        size_cell(sz, self.human_readable)
    }

    /// Puts together the line of an entry whose name has come back from
    /// colouring as `painted`.
    pub fn compose(&self, entry: &FileEntry, last: bool, painted: &str) -> (line: String)
        ensures
            line@ == self@.line(entry@, last, painted@),
    {
        let mut line = join_all(&self.indent);
        if last {
            line.append(self.last.as_str());
        } else {
            line.append(self.item.as_str());
        }
        if self.print_size {
            let cell = self.size_as_str(entry.size());
            line.append(cell.as_str());
        }
        line.push(' ');
        line.append(painted);
        line
    }

    /// Writes the line of an entry: its prefix, then its name in the colour
    /// of its kind.
    pub fn print_entry(&self, entry: &FileEntry, last: bool) -> (line: String)
        ensures
            self@.is_line_for(line@, entry@, last),
    {
        let shown = if self.print_fullpath {
            match &self.base {
                Some(base) => entry.relative_to(base.as_str(), self.separator),
                None => entry.display_name(),
            }
        } else {
            entry.display_name()
        };
        let style = pick_style(entry.is_dir(), entry.is_hidden(), entry.is_executable());
        let painted = paint(shown, style);
        self.compose(entry, last, painted.as_str())
    }

    /// Writes the closing line.
    pub fn summary(&self) -> (line: String)
        ensures
            line@ == summary_text(self@.dirs, self@.files),
    {
        let mut line = String::new();
        line.push('\n');
        push_decimal(&mut line, self.proc_dirs as u128);
        line.append(" directories, ");
        push_decimal(&mut line, self.proc_files as u128);
        line.append(" files");
        line
    }

    /// Takes the outcome of compiling the include patterns: a set is put to
    /// use, a failure is reported and changes nothing.
    pub fn use_include_set(&mut self, built: Result<PatternSet, regex::Error>) -> (done:
        Result<(), AldarError>)
        ensures
            match built {
                Ok(set) => done is Ok && final(self)@ == (AldarView {
                    include_matcher: Some(set@),
                    ..old(self)@
                }),
                Err(_) => done == Err::<(), AldarError>(AldarError::InvalidIncludePattern)
                    && final(self)@ == old(self)@,
            },
            old(self).wf() ==> final(self).wf(),
    {
        match built {
            Ok(set) => {
                self.include_set = Some(set);
                Ok(())
            },
            Err(_) => Err(AldarError::InvalidIncludePattern),
        }
    }

    /// Takes the outcome of compiling the exclude patterns: a set is put to
    /// use, a failure is reported and changes nothing.
    pub fn use_exclude_set(&mut self, built: Result<PatternSet, regex::Error>) -> (done:
        Result<(), AldarError>)
        ensures
            match built {
                Ok(set) => done is Ok && final(self)@ == (AldarView {
                    exclude_matcher: Some(set@),
                    ..old(self)@
                }),
                Err(_) => done == Err::<(), AldarError>(AldarError::InvalidExcludePattern)
                    && final(self)@ == old(self)@,
            },
            old(self).wf() ==> final(self).wf(),
    {
        match built {
            Ok(set) => {
                self.exclude_set = Some(set);
                Ok(())
            },
            Err(_) => Err(AldarError::InvalidExcludePattern),
        }
    }

    /// Forgets any walk and anything counted.
    fn reset(&mut self)
        ensures
            final(self)@ == old(self)@.reset(),
            final(self).measured() == old(self).measured(),
    {
        self.proc_dirs = 0;
        self.proc_files = 0;
        self.indent = Vec::new();
        self.phase = Phase::Idle;
        self.pending = None;
        self.frames = Vec::new();
    }

    /// Starts a walk. `base` is the path that full paths are shown relative
    /// to: the root's canonical path, where it could be resolved.
    ///
    /// Counts and any earlier walk are forgotten, then the include patterns
    /// and the exclude patterns are compiled, in this order, each with the
    /// case sensitivity that is configured. Whether a list of patterns
    /// compiles is for the regular expression engine to say; a walker without
    /// patterns always starts. Where the include patterns fail, nothing is
    /// put to use; where the exclude patterns fail, the include patterns have
    /// been. After a failure no walk is under way.
    pub fn run(&mut self, base: Option<String>) -> (started: Result<(), AldarError>)
        requires
            old(self).wf(),
        ensures
            final(self).wf(),
            final(self)@.wf(),
            old(self)@.include_patterns is None && old(self)@.exclude_patterns is None
                ==> started is Ok,
            match started {
                Ok(_) => final(self)@ == old(self)@.started(text_of(base)),
                Err(AldarError::InvalidIncludePattern) => {
                    &&& old(self)@.include_patterns is Some
                    &&& final(self)@ == old(self)@.reset()
                },
                Err(AldarError::InvalidExcludePattern) => {
                    &&& old(self)@.exclude_patterns is Some
                    &&& final(self)@ == (AldarView {
                        include_matcher: old(self)@.fresh_include(),
                        ..old(self)@.reset()
                    })
                },
            },
    {
        self.reset();
        let built = match &self.include_pattern {
            Some(patterns) => Some(PatternSet::compile(patterns, self.ignore_case)),
            None => None,
        };
        if let Some(built) = built {
            if let Err(e) = self.use_include_set(built) {
                return Err(e);
            }
        }
        let built = match &self.exclude_pattern {
            Some(patterns) => Some(PatternSet::compile(patterns, self.ignore_case)),
            None => None,
        };
        if let Some(built) = built {
            if let Err(e) = self.use_exclude_set(built) {
                return Err(e);
            }
        }
        self.base = base;
        self.phase = Phase::Header;
        Ok(())
    }

    /// Closes every directory that has been shown in full and has no open
    /// directory above it.
    fn unwind(&mut self)
        requires
            old(self).wf(),
            old(self)@.pending is None,
        ensures
            final(self)@ == old(self)@.unwound(),
            final(self).wf(),
    {
        loop
            invariant
                self.wf(),
                self@.pending is None,
                self@.unwound() == old(self)@.unwound(),
            ensures
                !self@.top_done(),
            decreases self.frames@.len(),
        {
            let n = self.frames.len();
            if n == 0 {
                break;
            }
            if self.frames[n - 1].next < self.frames[n - 1].entries.len() {
                break;
            }
            let ghost before = self@;
            self.frames.pop();
            if n > 1 {
                self.do_unindent();
            }
            proof {
                assert(self@ =~= before.closed());
                assert forall|i: int| 0 <= i < self@.frames.len() implies (
                #[trigger] self@.frames[i]).next <= self@.frames[i].entries.len() && in_order(
                    self@.frames[i].entries,
                ) by {}
            }
        }
    }

    /// Whether directories at `depth` are opened.
    fn descends(&self, depth: usize) -> (open: bool)
        ensures
            open == self@.descends(depth as nat),
    {
        self.level < 0 || depth <= self.level as usize
    }

    /// Takes the walk one step further and says what the caller is to do.
    ///
    /// The first step of a walk gives the line that names the root, in
    /// colour. After that each step gives the line of the next entry, depth
    /// first, or asks for the listing of the directory that was just shown,
    /// where the walk goes into it; that request is repeated until
    /// `show_dir` has been given the listing. When nothing is left to show,
    /// one step gives the closing line, and all later ones give `Done`.
    pub fn next_step(&mut self) -> (step: Step)
        requires
            old(self).wf(),
        ensures
            final(self).wf(),
            final(self)@.wf(),
            final(self)@ == old(self)@.stepped(),
            match old(self)@.turn() {
                Turn::Rest => step is Done,
                Turn::Header => step matches Step::Line(line) && old(self)@.is_header(line@),
                Turn::Ask(path) => step matches Step::List(asked) && asked@ == path,
                Turn::Entry(entry, last) => step matches Step::Line(line) && old(
                    self,
                )@.unwound().is_line_for(line@, entry, last),
                Turn::Summary => step matches Step::Line(line) && line@ == summary_text(
                    old(self)@.dirs,
                    old(self)@.files,
                ),
            },
    {
        proof {
            lemma_stepped_wf(self@);
        }
        match self.phase {
            Phase::Idle => Step::Done,
            Phase::Finished => Step::Done,
            Phase::Header => {
                let line = blue(self.path.as_str());
                self.phase = Phase::Walking;
                if !self.is_excluded(self.path.as_str()) {
                    self.pending = Some(self.path.clone());
                }
                Step::Line(line)
            },
            Phase::Walking => {
                if let Some(path) = &self.pending {
                    return Step::List(path.clone());
                }
                proof {
                    lemma_unwound(self@);
                }
                self.unwind();
                let ghost u = self@;
                if self.frames.len() == 0 {
                    self.phase = Phase::Finished;
                    return Step::Line(self.summary());
                }
                let ghost top = u.frames.last();
                let mut frame = self.frames.pop().unwrap();
                let index = frame.next;
                let count = frame.entries.len();
                let last = index + 1 == count;
                let entry = &frame.entries[index];
                let line = self.print_entry(entry, last);
                let enter = entry.is_dir() && self.descends(self.frames.len() + 1)
                    && !self.is_excluded(entry.path.as_str());
                let path = if enter {
                    Some(entry.path.clone())
                } else {
                    None
                };
                assert(self@.is_line_for(line@, entry@, last) ==> u.is_line_for(
                    line@,
                    entry@,
                    last,
                ));
                frame.next = index + 1;
                self.frames.push(frame);
                assert(frame_views(self.frames@) =~= u.frames.drop_last().push(
                    FrameView { next: top.next + 1, ..top },
                ));
                if enter {
                    self.do_indent(last);
                    self.pending = path;
                }
                Step::Line(line)
            },
        }
    }

    /// Takes in the listing that the last step asked for: `None` for a
    /// directory that could not be read, else its entries as they were read.
    /// The entries that take part are counted and arranged, and the
    /// directory is opened with them. Where no listing is awaited, nothing
    /// changes.
    pub fn show_dir(&mut self, listing: Option<Vec<FileEntry>>)
        requires
            old(self).wf(),
        ensures
            final(self).wf(),
            final(self)@.wf(),
            final(self)@ == old(self)@.listed(entries_of(listing)),
    {
        let ghost given = entries_of(listing);
        proof {
            lemma_listed_wf(self@, given);
        }
        if self.phase != Phase::Walking || self.pending.is_none() {
            return ;
        }
        let entries = match listing {
            Some(raw) => self.fetch_directory(raw),
            None => Vec::new(),
        };
        let ghost fetched = self@;
        self.frames.push(Frame { entries, next: 0 });
        self.pending = None;
        assert(frame_views(self.frames@) =~= fetched.frames.push(
            FrameView { entries: entries@, next: 0 },
        ));
    }
}

/// The patterns of `patterns` as strings of their own.
fn owned_patterns(patterns: &[&str]) -> (list: Vec<String>)
    ensures
        texts(list@) == slice_texts(patterns@),
{
    let mut list: Vec<String> = Vec::new();
    let mut i: usize = 0;
    while i < patterns.len()
        invariant
            i <= patterns@.len(),
            list@.len() == i,
            forall|j: int| 0 <= j < i ==> list@[j]@ == patterns@[j]@,
        decreases patterns@.len() - i,
    {
        list.push(patterns[i].to_owned());
        i = i + 1;
    }
    list
}

} // verus!
