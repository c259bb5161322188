//! Whole walks: what holds of every state that a walk reaches, and of all
//! the lines that it shows under one directory.
//!
//! A walk proceeds in rounds. In each round the walker takes one step, and
//! where that step asks for a listing, the caller hands one in.

use vstd::prelude::*;
use crate::fsutil::FileEntry;
use crate::order::lemma_arranged;
use crate::state::{
    lemma_counts_arranged, lemma_level_zero_stays_shallow, lemma_listed_wf,
    lemma_step_counts_lines, lemma_stepped_wf, lemma_unwound, AldarView, FrameView, Phase, Turn,
};

verus! {

/// The state after one round: the step, and the listing taken in where the
/// step asked for one.
pub open spec fn round(s: AldarView, listing: Option<Seq<FileEntry>>) -> AldarView {
    if s.turn() is Ask {
        s.stepped().listed(listing)
    } else {
        s.stepped()
    }
}

/// The state after `n` rounds from `s`, where a request in round `i` is
/// answered with `listings(i)`.
pub open spec fn after_rounds(
    s: AldarView,
    listings: spec_fn(nat) -> Option<Seq<FileEntry>>,
    n: nat,
) -> AldarView
    decreases n,
{
    if n == 0 {
        s
    } else {
        round(after_rounds(s, listings, (n - 1) as nat), listings((n - 1) as nat))
    }
}

/// Whether the next step shows the line of an entry that stands directly
/// under the directory at position `d` of the stack.
pub open spec fn shows_under(s: AldarView, d: int) -> bool {
    s.turn() is Entry && s.unwound().frames.len() == d + 1
}

/// How many of the rounds `from`, .., `to - 1` show a line directly under
/// the directory at position `d` of the stack.
pub open spec fn lines_under(
    s: AldarView,
    listings: spec_fn(nat) -> Option<Seq<FileEntry>>,
    from: nat,
    to: nat,
    d: int,
) -> nat
    decreases to,
{
    if to <= from {
        0
    } else {
        lines_under(s, listings, from, (to - 1) as nat, d) + if shows_under(
            after_rounds(s, listings, (to - 1) as nat),
            d,
        ) {
            1nat
        } else {
            0nat
        }
    }
}

/// A round changes nothing of the configuration.
pub proof fn lemma_round_keeps_settings(s: AldarView, listing: Option<Seq<FileEntry>>)
    requires
        s.wf(),
    ensures
        round(s, listing).wf(),
        round(s, listing).level == s.level,
        round(s, listing).show_hidden == s.show_hidden,
        round(s, listing).include_matcher == s.include_matcher,
        round(s, listing).exclude_matcher == s.exclude_matcher,
{
    lemma_stepped_wf(s);
    lemma_listed_wf(s.stepped(), listing);
    if s.phase == Phase::Walking && s.pending is None {
        lemma_unwound(s);
    }
}

/// Every state of a walk is one that a walk can be in. In particular the
/// indent stack always holds one fragment for each open or awaited directory
/// but the root.
pub proof fn lemma_walk_wf(
    s: AldarView,
    listings: spec_fn(nat) -> Option<Seq<FileEntry>>,
    n: nat,
)
    requires
        s.wf(),
    ensures
        after_rounds(s, listings, n).wf(),
        after_rounds(s, listings, n).indent.len() == after_rounds(s, listings, n).depth(),
        after_rounds(s, listings, n).level == s.level,
        after_rounds(s, listings, n).exclude_matcher == s.exclude_matcher,
    decreases n,
{
    if n > 0 {
        lemma_walk_wf(s, listings, (n - 1) as nat);
        lemma_round_keeps_settings(
            after_rounds(s, listings, (n - 1) as nat),
            listings((n - 1) as nat),
        );
    }
}

/// No listing is ever asked for of a directory whose path matches an
/// exclude pattern: its entries are never read, taken in, counted or shown,
/// whatever they are.
pub proof fn lemma_walk_asks_for_no_excluded(
    s: AldarView,
    listings: spec_fn(nat) -> Option<Seq<FileEntry>>,
    n: nat,
)
    requires
        s.wf(),
        s.pending is None,
    ensures
        after_rounds(s, listings, n).turn() matches Turn::Ask(path) ==> !s.excludes(path),
        after_rounds(s, listings, n).pending matches Some(path) ==> !s.excludes(path),
    decreases n,
{
    lemma_walk_wf(s, listings, n);
    if n > 0 {
        let before = after_rounds(s, listings, (n - 1) as nat);
        lemma_walk_wf(s, listings, (n - 1) as nat);
        lemma_walk_asks_for_no_excluded(s, listings, (n - 1) as nat);
        if before.phase == Phase::Walking && before.pending is None {
            lemma_unwound(before);
        }
    }
}

/// With a limit of 0 a walk shows the root's own entries and nothing below
/// them: from its start on, whatever the listings hold, at most the root is
/// open or awaited; every line of an entry stands directly under the root;
/// and a listing is asked for only while nothing is open, which is the
/// root's.
pub proof fn lemma_walk_level_zero(
    s: AldarView,
    listings: spec_fn(nat) -> Option<Seq<FileEntry>>,
    n: nat,
)
    requires
        s.wf(),
        s.level == 0,
        s.shallow(),
    ensures
        after_rounds(s, listings, n).shallow(),
        after_rounds(s, listings, n).turn() is Entry ==> shows_under(
            after_rounds(s, listings, n),
            0,
        ),
        after_rounds(s, listings, n).turn() is Ask ==> after_rounds(s, listings, n).frames.len()
            == 0,
    decreases n,
{
    lemma_walk_wf(s, listings, n);
    if n > 0 {
        let before = after_rounds(s, listings, (n - 1) as nat);
        lemma_walk_wf(s, listings, (n - 1) as nat);
        lemma_walk_level_zero(s, listings, (n - 1) as nat);
        lemma_level_zero_stays_shallow(before, listings((n - 1) as nat), None);
        if before.phase == Phase::Walking && before.pending is None {
            lemma_unwound(before);
        }
    }
    let now = after_rounds(s, listings, n);
    if now.phase == Phase::Walking && now.pending is None {
        lemma_unwound(now);
    }
}

/// While the directory at position `d` stays open, its entries stay the
/// same and its count of shown entries is the number of lines shown
/// directly under it since it was opened.
proof fn lemma_count_tracks_lines(
    s: AldarView,
    listings: spec_fn(nat) -> Option<Seq<FileEntry>>,
    opened: nat,
    now: nat,
    d: int,
)
    requires
        s.wf(),
        opened < now,
        after_rounds(s, listings, opened).turn() is Ask,
        d == after_rounds(s, listings, opened).frames.len(),
        forall|j: nat| opened < j <= now ==> after_rounds(s, listings, j).frames.len() > d,
    ensures
        after_rounds(s, listings, now).frames[d].entries == after_rounds(
            s,
            listings,
            opened + 1,
        ).frames[d].entries,
        after_rounds(s, listings, now).frames[d].next == lines_under(
            s,
            listings,
            opened + 1,
            now,
            d,
        ),
    decreases now,
{
    lemma_walk_wf(s, listings, opened);
    if now > opened + 1 {
        let prev = (now - 1) as nat;
        let before = after_rounds(s, listings, prev);
        lemma_count_tracks_lines(s, listings, opened, prev, d);
        lemma_walk_wf(s, listings, prev);
        lemma_step_counts_lines(before);
        if before.phase == Phase::Walking && before.pending is None {
            lemma_unwound(before);
        }
    }
}

/// Under every directory as many lines are shown as its listing holds
/// entries that take part, and none under a directory that could not be
/// read.
///
/// Let round `opened` take in the listing of a directory, which is then open
/// at position `d` of the stack, and let round `closed - 1` be the one that
/// closes it. Then the rounds in between show, directly under that
/// directory, exactly as many lines as there are entries in the directory's
/// arranged selection, which has as many entries as the selection itself.
pub proof fn lemma_lines_under_directory(
    s: AldarView,
    listings: spec_fn(nat) -> Option<Seq<FileEntry>>,
    opened: nat,
    closed: nat,
    d: int,
)
    requires
        s.wf(),
        opened < closed,
        after_rounds(s, listings, opened).turn() is Ask,
        d == after_rounds(s, listings, opened).frames.len(),
        forall|j: nat| opened < j < closed ==> after_rounds(s, listings, j).frames.len() > d,
        after_rounds(s, listings, closed).frames.len() <= d,
    ensures
        lines_under(s, listings, opened + 1, closed, d) == match listings(opened) {
            Some(raw) => after_rounds(s, listings, opened).selected(raw).len(),
            None => 0,
        },
{
    let asked = after_rounds(s, listings, opened);
    lemma_walk_wf(s, listings, opened);
    if listings(opened) is Some {
        lemma_arranged(asked.selected(listings(opened)->0));
    }
    let prev = (closed - 1) as nat;
    let before = after_rounds(s, listings, prev);
    if prev > opened + 1 {
        lemma_count_tracks_lines(s, listings, opened, prev, d);
    }
    // up to the round that closes the directory, its count is the number of
    // lines shown under it; that round finds every entry shown
    assert(before.frames[d].next == lines_under(s, listings, opened + 1, prev, d));
    lemma_walk_wf(s, listings, prev);
    lemma_step_counts_lines(before);
    if before.phase == Phase::Walking && before.pending is None {
        lemma_unwound(before);
    }
}

/// How many entries of the open directories are still to be shown.
pub open spec fn to_show(frames: Seq<FrameView>) -> int
    decreases frames.len(),
{
    if frames.len() == 0 {
        0
    } else {
        to_show(frames.drop_last()) + frames.last().entries.len() - frames.last().next
    }
}

/// How many of the first `n` rounds show the line of an entry.
pub open spec fn lines_shown(
    s: AldarView,
    listings: spec_fn(nat) -> Option<Seq<FileEntry>>,
    n: nat,
) -> nat
    decreases n,
{
    if n == 0 {
        0
    } else {
        lines_shown(s, listings, (n - 1) as nat) + if after_rounds(
            s,
            listings,
            (n - 1) as nat,
        ).turn() is Entry {
            1nat
        } else {
            0nat
        }
    }
}

/// Closing the directories that have been shown in full leaves as many
/// entries to show as there were.
proof fn lemma_to_show_unwound(s: AldarView)
    requires
        s.wf(),
        s.pending is None,
    ensures
        to_show(s.unwound().frames) == to_show(s.frames),
    decreases s.frames.len(),
{
    if s.top_done() {
        lemma_to_show_unwound(s.closed());
    }
}

/// A round shows one entry, or takes in the entries that take part in a
/// listing, or leaves everything as it is: the counts of a round's end are
/// those of its start and the entries taken in, and what is left to show is
/// what was left and was taken in, less the entry shown. The counts never
/// go down.
proof fn lemma_round_accounts(s: AldarView, listing: Option<Seq<FileEntry>>)
    requires
        s.wf(),
        round(s, listing).dirs < u64::MAX,
        round(s, listing).files < u64::MAX,
    ensures
        s.dirs <= round(s, listing).dirs,
        s.files <= round(s, listing).files,
        round(s, listing).dirs + round(s, listing).files + to_show(s.frames) + if s.turn()
            is Entry {
            0int
        } else {
            1int
        } == s.dirs + s.files + to_show(round(s, listing).frames) + 1,
{
    let t = round(s, listing);
    if s.phase == Phase::Walking {
        if s.pending is Some {
            assert(t.frames.drop_last() =~= s.frames);
            if listing is Some {
                lemma_counts_arranged(s.selected(listing->0));
                lemma_arranged(s.selected(listing->0));
            }
        } else {
            lemma_unwound(s);
            lemma_to_show_unwound(s);
            let u = s.unwound();
            if u.frames.len() > 0 {
                assert(t.frames.drop_last() =~= u.frames.drop_last());
            }
        }
    }
}

/// All the lines of a walk are counted: as long as neither count has come
/// to the largest number it can hold, the two counts together are the
/// entries shown so far and those of the open directories that are still
/// to be shown. When the walk has closed every directory, the counts of its
/// closing line are together the number of its entries' lines.
pub proof fn lemma_lines_are_counted(
    s: AldarView,
    listings: spec_fn(nat) -> Option<Seq<FileEntry>>,
    n: nat,
)
    requires
        s.wf(),
        s.frames.len() == 0,
        s.dirs == 0,
        s.files == 0,
        after_rounds(s, listings, n).dirs < u64::MAX,
        after_rounds(s, listings, n).files < u64::MAX,
    ensures
        after_rounds(s, listings, n).dirs + after_rounds(s, listings, n).files == lines_shown(
            s,
            listings,
            n,
        ) + to_show(after_rounds(s, listings, n).frames),
        after_rounds(s, listings, n).frames.len() == 0 ==> after_rounds(s, listings, n).dirs
            + after_rounds(s, listings, n).files == lines_shown(s, listings, n),
    decreases n,
{
    if n > 0 {
        let before = after_rounds(s, listings, (n - 1) as nat);
        lemma_walk_wf(s, listings, (n - 1) as nat);
        lemma_round_accounts(before, listings((n - 1) as nat));
        lemma_lines_are_counted(s, listings, (n - 1) as nat);
    }
}

} // verus!
