//! The order in which the entries of one directory are shown.
//!
//! Directories come before files. Within each kind the entries are ordered
//! by their paths, compared byte by byte in their UTF-8 encoding.

use vstd::prelude::*;
use vstd::multiset::group_multiset_axioms;
use vstd::seq_lib::{to_multiset_build, to_multiset_contains, to_multiset_insert, to_multiset_len};
use vstd::utf8::{
    encode_utf8, encode_utf8_decode_utf8, is_ascii_chars, is_ascii_chars_encode_utf8,
};
use crate::fsutil::{EntryView, FileEntry};

verus! {

/// `k` is the first position at which `a` and `b` part, and `a` is the
/// lesser there: it has ended, or it holds the smaller byte.
pub open spec fn parts_below(a: Seq<u8>, b: Seq<u8>, k: int) -> bool {
    &&& 0 <= k <= a.len()
    &&& k < b.len()
    &&& forall|j: int| 0 <= j < k ==> a[j] == b[j]
    &&& (k == a.len() || a[k] < b[k])
}

/// `a` comes strictly before `b` in lexicographic order.
pub open spec fn bytes_before(a: Seq<u8>, b: Seq<u8>) -> bool {
    exists|k: int| parts_below(a, b, k)
}

/// The key that paths are ordered by.
pub open spec fn path_key(path: Seq<char>) -> Seq<u8> {
    encode_utf8(path)
}

/// `x` is shown strictly before `y`: it is a directory and `y` is not, or
/// both are of one kind and the path of `x` comes first.
pub open spec fn entry_before(x: EntryView, y: EntryView) -> bool {
    (x.dir && !y.dir) || (x.dir == y.dir && bytes_before(path_key(x.path), path_key(y.path)))
}

/// No entry of `entries` is shown after one that should follow it.
pub open spec fn in_order(entries: Seq<FileEntry>) -> bool {
    forall|i: int, j: int| 0 <= i < j < entries.len() ==> !entry_before(entries[j]@, entries[i]@)
}

/// Where `e` goes in the ordered sequence `entries`: behind the last entry
/// that it does not come before.
pub open spec fn place_index(entries: Seq<FileEntry>, e: FileEntry) -> int
    decreases entries.len(),
{
    if entries.len() > 0 && entry_before(e@, entries.last()@) {
        place_index(entries.drop_last(), e)
    } else {
        entries.len() as int
    }
}

/// `entries` with `e` put in its place.
pub open spec fn placed(entries: Seq<FileEntry>, e: FileEntry) -> Seq<FileEntry> {
    entries.insert(place_index(entries, e), e)
}

/// `entries` arranged in the order they are shown in. Entries that neither
/// come before the other stay in the order they had.
pub open spec fn arranged(entries: Seq<FileEntry>) -> Seq<FileEntry>
    decreases entries.len(),
{
    if entries.len() == 0 {
        Seq::empty()
    } else {
        placed(arranged(entries.drop_last()), entries.last())
    }
}

/// No sequence of bytes comes before itself.
pub proof fn lemma_bytes_irreflexive(a: Seq<u8>)
    ensures
        !bytes_before(a, a),
{
}

/// Of two sequences of bytes at most one comes before the other.
pub proof fn lemma_bytes_asymmetric(a: Seq<u8>, b: Seq<u8>)
    requires
        bytes_before(a, b),
    ensures
        !bytes_before(b, a),
{
    let k = choose|k: int| parts_below(a, b, k);
    assert forall|m: int| !parts_below(b, a, m) by {}
}

/// What comes before something that comes before a third comes before the
/// third.
pub proof fn lemma_bytes_transitive(a: Seq<u8>, b: Seq<u8>, c: Seq<u8>)
    requires
        bytes_before(a, b),
        bytes_before(b, c),
    ensures
        bytes_before(a, c),
{
    let k = choose|k: int| parts_below(a, b, k);
    let m = choose|m: int| parts_below(b, c, m);
    let n = if k <= m {
        k
    } else {
        m
    };
    assert(parts_below(a, c, n));
}

/// Two sequences that agree before position `i` are the same, or one comes
/// before the other.
proof fn lemma_bytes_part(a: Seq<u8>, b: Seq<u8>, i: int)
    requires
        0 <= i <= a.len(),
        i <= b.len(),
        forall|j: int| 0 <= j < i ==> a[j] == b[j],
    ensures
        a == b || bytes_before(a, b) || bytes_before(b, a),
    decreases a.len() - i,
{
    if i == a.len() && i == b.len() {
        assert(a =~= b);
    } else if i == a.len() {
        assert(parts_below(a, b, i));
    } else if i == b.len() {
        assert(parts_below(b, a, i));
    } else if a[i] < b[i] {
        assert(parts_below(a, b, i));
    } else if b[i] < a[i] {
        assert(parts_below(b, a, i));
    } else {
        lemma_bytes_part(a, b, i + 1);
    }
}

/// Of two different sequences of bytes one comes before the other.
pub proof fn lemma_bytes_total(a: Seq<u8>, b: Seq<u8>)
    requires
        a != b,
    ensures
        bytes_before(a, b) || bytes_before(b, a),
{
    lemma_bytes_part(a, b, 0);
}

/// Different paths have different keys.
pub proof fn lemma_path_key_injective(p: Seq<char>, q: Seq<char>)
    requires
        path_key(p) == path_key(q),
    ensures
        p == q,
{
    encode_utf8_decode_utf8(p);
    encode_utf8_decode_utf8(q);
}

/// For paths of ASCII characters the order is that of the characters: a
/// path comes before another if, where the two first part, it has ended or
/// holds the smaller character.
pub proof fn lemma_ascii_paths_by_characters(p: Seq<char>, q: Seq<char>, k: int)
    requires
        is_ascii_chars(p),
        is_ascii_chars(q),
        0 <= k <= p.len(),
        k < q.len(),
        forall|j: int| 0 <= j < k ==> p[j] == q[j],
        k == p.len() || p[k] < q[k],
    ensures
        bytes_before(path_key(p), path_key(q)),
{
    is_ascii_chars_encode_utf8(p);
    is_ascii_chars_encode_utf8(q);
    assert(parts_below(path_key(p), path_key(q), k));
}

/// The order of entries is strict: no entry comes before itself, and of two
/// entries at most one comes before the other.
pub proof fn lemma_entry_order_strict(x: EntryView, y: EntryView)
    ensures
        !entry_before(x, x),
        entry_before(x, y) ==> !entry_before(y, x),
{
    lemma_bytes_irreflexive(path_key(x.path));
    if bytes_before(path_key(x.path), path_key(y.path)) {
        lemma_bytes_asymmetric(path_key(x.path), path_key(y.path));
    }
}

/// The order of entries is transitive.
pub proof fn lemma_entry_order_transitive(x: EntryView, y: EntryView, z: EntryView)
    requires
        entry_before(x, y),
        entry_before(y, z),
    ensures
        entry_before(x, z),
{
    if x.dir == y.dir && y.dir == z.dir {
        lemma_bytes_transitive(path_key(x.path), path_key(y.path), path_key(z.path));
    }
}

/// The order of entries is total: a directory comes before every file, and
/// of two entries of one kind with different paths one comes before the
/// other, as their paths decide.
pub proof fn lemma_entry_order_total(x: EntryView, y: EntryView)
    ensures
        x.dir && !y.dir ==> entry_before(x, y),
        x.dir == y.dir && x.path != y.path ==> (entry_before(x, y) <==> bytes_before(
            path_key(x.path),
            path_key(y.path),
        )) && (entry_before(x, y) || entry_before(y, x)),
{
    if x.dir == y.dir && x.path != y.path {
        if path_key(x.path) == path_key(y.path) {
            lemma_path_key_injective(x.path, y.path);
        }
        lemma_bytes_total(path_key(x.path), path_key(y.path));
    }
}

/// An entry that comes before another comes before, or the other comes
/// after, any third.
pub proof fn lemma_entry_order_splits(x: EntryView, y: EntryView, z: EntryView)
    requires
        entry_before(x, y),
    ensures
        entry_before(x, z) || entry_before(z, y),
{
    if x.dir == z.dir && z.dir == y.dir {
        let a = path_key(x.path);
        let b = path_key(y.path);
        let c = path_key(z.path);
        if a != c {
            lemma_bytes_total(a, c);
            if bytes_before(c, a) {
                lemma_bytes_transitive(c, a, b);
            }
        }
    }
}

/// Where an entry is put, everything behind it comes after it, and what
/// stands right before it does not.
pub proof fn lemma_place_index(entries: Seq<FileEntry>, e: FileEntry)
    ensures
        0 <= place_index(entries, e) <= entries.len(),
        forall|i: int|
            place_index(entries, e) <= i < entries.len() ==> entry_before(e@, #[trigger] entries[i]@),
        place_index(entries, e) > 0 ==> !entry_before(e@, entries[place_index(entries, e) - 1]@),
    decreases entries.len(),
{
    if entries.len() > 0 && entry_before(e@, entries.last()@) {
        let head = entries.drop_last();
        lemma_place_index(head, e);
        assert forall|i: int| place_index(entries, e) <= i < entries.len() implies entry_before(
            e@,
            #[trigger] entries[i]@,
        ) by {
            if i < head.len() {
                assert(entries[i] == head[i]);
            }
        }
    }
}

/// Putting an entry in its place keeps an ordered sequence ordered, and adds
/// that entry and nothing else.
pub proof fn lemma_placed(entries: Seq<FileEntry>, e: FileEntry)
    requires
        in_order(entries),
    ensures
        in_order(placed(entries, e)),
        placed(entries, e).len() == entries.len() + 1,
        placed(entries, e).to_multiset() == entries.to_multiset().insert(e),
{
    let p = place_index(entries, e);
    let after = placed(entries, e);
    lemma_place_index(entries, e);
    to_multiset_insert(entries, p, e);
    assert forall|i: int, j: int| 0 <= i < j < after.len() implies !entry_before(
        after[j]@,
        after[i]@,
    ) by {
        if j == p {
            // the new entry against one that stays in front of it
            if entry_before(e@, entries[i]@) {
                lemma_entry_order_splits(e@, entries[i]@, entries[p - 1]@);
            }
        } else if i == p {
            // the new entry against one that is moved behind it
            lemma_entry_order_strict(e@, entries[j - 1]@);
        }
    }
}

/// Arranging yields an ordered sequence of the same entries: nothing is
/// lost, added or repeated.
pub proof fn lemma_arranged(entries: Seq<FileEntry>)
    ensures
        in_order(arranged(entries)),
        arranged(entries).len() == entries.len(),
        arranged(entries).to_multiset() == entries.to_multiset(),
    decreases entries.len(),
{
    if entries.len() == 0 {
        assert(arranged(entries) =~= entries);
    } else {
        let head = entries.drop_last();
        lemma_arranged(head);
        lemma_placed(arranged(head), entries.last());
        to_multiset_build(head, entries.last());
        assert(head.push(entries.last()) =~= entries);
    }
}

/// In an ordered sequence every directory stands before every file, and of
/// two entries of one kind the one that stands first has the path that
/// comes first, or the same path.
pub proof fn lemma_in_order_means(entries: Seq<FileEntry>, i: int, j: int)
    requires
        in_order(entries),
        0 <= i < j < entries.len(),
    ensures
        entries[j].dir ==> entries[i].dir,
        entries[i].dir == entries[j].dir ==> entries[i].path@ == entries[j].path@ || bytes_before(
            path_key(entries[i].path@),
            path_key(entries[j].path@),
        ),
{
    lemma_entry_order_total(entries[i]@, entries[j]@);
    lemma_entry_order_total(entries[j]@, entries[i]@);
}

/// No two entries of `entries` are of one kind and have one path, as it is
/// with the entries of one directory.
pub open spec fn distinct(entries: Seq<FileEntry>) -> bool {
    forall|i: int, j: int|
        0 <= i < j < entries.len() ==> entries[i].dir != entries[j].dir || entries[i].path@
            != entries[j].path@
}

/// Every entry of `entries` is shown strictly before all that follow it.
pub open spec fn strictly_in_order(entries: Seq<FileEntry>) -> bool {
    forall|i: int, j: int| 0 <= i < j < entries.len() ==> entry_before(entries[i]@, entries[j]@)
}

/// Entries that are in order and distinct are strictly in order.
pub proof fn lemma_distinct_in_order(entries: Seq<FileEntry>)
    requires
        in_order(entries),
        distinct(entries),
    ensures
        strictly_in_order(entries),
{
    assert forall|i: int, j: int| 0 <= i < j < entries.len() implies entry_before(
        entries[i]@,
        entries[j]@,
    ) by {
        lemma_entry_order_total(entries[i]@, entries[j]@);
        lemma_entry_order_total(entries[j]@, entries[i]@);
    }
}

/// Entries that are strictly in order are distinct.
pub proof fn lemma_strict_is_distinct(entries: Seq<FileEntry>)
    requires
        strictly_in_order(entries),
    ensures
        distinct(entries),
        in_order(entries),
{
    assert forall|i: int, j: int| 0 <= i < j < entries.len() implies entries[i].dir
        != entries[j].dir || entries[i].path@ != entries[j].path@ by {
        assert(entry_before(entries[i]@, entries[j]@));
        lemma_bytes_irreflexive(path_key(entries[i].path@));
    }
    assert forall|i: int, j: int| 0 <= i < j < entries.len() implies !entry_before(
        entries[j]@,
        entries[i]@,
    ) by {
        lemma_entry_order_strict(entries[i]@, entries[j]@);
    }
}

/// What is the same after arranging is in the entries before it, and the
/// other way round.
pub proof fn lemma_arranged_contains(entries: Seq<FileEntry>, e: FileEntry)
    ensures
        arranged(entries).contains(e) <==> entries.contains(e),
{
    lemma_arranged(entries);
    to_multiset_contains(entries, e);
    to_multiset_contains(arranged(entries), e);
}

/// Arranging distinct entries leaves them distinct and puts them strictly
/// in order: of two entries of one kind the one with the lesser path comes
/// first, and no path comes twice.
pub proof fn lemma_arranged_strict(entries: Seq<FileEntry>)
    requires
        distinct(entries),
    ensures
        strictly_in_order(arranged(entries)),
        distinct(arranged(entries)),
    decreases entries.len(),
{
    if entries.len() > 0 {
        let head = entries.drop_last();
        let e = entries.last();
        lemma_arranged_strict(head);
        let before = arranged(head);
        let p = place_index(before, e);
        let after = placed(before, e);
        lemma_arranged(head);
        lemma_place_index(before, e);
        assert forall|i: int, j: int| 0 <= i < j < after.len() implies entry_before(
            after[i]@,
            after[j]@,
        ) by {
            if j == p {
                // an entry that stays in front of the new one
                lemma_arranged_contains(head, before[i]);
                let k = choose|k: int| 0 <= k < head.len() && head[k] == before[i];
                assert(head[k] == entries[k]);
                lemma_entry_order_total(before[i]@, e@);
                if entry_before(e@, before[i]@) {
                    lemma_entry_order_splits(e@, before[i]@, before[p - 1]@);
                    if i < p - 1 {
                        lemma_entry_order_strict(before[i]@, before[p - 1]@);
                    }
                }
            } else if i == p {
                assert(after[j] == before[j - 1]);
            } else {
                let i0 = if i < p {
                    i
                } else {
                    i - 1
                };
                let j0 = if j < p {
                    j
                } else {
                    j - 1
                };
                assert(after[i] == before[i0] && after[j] == before[j0]);
            }
        }
        lemma_strict_is_distinct(after);
    } else {
        assert(arranged(entries).len() == 0);
    }
}

/// Two sequences that hold the same entries, each strictly in order, are
/// the same sequence.
pub proof fn lemma_strict_order_is_unique(x: Seq<FileEntry>, y: Seq<FileEntry>)
    requires
        strictly_in_order(x),
        strictly_in_order(y),
        x.to_multiset() == y.to_multiset(),
    ensures
        x == y,
    decreases x.len(),
{
    broadcast use group_multiset_axioms;

    to_multiset_len(x);
    to_multiset_len(y);
    if x.len() == 0 {
        assert(x =~= y);
    } else {
        let n = x.len() - 1;
        to_multiset_contains(x, y[n]);
        to_multiset_contains(y, y[n]);
        to_multiset_contains(x, x[n]);
        to_multiset_contains(y, x[n]);
        assert(y.contains(y[n]));
        assert(x.contains(x[n]));
        let k = choose|k: int| 0 <= k < y.len() && y[k] == x[n];
        let m = choose|m: int| 0 <= m < x.len() && x[m] == y[n];
        if k < n {
            // the last of `x` stands before the last of `y`, and the last
            // of `y` cannot then stand anywhere in `x`
            lemma_entry_order_strict(y[k]@, y[n]@);
            if m < n {
                assert(entry_before(x[m]@, x[n]@));
            }
        }
        assert(x[n] == y[n]);
        let xs = x.drop_last();
        let ys = y.drop_last();
        to_multiset_build(xs, x[n]);
        to_multiset_build(ys, y[n]);
        assert(xs.push(x[n]) =~= x);
        assert(ys.push(y[n]) =~= y);
        assert(xs.to_multiset() =~= x.to_multiset().remove(x[n]));
        assert(ys.to_multiset() =~= y.to_multiset().remove(y[n]));
        lemma_strict_order_is_unique(xs, ys);
        assert(x =~= y);
    }
}

/// How distinct entries are arranged does not depend on the order they are
/// given in.
pub proof fn lemma_arranged_whatever_order(a: Seq<FileEntry>, b: Seq<FileEntry>)
    requires
        distinct(a),
        distinct(b),
        a.to_multiset() == b.to_multiset(),
    ensures
        arranged(a) == arranged(b),
{
    lemma_arranged(a);
    lemma_arranged(b);
    lemma_arranged_strict(a);
    lemma_arranged_strict(b);
    lemma_strict_order_is_unique(arranged(a), arranged(b));
}

/// Whether `a` comes strictly before `b` in lexicographic order.
pub fn bytes_less(a: &[u8], b: &[u8]) -> (less: bool)
    ensures
        less == bytes_before(a@, b@),
{
    let mut i: usize = 0;
    while i < a.len() && i < b.len()
        invariant
            i <= a@.len(),
            i <= b@.len(),
            forall|j: int| 0 <= j < i ==> a@[j] == b@[j],
        decreases a@.len() - i,
    {
        if a[i] != b[i] {
            if a[i] < b[i] {
                assert(parts_below(a@, b@, i as int));
                return true;
            } else {
                assert forall|k: int| !parts_below(a@, b@, k) by {}
                return false;
            }
        }
        i = i + 1;
    }
    if a.len() < b.len() {
        assert(parts_below(a@, b@, i as int));
        true
    } else {
        assert forall|k: int| !parts_below(a@, b@, k) by {}
        false
    }
}

/// Whether `x` is shown strictly before `y`.
pub fn comes_before(x: &FileEntry, y: &FileEntry) -> (before: bool)
    ensures
        before == entry_before(x@, y@),
{
    if x.dir != y.dir {
        x.dir
    } else {
        bytes_less(x.path.as_str().as_bytes(), y.path.as_str().as_bytes())
    }
}

/// Puts `e` in its place in the ordered `entries`.
pub fn place(entries: &mut Vec<FileEntry>, e: FileEntry)
    ensures
        final(entries)@ == placed(old(entries)@, e),
{
    let mut i: usize = entries.len();
    assert(entries@.take(i as int) =~= entries@);
    while i > 0 && comes_before(&e, &entries[i - 1])
        invariant
            i <= entries@.len(),
            entries@ == old(entries)@,
            place_index(entries@, e) == place_index(entries@.take(i as int), e),
        decreases i,
    {
        assert(entries@.take(i as int).drop_last() =~= entries@.take(i - 1));
        i = i - 1;
    }
    entries.insert(i, e);
}

} // verus!
