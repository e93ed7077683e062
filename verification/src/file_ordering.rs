//! Ordering of scanned entries: the display configuration, the sort keys,
//! and an in-place, stable insertion sort of the entry list under the active
//! key and direction.

use vstd::prelude::*;
use vstd::string::StrSliceExecFns;
use crate::file_manager::{marker_char, FileInfo, Timestamp};
use crate::text::{
    char_lt, lemma_seq_char_lt_asym, lemma_seq_char_lt_connected, lemma_seq_char_lt_trans,
    seq_char_lt, str_lt,
};

verus! {

/// The active sort key. `Nan` means "leave scan order unchanged".
#[derive(Debug, Clone, PartialEq, Eq, Structural)]
pub enum SortBy {
    Name,
    Type,
    Ext,
    CreateDate,
    ModDate,
    ViewDate,
    Size,
    Nan,
}

/// The engine configuration a caller owns: which attributes to show, the
/// active sort key, and the direction. The engine only reads it.
#[derive(Debug)]
pub struct DisplayOptions {
    pub show_file_type: bool,
    pub show_hidden: bool,
    pub show_file_ext: bool,
    pub show_file_size: bool,
    pub show_last_acc: bool,
    pub show_last_mod: bool,
    pub show_creation: bool,
    pub sort_by: SortBy,
    pub filter_dec: bool,
}

/// A type usable as a sort key: an executable strict comparison that matches
/// its specification, and the laws that make the specification a strict weak
/// order.
pub trait KeyLess: Sized {
    /// The strict "sorts before" relation.
    spec fn spec_less(&self, other: &Self) -> bool;

    /// The executable comparison, exactly the specification.
    fn less_than(&self, other: &Self) -> (r: bool)
        ensures
            r == self.spec_less(other),
    ;

    /// Asymmetry, transitivity, and transitivity of "not before".
    proof fn lemma_weak_order(a: &Self, b: &Self, c: &Self)
        ensures
            a.spec_less(b) ==> !b.spec_less(a),
            a.spec_less(b) && b.spec_less(c) ==> a.spec_less(c),
            !a.spec_less(b) && !b.spec_less(c) ==> !a.spec_less(c),
    ;
}

impl KeyLess for u64 {
    open spec fn spec_less(&self, other: &Self) -> bool {
        *self < *other
    }

    fn less_than(&self, other: &Self) -> (r: bool) {
        *self < *other
    }

    proof fn lemma_weak_order(a: &Self, b: &Self, c: &Self) {
    }
}

impl KeyLess for char {
    open spec fn spec_less(&self, other: &Self) -> bool {
        (*self as u32) < (*other as u32)
    }

    fn less_than(&self, other: &Self) -> (r: bool) {
        char_lt(*self, *other)
    }

    proof fn lemma_weak_order(a: &Self, b: &Self, c: &Self) {
    }
}

impl KeyLess for Timestamp {
    /// Seconds decide; nanoseconds break the tie.
    open spec fn spec_less(&self, other: &Self) -> bool {
        self.secs < other.secs || (self.secs == other.secs && self.nanos < other.nanos)
    }

    fn less_than(&self, other: &Self) -> (r: bool) {
        self.secs < other.secs || (self.secs == other.secs && self.nanos < other.nanos)
    }

    proof fn lemma_weak_order(a: &Self, b: &Self, c: &Self) {
    }
}

impl KeyLess for String {
    /// Lexicographic by Unicode code point.
    open spec fn spec_less(&self, other: &Self) -> bool {
        seq_char_lt(self@, other@)
    }

    fn less_than(&self, other: &Self) -> (r: bool) {
        str_lt(self.as_str(), other.as_str())
    }

    proof fn lemma_weak_order(a: &Self, b: &Self, c: &Self) {
        lemma_seq_char_lt_asym(a@, b@);
        if a.spec_less(b) && b.spec_less(c) {
            lemma_seq_char_lt_trans(a@, b@, c@);
        }
        if !a.spec_less(b) && !b.spec_less(c) && a.spec_less(c) {
            lemma_seq_char_lt_connected(a@, b@);
            if seq_char_lt(b@, a@) {
                lemma_seq_char_lt_trans(b@, a@, c@);
            }
        }
    }
}

impl<T: KeyLess> KeyLess for Option<T> {
    /// A missing value sorts before any present one.
    open spec fn spec_less(&self, other: &Self) -> bool {
        match (self, other) {
            (Option::None, Option::Some(_)) => true,
            (Option::Some(a), Option::Some(b)) => a.spec_less(b),
            _ => false,
        }
    }

    fn less_than(&self, other: &Self) -> (r: bool) {
        match (self, other) {
            (Option::None, Option::Some(_)) => true,
            (Option::Some(a), Option::Some(b)) => a.less_than(b),
            _ => false,
        }
    }

    proof fn lemma_weak_order(a: &Self, b: &Self, c: &Self) {
        match (a, b) {
            (Option::Some(x), Option::Some(y)) => {
                T::lemma_weak_order(x, y, y);
            },
            _ => {},
        }
        match (a, b, c) {
            (Option::Some(x), Option::Some(y), Option::Some(z)) => {
                T::lemma_weak_order(x, y, z);
            },
            _ => {},
        }
    }
}

/// The strict "sorts before" order on entries under one key: name and
/// extension lexicographically, the type by its single-character code, dates
/// and size numerically. A missing extension or timestamp sorts before any
/// present one. `Nan` orders nothing.
pub open spec fn spec_key_less(sort_by: SortBy, a: FileInfo, b: FileInfo) -> bool {
    match sort_by {
        SortBy::Name => a.file_name.spec_less(&b.file_name),
        SortBy::Type => marker_char(a.file_type).spec_less(&marker_char(b.file_type)),
        SortBy::Ext => a.file_ext.spec_less(&b.file_ext),
        SortBy::CreateDate => a.creation_time.spec_less(&b.creation_time),
        SortBy::ModDate => a.last_modification.spec_less(&b.last_modification),
        SortBy::ViewDate => a.last_access.spec_less(&b.last_access),
        SortBy::Size => a.file_size.spec_less(&b.file_size),
        SortBy::Nan => false,
    }
}

/// Whether `a`, standing before `b`, must move after it: the active key's
/// strict order, reversed when the direction is descending. Reversing the
/// comparison (not the final sequence) is what keeps ties in scan order under
/// either direction.
pub open spec fn spec_should_swap(o: DisplayOptions, a: FileInfo, b: FileInfo) -> bool {
    if o.filter_dec {
        spec_key_less(o.sort_by, a, b)
    } else {
        spec_key_less(o.sort_by, b, a)
    }
}

/// Entries the active key cannot tell apart.
pub open spec fn spec_key_eq(o: DisplayOptions, a: FileInfo, b: FileInfo) -> bool {
    !spec_key_less(o.sort_by, a, b) && !spec_key_less(o.sort_by, b, a)
}

/// No entry stands before one it must come after.
pub open spec fn spec_sorted(o: DisplayOptions, s: Seq<FileInfo>) -> bool {
    forall|i: int, j: int|
        0 <= i < j < s.len() ==> !spec_should_swap(o, #[trigger] s[i], #[trigger] s[j])
}

/// The key order is a strict weak order, for every key.
proof fn lemma_key_weak_order(sort_by: SortBy, a: FileInfo, b: FileInfo, c: FileInfo)
    ensures
        spec_key_less(sort_by, a, b) ==> !spec_key_less(sort_by, b, a),
        spec_key_less(sort_by, a, b) && spec_key_less(sort_by, b, c) ==> spec_key_less(
            sort_by,
            a,
            c,
        ),
        !spec_key_less(sort_by, a, b) && !spec_key_less(sort_by, b, c) ==> !spec_key_less(
            sort_by,
            a,
            c,
        ),
{
    match sort_by {
        SortBy::Name => {
            String::lemma_weak_order(&a.file_name, &b.file_name, &c.file_name);
        },
        SortBy::Type => {
            char::lemma_weak_order(
                &marker_char(a.file_type),
                &marker_char(b.file_type),
                &marker_char(c.file_type),
            );
        },
        SortBy::Ext => {
            <Option<String> as KeyLess>::lemma_weak_order(&a.file_ext, &b.file_ext, &c.file_ext);
        },
        SortBy::CreateDate => {
            <Option<Timestamp> as KeyLess>::lemma_weak_order(
                &a.creation_time,
                &b.creation_time,
                &c.creation_time,
            );
        },
        SortBy::ModDate => {
            <Option<Timestamp> as KeyLess>::lemma_weak_order(
                &a.last_modification,
                &b.last_modification,
                &c.last_modification,
            );
        },
        SortBy::ViewDate => {
            <Option<Timestamp> as KeyLess>::lemma_weak_order(
                &a.last_access,
                &b.last_access,
                &c.last_access,
            );
        },
        SortBy::Size => {},
        SortBy::Nan => {},
    }
}

/// The swap relation is a strict weak order, for every configuration.
proof fn lemma_swap_weak_order(o: DisplayOptions, a: FileInfo, b: FileInfo, c: FileInfo)
    ensures
        spec_should_swap(o, a, b) ==> !spec_should_swap(o, b, a),
        spec_should_swap(o, a, b) && spec_should_swap(o, b, c) ==> spec_should_swap(o, a, c),
        !spec_should_swap(o, a, b) && !spec_should_swap(o, b, c) ==> !spec_should_swap(o, a, c),
{
    lemma_key_weak_order(o.sort_by, a, b, c);
    lemma_key_weak_order(o.sort_by, c, b, a);
    lemma_key_weak_order(o.sort_by, b, a, c);
    lemma_key_weak_order(o.sort_by, c, a, b);
}

/// Insertion of `x` into `s` from the right: `x` moves left past exactly the
/// entries it must not stand after — the stable insertion point.
pub open spec fn spec_insert(o: DisplayOptions, s: Seq<FileInfo>, x: FileInfo) -> Seq<FileInfo>
    decreases s.len(),
{
    if s.len() == 0 {
        seq![x]
    } else if spec_should_swap(o, s.last(), x) {
        spec_insert(o, s.drop_last(), x).push(s.last())
    } else {
        s.push(x)
    }
}

/// Stable insertion sort: each entry in turn is inserted into the sorted
/// prefix of its predecessors.
pub open spec fn spec_sort(o: DisplayOptions, s: Seq<FileInfo>) -> Seq<FileInfo>
    decreases s.len(),
{
    if s.len() == 0 {
        s
    } else {
        spec_insert(o, spec_sort(o, s.drop_last()), s.last())
    }
}

/// Insertion grows the sequence by one.
proof fn lemma_insert_len(o: DisplayOptions, s: Seq<FileInfo>, x: FileInfo)
    ensures
        spec_insert(o, s, x).len() == s.len() + 1,
    decreases s.len(),
{
    if s.len() > 0 && spec_should_swap(o, s.last(), x) {
        lemma_insert_len(o, s.drop_last(), x);
    }
}

/// Sorting keeps the length.
pub proof fn lemma_sort_len(o: DisplayOptions, s: Seq<FileInfo>)
    ensures
        spec_sort(o, s).len() == s.len(),
    decreases s.len(),
{
    if s.len() > 0 {
        lemma_sort_len(o, s.drop_last());
        lemma_insert_len(o, spec_sort(o, s.drop_last()), s.last());
    }
}

/// One unfolding of `filter` over `push`.
proof fn lemma_filter_push(q: Seq<FileInfo>, y: FileInfo, p: spec_fn(FileInfo) -> bool)
    ensures
        q.push(y).filter(p) == (if p(y) {
            q.filter(p).push(y)
        } else {
            q.filter(p)
        }),
{
    reveal_with_fuel(Seq::filter, 2);
    assert(q.push(y).drop_last() =~= q);
    assert(q.push(y).last() == y);
}

/// Insertion holds exactly the entries of `s` and `x`.
proof fn lemma_insert_multiset(o: DisplayOptions, s: Seq<FileInfo>, x: FileInfo)
    ensures
        spec_insert(o, s, x).to_multiset() == s.push(x).to_multiset(),
    decreases s.len(),
{
    broadcast use vstd::seq_lib::group_to_multiset_ensures;

    if s.len() == 0 {
        assert(spec_insert(o, s, x) =~= s.push(x));
    } else if spec_should_swap(o, s.last(), x) {
        let dl = s.drop_last();
        lemma_insert_multiset(o, dl, x);
        assert(spec_insert(o, s, x).to_multiset() =~= dl.to_multiset().insert(x).insert(s.last()));
        assert(dl.push(s.last()) =~= s);
        assert(s.push(x).to_multiset() =~= dl.to_multiset().insert(s.last()).insert(x));
        assert(dl.to_multiset().insert(x).insert(s.last()) =~= dl.to_multiset().insert(
            s.last(),
        ).insert(x));
    }
}

/// Insertion keeps an upper bound: what nothing of `s` nor `x` must follow,
/// nothing of the insertion must follow.
proof fn lemma_insert_bound(o: DisplayOptions, s: Seq<FileInfo>, x: FileInfo, z: FileInfo)
    requires
        forall|j: int| 0 <= j < s.len() ==> !spec_should_swap(o, #[trigger] s[j], z),
        !spec_should_swap(o, x, z),
    ensures
        forall|i: int|
            0 <= i < spec_insert(o, s, x).len() ==> !spec_should_swap(
                o,
                #[trigger] spec_insert(o, s, x)[i],
                z,
            ),
    decreases s.len(),
{
    if s.len() == 0 {
    } else if spec_should_swap(o, s.last(), x) {
        let dl = s.drop_last();
        assert(forall|j: int| 0 <= j < dl.len() ==> !spec_should_swap(o, #[trigger] dl[j], z));
        lemma_insert_bound(o, dl, x, z);
        let r0 = spec_insert(o, dl, x);
        assert forall|i: int| 0 <= i < r0.push(s.last()).len() implies !spec_should_swap(
            o,
            #[trigger] r0.push(s.last())[i],
            z,
        ) by {
            if i < r0.len() {
                assert(r0.push(s.last())[i] == r0[i]);
            } else {
                assert(r0.push(s.last())[i] == s.last());
            }
        }
    }
}

/// Insertion into a sorted sequence is sorted.
proof fn lemma_insert_sorted(o: DisplayOptions, s: Seq<FileInfo>, x: FileInfo)
    requires
        spec_sorted(o, s),
    ensures
        spec_sorted(o, spec_insert(o, s, x)),
    decreases s.len(),
{
    if s.len() == 0 {
    } else if spec_should_swap(o, s.last(), x) {
        let dl = s.drop_last();
        assert(spec_sorted(o, dl)) by {
            assert(forall|i: int, j: int|
                0 <= i < j < dl.len() ==> #[trigger] dl[i] == s[i] && #[trigger] dl[j] == s[j]);
        }
        lemma_insert_sorted(o, dl, x);
        let r0 = spec_insert(o, dl, x);
        // everything in the recursive insertion may stand before `s.last()`
        assert(!spec_should_swap(o, x, s.last())) by {
            lemma_swap_weak_order(o, s.last(), x, x);
        }
        lemma_insert_bound(o, dl, x, s.last());
        let r = r0.push(s.last());
        assert forall|i: int, j: int| 0 <= i < j < r.len() implies !spec_should_swap(
            o,
            #[trigger] r[i],
            #[trigger] r[j],
        ) by {
            if j < r0.len() {
                assert(r[i] == r0[i] && r[j] == r0[j]);
            } else {
                assert(r[i] == r0[i] && r[j] == s.last());
            }
        }
    } else {
        let r = s.push(x);
        assert forall|i: int, j: int| 0 <= i < j < r.len() implies !spec_should_swap(
            o,
            #[trigger] r[i],
            #[trigger] r[j],
        ) by {
            if j < s.len() {
                assert(r[i] == s[i] && r[j] == s[j]);
            } else {
                assert(r[i] == s[i] && r[j] == x);
                if i < s.len() - 1 {
                    assert(!spec_should_swap(o, s[i], s.last()));
                }
                lemma_swap_weak_order(o, s[i], s.last(), x);
            }
        }
    }
}

/// Insertion moves `x` past no entry its key equals: for any entry `e`, the
/// subsequence of entries the key cannot tell apart from `e` is the same as
/// if `x` had simply been appended.
proof fn lemma_insert_filter(o: DisplayOptions, s: Seq<FileInfo>, x: FileInfo, e: FileInfo)
    ensures
        spec_insert(o, s, x).filter(|y: FileInfo| spec_key_eq(o, y, e)) == s.push(x).filter(
            |y: FileInfo| spec_key_eq(o, y, e),
        ),
    decreases s.len(),
{
    let p = |y: FileInfo| spec_key_eq(o, y, e);
    if s.len() == 0 {
        assert(spec_insert(o, s, x) =~= s.push(x));
    } else if spec_should_swap(o, s.last(), x) {
        let dl = s.drop_last();
        lemma_insert_filter(o, dl, x, e);
        let r0 = spec_insert(o, dl, x);
        lemma_filter_push(r0, s.last(), p);
        lemma_filter_push(dl, x, p);
        lemma_filter_push(dl, s.last(), p);
        lemma_filter_push(s, x, p);
        assert(dl.push(s.last()) =~= s);
        if p(s.last()) && p(x) {
            // both equal to `e` would make them equal to each other,
            // contradicting the strict comparison that moved `x` left
            lemma_key_weak_order(o.sort_by, s.last(), e, x);
            lemma_key_weak_order(o.sort_by, x, e, s.last());
            assert(false);
        }
    } else {
        assert(spec_insert(o, s, x) == s.push(x));
    }
}

/// The arranged sequence is sorted: no entry of [`spec_sort`] stands before
/// one it must come after.
pub proof fn lemma_sort_sorted(o: DisplayOptions, s: Seq<FileInfo>)
    ensures
        spec_sorted(o, spec_sort(o, s)),
    decreases s.len(),
{
    if s.len() > 0 {
        lemma_sort_sorted(o, s.drop_last());
        lemma_insert_sorted(o, spec_sort(o, s.drop_last()), s.last());
    }
}

/// Sorting permutes: the arranged sequence holds exactly the entries it was
/// given, whatever the key and direction.
pub proof fn lemma_sort_multiset(o: DisplayOptions, s: Seq<FileInfo>)
    ensures
        spec_sort(o, s).to_multiset() == s.to_multiset(),
    decreases s.len(),
{
    broadcast use vstd::seq_lib::group_to_multiset_ensures;

    if s.len() > 0 {
        let dl = s.drop_last();
        lemma_sort_multiset(o, dl);
        lemma_insert_multiset(o, spec_sort(o, dl), s.last());
        assert(dl.push(s.last()) =~= s);
        assert(spec_sort(o, dl).push(s.last()).to_multiset() =~= s.to_multiset());
    }
}

/// Sorting is stable: for any entry `e`, the subsequence of entries the
/// active key cannot tell apart from `e` is exactly as scanned — entries
/// with equal keys keep their relative scan order, under either direction.
pub proof fn lemma_sort_stable(o: DisplayOptions, s: Seq<FileInfo>, e: FileInfo)
    ensures
        spec_sort(o, s).filter(|y: FileInfo| spec_key_eq(o, y, e)) == s.filter(
            |y: FileInfo| spec_key_eq(o, y, e),
        ),
    decreases s.len(),
{
    let p = |y: FileInfo| spec_key_eq(o, y, e);
    if s.len() > 0 {
        let dl = s.drop_last();
        lemma_sort_stable(o, dl, e);
        lemma_insert_filter(o, spec_sort(o, dl), s.last(), e);
        lemma_filter_push(spec_sort(o, dl), s.last(), p);
        lemma_filter_push(dl, s.last(), p);
        assert(dl.push(s.last()) =~= s);
    }
}

/// With no active key, sorting changes nothing.
proof fn lemma_sort_nan_identity(o: DisplayOptions, s: Seq<FileInfo>)
    requires
        o.sort_by == SortBy::Nan,
    ensures
        spec_sort(o, s) == s,
    decreases s.len(),
{
    if s.len() > 0 {
        lemma_sort_nan_identity(o, s.drop_last());
        assert(spec_insert(o, s.drop_last(), s.last()) =~= s);
    }
}

impl DisplayOptions {
    /// The configuration the presentation layer starts from: type code,
    /// extension, size, modification and creation times are shown; hidden
    /// entries and the access time are not; scan order is kept.
    pub fn default() -> (r: Self)
        ensures
            r == (DisplayOptions {
                show_file_type: true,
                show_hidden: false,
                show_file_ext: true,
                show_file_size: true,
                show_last_acc: false,
                show_last_mod: true,
                show_creation: true,
                sort_by: SortBy::Nan,
                filter_dec: false,
            }),
    {
        DisplayOptions {
            show_file_type: true,
            show_hidden: false,
            show_file_ext: true,
            show_file_size: true,
            show_last_acc: false,
            show_last_mod: true,
            show_creation: true,
            sort_by: SortBy::Nan,
            filter_dec: false,
        }
    }

    /// The configured comparison on one key: strictly below when descending,
    /// strictly above when ascending.
    pub fn cmp<T: KeyLess>(&self, a: &T, b: &T) -> (r: bool)
        ensures
            r == if self.filter_dec {
                a.spec_less(b)
            } else {
                b.spec_less(a)
            },
    {
        if self.filter_dec {
            a.less_than(b)
        } else {
            b.less_than(a)
        }
    }

    /// Whether entry `a`, standing just before `b`, must move after it.
    fn should_swap(&self, a: &FileInfo, b: &FileInfo) -> (r: bool)
        ensures
            r == spec_should_swap(*self, *a, *b),
    {
        match self.sort_by {
            SortBy::Name => self.cmp(&a.file_name, &b.file_name),
            SortBy::Ext => self.cmp(&a.file_ext, &b.file_ext),
            SortBy::CreateDate => self.cmp(&a.creation_time, &b.creation_time),
            SortBy::ModDate => self.cmp(&a.last_modification, &b.last_modification),
            SortBy::Size => self.cmp(&a.file_size, &b.file_size),
            SortBy::Type => {
                let ca = a.single_char_desc().get_char(0);
                let cb = b.single_char_desc().get_char(0);
                self.cmp(&ca, &cb)
            },
            SortBy::ViewDate => self.cmp(&a.last_access, &b.last_access),
            SortBy::Nan => false,
        }
    }

    /// Reorders the entries in place under the active key and direction with
    /// a stable insertion sort; `Nan` leaves the sequence untouched.
    ///
    /// The result is exactly [`spec_sort`] of the input: sorted
    /// ([`lemma_sort_sorted`]), a permutation of the input
    /// ([`lemma_sort_multiset`]), and stable ([`lemma_sort_stable`]).
    pub fn sort(&self, file_info: &mut Vec<FileInfo>)
        ensures
            final(file_info)@ == spec_sort(*self, old(file_info)@),
            spec_sorted(*self, final(file_info)@),
            final(file_info)@.to_multiset() == old(file_info)@.to_multiset(),
            self.sort_by == SortBy::Nan ==> final(file_info)@ == old(file_info)@,
    {
        let ghost orig = file_info@;
        proof {
            lemma_sort_sorted(*self, orig);
            lemma_sort_multiset(*self, orig);
        }
        if self.sort_by == SortBy::Nan {
            proof {
                lemma_sort_nan_identity(*self, orig);
            }
            return;
        }
        let n = file_info.len();
        if n <= 1 {
            proof {
                if orig.len() == 1 {
                    assert(spec_insert(*self, spec_sort(*self, orig.drop_last()), orig.last())
                        =~= orig);
                }
            }
            return;
        }
        let mut i: usize = 1;
        proof {
            assert(spec_insert(*self, spec_sort(*self, orig.take(1).drop_last()), orig.take(
                1,
            ).last()) =~= orig.take(1));
            assert(file_info@.take(1) =~= orig.take(1));
            assert(file_info@.skip(1) =~= orig.skip(1));
        }
        while i < n
            invariant
                1 <= i <= n,
                n == file_info@.len(),
                n == orig.len(),
                file_info@.take(i as int) == spec_sort(*self, orig.take(i as int)),
                file_info@.skip(i as int) == orig.skip(i as int),
            decreases n - i,
        {
            let ghost sorted_pre = spec_sort(*self, orig.take(i as int));
            let ghost before = file_info@;
            proof {
                lemma_sort_len(*self, orig.take(i as int));
                assert(file_info@[i as int] == file_info@.skip(i as int)[0]);
            }
            let x = file_info.remove(i);
            proof {
                before.remove_ensures(i as int);
                assert(x == orig[i as int]);
                assert(file_info@.take(i as int) =~= sorted_pre) by {
                    assert forall|j: int| 0 <= j < i implies file_info@[j] == sorted_pre[j] by {
                        assert(file_info@[j] == before[j]);
                        assert(before.take(i as int)[j] == sorted_pre[j]);
                    }
                }
                assert(file_info@.skip(i as int) =~= orig.skip(i + 1 as int)) by {
                    assert forall|k: int| 0 <= k < file_info@.len() - i implies file_info@.skip(
                        i as int,
                    )[k] == orig.skip(i + 1 as int)[k] by {
                        assert(file_info@[i + k] == before[i + k + 1]);
                        assert(before.skip(i as int)[k + 1] == orig.skip(i as int)[k + 1]);
                    }
                }
                assert(sorted_pre.take(i as int) =~= sorted_pre);
                assert(spec_insert(*self, sorted_pre.take(i as int), x) + sorted_pre.skip(
                    i as int,
                ) =~= spec_insert(*self, sorted_pre, x));
            }
            let mut p: usize = i;
            while p > 0 && self.should_swap(&file_info[p - 1], &x)
                invariant
                    0 <= p <= i,
                    i < n,
                    n == orig.len(),
                    file_info@.len() == n - 1,
                    sorted_pre == spec_sort(*self, orig.take(i as int)),
                    sorted_pre.len() == i,
                    x == orig[i as int],
                    file_info@.take(i as int) == sorted_pre,
                    file_info@.skip(i as int) == orig.skip(i + 1 as int),
                    spec_insert(*self, sorted_pre, x) == spec_insert(
                        *self,
                        sorted_pre.take(p as int),
                        x,
                    ) + sorted_pre.skip(p as int),
                decreases p,
            {
                proof {
                    let tp = sorted_pre.take(p as int);
                    assert(file_info@[p - 1 as int] == sorted_pre[p - 1 as int]);
                    assert(tp.last() == sorted_pre[p - 1 as int]);
                    assert(tp.drop_last() =~= sorted_pre.take(p - 1 as int));
                    assert(spec_insert(*self, tp, x) == spec_insert(
                        *self,
                        sorted_pre.take(p - 1 as int),
                        x,
                    ).push(sorted_pre[p - 1 as int]));
                    assert(spec_insert(*self, sorted_pre.take(p - 1 as int), x).push(
                        sorted_pre[p - 1 as int],
                    ) + sorted_pre.skip(p as int) =~= spec_insert(
                        *self,
                        sorted_pre.take(p - 1 as int),
                        x,
                    ) + sorted_pre.skip(p - 1 as int));
                }
                p = p - 1;
            }
            proof {
                if p == 0 {
                    assert(sorted_pre.take(0) =~= Seq::<FileInfo>::empty());
                    assert(spec_insert(*self, sorted_pre.take(0), x) =~= seq![x]);
                } else {
                    let tp = sorted_pre.take(p as int);
                    assert(file_info@[p - 1 as int] == sorted_pre[p - 1 as int]);
                    assert(tp.last() == sorted_pre[p - 1 as int]);
                    assert(spec_insert(*self, tp, x) == tp.push(x));
                }
                assert(spec_insert(*self, sorted_pre, x) =~= sorted_pre.take(p as int) + seq![x]
                    + sorted_pre.skip(p as int));
            }
            let ghost mid = file_info@;
            file_info.insert(p, x);
            proof {
                lemma_insert_len(*self, sorted_pre, x);
                mid.insert_ensures(p as int, x);
                let target = sorted_pre.take(p as int) + seq![x] + sorted_pre.skip(p as int);
                assert(file_info@.take(i + 1 as int) =~= target) by {
                    assert forall|j: int| 0 <= j < i + 1 implies file_info@[j] == target[j] by {
                        if j < p {
                            assert(file_info@[j] == mid[j]);
                            assert(mid.take(i as int)[j] == sorted_pre[j]);
                        } else if j == p {
                            assert(file_info@[j] == x);
                        } else {
                            assert(file_info@[j] == mid[j - 1]);
                            assert(mid.take(i as int)[j - 1] == sorted_pre[j - 1]);
                            assert(target[j] == sorted_pre.skip(p as int)[j - p - 1]);
                        }
                    }
                }
                assert(file_info@.skip(i + 1 as int) =~= orig.skip(i + 1 as int)) by {
                    assert forall|k: int|
                        0 <= k < file_info@.len() - i - 1 implies #[trigger] file_info@.skip(
                        i + 1 as int,
                    )[k] == orig.skip(i + 1 as int)[k] by {
                        assert(file_info@[i + 1 + k] == mid[i + k]);
                        assert(mid.skip(i as int)[k] == orig.skip(i + 1 as int)[k]);
                    }
                }
                assert(orig.take(i + 1 as int).drop_last() =~= orig.take(i as int));
                assert(orig.take(i + 1 as int).last() == orig[i as int]);
                assert(spec_sort(*self, orig.take(i + 1 as int)) == spec_insert(
                    *self,
                    sorted_pre,
                    x,
                ));
                assert(file_info@.take(i + 1 as int) == spec_sort(*self, orig.take(i + 1 as int)));
            }
            i = i + 1;
        }
        proof {
            assert(orig.take(n as int) =~= orig);
            assert(file_info@.take(n as int) =~= file_info@);
        }
    }
}

} // verus!
