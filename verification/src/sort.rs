//! The order of a gallery: by the time each record was taken, or by the
//! number in its file name. Records that tie keep the order they had.

use vstd::prelude::*;

use crate::photos::{gallery, times_wf, Image, ImageView};
use crate::text::{chars_of, digits_of, digit_run, parse_number, parsed_number};
use crate::timestamp::Timestamp;

verus! {

/// What the records of a gallery are ordered by, one key for each record.
pub enum SortKeys {
    Times(Vec<Timestamp>),
    Numbers(Vec<u32>),
}

/// The keys of a gallery's records as sequences.
pub enum KeySeq {
    Times(Seq<Timestamp>),
    Numbers(Seq<u32>),
}

impl KeySeq {
    /// The number of keys.
    pub open spec fn count(&self) -> nat {
        match self {
            KeySeq::Times(t) => t.len(),
            KeySeq::Numbers(n) => n.len(),
        }
    }

    /// Whether record `i` comes before record `j`: its key is the lesser, or
    /// the keys are equal and it stood first.
    pub open spec fn precedes(&self, i: int, j: int) -> bool {
        match self {
            KeySeq::Times(t) => t[i].spec_before(&t[j]) || (t[i] == t[j] && i < j),
            KeySeq::Numbers(n) => n[i] < n[j] || (n[i] == n[j] && i < j),
        }
    }

    /// Of two different records one comes before the other, and coming
    /// before carries over from one pair to the next.
    pub proof fn lemma_order(&self, x: int, y: int, z: int)
        ensures
            x != y ==> self.precedes(x, y) || self.precedes(y, x),
            self.precedes(x, y) && self.precedes(y, z) ==> self.precedes(x, z),
            !self.precedes(x, x),
    {
    }
}

impl View for SortKeys {
    type V = KeySeq;

    open spec fn view(&self) -> KeySeq {
        match self {
            SortKeys::Times(t) => KeySeq::Times(t@),
            SortKeys::Numbers(n) => KeySeq::Numbers(n@),
        }
    }
}

impl SortKeys {

    /// Whether record `i` comes before record `j`.
    fn comes_first(&self, i: usize, j: usize) -> (r: bool)
        requires
            i < self@.count(),
            j < self@.count(),
        ensures
            r == self@.precedes(i as int, j as int),
    {
        match self {
            SortKeys::Times(t) => t[i].before(&t[j]) || (t[i] == t[j] && i < j),
            SortKeys::Numbers(n) => n[i] < n[j] || (n[i] == n[j] && i < j),
        }
    }

}

/// Whether `order` lists records in ascending order, each before the next.
pub open spec fn ascending(keys: KeySeq, order: Seq<usize>) -> bool {
    forall|a: int, b: int|
        0 <= a < b < order.len() ==> keys.precedes(#[trigger] order[a] as int, #[trigger] order[b] as int)
}

/// Whether every index in `order` lies in `lo..hi`.
pub open spec fn within(order: Seq<usize>, lo: int, hi: int) -> bool {
    forall|a: int| 0 <= a < order.len() ==> lo <= #[trigger] order[a] < hi
}

/// Merges two ascending lists of records, the first from `lo..mid` and the
/// second from `mid..hi`, into one.
fn merge(keys: &SortKeys, left: &Vec<usize>, right: &Vec<usize>, Ghost(lo): Ghost<int>, Ghost(mid): Ghost<int>, Ghost(hi): Ghost<int>) -> (out: Vec<usize>)
    requires
        0 <= lo <= mid <= hi <= keys@.count(),
        ascending(keys@, left@),
        ascending(keys@, right@),
        within(left@, lo, mid),
        within(right@, mid, hi),
        left.len() + right.len() <= usize::MAX,
    ensures
        out.len() == left.len() + right.len(),
        ascending(keys@, out@),
        within(out@, lo, hi),
{
    let mut out: Vec<usize> = Vec::new();
    let mut i: usize = 0;
    let mut j: usize = 0;
    while i < left.len() || j < right.len()
        invariant
            0 <= lo <= mid <= hi <= keys@.count(),
            ascending(keys@, left@),
            ascending(keys@, right@),
            within(left@, lo, mid),
            within(right@, mid, hi),
            i <= left.len(),
            j <= right.len(),
            out.len() == i + j,
            ascending(keys@, out@),
            within(out@, lo, hi),
            forall|a: int, b: int|
                0 <= a < out.len() && i <= b < left.len() ==> keys@.precedes(
                    #[trigger] out[a] as int,
                    #[trigger] left[b] as int,
                ),
            forall|a: int, b: int|
                0 <= a < out.len() && j <= b < right.len() ==> keys@.precedes(
                    #[trigger] out[a] as int,
                    #[trigger] right[b] as int,
                ),
        decreases left.len() - i + right.len() - j,
    {
        let take_left = if i >= left.len() {
            false
        } else if j >= right.len() {
            true
        } else {
            keys.comes_first(left[i], right[j])
        };
        let ghost before = out@;
        if take_left {
            let x = left[i];
            out.push(x);
            proof {
                assert forall|a: int, b: int|
                    0 <= a < out.len() && i + 1 <= b < left.len() implies keys@.precedes(
                    #[trigger] out[a] as int,
                    #[trigger] left[b] as int,
                ) by {
                    if a == before.len() {
                        assert(keys@.precedes(left[i as int] as int, left[b] as int));
                    }
                }
                assert forall|a: int, b: int|
                    0 <= a < out.len() && j <= b < right.len() implies keys@.precedes(
                    #[trigger] out[a] as int,
                    #[trigger] right[b] as int,
                ) by {
                    if a == before.len() {
                        if b > j {
                            assert(keys@.precedes(right[j as int] as int, right[b] as int));
                            keys@.lemma_order(x as int, right[j as int] as int, right[b] as int);
                        }
                    }
                }
                assert forall|a: int, b: int| 0 <= a < b < out.len() implies keys@.precedes(
                    #[trigger] out[a] as int,
                    #[trigger] out[b] as int,
                ) by {
                    if b == before.len() {
                        assert(keys@.precedes(before[a] as int, left[i as int] as int));
                    } else {
                        assert(keys@.precedes(before[a] as int, before[b] as int));
                    }
                }
            }
            i += 1;
        } else {
            let y = right[j];
            out.push(y);
            proof {
                if i < left.len() {
                    keys@.lemma_order(left[i as int] as int, y as int, y as int);
                    assert(keys@.precedes(y as int, left[i as int] as int));
                }
                assert forall|a: int, b: int|
                    0 <= a < out.len() && j + 1 <= b < right.len() implies keys@.precedes(
                    #[trigger] out[a] as int,
                    #[trigger] right[b] as int,
                ) by {
                    if a == before.len() {
                        assert(keys@.precedes(right[j as int] as int, right[b] as int));
                    }
                }
                assert forall|a: int, b: int|
                    0 <= a < out.len() && i <= b < left.len() implies keys@.precedes(
                    #[trigger] out[a] as int,
                    #[trigger] left[b] as int,
                ) by {
                    if a == before.len() {
                        if b > i {
                            assert(keys@.precedes(left[i as int] as int, left[b] as int));
                            keys@.lemma_order(y as int, left[i as int] as int, left[b] as int);
                        }
                    }
                }
                assert forall|a: int, b: int| 0 <= a < b < out.len() implies keys@.precedes(
                    #[trigger] out[a] as int,
                    #[trigger] out[b] as int,
                ) by {
                    if b == before.len() {
                        assert(keys@.precedes(before[a] as int, right[j as int] as int));
                    } else {
                        assert(keys@.precedes(before[a] as int, before[b] as int));
                    }
                }
            }
            j += 1;
        }
    }
    out
}

/// The records `lo..hi` in ascending order.
fn sorted_range(keys: &SortKeys, lo: usize, hi: usize) -> (out: Vec<usize>)
    requires
        lo <= hi <= keys@.count(),
    ensures
        out.len() == hi - lo,
        ascending(keys@, out@),
        within(out@, lo as int, hi as int),
    decreases hi - lo,
{
    if hi - lo <= 1 {
        let mut out: Vec<usize> = Vec::new();
        if hi - lo == 1 {
            out.push(lo);
        }
        return out;
    }
    let mid = lo + (hi - lo) / 2;
    let left = sorted_range(keys, lo, mid);
    let right = sorted_range(keys, mid, hi);
    merge(keys, &left, &right, Ghost(lo as int), Ghost(mid as int), Ghost(hi as int))
}

/// Whether `order` is the order of a stable sort of the records by `keys`: it
/// has an index for each record, every index in it is a record's, and each
/// comes before the next.
pub open spec fn is_sorted_order(keys: KeySeq, order: Seq<usize>) -> bool {
    &&& order.len() == keys.count()
    &&& within(order, 0, keys.count() as int)
    &&& ascending(keys, order)
}

/// The order of a stable sort lists every record, and none twice.
pub proof fn lemma_sorted_order_lists_each_once(keys: KeySeq, order: Seq<usize>)
    requires
        is_sorted_order(keys, order),
    ensures
        order.no_duplicates(),
        forall|i: usize| i < keys.count() ==> #[trigger] order.contains(i),
{
    let n = keys.count() as int;
    assert forall|a: int, b: int| 0 <= a < order.len() && 0 <= b < order.len() && a != b implies order[a]
        != order[b] by {
        keys.lemma_order(order[a] as int, order[b] as int, order[a] as int);
        if a < b {
            assert(keys.precedes(order[a] as int, order[b] as int));
        } else {
            assert(keys.precedes(order[b] as int, order[a] as int));
        }
    }
    let ints = Seq::new(order.len(), |k: int| order[k] as int);
    assert(ints.no_duplicates());
    ints.unique_seq_to_set();
    vstd::set_lib::lemma_int_range(0, n);
    let range = vstd::set_lib::set_int_range(0, n);
    assert(ints.to_set().subset_of(range)) by {
        assert forall|x: int| ints.to_set().contains(x) implies range.contains(x) by {
            let k = choose|k: int| 0 <= k < ints.len() && ints[k] == x;
            assert(0 <= order[k] < n);
        }
    }
    vstd::set_lib::lemma_set_subset_finite(range, ints.to_set());
    vstd::set_lib::lemma_subset_equality(ints.to_set(), range);
    assert forall|i: usize| i < n implies #[trigger] order.contains(i) by {
        assert(range.contains(i as int));
        assert(ints.to_set().contains(i as int));
        let k = choose|k: int| 0 <= k < ints.len() && ints[k] == i as int;
        assert(order[k] == i);
    }
}

/// The order of a stable sort of the records by `keys`: the index of the
/// record that comes first, then that of the next, and so on.
pub fn sort_order(keys: &SortKeys) -> (order: Vec<usize>)
    ensures
        is_sorted_order(keys@, order@),
{
    let n = match keys {
        SortKeys::Times(t) => t.len(),
        SortKeys::Numbers(n) => n.len(),
    };
    sorted_range(keys, 0, n)
}

/// Whether `after` holds the records of `before` in the order `order`.
pub open spec fn arranged(before: Seq<ImageView>, order: Seq<usize>, after: Seq<ImageView>) -> bool {
    &&& after.len() == order.len()
    &&& forall|i: int|
        0 <= i < order.len() ==> 0 <= #[trigger] order[i] < before.len() && after[i]
            == before[order[i] as int]
}

/// Whether `after` is `before` sorted by `keys`, ties in the order they had:
/// there is an order that lists every record once, each before the next, and
/// `after` holds the records in it.
pub open spec fn is_stable_sort(keys: KeySeq, before: Seq<ImageView>, after: Seq<ImageView>) -> bool {
    exists|order: Seq<usize>| is_sorted_order(keys, order) && arranged(before, order, after)
}

/// The times of the records, in order.
pub open spec fn times_of(images: Seq<ImageView>) -> Seq<Timestamp> {
    Seq::new(images.len(), |i: int| images[i].time)
}

/// The number that a file name holds: its longest run of digits read as a
/// number. `None` where it holds no digit, or more than 32 bits hold.
pub open spec fn number_of(path: Seq<char>) -> Option<u32> {
    match parsed_number(digits_of(path), u32::MAX as nat) {
        Some(n) => if digits_of(path).len() > 0 {
            Some(n as u32)
        } else {
            None
        },
        None => None,
    }
}

/// The number that a file name holds.
pub fn numeric_key(path: &str) -> (r: Option<u32>)
    ensures
        r == number_of(path@),
{
    let digits = digit_run(&chars_of(path));
    assert(digits@.skip(0) == digits@);
    if digits.len() == 0 {
        return None;
    }
    match parse_number(&digits, 0, u32::MAX as u64) {
        Some(n) => Some(n as u32),
        None => None,
    }
}

/// The records of `images` in the order `order`.
fn arrange(images: &Vec<Image>, order: &Vec<usize>) -> (out: Vec<Image>)
    requires
        within(order@, 0, images.len() as int),
    ensures
        arranged(gallery(images@), order@, gallery(out@)),
        times_wf(images@) ==> times_wf(out@),
{
    let mut out: Vec<Image> = Vec::with_capacity(order.len());
    let mut i: usize = 0;
    while i < order.len()
        invariant
            i <= order.len(),
            within(order@, 0, images.len() as int),
            out.len() == i,
            forall|j: int|
                0 <= j < i ==> (#[trigger] out[j])@ == images[order[j] as int]@,
            times_wf(images@) ==> times_wf(out@),
        decreases order.len() - i,
    {
        let at = order[i];
        assert(0 <= order@[i as int] < images.len());
        let copy = images[at].duplicate();
        out.push(copy);
        i += 1;
    }
    out
}

/// Sorts the gallery by the time each record was taken, the earliest first.
/// Records of the same time keep the order they had.
pub fn sort_by_time(images: &mut Vec<Image>)
    ensures
        is_stable_sort(
            KeySeq::Times(times_of(gallery(old(images)@))),
            gallery(old(images)@),
            gallery(final(images)@),
        ),
        times_wf(old(images)@) ==> times_wf(final(images)@),
{
    let mut times: Vec<Timestamp> = Vec::with_capacity(images.len());
    let mut i: usize = 0;
    while i < images.len()
        invariant
            i <= images.len(),
            times@ == times_of(gallery(images@)).take(i as int),
        decreases images.len() - i,
    {
        times.push(images[i].time);
        i += 1;
        assert(times@ =~= times_of(gallery(images@)).take(i as int));
    }
    assert(times@ =~= times_of(gallery(images@)));
    let keys = SortKeys::Times(times);
    let order = sort_order(&keys);
    let sorted = arrange(images, &order);
    *images = sorted;
}

/// The index of the first record whose file name holds no number, or the
/// number of records where each holds one.
pub open spec fn first_without_number(images: Seq<ImageView>) -> int
    decreases images.len(),
{
    if images.len() == 0 {
        0
    } else if number_of(images[0].path) is None {
        0
    } else {
        1 + first_without_number(images.drop_first())
    }
}

/// The numbers that the file names of the records hold, where each holds
/// one.
pub open spec fn numbers_of(images: Seq<ImageView>) -> Seq<u32> {
    Seq::new(images.len(), |i: int| number_of(images[i].path)->Some_0)
}

/// Sorts the gallery by the number that each file name holds, the least
/// first. Records of the same number keep the order they had. Where a file
/// name holds no number the gallery stays as it is, and the error is the
/// index of the first such record.
pub fn sort_by_number(images: &mut Vec<Image>) -> (r: Result<(), usize>)
    ensures
        match r {
            Ok(_) => first_without_number(gallery(old(images)@)) == old(images).len()
                && is_stable_sort(
                KeySeq::Numbers(numbers_of(gallery(old(images)@))),
                gallery(old(images)@),
                gallery(final(images)@),
            ),
            Err(i) => i == first_without_number(gallery(old(images)@)) && i < old(images).len()
                && *final(images) == *old(images),
        },
        times_wf(old(images)@) ==> times_wf(final(images)@),
{
    let mut numbers: Vec<u32> = Vec::with_capacity(images.len());
    let mut i: usize = 0;
    let ghost all = gallery(images@);
    assert(all.skip(0) =~= all);
    while i < images.len()
        invariant
            i <= images.len(),
            all == gallery(images@),
            images == old(images),
            first_without_number(all) == i + first_without_number(all.skip(i as int)),
            numbers.len() == i,
            forall|j: int|
                0 <= j < i ==> number_of(all[j].path) == Some(#[trigger] numbers[j]),
        decreases images.len() - i,
    {
        proof {
            assert(all.skip(i as int)[0] == all[i as int]);
            assert(all.skip(i as int).drop_first() =~= all.skip(i + 1));
        }
        match numeric_key(images[i].path.as_str()) {
            Some(n) => {
                numbers.push(n);
            },
            None => {
                return Err(i);
            },
        }
        i += 1;
    }
    assert(numbers@ =~= numbers_of(all));
    let keys = SortKeys::Numbers(numbers);
    let order = sort_order(&keys);
    let sorted = arrange(images, &order);
    *images = sorted;
    Ok(())
}

} // verus!
