//! The order of a listing: most recently modified first, and among records
//! of one modification time the order in which the walk met them.
use vstd::prelude::*;
use crate::image::{ImageInfo, ImageRecord};

verus! {

/// No record is followed by a more recently modified one.
pub open spec fn newest_first(images: Seq<ImageRecord>) -> bool {
    forall|i: int, j: int| 0 <= i < j < images.len() ==> images[i].modified >= images[j].modified
}

/// The records of `images` that were modified at `time`, in their order.
pub open spec fn at_time(images: Seq<ImageRecord>, time: u64) -> Seq<ImageRecord> {
    images.filter(|image: ImageRecord| image.modified == time)
}

/// `sorted` holds the records of `images`, most recently modified first,
/// and those of one modification time in the order that they have in
/// `images`. There is exactly one such sequence for each `images`.
pub open spec fn is_ordering_of(sorted: Seq<ImageRecord>, images: Seq<ImageRecord>) -> bool {
    &&& sorted.len() == images.len()
    &&& newest_first(sorted)
    &&& forall|time: u64| #[trigger] at_time(sorted, time) == at_time(images, time)
}

proof fn lemma_at_time_push(images: Seq<ImageRecord>, image: ImageRecord, time: u64)
    ensures
        at_time(images.push(image), time) == if image.modified == time {
            at_time(images, time).push(image)
        } else {
            at_time(images, time)
        },
{
    images.lemma_filter_push(image, |image: ImageRecord| image.modified == time);
}

proof fn lemma_at_time_none(images: Seq<ImageRecord>, time: u64)
    requires
        forall|i: int| 0 <= i < images.len() ==> images[i].modified != time,
    ensures
        at_time(images, time) == Seq::<ImageRecord>::empty(),
{
    let pred = |image: ImageRecord| image.modified == time;
    assert(images.all(|x: ImageRecord| !pred(x)));
    images.lemma_all_neg_filter_empty(pred);
    assert(at_time(images, time) =~= Seq::<ImageRecord>::empty());
}

proof fn lemma_at_time_add(a: Seq<ImageRecord>, b: Seq<ImageRecord>, time: u64)
    ensures
        at_time(a + b, time) == at_time(a, time) + at_time(b, time),
{
    Seq::filter_distributes_over_add(a, b, |image: ImageRecord| image.modified == time);
}

fn reversed(images: Vec<ImageInfo>) -> (turned: Vec<ImageInfo>)
    ensures
        turned@.len() == images@.len(),
        forall|k: int|
            0 <= k < turned@.len() ==> turned@[k]@ == images.deep_view()[images@.len() - 1 - k],
{
    let ghost all = images.deep_view();
    let mut images = images;
    let mut turned: Vec<ImageInfo> = Vec::new();
    while images.len() > 0
        invariant
            images.deep_view() == all.take(images@.len() as int),
            images@.len() <= all.len(),
            turned@.len() == all.len() - images@.len(),
            forall|k: int| 0 <= k < turned@.len() ==> turned@[k]@ == all[all.len() - 1 - k],
        decreases images@.len(),
    {
        let ghost before = images.deep_view();
        let image = images.pop().unwrap();
        assert(image@ == before.last());
        assert(images.deep_view() =~= all.take(images@.len() as int));
        turned.push(image);
    }
    turned
}

/// Merges two ordered runs, the first of which comes first among records
/// of one modification time.
fn merge(left: Vec<ImageInfo>, right: Vec<ImageInfo>) -> (merged: Vec<ImageInfo>)
    requires
        newest_first(left.deep_view()),
        newest_first(right.deep_view()),
    ensures
        newest_first(merged.deep_view()),
        merged@.len() == left@.len() + right@.len(),
        forall|time: u64| #[trigger]
            at_time(merged.deep_view(), time) == at_time(left.deep_view(), time) + at_time(
                right.deep_view(),
                time,
            ),
{
    let ghost l = left.deep_view();
    let ghost r = right.deep_view();
    let mut left = reversed(left);
    let mut right = reversed(right);
    let mut merged: Vec<ImageInfo> = Vec::new();
    assert(forall|time: u64| #[trigger]
        at_time(l.take(0), time) + at_time(r.take(0), time) =~= Seq::<ImageRecord>::empty()) by {
        assert forall|time: u64| #[trigger]
            at_time(l.take(0), time) + at_time(r.take(0), time) =~= Seq::<ImageRecord>::empty() by {
            lemma_at_time_none(l.take(0), time);
            lemma_at_time_none(r.take(0), time);
        }
    }
    assert(forall|time: u64| #[trigger] at_time(merged.deep_view(), time) =~= Seq::<ImageRecord>::empty()) by {
        assert forall|time: u64| #[trigger]
            at_time(merged.deep_view(), time) =~= Seq::<ImageRecord>::empty() by {
            lemma_at_time_none(merged.deep_view(), time);
        }
    }
    while left.len() > 0 || right.len() > 0
        invariant
            newest_first(l),
            newest_first(r),
            left@.len() <= l.len(),
            right@.len() <= r.len(),
            forall|k: int| 0 <= k < left@.len() ==> left@[k]@ == l[l.len() - 1 - k],
            forall|k: int| 0 <= k < right@.len() ==> right@[k]@ == r[r.len() - 1 - k],
            merged@.len() == (l.len() - left@.len()) + (r.len() - right@.len()),
            newest_first(merged.deep_view()),
            forall|k: int, a: int|
                0 <= k < merged@.len() && l.len() - left@.len() <= a < l.len()
                    ==> merged@[k].modified >= l[a].modified,
            forall|k: int, b: int|
                0 <= k < merged@.len() && r.len() - right@.len() <= b < r.len()
                    ==> merged@[k].modified >= r[b].modified,
            forall|a: int, b: int|
                l.len() - left@.len() <= a < l.len() && 0 <= b < r.len() - right@.len()
                    ==> r[b].modified > l[a].modified,
            forall|time: u64| #[trigger]
                at_time(merged.deep_view(), time) == at_time(
                    l.take(l.len() - left@.len()),
                    time,
                ) + at_time(r.take(r.len() - right@.len()), time),
        decreases left@.len() + right@.len(),
    {
        let ghost i = l.len() - left@.len();
        let ghost j = r.len() - right@.len();
        let ghost so_far = merged.deep_view();
        let from_left = if left.len() == 0 {
            false
        } else if right.len() == 0 {
            true
        } else {
            left[left.len() - 1].modified >= right[right.len() - 1].modified
        };
        if from_left {
            let image = left.pop().unwrap();
            assert(image@ == l[i]);
            merged.push(image);
            assert(merged.deep_view() =~= so_far.push(l[i]));
            assert(l.take(i + 1) =~= l.take(i).push(l[i]));
            assert forall|time: u64| #[trigger]
                at_time(merged.deep_view(), time) == at_time(l.take(i + 1), time) + at_time(
                    r.take(j),
                    time,
                ) by {
                lemma_at_time_push(so_far, l[i], time);
                lemma_at_time_push(l.take(i), l[i], time);
                if l[i].modified == time {
                    lemma_at_time_none(r.take(j), time);
                    assert(at_time(l.take(i), time).push(l[i]) + at_time(r.take(j), time)
                        =~= (at_time(l.take(i), time) + at_time(r.take(j), time)).push(l[i]));
                }
            }
        } else {
            let image = right.pop().unwrap();
            assert(image@ == r[j]);
            merged.push(image);
            assert(merged.deep_view() =~= so_far.push(r[j]));
            assert(r.take(j + 1) =~= r.take(j).push(r[j]));
            assert forall|time: u64| #[trigger]
                at_time(merged.deep_view(), time) == at_time(l.take(i), time) + at_time(
                    r.take(j + 1),
                    time,
                ) by {
                lemma_at_time_push(so_far, r[j], time);
                lemma_at_time_push(r.take(j), r[j], time);
                if r[j].modified == time {
                    assert(at_time(l.take(i), time) + at_time(r.take(j), time).push(r[j])
                        =~= (at_time(l.take(i), time) + at_time(r.take(j), time)).push(r[j]));
                }
            }
        }
    }
    assert(l.take(l.len() as int) =~= l);
    assert(r.take(r.len() as int) =~= r);
    merged
}

/// Orders the records of a listing: most recently modified first, and
/// those of one modification time in the order in which they came.
pub fn sort_newest_first(images: Vec<ImageInfo>) -> (sorted: Vec<ImageInfo>)
    ensures
        is_ordering_of(sorted.deep_view(), images.deep_view()),
    decreases images@.len(),
{
    let n = images.len();
    if n <= 1 {
        return images;
    }
    let ghost all = images.deep_view();
    let mut left = images;
    let right = left.split_off(n / 2);
    assert(all =~= left.deep_view() + right.deep_view());
    let ghost l = left.deep_view();
    let ghost r = right.deep_view();
    let left = sort_newest_first(left);
    let right = sort_newest_first(right);
    let sorted = merge(left, right);
    assert forall|time: u64| #[trigger] at_time(sorted.deep_view(), time) == at_time(all, time) by {
        lemma_at_time_add(l, r, time);
        assert(at_time(left.deep_view(), time) == at_time(l, time));
        assert(at_time(right.deep_view(), time) == at_time(r, time));
    }
    sorted
}

proof fn lemma_last_at_time(images: Seq<ImageRecord>, time: u64)
    requires
        images.len() > 0,
    ensures
        at_time(images, time) == if images.last().modified == time {
            at_time(images.drop_last(), time).push(images.last())
        } else {
            at_time(images.drop_last(), time)
        },
{
    assert(images =~= images.drop_last().push(images.last()));
    lemma_at_time_push(images.drop_last(), images.last(), time);
}

proof fn lemma_oldest_is_last(a: Seq<ImageRecord>, b: Seq<ImageRecord>)
    requires
        a.len() > 0,
        b.len() > 0,
        newest_first(b),
        at_time(a, a.last().modified) == at_time(b, a.last().modified),
    ensures
        b.last().modified <= a.last().modified,
{
    let time = a.last().modified;
    let pred = |image: ImageRecord| image.modified == time;
    lemma_last_at_time(a, time);
    let kept = at_time(b, time);
    assert(kept.last() == a.last());
    assert(kept.contains(a.last()));
    b.lemma_filter_contains_rev(pred, a.last());
    let k = choose|k: int| 0 <= k < b.len() && b[k] == a.last();
    assert(b[k].modified >= b[b.len() - 1].modified);
}

/// The order of a listing is determined by its records: two sequences that
/// are both orderings of the same records are the same sequence.
pub proof fn ordering_is_unique(a: Seq<ImageRecord>, b: Seq<ImageRecord>, images: Seq<ImageRecord>)
    requires
        is_ordering_of(a, images),
        is_ordering_of(b, images),
    ensures
        a == b,
{
    assert forall|time: u64| #[trigger] at_time(a, time) == at_time(b, time) by {
        assert(at_time(a, time) == at_time(images, time));
        assert(at_time(b, time) == at_time(images, time));
    }
    lemma_same_order(a, b);
}

proof fn lemma_same_order(a: Seq<ImageRecord>, b: Seq<ImageRecord>)
    requires
        a.len() == b.len(),
        newest_first(a),
        newest_first(b),
        forall|time: u64| #[trigger] at_time(a, time) == at_time(b, time),
    ensures
        a == b,
    decreases a.len(),
{
    if a.len() == 0 {
        assert(a =~= b);
    } else {
        assert(at_time(a, a.last().modified) == at_time(b, a.last().modified));
        assert(at_time(a, b.last().modified) == at_time(b, b.last().modified));
        lemma_oldest_is_last(a, b);
        lemma_oldest_is_last(b, a);
        let oldest = a.last().modified;
        assert(b.last().modified == oldest);
        lemma_last_at_time(a, oldest);
        lemma_last_at_time(b, oldest);
        assert(at_time(a, oldest) == at_time(b, oldest));
        let kept_a = at_time(a.drop_last(), oldest);
        let kept_b = at_time(b.drop_last(), oldest);
        assert(kept_a.push(a.last()) == kept_b.push(b.last()));
        assert(kept_a.push(a.last()).last() == a.last());
        assert(kept_b.push(b.last()).last() == b.last());
        assert(kept_a.push(a.last()).drop_last() =~= kept_a);
        assert(kept_b.push(b.last()).drop_last() =~= kept_b);
        assert forall|time: u64| #[trigger]
            at_time(a.drop_last(), time) == at_time(b.drop_last(), time) by {
            lemma_last_at_time(a, time);
            lemma_last_at_time(b, time);
            assert(at_time(a, time) == at_time(b, time));
        }
        lemma_same_order(a.drop_last(), b.drop_last());
        assert(a =~= a.drop_last().push(a.last()));
        assert(b =~= b.drop_last().push(b.last()));
    }
}

} // verus!
