//! Orders the files of a release by disc number, then by track number.

use crate::tags::{disc_key, track_key, RawTagView};
use vstd::prelude::*;

verus! {

/// `a` may stand before `b`: its disc number is smaller, or the disc
/// numbers are equal and its track number is not greater.
pub open spec fn in_order(a: RawTagView, b: RawTagView) -> bool {
    disc_key(a) < disc_key(b) || (disc_key(a) == disc_key(b) && track_key(a) <= track_key(b))
}

/// Every file may stand before every later one.
pub open spec fn is_sorted(s: Seq<RawTagView>) -> bool {
    forall|i: int, j: int| 0 <= i < j < s.len() ==> in_order(#[trigger] s[i], #[trigger] s[j])
}

/// Where `v` goes into `s`: behind the last file that may stand before it,
/// seen from the end.
pub open spec fn insert_position(s: Seq<RawTagView>, v: RawTagView) -> int
    decreases s.len(),
{
    if s.len() == 0 {
        0
    } else if in_order(s.last(), v) {
        s.len() as int
    } else {
        insert_position(s.drop_last(), v)
    }
}

/// The files in order: each in turn is put into the ordered files before
/// it, behind those that may stand before it. Files with equal disc and
/// track numbers keep their order.
pub open spec fn sorted(s: Seq<RawTagView>) -> Seq<RawTagView>
    decreases s.len(),
{
    if s.len() == 0 {
        s
    } else {
        let before = sorted(s.drop_last());
        before.insert(insert_position(before, s.last()), s.last())
    }
}

/// The insert position lies in the sequence; the files from it on may not
/// stand before `v`, and the file just in front of it may.
pub proof fn lemma_insert_position(s: Seq<RawTagView>, v: RawTagView)
    ensures
        0 <= insert_position(s, v) <= s.len(),
        forall|k: int| insert_position(s, v) <= k < s.len() ==> !in_order(#[trigger] s[k], v),
        insert_position(s, v) > 0 ==> in_order(s[insert_position(s, v) - 1], v),
    decreases s.len(),
{
    if s.len() > 0 && !in_order(s.last(), v) {
        let head = s.drop_last();
        lemma_insert_position(head, v);
        assert forall|k: int| insert_position(s, v) <= k < s.len() implies !in_order(
            #[trigger] s[k],
            v,
        ) by {
            if k < head.len() {
                assert(head[k] == s[k]);
            }
        }
        if insert_position(s, v) > 0 {
            assert(head[insert_position(s, v) - 1] == s[insert_position(s, v) - 1]);
        }
    }
}

/// Sorting keeps the number of files and yields an ordered sequence that
/// holds each file as often as the input does.
pub proof fn lemma_sorted(s: Seq<RawTagView>)
    ensures
        sorted(s).len() == s.len(),
        is_sorted(sorted(s)),
        sorted(s).to_multiset() == s.to_multiset(),
    decreases s.len(),
{
    if s.len() == 0 {
    } else {
        let v = s.last();
        let before = sorted(s.drop_last());
        lemma_sorted(s.drop_last());
        lemma_insert_position(before, v);
        let p = insert_position(before, v);
        let after = before.insert(p, v);
        assert forall|i: int, j: int| 0 <= i < j < after.len() implies in_order(
            #[trigger] after[i],
            #[trigger] after[j],
        ) by {
            if j < p {
                assert(after[i] == before[i] && after[j] == before[j]);
            } else if j == p {
                assert(after[i] == before[i]);
                if i < p - 1 {
                    assert(in_order(before[i], before[p - 1]));
                }
            } else if i < p {
                assert(after[i] == before[i] && after[j] == before[j - 1]);
            } else if i == p {
                assert(after[j] == before[j - 1]);
                assert(!in_order(before[j - 1], v));
            } else {
                assert(after[i] == before[i - 1] && after[j] == before[j - 1]);
            }
        }
        vstd::seq_lib::to_multiset_insert(before, p, v);
        vstd::seq_lib::to_multiset_build(s.drop_last(), v);
        assert(s.drop_last().push(v) =~= s);
    }
}

/// An ordered sequence is left as it is.
pub proof fn lemma_sorted_fixes_sorted(s: Seq<RawTagView>)
    requires
        is_sorted(s),
    ensures
        sorted(s) == s,
    decreases s.len(),
{
    if s.len() > 0 {
        let head = s.drop_last();
        assert(is_sorted(head)) by {
            assert forall|i: int, j: int| 0 <= i < j < head.len() implies in_order(
                #[trigger] head[i],
                #[trigger] head[j],
            ) by {
                assert(head[i] == s[i] && head[j] == s[j]);
            }
        }
        lemma_sorted_fixes_sorted(head);
        if head.len() > 0 {
            assert(head.last() == s[s.len() - 2]);
            assert(in_order(s[s.len() - 2], s[s.len() - 1]));
        }
        assert(head.insert(head.len() as int, s.last()) =~= s);
    }
}

/// Sorting twice gives what sorting once gives.
pub proof fn lemma_sort_idempotent(s: Seq<RawTagView>)
    ensures
        sorted(sorted(s)) == sorted(s),
{
    lemma_sorted(s);
    lemma_sorted_fixes_sorted(sorted(s));
}

fn may_precede(a: &RawTagView, b: &RawTagView) -> (r: bool)
    ensures
        r == in_order(*a, *b),
{
    let da: u32 = a.disc_sort_key();
    let db: u32 = b.disc_sort_key();
    da < db || (da == db && a.track_sort_key() <= b.track_sort_key())
}

/// Orders the files by disc number and, within a disc, by track number;
/// a missing number counts as zero.
pub fn sort_tagged_files(tagged_files: Vec<RawTagView>) -> (r: Vec<RawTagView>)
    ensures
        r@ == sorted(tagged_files@),
        r@.len() == tagged_files@.len(),
        is_sorted(r@),
        r@.to_multiset() == tagged_files@.to_multiset(),
{
    let ghost all = tagged_files@;
    let mut rest = tagged_files;
    let mut out: Vec<RawTagView> = Vec::new();
    let ghost mut done: int = 0;
    assert(all.take(0) =~= Seq::<RawTagView>::empty());
    assert(all.skip(0) =~= all);
    while rest.len() > 0
        invariant
            0 <= done <= all.len(),
            rest@ == all.skip(done),
            out@ == sorted(all.take(done)),
        decreases rest@.len(),
    {
        let v = rest.remove(0);
        proof {
            assert(all.take(done + 1).drop_last() =~= all.take(done));
            assert(all.take(done + 1).last() == v);
            assert(all.skip(done).remove(0) =~= all.skip(done + 1));
            lemma_sorted(all.take(done));
        }
        let mut p: usize = out.len();
        assert(out@.take(p as int) =~= out@);
        while p > 0 && !may_precede(&out[p - 1], &v)
            invariant
                p <= out@.len(),
                insert_position(out@, v) == insert_position(out@.take(p as int), v),
            decreases p,
        {
            assert(out@.take(p as int).drop_last() =~= out@.take(p - 1));
            p -= 1;
        }
        out.insert(p, v);
        proof {
            done = done + 1;
        }
    }
    proof {
        assert(all.take(done) =~= all);
        lemma_sorted(all);
    }
    out
}

} // verus!
