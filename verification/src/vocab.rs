//! Closed, frequency-ranked vocabularies: occurrences are counted over a
//! corpus and the most frequent distinct values are kept, up to a size cap.
//! Ties at the cap are broken deterministically within one build (first
//! maximal value found wins), but carry no meaning.

use vstd::prelude::*;
use crate::text::{str_chars, chars_eq, chars_to_string};

verus! {

/// How often `x` occurs in `items`.
pub open spec fn count_of(items: Seq<Seq<char>>, x: Seq<char>) -> int
    decreases items.len(),
{
    if items.len() == 0 {
        0
    } else {
        (if items[0] == x {
            1int
        } else {
            0int
        }) + count_of(items.drop_first(), x)
    }
}

pub proof fn lemma_count_push(items: Seq<Seq<char>>, y: Seq<char>, x: Seq<char>)
    ensures
        count_of(items.push(y), x) == count_of(items, x) + (if y == x {
            1int
        } else {
            0int
        }),
    decreases items.len(),
{
    if items.len() == 0 {
        assert(items.push(y).drop_first() =~= items);
    } else {
        lemma_count_push(items.drop_first(), y, x);
        assert(items.push(y).drop_first() =~= items.drop_first().push(y));
        assert(items.push(y)[0] == items[0]);
    }
}

pub proof fn lemma_count_bounds(items: Seq<Seq<char>>, x: Seq<char>)
    ensures
        0 <= count_of(items, x) <= items.len(),
    decreases items.len(),
{
    if items.len() > 0 {
        lemma_count_bounds(items.drop_first(), x);
    }
}

/// Whether `x` is one of the strings of `xs`.
pub open spec fn in_list(xs: Seq<Seq<char>>, x: Seq<char>) -> bool {
    exists|i: int| 0 <= i < xs.len() && #[trigger] xs[i] == x
}

/// What a frequency-capped vocabulary promises: at most `n` values, all
/// distinct and occurring in the corpus, ranked by descending count, with no
/// excluded value more frequent than the last kept one; fewer than `n`
/// values only when every occurring value is kept.
pub open spec fn is_top_vocab(items: Seq<Seq<char>>, n: int, r: Seq<Seq<char>>) -> bool {
    &&& r.len() <= n
    &&& (r.len() < n ==> forall|x: Seq<char>| #[trigger] count_of(items, x) > 0 ==> in_list(r, x))
    &&& (forall|i: int, j: int| 0 <= i < j < r.len() ==> r[i] != r[j])
    &&& (forall|i: int| 0 <= i < r.len() ==> #[trigger] count_of(items, r[i]) > 0)
    &&& (forall|i: int, j: int|
        0 <= i <= j < r.len() ==> count_of(items, r[i]) >= count_of(items, r[j]))
    &&& (forall|x: Seq<char>|
        !in_list(r, x) && r.len() > 0 ==> #[trigger] count_of(items, x) <= count_of(
            items,
            r[r.len() - 1],
        ))
}

/// Finds the position of key `x` in the association list.
#[verifier::loop_isolation(false)]
fn find_key(assoc: &Vec<(String, u64)>, x: &Vec<char>) -> (r: Option<usize>)
    ensures
        match r {
            Some(k) => k < assoc@.len() && assoc@[k as int].0@ == x@,
            None => forall|k: int| 0 <= k < assoc@.len() ==> (#[trigger] assoc@[k]).0@ != x@,
        },
{
    let mut i: usize = 0;
    while i < assoc.len()
        invariant
            i <= assoc@.len(),
            forall|k: int| 0 <= k < i ==> (#[trigger] assoc@[k]).0@ != x@,
        decreases assoc.len() - i,
    {
        let c = str_chars(&assoc[i].0);
        if chars_eq(&c, x) {
            return Some(i);
        }
        i = i + 1;
    }
    None
}

/// Counts the occurrences of every distinct string of `items`.
#[verifier::loop_isolation(false)]
fn count_items(items: &Vec<String>) -> (r: Vec<(String, u64)>)
    ensures
        forall|a: int, b: int|
            0 <= a < b < r@.len() ==> (#[trigger] r@[a]).0@ != (#[trigger] r@[b]).0@,
        forall|k: int|
            0 <= k < r@.len() ==> (#[trigger] r@[k]).1 as int == count_of(
                items.deep_view(),
                r@[k].0@,
            ) && count_of(items.deep_view(), r@[k].0@) > 0,
        forall|x: Seq<char>|
            #[trigger] count_of(items.deep_view(), x) > 0 ==> exists|k: int|
                0 <= k < r@.len() && (#[trigger] r@[k]).0@ == x,
{
    let ghost all = items.deep_view();
    let mut r: Vec<(String, u64)> = Vec::new();
    let mut i: usize = 0;
    proof {
        assert(all.take(0) =~= Seq::<Seq<char>>::empty());
    }
    while i < items.len()
        invariant
            i <= items@.len(),
            forall|a: int, b: int|
                0 <= a < b < r@.len() ==> (#[trigger] r@[a]).0@ != (#[trigger] r@[b]).0@,
            forall|k: int|
                0 <= k < r@.len() ==> (#[trigger] r@[k]).1 as int == count_of(
                    all.take(i as int),
                    r@[k].0@,
                ) && count_of(all.take(i as int), r@[k].0@) > 0,
            forall|x: Seq<char>|
                #[trigger] count_of(all.take(i as int), x) > 0 ==> exists|k: int|
                    0 <= k < r@.len() && (#[trigger] r@[k]).0@ == x,
        decreases items.len() - i,
    {
        let c = str_chars(&items[i]);
        proof {
            assert(c@ == all[i as int]);
            assert(all.take(i as int + 1) =~= all.take(i as int).push(all[i as int]));
            assert forall|x: Seq<char>| true implies count_of(all.take(i as int + 1), x)
                == count_of(all.take(i as int), x) + (if all[i as int] == x {
                1int
            } else {
                0int
            }) by {
                lemma_count_push(all.take(i as int), all[i as int], x);
            }
            lemma_count_bounds(all.take(i as int), all[i as int]);
        }
        match find_key(&r, &c) {
            Some(k) => {
                let v = r[k].1;
                let ghost old_r = r@;
                proof {
                    assert(all.take(i as int).len() == i);
                }
                r[k].1 = v + 1;
                proof {
                    assert forall|k2: int| 0 <= k2 < r@.len() implies (#[trigger] r@[k2]).0
                        == old_r[k2].0 by {}
                    assert forall|x: Seq<char>|
                        #[trigger] count_of(all.take(i as int + 1), x) > 0 implies exists|k2: int|
                        0 <= k2 < r@.len() && (#[trigger] r@[k2]).0@ == x by {
                        if count_of(all.take(i as int), x) > 0 {
                            let k2 = choose|k2: int|
                                0 <= k2 < old_r.len() && (#[trigger] old_r[k2]).0@ == x;
                            assert(r@[k2].0@ == x);
                        } else {
                            assert(x == all[i as int]);
                            assert(r@[k as int].0@ == x);
                        }
                    }
                }
            },
            None => {
                let s = chars_to_string(&c);
                let ghost old_r = r@;
                r.push((s, 1));
                proof {
                    assert forall|x: Seq<char>|
                        #[trigger] count_of(all.take(i as int + 1), x) > 0 implies exists|k2: int|
                        0 <= k2 < r@.len() && (#[trigger] r@[k2]).0@ == x by {
                        if count_of(all.take(i as int), x) > 0 {
                            let k2 = choose|k2: int|
                                0 <= k2 < old_r.len() && (#[trigger] old_r[k2]).0@ == x;
                            assert(r@[k2].0@ == x);
                        } else {
                            assert(x == all[i as int]);
                            assert(r@[r@.len() - 1].0@ == x);
                        }
                    }
                }
            },
        }
        i = i + 1;
    }
    proof {
        assert(all.take(all.len() as int) =~= all);
    }
    r
}

/// Keeps the `n` most frequent distinct strings of `items`, most frequent
/// first; among equal counts the value counted first wins. The result
/// satisfies `is_top_vocab`.
#[verifier::loop_isolation(false)]
pub fn index_common(items: &Vec<String>, n: usize) -> (r: Vec<String>)
    ensures
        is_top_vocab(items.deep_view(), n as int, r.deep_view()),
{
    let ghost all = items.deep_view();
    let mut remaining = count_items(items);
    let mut r: Vec<String> = Vec::new();
    let mut taken: usize = 0;
    while taken < n && remaining.len() > 0
        invariant
            taken == r@.len(),
            taken <= n,
            // remaining entries still carry correct positive counts
            forall|k: int|
                0 <= k < remaining@.len() ==> (#[trigger] remaining@[k]).1 as int == count_of(
                    all,
                    remaining@[k].0@,
                ) && count_of(all, remaining@[k].0@) > 0,
            forall|a: int, b: int|
                0 <= a < b < remaining@.len() ==> (#[trigger] remaining@[a]).0@
                    != (#[trigger] remaining@[b]).0@,
            // the result so far: distinct, occurring, descending
            forall|i: int, j: int|
                0 <= i < j < r.deep_view().len() ==> r.deep_view()[i] != r.deep_view()[j],
            forall|i: int| 0 <= i < r.deep_view().len() ==> #[trigger] count_of(
                all,
                r.deep_view()[i],
            ) > 0,
            forall|i: int, j: int|
                0 <= i <= j < r.deep_view().len() ==> count_of(all, r.deep_view()[i]) >= count_of(
                    all,
                    r.deep_view()[j],
                ),
            // taken and remaining are disjoint, and every counted value is in one of them
            forall|i: int, k: int|
                0 <= i < r.deep_view().len() && 0 <= k < remaining@.len() ==> #[trigger] r.deep_view()[i]
                    != (#[trigger] remaining@[k]).0@,
            forall|x: Seq<char>|
                #[trigger] count_of(all, x) > 0 ==> in_list(r.deep_view(), x) || exists|k: int|
                    0 <= k < remaining@.len() && (#[trigger] remaining@[k]).0@ == x,
            // everything taken dominates everything remaining
            forall|i: int, k: int|
                0 <= i < r.deep_view().len() && 0 <= k < remaining@.len() ==> #[trigger] count_of(
                    all,
                    r.deep_view()[i],
                ) >= (#[trigger] remaining@[k]).1 as int,
        decreases n - taken,
    {
        // index of the first entry with the maximal count
        let mut best: usize = 0;
        let mut j: usize = 1;
        while j < remaining.len()
            invariant
                best < j <= remaining@.len(),
                forall|k: int|
                    0 <= k < j ==> (#[trigger] remaining@[k]).1 <= remaining@[best as int].1,
            decreases remaining.len() - j,
        {
            if remaining[j].1 > remaining[best].1 {
                best = j;
            }
            j = j + 1;
        }
        let ghost old_rem = remaining@;
        let ghost old_r = r.deep_view();
        let picked = remaining.remove(best);
        r.push(picked.0);
        taken = taken + 1;
        proof {
            assert(r.deep_view() =~~= old_r.push(picked.0@));
            assert(remaining@ =~= old_rem.remove(best as int));
            assert forall|k: int| 0 <= k < remaining@.len() implies #[trigger] remaining@[k]
                == (if k < best {
                old_rem[k]
            } else {
                old_rem[k + 1]
            }) by {}
            assert forall|x: Seq<char>|
                #[trigger] count_of(all, x) > 0 implies in_list(r.deep_view(), x) || exists|k: int|
                0 <= k < remaining@.len() && (#[trigger] remaining@[k]).0@ == x by {
                if in_list(old_r, x) {
                    let i = choose|i: int| 0 <= i < old_r.len() && #[trigger] old_r[i] == x;
                    assert(r.deep_view()[i] == x);
                } else {
                    let k = choose|k: int|
                        0 <= k < old_rem.len() && (#[trigger] old_rem[k]).0@ == x;
                    if k == best {
                        assert(r.deep_view()[old_r.len() as int] == x);
                    } else if k < best {
                        assert(remaining@[k].0@ == x);
                    } else {
                        assert(remaining@[k - 1].0@ == x);
                    }
                }
            }
        }
    }
    proof {
        let rv = r.deep_view();
        if taken < n {
            // the loop stopped because nothing remained: every value is kept
            assert forall|x: Seq<char>| #[trigger] count_of(all, x) > 0 implies in_list(rv, x) by {}
        }
        if remaining@.len() > 0 {
            // the loop stopped at the cap: the last kept value dominates
            assert(rv.len() == n);
        }
        assert forall|x: Seq<char>| !in_list(rv, x) && rv.len() > 0 implies #[trigger] count_of(
            all,
            x,
        ) <= count_of(all, rv[rv.len() - 1]) by {
            lemma_count_bounds(all, x);
            if count_of(all, x) > 0 {
                let k = choose|k: int|
                    0 <= k < remaining@.len() && (#[trigger] remaining@[k]).0@ == x;
                assert(count_of(all, rv[rv.len() - 1]) >= remaining@[k].1 as int);
            }
        }
    }
    r
}

} // verus!
