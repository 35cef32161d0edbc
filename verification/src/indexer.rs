//! The open token indexer: an append-only bijection between strings and
//! sequential ids. Id `i` is position `i` of the backing list, so a
//! persisted ordered string list restores the indexer exactly.

use vstd::prelude::*;
use crate::FpaError;
use crate::text::{str_chars, chars_eq};

verus! {

/// First position of `x` in `v` at or after `i`.
pub open spec fn index_of_rec(v: Seq<Seq<char>>, x: Seq<char>, i: int) -> Option<int>
    decreases v.len() - i,
{
    if i < 0 || i >= v.len() {
        None
    } else if v[i] == x {
        Some(i)
    } else {
        index_of_rec(v, x, i + 1)
    }
}

/// First position of `x` in `v`, the id of a known string.
pub open spec fn index_of(v: Seq<Seq<char>>, x: Seq<char>) -> Option<int> {
    index_of_rec(v, x, 0)
}

/// No string occurs twice.
pub open spec fn distinct_strings(v: Seq<Seq<char>>) -> bool {
    forall|i: int, j: int| 0 <= i < j < v.len() ==> v[i] != v[j]
}

pub proof fn lemma_index_of_rec(v: Seq<Seq<char>>, x: Seq<char>, i: int)
    requires
        0 <= i,
    ensures
        index_of_rec(v, x, i) matches Some(k) ==> i <= k < v.len() && v[k] == x,
        index_of_rec(v, x, i) is None ==> forall|k: int| i <= k < v.len() ==> v[k] != x,
    decreases v.len() - i,
{
    if i < v.len() && v[i] != x {
        lemma_index_of_rec(v, x, i + 1);
    }
}

/// Finds the first position of `x` (given as characters) in `v`.
#[verifier::loop_isolation(false)]
pub fn find_string(v: &Vec<String>, x: &Vec<char>) -> (r: Option<usize>)
    ensures
        match r {
            Some(k) => k < v@.len() && index_of(v.deep_view(), x@) == Some(k as int),
            None => index_of(v.deep_view(), x@) is None,
        },
{
    let mut i: usize = 0;
    while i < v.len()
        invariant
            i <= v@.len(),
            index_of(v.deep_view(), x@) == index_of_rec(v.deep_view(), x@, i as int),
        decreases v.len() - i,
    {
        proof {
            assert(v.deep_view()[i as int] == v@[i as int]@);
        }
        let c = str_chars(&v[i]);
        if chars_eq(&c, x) {
            return Some(i);
        }
        i = i + 1;
    }
    None
}

/// An open, growable string-to-id bijection; id equals list position.
pub struct OpenIndexer {
    pub strings: Vec<String>,
}

impl OpenIndexer {
    /// The indexer stays a bijection: no string is given two ids.
    pub open spec fn wf(&self) -> bool {
        distinct_strings(self.strings.deep_view())
    }

    /// An empty indexer.
    pub fn new() -> (r: OpenIndexer)
        ensures
            r.strings@.len() == 0,
            r.wf(),
    {
        let r = OpenIndexer { strings: Vec::new() };
        proof {
            assert(r.strings.deep_view() =~= Seq::<Seq<char>>::empty());
        }
        r
    }

    /// Bulk-loads an indexer from an ordered string list: position is id.
    pub fn from_list(list: Vec<String>) -> (r: OpenIndexer)
        ensures
            r.strings == list,
    {
        OpenIndexer { strings: list }
    }

    /// Exports the indexer as the ordered string list that restores it.
    pub fn to_list(&self) -> (r: Vec<String>)
        ensures
            r.deep_view() == self.strings.deep_view(),
    {
        let r = self.strings.clone();
        proof {
            assert(r.deep_view() =~~= self.strings.deep_view());
        }
        r
    }

    /// The id of `s`: its existing id when known, else the next sequential
    /// id, under which `s` is recorded.
    pub fn lookup(&mut self, s: String) -> (id: usize)
        requires
            old(self).wf(),
        ensures
            final(self).wf(),
            match index_of(old(self).strings.deep_view(), s@) {
                Some(k) => *final(self) == *old(self) && id == k,
                None => {
                    &&& id == old(self).strings@.len()
                    &&& final(self).strings.deep_view() =~= old(self).strings.deep_view().push(s@)
                },
            },
    {
        let c = str_chars(&s);
        match find_string(&self.strings, &c) {
            Some(k) => k,
            None => {
                let id = self.strings.len();
                let ghost old_view = self.strings.deep_view();
                proof {
                    lemma_index_of_rec(old_view, s@, 0);
                }
                self.strings.push(s);
                proof {
                    assert(self.strings.deep_view() =~~= old_view.push(c@));
                    assert forall|i: int, j: int|
                        0 <= i < j < self.strings.deep_view().len() implies self.strings.deep_view()[i]
                        != self.strings.deep_view()[j] by {
                        if j < old_view.len() {
                        } else {
                            assert(old_view[i] != c@);
                        }
                    }
                }
                id
            },
        }
    }

    /// The string previously given id `id`; a descriptive error when `id`
    /// was never allocated.
    pub fn reverse_lookup(&self, id: i64) -> (r: Result<String, FpaError>)
        ensures
            match r {
                Ok(s) => 0 <= id < self.strings@.len() && s@ == self.strings.deep_view()[id as int],
                Err(e) => !(0 <= id < self.strings@.len()) && e == (FpaError::OutOfRange {
                    index: id,
                    size: self.strings@.len() as usize,
                }),
            },
    {
        if id >= 0 && (id as u64) < (self.strings.len() as u64) {
            let s = self.strings[id as usize].clone();
            proof {
                assert(self.strings.deep_view()[id as int] == self.strings@[id as int]@);
            }
            Ok(s)
        } else {
            Err(FpaError::OutOfRange { index: id, size: self.strings.len() })
        }
    }
}

} // verus!
