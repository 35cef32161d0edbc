//! The tokenizer: splits text into atomic word/symbol tokens and maps each
//! token to an id through its own open indexer. Ids `0` and `1` (more
//! generally, the first `num_reserved_tokens` ids) are reserved for padding
//! and for the unknown token; real tokens start right after them.
//!
//! The token vocabulary is grown sequentially (`add_text`) over a corpus,
//! then treated as read-only: `tokenize` never mutates, mapping unseen
//! tokens to the unknown id (or skipping them when unknowns are disabled),
//! so the training pass and every later query pass agree.

use vstd::prelude::*;
use crate::indexer::{OpenIndexer, index_of, find_string};
use crate::text::{symbols_of, get_symbols};

verus! {

/// Id of the reserved unknown token.
pub const UNKNOWN_ID: i64 = 1;

pub struct Tokenizer {
    pub use_unknowns: bool,
    pub num_reserved_tokens: usize,
    pub symbols: OpenIndexer,
}

/// Pickled form of a tokenizer: the two flags and the ordered symbol list.
pub type PickleableTokenizer = (bool, usize, Vec<String>);

/// The token-id sequence of one symbol under a frozen vocabulary.
pub open spec fn one_id(vocab: Seq<Seq<char>>, reserved: int, use_unknowns: bool, y: Seq<char>) -> Seq<
    int,
> {
    match index_of(vocab, y) {
        Some(k) => seq![reserved + k],
        None => if use_unknowns {
            seq![UNKNOWN_ID as int]
        } else {
            Seq::empty()
        },
    }
}

/// The token-id sequence of a symbol sequence under a frozen vocabulary.
pub open spec fn ids_rec(
    vocab: Seq<Seq<char>>,
    reserved: int,
    use_unknowns: bool,
    syms: Seq<Seq<char>>,
) -> Seq<int>
    decreases syms.len(),
{
    if syms.len() == 0 {
        Seq::empty()
    } else {
        one_id(vocab, reserved, use_unknowns, syms[0]) + ids_rec(
            vocab,
            reserved,
            use_unknowns,
            syms.drop_first(),
        )
    }
}

proof fn lemma_ids_push(
    vocab: Seq<Seq<char>>,
    reserved: int,
    use_unknowns: bool,
    syms: Seq<Seq<char>>,
    y: Seq<char>,
)
    ensures
        ids_rec(vocab, reserved, use_unknowns, syms.push(y)) == ids_rec(
            vocab,
            reserved,
            use_unknowns,
            syms,
        ) + one_id(vocab, reserved, use_unknowns, y),
    decreases syms.len(),
{
    if syms.len() == 0 {
        let p = syms.push(y);
        assert(p[0] == y);
        assert(p.drop_first() =~= syms);
        assert(ids_rec(vocab, reserved, use_unknowns, syms) =~= Seq::<int>::empty());
        assert(ids_rec(vocab, reserved, use_unknowns, p) == one_id(vocab, reserved, use_unknowns, y)
            + ids_rec(vocab, reserved, use_unknowns, syms));
        assert(one_id(vocab, reserved, use_unknowns, y) + Seq::<int>::empty() =~= one_id(
            vocab,
            reserved,
            use_unknowns,
            y,
        ));
        assert(Seq::<int>::empty() + one_id(vocab, reserved, use_unknowns, y) =~= one_id(
            vocab,
            reserved,
            use_unknowns,
            y,
        ));
    } else {
        lemma_ids_push(vocab, reserved, use_unknowns, syms.drop_first(), y);
        assert(syms.push(y).drop_first() =~= syms.drop_first().push(y));
        assert(syms.push(y)[0] == syms[0]);
        assert(ids_rec(vocab, reserved, use_unknowns, syms.push(y)) =~= ids_rec(
            vocab,
            reserved,
            use_unknowns,
            syms,
        ) + one_id(vocab, reserved, use_unknowns, y));
    }
}

/// The vocabulary after reading a symbol sequence: every unseen symbol is
/// appended at the next id, in reading order.
pub open spec fn grow_rec(vocab: Seq<Seq<char>>, syms: Seq<Seq<char>>) -> Seq<Seq<char>>
    decreases syms.len(),
{
    if syms.len() == 0 {
        vocab
    } else {
        grow_rec(
            if index_of(vocab, syms[0]) is Some {
                vocab
            } else {
                vocab.push(syms[0])
            },
            syms.drop_first(),
        )
    }
}

/// The token ids of a text under the tokenizer's frozen vocabulary.
pub open spec fn tokenize_spec(t: Tokenizer, text: Seq<char>) -> Seq<int> {
    ids_rec(
        t.symbols.strings.deep_view(),
        t.num_reserved_tokens as int,
        t.use_unknowns,
        symbols_of(text),
    )
}

impl Tokenizer {
    /// The token vocabulary stays a bijection.
    pub open spec fn wf(&self) -> bool {
        self.symbols.wf()
    }

    /// Every assignable token id fits a signed tensor label.
    pub open spec fn fits_labels(&self) -> bool {
        self.num_reserved_tokens + self.symbols.strings@.len() <= i64::MAX
            && self.num_reserved_tokens + self.symbols.strings@.len() <= usize::MAX
    }

    /// A fresh tokenizer with an empty token vocabulary.
    pub fn new(use_unknowns: bool, num_reserved_tokens: usize) -> (r: Tokenizer)
        ensures
            r.use_unknowns == use_unknowns,
            r.num_reserved_tokens == num_reserved_tokens,
            r.symbols.strings@.len() == 0,
            r.wf(),
    {
        Tokenizer { use_unknowns, num_reserved_tokens, symbols: OpenIndexer::new() }
    }

    /// Pickles the tokenizer as its flags and ordered symbol list.
    pub fn to_pickleable(&self) -> (r: PickleableTokenizer)
        ensures
            r.0 == self.use_unknowns,
            r.1 == self.num_reserved_tokens,
            r.2.deep_view() == self.symbols.strings.deep_view(),
    {
        (self.use_unknowns, self.num_reserved_tokens, self.symbols.to_list())
    }

    /// Restores a tokenizer from its pickled form.
    pub fn from_pickleable(p: PickleableTokenizer) -> (r: Tokenizer)
        ensures
            r.use_unknowns == p.0,
            r.num_reserved_tokens == p.1,
            r.symbols.strings == p.2,
    {
        Tokenizer { use_unknowns: p.0, num_reserved_tokens: p.1, symbols: OpenIndexer::from_list(p.2) }
    }

    /// Grows the token vocabulary with every unseen token of `text`, in
    /// reading order. The corpus-building pass runs this sequentially over
    /// every text before anything is tokenized.
    #[verifier::loop_isolation(false)]
    pub fn add_text(&mut self, text: &Vec<char>)
        requires
            old(self).wf(),
        ensures
            final(self).wf(),
            final(self).use_unknowns == old(self).use_unknowns,
            final(self).num_reserved_tokens == old(self).num_reserved_tokens,
            final(self).symbols.strings.deep_view() == grow_rec(
                old(self).symbols.strings.deep_view(),
                symbols_of(text@),
            ),
    {
        let syms = get_symbols(text);
        let ghost all = symbols_of(text@);
        let mut i: usize = 0;
        proof {
            assert(all.skip(0) =~= all);
        }
        while i < syms.len()
            invariant
                i <= syms@.len(),
                syms.deep_view() == all,
                self.use_unknowns == old(self).use_unknowns,
                self.num_reserved_tokens == old(self).num_reserved_tokens,
                self.symbols.wf(),
                grow_rec(old(self).symbols.strings.deep_view(), all) == grow_rec(
                    self.symbols.strings.deep_view(),
                    all.skip(i as int),
                ),
            decreases syms.len() - i,
        {
            proof {
                assert(all.skip(i as int)[0] == syms.deep_view()[i as int]);
                assert(all.skip(i as int).drop_first() =~= all.skip(i as int + 1));
                assert(syms@[i as int]@ =~= syms.deep_view()[i as int]);
            }
            let _ = self.symbols.lookup_chars_as_string(&syms[i]);
            i = i + 1;
        }
        proof {
            assert(all.skip(all.len() as int) =~= Seq::<Seq<char>>::empty());
        }
    }
}

impl OpenIndexer {
    /// `lookup` for a token given as characters.
    pub fn lookup_chars_as_string(&mut self, c: &Vec<char>) -> (id: usize)
        requires
            old(self).wf(),
        ensures
            final(self).wf(),
            match index_of(old(self).strings.deep_view(), c@) {
                Some(k) => *final(self) == *old(self) && id == k,
                None => {
                    &&& id == old(self).strings@.len()
                    &&& final(self).strings.deep_view() =~= old(self).strings.deep_view().push(c@)
                },
            },
    {
        let s = crate::text::chars_to_string(c);
        self.lookup(s)
    }
}

/// Tokenizes a text against the frozen vocabulary: each known token maps to
/// its id after the reserved slots, each unseen token to the unknown id (or
/// to nothing when unknowns are disabled).
#[verifier::loop_isolation(false)]
pub fn tokenize(t: &Tokenizer, text: &Vec<char>) -> (r: Vec<i64>)
    requires
        t.fits_labels(),
    ensures
        r@.map_values(|x: i64| x as int) == tokenize_spec(*t, text@),
{
    let syms = get_symbols(text);
    let ghost all = symbols_of(text@);
    let ghost vocab = t.symbols.strings.deep_view();
    let ghost reserved = t.num_reserved_tokens as int;
    let mut r: Vec<i64> = Vec::new();
    let mut i: usize = 0;
    proof {
        assert(r@.map_values(|x: i64| x as int) =~= ids_rec(vocab, reserved, t.use_unknowns, all.take(0)));
    }
    while i < syms.len()
        invariant
            i <= syms@.len(),
            syms.deep_view() == all,
            r@.map_values(|x: i64| x as int) == ids_rec(
                vocab,
                reserved,
                t.use_unknowns,
                all.take(i as int),
            ),
        decreases syms.len() - i,
    {
        proof {
            assert(all.take(i as int + 1) =~= all.take(i as int).push(all[i as int]));
            lemma_ids_push(vocab, reserved, t.use_unknowns, all.take(i as int), all[i as int]);
            assert(all[i as int] == syms.deep_view()[i as int]);
            assert(syms@[i as int]@ =~= syms.deep_view()[i as int]);
        }
        let ghost old_map = r@.map_values(|x: i64| x as int);
        match find_string(&t.symbols.strings, &syms[i]) {
            Some(k) => {
                let id: i64 = (t.num_reserved_tokens + k) as i64;
                r.push(id);
                proof {
                    assert(r@.map_values(|x: i64| x as int) =~= old_map.push(id as int));
                }
            },
            None => {
                if t.use_unknowns {
                    r.push(UNKNOWN_ID);
                    proof {
                        assert(r@.map_values(|x: i64| x as int) =~= old_map.push(UNKNOWN_ID as int));
                    }
                } else {
                    proof {
                        assert(old_map + Seq::<int>::empty() =~= old_map);
                    }
                }
            },
        }
        i = i + 1;
    }
    proof {
        assert(all.take(all.len() as int) =~= all);
    }
    r
}

/// Truncates a token-id sequence to `length` (keeping the prefix) or
/// right-pads it with `pad_value`, so every output has exactly `length`
/// entries.
#[verifier::loop_isolation(false)]
pub fn normalize_sentence_length(sentence: Vec<i64>, length: usize, pad_value: i64) -> (r: Vec<
    i64,
>)
    ensures
        r@.len() == length,
        forall|i: int| 0 <= i < length && i < sentence@.len() ==> r@[i] == sentence@[i],
        forall|i: int| sentence@.len() <= i < length ==> r@[i] == pad_value,
{
    let mut s = sentence;
    let ghost orig = s@;
    if s.len() > length {
        s.truncate(length);
        proof {
            assert(s@ =~= orig.take(length as int));
        }
    }
    while s.len() < length
        invariant
            s@.len() <= length,
            s@.len() >= orig.len() || s@.len() == length,
            forall|i: int| 0 <= i < s@.len() && i < orig.len() ==> s@[i] == orig[i],
            forall|i: int| orig.len() <= i < s@.len() ==> s@[i] == pad_value,
        decreases length - s.len(),
    {
        s.push(pad_value);
    }
    s
}

} // verus!
