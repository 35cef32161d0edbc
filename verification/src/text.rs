//! Text primitives shared by the whole pipeline: the fixed tokenization
//! rules (whitespace words, word/symbol runs), trimming, and substring
//! search.
//!
//! The delimiter rules here are deliberately fixed and deterministic: the
//! training pass and every later query pass must tokenize identically.

use vstd::prelude::*;

verus! {

/// The whitespace characters recognized by every splitting rule in this crate.
pub open spec fn is_space_char(c: char) -> bool {
    c == ' ' || c == '\t' || c == '\n' || c == '\r'
}

/// Characters that may form an identifier-like token: ASCII letters, digits,
/// underscore and the prime mark used in hypothesis names.
pub open spec fn is_word_char(c: char) -> bool {
    ('a' <= c && c <= 'z') || ('A' <= c && c <= 'Z') || ('0' <= c && c <= '9') || c == '_' || c
        == '\''
}

pub fn exec_is_space(c: char) -> (r: bool)
    ensures
        r == is_space_char(c),
{
    c == ' ' || c == '\t' || c == '\n' || c == '\r'
}

pub fn exec_is_word_char(c: char) -> (r: bool)
    ensures
        r == is_word_char(c),
{
    ('a' <= c && c <= 'z') || ('A' <= c && c <= 'Z') || ('0' <= c && c <= '9') || c == '_' || c
        == '\''
}

/// The whitespace-delimited words of `s`, with `cur` the (possibly empty)
/// word read so far.
pub open spec fn words_rec(s: Seq<char>, cur: Seq<char>) -> Seq<Seq<char>>
    decreases s.len(),
{
    if s.len() == 0 {
        if cur.len() == 0 {
            Seq::empty()
        } else {
            seq![cur]
        }
    } else if is_space_char(s[0]) {
        if cur.len() == 0 {
            words_rec(s.drop_first(), cur)
        } else {
            seq![cur] + words_rec(s.drop_first(), Seq::empty())
        }
    } else {
        words_rec(s.drop_first(), cur.push(s[0]))
    }
}

/// The whitespace-delimited words of `s`, in order.
pub open spec fn words_of(s: Seq<char>) -> Seq<Seq<char>> {
    words_rec(s, Seq::empty())
}

/// Splits `s` into its whitespace-delimited words.
pub fn get_words(s: &Vec<char>) -> (r: Vec<Vec<char>>)
    ensures
        r.deep_view() == words_of(s@),
{
    let mut r: Vec<Vec<char>> = Vec::new();
    let mut cur: Vec<char> = Vec::new();
    let mut i: usize = 0;
    proof {
        assert(s@.skip(0) =~= s@);
        assert(r.deep_view() + words_rec(s@, cur@) =~~= words_of(s@));
    }
    while i < s.len()
        invariant
            i <= s.len(),
            words_of(s@) == r.deep_view() + words_rec(s@.skip(i as int), cur@),
        decreases s.len() - i,
    {
        let c = s[i];
        proof {
            assert(s@.skip(i as int).drop_first() =~= s@.skip(i as int + 1));
            assert(s@.skip(i as int)[0] == c);
        }
        if exec_is_space(c) {
            if cur.len() > 0 {
                let ghost old_r = r.deep_view();
                let ghost old_cur = cur@;
                r.push(cur);
                cur = Vec::new();
                proof {
                    assert(cur@ =~= Seq::<char>::empty());
                    assert(r.deep_view() =~~= old_r.push(old_cur));
                    assert(old_r + (seq![old_cur] + words_rec(s@.skip(i as int + 1), cur@))
                        =~= r.deep_view() + words_rec(s@.skip(i as int + 1), cur@));
                }
            }
        } else {
            cur.push(c);
        }
        i = i + 1;
    }
    proof {
        assert(s@.skip(s@.len() as int) =~= Seq::<char>::empty());
    }
    if cur.len() > 0 {
        let ghost old_r = r.deep_view();
        let ghost old_cur = cur@;
        r.push(cur);
        proof {
            assert(r.deep_view() =~~= old_r.push(old_cur));
            assert(r.deep_view() =~~= old_r + seq![old_cur]);
        }
    }
    proof {
        assert(r.deep_view() =~~= words_of(s@));
    }
    r
}

/// A proper word: nonempty and free of whitespace.
pub open spec fn clean_word(w: Seq<char>) -> bool {
    w.len() > 0 && forall|c: int| 0 <= c < w.len() ==> !is_space_char(#[trigger] w[c])
}

proof fn lemma_words_rec_clean(s: Seq<char>, cur: Seq<char>)
    requires
        forall|c: int| 0 <= c < cur.len() ==> !is_space_char(#[trigger] cur[c]),
    ensures
        forall|k: int|
            0 <= k < words_rec(s, cur).len() ==> clean_word(#[trigger] words_rec(s, cur)[k]),
    decreases s.len(),
{
    if s.len() == 0 {
        if cur.len() > 0 {
            assert(clean_word(cur));
            assert(words_rec(s, cur) == seq![cur]);
        }
    } else if is_space_char(s[0]) {
        if cur.len() == 0 {
            lemma_words_rec_clean(s.drop_first(), cur);
            assert(words_rec(s, cur) == words_rec(s.drop_first(), cur));
        } else {
            assert(clean_word(cur));
            lemma_words_rec_clean(s.drop_first(), Seq::empty());
            assert forall|k: int|
                0 <= k < words_rec(s, cur).len() implies clean_word(
                #[trigger] words_rec(s, cur)[k],
            ) by {
                if k == 0 {
                    assert(words_rec(s, cur)[0] == cur);
                } else {
                    assert(words_rec(s, cur)[k] == words_rec(s.drop_first(), Seq::empty())[k - 1]);
                }
            }
        }
    } else {
        assert forall|c: int| 0 <= c < cur.push(s[0]).len() implies !is_space_char(
            #[trigger] cur.push(s[0])[c],
        ) by {
            if c < cur.len() {
                assert(cur.push(s[0])[c] == cur[c]);
            } else {
                assert(cur.push(s[0])[c] == s[0]);
            }
        }
        lemma_words_rec_clean(s.drop_first(), cur.push(s[0]));
        assert(words_rec(s, cur) == words_rec(s.drop_first(), cur.push(s[0])));
    }
}

/// Law: every word of the whitespace splitting is nonempty and holds no
/// whitespace.
pub proof fn lemma_words_clean(s: Seq<char>)
    ensures
        forall|k: int| 0 <= k < words_of(s).len() ==> clean_word(#[trigger] words_of(s)[k]),
{
    lemma_words_rec_clean(s, Seq::empty());
}

proof fn lemma_words_rec_nospace(s: Seq<char>, cur: Seq<char>)
    requires
        forall|c: int| 0 <= c < s.len() ==> !is_space_char(#[trigger] s[c]),
    ensures
        words_rec(s, cur) == (if cur.len() + s.len() == 0 {
            Seq::<Seq<char>>::empty()
        } else {
            seq![cur + s]
        }),
    decreases s.len(),
{
    if s.len() == 0 {
        assert(cur + s =~= cur);
    } else {
        assert(!is_space_char(s[0]));
        assert forall|c: int| 0 <= c < s.drop_first().len() implies !is_space_char(
            #[trigger] s.drop_first()[c],
        ) by {
            assert(s.drop_first()[c] == s[c + 1]);
        }
        lemma_words_rec_nospace(s.drop_first(), cur.push(s[0]));
        assert(cur.push(s[0]) + s.drop_first() =~= cur + s);
    }
}

/// Law: a proper word splits into exactly itself.
pub proof fn lemma_single_word(t: Seq<char>)
    requires
        clean_word(t),
    ensures
        words_of(t) == seq![t],
{
    lemma_words_rec_nospace(t, Seq::empty());
    assert(Seq::<char>::empty() + t =~= t);
}

/// Law: a proper word needs no trimming.
pub proof fn lemma_clean_word_trimmed(t: Seq<char>)
    requires
        clean_word(t),
    ensures
        trimmed(t) == t,
{
    assert(!is_space_char(t[0]));
    assert(trim_start_s(t) == t);
    assert(!is_space_char(t.last()));
    assert(trim_end_s(t) == t);
}

/// Copies the characters of `v` between `a` (inclusive) and `b` (exclusive).
pub fn sub_chars(v: &Vec<char>, a: usize, b: usize) -> (r: Vec<char>)
    requires
        a <= b <= v@.len(),
    ensures
        r@ == v@.subrange(a as int, b as int),
{
    let mut r: Vec<char> = Vec::new();
    let mut i: usize = a;
    while i < b
        invariant
            a <= i <= b <= v@.len(),
            r@ =~= v@.subrange(a as int, i as int),
        decreases b - i,
    {
        r.push(v[i]);
        i = i + 1;
        proof {
            assert(r@ =~= v@.subrange(a as int, i as int));
        }
    }
    r
}

/// Whether `a` and `b` hold the same characters.
pub fn chars_eq(a: &Vec<char>, b: &Vec<char>) -> (r: bool)
    ensures
        r == (a@ == b@),
{
    if a.len() != b.len() {
        return false;
    }
    let mut i: usize = 0;
    while i < a.len()
        invariant
            i <= a@.len() == b@.len(),
            forall|j: int| 0 <= j < i ==> a@[j] == b@[j],
        decreases a.len() - i,
    {
        if a[i] != b[i] {
            return false;
        }
        i = i + 1;
    }
    proof {
        assert(a@ =~= b@);
    }
    true
}

/// Whether `needle` occurs contiguously inside `hay`.
pub open spec fn has_substring(hay: Seq<char>, needle: Seq<char>) -> bool {
    exists|i: int|
        0 <= i && i + needle.len() <= hay.len() && #[trigger] hay.subrange(i, i + needle.len())
            == needle
}

/// Naive substring search for `needle` inside `hay`.
#[verifier::loop_isolation(false)]
pub fn contains_chars(hay: &Vec<char>, needle: &Vec<char>) -> (r: bool)
    ensures
        r == has_substring(hay@, needle@),
{
    if needle.len() > hay.len() {
        proof {
            assert(!has_substring(hay@, needle@));
        }
        return false;
    }
    if needle.len() == 0 {
        proof {
            assert(hay@.subrange(0, 0 + needle@.len() as int) =~= needle@);
        }
        return true;
    }
    let last_start: usize = hay.len() - needle.len();
    let mut i: usize = 0;
    while i <= last_start
        invariant
            1 <= needle@.len() <= hay@.len(),
            last_start == hay@.len() - needle@.len(),
            i <= last_start + 1,
            forall|j: int|
                0 <= j < i ==> #[trigger] hay@.subrange(j, j + needle@.len()) != needle@,
        decreases last_start + 1 - i,
    {
        let mut k: usize = 0;
        let mut matched: bool = true;
        while k < needle.len()
            invariant
                i + needle@.len() <= hay@.len(),
                k <= needle@.len(),
                matched ==> forall|m: int| 0 <= m < k ==> hay@[i + m] == needle@[m],
                !matched ==> hay@.subrange(i as int, i + needle@.len()) != needle@,
            decreases needle.len() - k,
        {
            if hay[i + k] != needle[k] {
                proof {
                    assert(hay@.subrange(i as int, i + needle@.len())[k as int] == hay@[i + k]);
                }
                matched = false;
                k = needle.len();
            } else {
                k = k + 1;
            }
        }
        if matched {
            proof {
                assert(hay@.subrange(i as int, i + needle@.len()) =~= needle@);
            }
            return true;
        }
        i = i + 1;
    }
    proof {
        assert forall|j: int| 0 <= j && j + needle@.len() <= hay@.len() implies #[trigger] hay@.subrange(
            j,
            j + needle@.len(),
        ) != needle@ by {
            assert(j < i);
        }
    }
    false
}

/// `s` with every newline replaced by a space, the normalization applied
/// before the equality-hypothesis pattern is tested.
pub open spec fn normalized_nl(s: Seq<char>) -> Seq<char> {
    s.map_values(|c: char| if c == '\n' { ' ' } else { c })
}

/// Replaces every newline in `s` by a space.
pub fn replace_newlines(s: &Vec<char>) -> (r: Vec<char>)
    ensures
        r@ == normalized_nl(s@),
{
    let mut r: Vec<char> = Vec::new();
    let mut i: usize = 0;
    while i < s.len()
        invariant
            i <= s@.len(),
            r@ =~= normalized_nl(s@).take(i as int),
        decreases s.len() - i,
    {
        let c = s[i];
        if c == '\n' {
            r.push(' ');
        } else {
            r.push(c);
        }
        i = i + 1;
        proof {
            assert(r@ =~= normalized_nl(s@).take(i as int));
        }
    }
    proof {
        assert(r@ =~= normalized_nl(s@));
    }
    r
}

/// `s` without its leading whitespace.
pub open spec fn trim_start_s(s: Seq<char>) -> Seq<char>
    decreases s.len(),
{
    if s.len() > 0 && is_space_char(s[0]) {
        trim_start_s(s.drop_first())
    } else {
        s
    }
}

/// `s` without its trailing whitespace.
pub open spec fn trim_end_s(s: Seq<char>) -> Seq<char>
    decreases s.len(),
{
    if s.len() > 0 && is_space_char(s.last()) {
        trim_end_s(s.drop_last())
    } else {
        s
    }
}

/// `s` without leading and trailing whitespace.
pub open spec fn trimmed(s: Seq<char>) -> Seq<char> {
    trim_end_s(trim_start_s(s))
}

proof fn lemma_trim_start_at(s: Seq<char>, a: int)
    requires
        0 <= a <= s.len(),
        forall|k: int| 0 <= k < a ==> is_space_char(s[k]),
        a == s.len() || !is_space_char(s[a]),
    ensures
        trim_start_s(s) == s.skip(a),
    decreases a,
{
    if a == 0 {
        assert(trim_start_s(s) == s);
        assert(s.skip(0) =~= s);
    } else {
        assert(is_space_char(s[0]));
        lemma_trim_start_at(s.drop_first(), a - 1);
        assert(s.drop_first().skip(a - 1) =~= s.skip(a));
    }
}

proof fn lemma_trim_end_at(s: Seq<char>, b: int)
    requires
        0 <= b <= s.len(),
        forall|k: int| b <= k < s.len() ==> is_space_char(s[k]),
        b == 0 || !is_space_char(s[b - 1]),
    ensures
        trim_end_s(s) == s.take(b),
    decreases s.len() - b,
{
    if b == s.len() {
        assert(trim_end_s(s) == s);
        assert(s.take(b) =~= s);
    } else {
        assert(is_space_char(s.last()));
        lemma_trim_end_at(s.drop_last(), b);
        assert(s.drop_last().take(b) =~= s.take(b));
    }
}

/// Removes leading and trailing whitespace.
pub fn trim_chars(s: &Vec<char>) -> (r: Vec<char>)
    ensures
        r@ == trimmed(s@),
{
    let mut a: usize = 0;
    while a < s.len() && exec_is_space(s[a])
        invariant
            a <= s@.len(),
            forall|k: int| 0 <= k < a ==> is_space_char(s@[k]),
        decreases s.len() - a,
    {
        a = a + 1;
    }
    proof {
        lemma_trim_start_at(s@, a as int);
    }
    let mut b: usize = s.len();
    while b > a && exec_is_space(s[b - 1])
        invariant
            a <= b <= s@.len(),
            trim_start_s(s@) == s@.skip(a as int),
            forall|k: int| b <= k < s@.len() ==> is_space_char(s@[k]),
        decreases b,
    {
        b = b - 1;
    }
    proof {
        if b == a {
            lemma_trim_end_at(s@.skip(a as int), 0);
        } else {
            lemma_trim_end_at(s@.skip(a as int), b - a);
        }
        assert(s@.skip(a as int).take(b - a) =~= s@.subrange(a as int, b as int));
    }
    sub_chars(s, a, b)
}

/// The atomic tokens of `s`: maximal runs of word characters, and every
/// other non-space character as a one-character token. `cur` is the word
/// run read so far.
pub open spec fn symbols_rec(s: Seq<char>, cur: Seq<char>) -> Seq<Seq<char>>
    decreases s.len(),
{
    if s.len() == 0 {
        if cur.len() == 0 {
            Seq::empty()
        } else {
            seq![cur]
        }
    } else if is_word_char(s[0]) {
        symbols_rec(s.drop_first(), cur.push(s[0]))
    } else if is_space_char(s[0]) {
        if cur.len() == 0 {
            symbols_rec(s.drop_first(), cur)
        } else {
            seq![cur] + symbols_rec(s.drop_first(), Seq::empty())
        }
    } else {
        if cur.len() == 0 {
            seq![seq![s[0]]] + symbols_rec(s.drop_first(), Seq::empty())
        } else {
            seq![cur, seq![s[0]]] + symbols_rec(s.drop_first(), Seq::empty())
        }
    }
}

/// The atomic word/symbol tokens of `s`, in order.
pub open spec fn symbols_of(s: Seq<char>) -> Seq<Seq<char>> {
    symbols_rec(s, Seq::empty())
}

/// Splits `s` into atomic word/symbol tokens.
#[verifier::loop_isolation(false)]
pub fn get_symbols(s: &Vec<char>) -> (r: Vec<Vec<char>>)
    ensures
        r.deep_view() == symbols_of(s@),
{
    let mut r: Vec<Vec<char>> = Vec::new();
    let mut cur: Vec<char> = Vec::new();
    let mut i: usize = 0;
    proof {
        assert(s@.skip(0) =~= s@);
        assert(r.deep_view() + symbols_rec(s@, cur@) =~~= symbols_of(s@));
    }
    while i < s.len()
        invariant
            i <= s.len(),
            symbols_of(s@) == r.deep_view() + symbols_rec(s@.skip(i as int), cur@),
        decreases s.len() - i,
    {
        let c = s[i];
        proof {
            assert(s@.skip(i as int).drop_first() =~= s@.skip(i as int + 1));
            assert(s@.skip(i as int)[0] == c);
        }
        if exec_is_word_char(c) {
            cur.push(c);
        } else if exec_is_space(c) {
            if cur.len() > 0 {
                let ghost old_r = r.deep_view();
                let ghost old_cur = cur@;
                r.push(cur);
                cur = Vec::new();
                proof {
                    assert(cur@ =~= Seq::<char>::empty());
                    assert(r.deep_view() =~~= old_r.push(old_cur));
                    assert(old_r + (seq![old_cur] + symbols_rec(s@.skip(i as int + 1), cur@))
                        =~= r.deep_view() + symbols_rec(s@.skip(i as int + 1), cur@));
                }
            }
        } else {
            let ghost old_r = r.deep_view();
            let ghost old_cur = cur@;
            if cur.len() > 0 {
                r.push(cur);
                cur = Vec::new();
            }
            let mut single: Vec<char> = Vec::new();
            single.push(c);
            r.push(single);
            proof {
                assert(cur@ =~= Seq::<char>::empty());
                if old_cur.len() == 0 {
                    assert(r.deep_view() =~~= old_r.push(seq![c]));
                    assert(old_r + (seq![seq![c]] + symbols_rec(s@.skip(i as int + 1), cur@))
                        =~= r.deep_view() + symbols_rec(s@.skip(i as int + 1), cur@));
                } else {
                    assert(r.deep_view() =~~= old_r.push(old_cur).push(seq![c]));
                    assert(old_r + (seq![old_cur, seq![c]] + symbols_rec(
                        s@.skip(i as int + 1),
                        cur@,
                    )) =~= r.deep_view() + symbols_rec(s@.skip(i as int + 1), cur@));
                }
            }
        }
        i = i + 1;
    }
    proof {
        assert(s@.skip(s@.len() as int) =~= Seq::<char>::empty());
    }
    if cur.len() > 0 {
        let ghost old_r = r.deep_view();
        let ghost old_cur = cur@;
        r.push(cur);
        proof {
            assert(r.deep_view() =~~= old_r + seq![old_cur]);
        }
    }
    proof {
        assert(r.deep_view() =~~= symbols_of(s@));
    }
    r
}

/// The comma-separated pieces of `s` (at least one piece, possibly empty
/// pieces), with `cur` the piece read so far.
pub open spec fn comma_rec(s: Seq<char>, cur: Seq<char>) -> Seq<Seq<char>>
    decreases s.len(),
{
    if s.len() == 0 {
        seq![cur]
    } else if s[0] == ',' {
        seq![cur] + comma_rec(s.drop_first(), Seq::empty())
    } else {
        comma_rec(s.drop_first(), cur.push(s[0]))
    }
}

/// The comma-separated pieces of `s`, in order; never empty.
pub open spec fn comma_pieces(s: Seq<char>) -> Seq<Seq<char>> {
    comma_rec(s, Seq::empty())
}

pub proof fn lemma_comma_pieces_nonempty(s: Seq<char>, cur: Seq<char>)
    ensures
        comma_rec(s, cur).len() >= 1,
    decreases s.len(),
{
    if s.len() != 0 && s[0] != ',' {
        lemma_comma_pieces_nonempty(s.drop_first(), cur.push(s[0]));
    }
}

/// Splits `s` at commas.
#[verifier::loop_isolation(false)]
pub fn split_commas(s: &Vec<char>) -> (r: Vec<Vec<char>>)
    ensures
        r.deep_view() == comma_pieces(s@),
        r@.len() >= 1,
{
    let mut r: Vec<Vec<char>> = Vec::new();
    let mut cur: Vec<char> = Vec::new();
    let mut i: usize = 0;
    proof {
        assert(s@.skip(0) =~= s@);
        assert(r.deep_view() + comma_rec(s@, cur@) =~~= comma_pieces(s@));
    }
    while i < s.len()
        invariant
            i <= s.len(),
            comma_pieces(s@) == r.deep_view() + comma_rec(s@.skip(i as int), cur@),
        decreases s.len() - i,
    {
        let c = s[i];
        proof {
            assert(s@.skip(i as int).drop_first() =~= s@.skip(i as int + 1));
            assert(s@.skip(i as int)[0] == c);
        }
        if c == ',' {
            let ghost old_r = r.deep_view();
            let ghost old_cur = cur@;
            r.push(cur);
            cur = Vec::new();
            proof {
                assert(cur@ =~= Seq::<char>::empty());
                assert(r.deep_view() =~~= old_r.push(old_cur));
                assert(old_r + (seq![old_cur] + comma_rec(s@.skip(i as int + 1), cur@))
                    =~= r.deep_view() + comma_rec(s@.skip(i as int + 1), cur@));
            }
        } else {
            cur.push(c);
        }
        i = i + 1;
    }
    proof {
        assert(s@.skip(s@.len() as int) =~= Seq::<char>::empty());
    }
    let ghost old_r = r.deep_view();
    let ghost old_cur = cur@;
    r.push(cur);
    proof {
        assert(r.deep_view() =~~= old_r + seq![old_cur]);
        assert(r.deep_view() =~~= comma_pieces(s@));
    }
    r
}

/// Parenthesis nesting change contributed by one character.
pub open spec fn paren_delta(c: char) -> int {
    if c == '(' {
        1
    } else if c == ')' {
        -1
    } else {
        0
    }
}

/// Index of the first colon of `s` at parenthesis depth zero, scanning from
/// `i` with current depth `depth`.
pub open spec fn colon_rec(s: Seq<char>, i: int, depth: int) -> Option<int>
    decreases s.len() - i,
{
    if i < 0 || i >= s.len() {
        None
    } else if s[i] == ':' && depth == 0 {
        Some(i)
    } else {
        colon_rec(s, i + 1, depth + paren_delta(s[i]))
    }
}

/// Index of the first top-level colon of `s`, the boundary between a
/// hypothesis's declared names and its type.
pub open spec fn top_colon_idx(s: Seq<char>) -> Option<int> {
    colon_rec(s, 0, 0)
}

proof fn lemma_colon_rec_bounds(s: Seq<char>, i: int, depth: int)
    requires
        0 <= i,
    ensures
        colon_rec(s, i, depth) matches Some(j) ==> i <= j < s.len() && s[j] == ':',
    decreases s.len() - i,
{
    if i < s.len() && !(s[i] == ':' && depth == 0) {
        lemma_colon_rec_bounds(s, i + 1, depth + paren_delta(s[i]));
    }
}

/// Finds the first top-level colon of `s`.
#[verifier::loop_isolation(false)]
pub fn find_top_colon(s: &Vec<char>) -> (r: Option<usize>)
    ensures
        match r {
            Some(i) => 0 <= i < s@.len() && top_colon_idx(s@) == Some(i as int),
            None => top_colon_idx(s@) is None,
        },
{
    let mut i: usize = 0;
    let mut depth: i128 = 0;
    while i < s.len()
        invariant
            i <= s.len(),
            -(i as int) <= depth as int <= i as int,
            top_colon_idx(s@) == colon_rec(s@, i as int, depth as int),
        decreases s.len() - i,
    {
        let c = s[i];
        if c == ':' && depth == 0 {
            proof {
                lemma_colon_rec_bounds(s@, i as int, depth as int);
            }
            return Some(i);
        }
        if c == '(' {
            depth = depth + 1;
        } else if c == ')' {
            depth = depth - 1;
        }
        i = i + 1;
    }
    None
}

/// The type part of a hypothesis `names : type`: the text strictly after the
/// first top-level colon, or empty when there is no such colon.
pub open spec fn hyp_type_of(s: Seq<char>) -> Seq<char> {
    match top_colon_idx(s) {
        Some(i) => s.skip(i + 1),
        None => Seq::empty(),
    }
}

/// Extracts the type part of a hypothesis string.
pub fn get_hyp_type(s: &Vec<char>) -> (r: Vec<char>)
    ensures
        r@ == hyp_type_of(s@),
{
    let n = s.len();
    let idx = find_top_colon(s);
    match idx {
        Some(i) => {
            assert(i < n);
            sub_chars(s, i + 1, n)
        },
        None => Vec::new(),
    }
}

pub proof fn lemma_hyp_type_len(s: Seq<char>)
    ensures
        hyp_type_of(s).len() <= s.len(),
{
    lemma_colon_rec_bounds(s, 0, 0);
}

/// The name prefix of a hypothesis: the text before the first top-level
/// colon (the whole text when there is none), trimmed.
pub open spec fn hyp_name_prefix(s: Seq<char>) -> Seq<char> {
    match top_colon_idx(s) {
        Some(i) => trimmed(s.take(i)),
        None => trimmed(s),
    }
}

/// The first declared name of a hypothesis: the part of the trimmed name
/// prefix before the first comma.
pub open spec fn first_var_of(s: Seq<char>) -> Seq<char> {
    comma_pieces(hyp_name_prefix(s))[0]
}

/// All declared names of a hypothesis, each trimmed, in declaration order.
pub open spec fn names_of_hyp(s: Seq<char>) -> Seq<Seq<char>> {
    comma_pieces(hyp_name_prefix(s)).map_values(|p: Seq<char>| trimmed(p))
}

/// Extracts the trimmed name prefix of a hypothesis string.
pub fn get_hyp_name_prefix(s: &Vec<char>) -> (r: Vec<char>)
    ensures
        r@ == hyp_name_prefix(s@),
{
    match find_top_colon(s) {
        Some(i) => {
            let pre = sub_chars(s, 0, i);
            proof {
                assert(s@.subrange(0, i as int) =~= s@.take(i as int));
            }
            trim_chars(&pre)
        },
        None => trim_chars(s),
    }
}

/// Extracts the first declared name of a hypothesis.
pub fn get_first_var(s: &Vec<char>) -> (r: Vec<char>)
    ensures
        r@ == first_var_of(s@),
{
    let prefix = get_hyp_name_prefix(s);
    let pieces = split_commas(&prefix);
    proof {
        assert(pieces.deep_view()[0] == pieces@[0]@);
    }
    let first = &pieces[0];
    first.clone()
}

/// Extracts all declared names of a hypothesis, each trimmed.
#[verifier::loop_isolation(false)]
pub fn get_hyp_names(s: &Vec<char>) -> (r: Vec<Vec<char>>)
    ensures
        r.deep_view() == names_of_hyp(s@),
{
    let prefix = get_hyp_name_prefix(s);
    let pieces = split_commas(&prefix);
    let mut r: Vec<Vec<char>> = Vec::new();
    let mut i: usize = 0;
    while i < pieces.len()
        invariant
            i <= pieces@.len(),
            pieces.deep_view() == comma_pieces(hyp_name_prefix(s@)),
            r.deep_view() =~= names_of_hyp(s@).take(i as int),
        decreases pieces.len() - i,
    {
        proof {
            assert(pieces.deep_view()[i as int] == pieces@[i as int]@);
        }
        let t = trim_chars(&pieces[i]);
        r.push(t);
        i = i + 1;
        proof {
            assert(r.deep_view() =~~= names_of_hyp(s@).take(i as int));
        }
    }
    proof {
        assert(r.deep_view() =~~= names_of_hyp(s@));
    }
    r
}

/// Length of the leading run of word characters of `s`.
pub open spec fn word_run_len(s: Seq<char>) -> nat
    decreases s.len(),
{
    if s.len() > 0 && is_word_char(s[0]) {
        (1 + word_run_len(s.drop_first())) as nat
    } else {
        0
    }
}

proof fn lemma_word_run_at(t: Seq<char>, m: int)
    requires
        0 <= m <= t.len(),
        forall|k: int| 0 <= k < m ==> is_word_char(t[k]),
        m == t.len() || !is_word_char(t[m]),
    ensures
        word_run_len(t) == m,
    decreases m,
{
    if m == 0 {
    } else {
        assert(is_word_char(t[0]));
        lemma_word_run_at(t.drop_first(), m - 1);
    }
}

/// Splits a tactic invocation into its stem (the leading run of word
/// characters, after leading whitespace) and the remaining argument text.
/// `None` when no stem is present.
pub open spec fn split_tactic_s(s: Seq<char>) -> Option<(Seq<char>, Seq<char>)> {
    let t = trim_start_s(s);
    let k = word_run_len(t) as int;
    if k == 0 {
        None
    } else {
        Some((t.take(k), t.skip(k)))
    }
}

/// The stem of a tactic invocation, when it has one.
pub open spec fn stem_of(s: Seq<char>) -> Option<Seq<char>> {
    match split_tactic_s(s) {
        Some(p) => Some(p.0),
        None => None,
    }
}

/// Splits a tactic invocation into stem and argument text.
#[verifier::loop_isolation(false)]
pub fn split_tactic(s: &Vec<char>) -> (r: Option<(Vec<char>, Vec<char>)>)
    ensures
        (r is Some) == (split_tactic_s(s@) is Some),
        r matches Some(p) ==> split_tactic_s(s@) matches Some(q) && p.0@ == q.0 && p.1@ == q.1,
{
    let n = s.len();
    let mut a: usize = 0;
    while a < n && exec_is_space(s[a])
        invariant
            a <= n == s@.len(),
            forall|k: int| 0 <= k < a ==> is_space_char(s@[k]),
        decreases n - a,
    {
        a = a + 1;
    }
    proof {
        lemma_trim_start_at(s@, a as int);
    }
    let mut j: usize = a;
    while j < n && exec_is_word_char(s[j])
        invariant
            a <= j <= n == s@.len(),
            forall|k: int| a <= k < j ==> is_word_char(s@[k]),
        decreases n - j,
    {
        j = j + 1;
    }
    proof {
        let t = s@.skip(a as int);
        assert forall|k: int| 0 <= k < j - a implies is_word_char(t[k]) by {
            assert(t[k] == s@[a + k]);
        }
        if j < n {
            assert(t[j - a] == s@[j as int]);
        }
        lemma_word_run_at(t, j - a);
    }
    if j == a {
        return None;
    }
    let stem = sub_chars(s, a, j);
    let rest = sub_chars(s, j, n);
    proof {
        let t = s@.skip(a as int);
        assert(t.take(j - a) =~= s@.subrange(a as int, j as int));
        assert(t.skip(j - a) =~= s@.subrange(j as int, n as int));
    }
    Some((stem, rest))
}

/// `s` without its leading non-word characters.
pub open spec fn strip_start_s(s: Seq<char>) -> Seq<char>
    decreases s.len(),
{
    if s.len() > 0 && !is_word_char(s[0]) {
        strip_start_s(s.drop_first())
    } else {
        s
    }
}

/// `s` without its trailing non-word characters.
pub open spec fn strip_end_s(s: Seq<char>) -> Seq<char>
    decreases s.len(),
{
    if s.len() > 0 && !is_word_char(s.last()) {
        strip_end_s(s.drop_last())
    } else {
        s
    }
}

/// `s` without leading and trailing non-word decoration such as punctuation.
pub open spec fn stripped_sym(s: Seq<char>) -> Seq<char> {
    strip_end_s(strip_start_s(s))
}

/// Whether goal symbol `sym` counts as a match for argument token `arg`:
/// either exactly, or once `sym` is stripped of leading and trailing
/// punctuation.
pub open spec fn symbol_match_s(sym: Seq<char>, arg: Seq<char>) -> bool {
    sym == arg || stripped_sym(sym) == arg
}

proof fn lemma_strip_start_at(s: Seq<char>, a: int)
    requires
        0 <= a <= s.len(),
        forall|k: int| 0 <= k < a ==> !is_word_char(s[k]),
        a == s.len() || is_word_char(s[a]),
    ensures
        strip_start_s(s) == s.skip(a),
    decreases a,
{
    if a == 0 {
        assert(s.skip(0) =~= s);
    } else {
        lemma_strip_start_at(s.drop_first(), a - 1);
        assert(s.drop_first().skip(a - 1) =~= s.skip(a));
    }
}

proof fn lemma_strip_end_at(s: Seq<char>, b: int)
    requires
        0 <= b <= s.len(),
        forall|k: int| b <= k < s.len() ==> !is_word_char(s[k]),
        b == 0 || is_word_char(s[b - 1]),
    ensures
        strip_end_s(s) == s.take(b),
    decreases s.len() - b,
{
    if b == s.len() {
        assert(s.take(b) =~= s);
    } else {
        lemma_strip_end_at(s.drop_last(), b);
        assert(s.drop_last().take(b) =~= s.take(b));
    }
}

/// Whether goal symbol `sym` matches argument token `arg`, exactly or after
/// stripping outer punctuation from `sym`.
#[verifier::loop_isolation(false)]
pub fn symbol_matches(sym: &Vec<char>, arg: &Vec<char>) -> (r: bool)
    ensures
        r == symbol_match_s(sym@, arg@),
{
    if chars_eq(sym, arg) {
        return true;
    }
    let n = sym.len();
    let mut a: usize = 0;
    while a < n && !exec_is_word_char(sym[a])
        invariant
            a <= n == sym@.len(),
            forall|k: int| 0 <= k < a ==> !is_word_char(sym@[k]),
        decreases n - a,
    {
        a = a + 1;
    }
    proof {
        lemma_strip_start_at(sym@, a as int);
    }
    let mut b: usize = n;
    while b > a && !exec_is_word_char(sym[b - 1])
        invariant
            a <= b <= n == sym@.len(),
            strip_start_s(sym@) == sym@.skip(a as int),
            forall|k: int| b <= k < n ==> !is_word_char(sym@[k]),
        decreases b,
    {
        b = b - 1;
    }
    proof {
        let t = sym@.skip(a as int);
        assert forall|k: int| b - a <= k < t.len() implies !is_word_char(t[k]) by {
            assert(t[k] == sym@[a + k]);
        }
        if b > a {
            assert(t[b - a - 1] == sym@[b - 1]);
        }
        lemma_strip_end_at(t, b - a);
        assert(t.take(b - a) =~= sym@.subrange(a as int, b as int));
    }
    let stripped = sub_chars(sym, a, b);
    chars_eq(&stripped, arg)
}

/// Index of the matching close parenthesis, scanning `s` from `i` at depth
/// `depth`.
pub open spec fn close_rec(s: Seq<char>, i: int, depth: int) -> Option<int>
    decreases s.len() - i,
{
    if i < 0 || i >= s.len() {
        None
    } else if s[i] == ')' && depth + paren_delta(s[i]) == 0 {
        Some(i)
    } else {
        close_rec(s, i + 1, depth + paren_delta(s[i]))
    }
}

/// Index of the first space of `s` at or after `i`.
pub open spec fn space_idx_rec(s: Seq<char>, i: int) -> Option<int>
    decreases s.len() - i,
{
    if i < 0 || i >= s.len() {
        None
    } else if is_space_char(s[i]) {
        Some(i)
    } else {
        space_idx_rec(s, i + 1)
    }
}

/// Splits `s` at its first top-level boundary: when `s` opens with a
/// parenthesis, right after the matching close; otherwise at the first
/// space. Without such a boundary the right part is empty.
pub open spec fn paren_or_space_split(s: Seq<char>) -> (Seq<char>, Seq<char>) {
    if s.len() > 0 && s[0] == '(' {
        match close_rec(s, 1, 1) {
            Some(j) => (s.take(j + 1), s.skip(j + 1)),
            None => (s, Seq::empty()),
        }
    } else {
        match space_idx_rec(s, 0) {
            Some(j) => (s.take(j), s.skip(j)),
            None => (s, Seq::empty()),
        }
    }
}

proof fn lemma_close_rec_bounds(s: Seq<char>, i: int, depth: int)
    requires
        0 <= i,
    ensures
        close_rec(s, i, depth) matches Some(j) ==> i <= j < s.len(),
    decreases s.len() - i,
{
    if i < s.len() && !(s[i] == ')' && depth + paren_delta(s[i]) == 0) {
        lemma_close_rec_bounds(s, i + 1, depth + paren_delta(s[i]));
    }
}

/// Splits text at the first top-level matching-parenthesis-or-space
/// boundary, for reading the two sides of an equality hypothesis.
#[verifier::loop_isolation(false)]
pub fn split_to_next_matching_paren_or_space(s: &Vec<char>) -> (r: (Vec<char>, Vec<char>))
    ensures
        r.0@ == paren_or_space_split(s@).0,
        r.1@ == paren_or_space_split(s@).1,
{
    let n = s.len();
    if n > 0 && s[0] == '(' {
        let mut i: usize = 1;
        let mut depth: i128 = 1;
        while i < n
            invariant
                1 <= i <= n == s@.len(),
                1 - (i as int) <= depth as int <= i as int,
                close_rec(s@, 1, 1) == close_rec(s@, i as int, depth as int),
            decreases n - i,
        {
            let c = s[i];
            if c == ')' && depth == 1 {
                proof {
                    lemma_close_rec_bounds(s@, i as int, depth as int);
                }
                return (sub_chars(s, 0, i + 1), sub_chars(s, i + 1, n));
            }
            if c == '(' {
                depth = depth + 1;
            } else if c == ')' {
                depth = depth - 1;
            }
            i = i + 1;
        }
        proof {
            assert(s@.subrange(0, n as int) =~= s@);
        }
        (sub_chars(s, 0, n), Vec::new())
    } else {
        let mut i: usize = 0;
        while i < n
            invariant
                i <= n == s@.len(),
                space_idx_rec(s@, 0) == space_idx_rec(s@, i as int),
            decreases n - i,
        {
            if exec_is_space(s[i]) {
                return (sub_chars(s, 0, i), sub_chars(s, i, n));
            }
            i = i + 1;
        }
        proof {
            assert(s@.subrange(0, n as int) =~= s@);
        }
        (sub_chars(s, 0, n), Vec::new())
    }
}

/// Relies on `str::chars`: yields exactly the characters of the string, in
/// order.
#[verifier::external_body]
pub fn str_chars(s: &str) -> (r: Vec<char>)
    ensures
        r@ == s@,
{
    s.chars().collect()
}

/// Relies on the `FromIterator<char>` impl of `String`: collecting
/// characters builds the string holding exactly those characters, in order.
#[verifier::external_body]
pub fn chars_to_string(v: &Vec<char>) -> (r: String)
    ensures
        r@ == v@,
{
    v.iter().collect()
}

} // verus!
