//! Whitespace and tokens: what the tokens of a byte string are, and the
//! byte-level scanning steps that find them.

use vstd::prelude::*;

verus! {

/// The ASCII whitespace bytes: space, tab, line feed, form feed and carriage
/// return. Vertical tab is not among them.
pub open spec fn is_space(b: u8) -> bool {
    b == 0x20 || b == 0x09 || b == 0x0a || b == 0x0c || b == 0x0d
}

/// Tells whether `b` is an ASCII whitespace byte.
pub fn byte_is_space(b: u8) -> (r: bool)
    ensures
        r == is_space(b),
{
    b == 0x20 || b == 0x09 || b == 0x0a || b == 0x0c || b == 0x0d
}

/// Every byte of `s` is whitespace.
pub open spec fn all_space(s: Seq<u8>) -> bool {
    forall|i: int| 0 <= i < s.len() ==> is_space(#[trigger] s[i])
}

/// A word is a non-empty byte string without whitespace.
pub open spec fn is_word(w: Seq<u8>) -> bool {
    &&& w.len() > 0
    &&& forall|i: int| 0 <= i < w.len() ==> !is_space(#[trigger] w[i])
}

/// The number of bytes before the first whitespace byte of `s`, or the
/// length of `s` if it holds none.
pub open spec fn word_len(s: Seq<u8>) -> nat
    decreases s.len(),
{
    if s.len() > 0 && !is_space(s[0]) {
        1 + word_len(s.skip(1))
    } else {
        0
    }
}

/// The tokens of `s`: its maximal runs of non-whitespace bytes, in order.
pub open spec fn tokens(s: Seq<u8>) -> Seq<Seq<u8>>
    decreases s.len(),
{
    if s.len() == 0 {
        Seq::empty()
    } else if is_space(s[0]) {
        tokens(s.skip(1))
    } else {
        let n = word_len(s) as int;
        proof {
            lemma_word_len(s);
        }
        seq![s.take(n)] + tokens(s.skip(n))
    }
}

/// `k` is a position of `s` that does not lie inside a word: it is an end of
/// `s`, or one of the two bytes next to it is whitespace.
pub open spec fn is_boundary(s: Seq<u8>, k: int) -> bool {
    &&& 0 <= k <= s.len()
    &&& (k == 0 || k == s.len() || is_space(s[k - 1]) || is_space(s[k]))
}

/// `word_len` stays within `s`, covers no whitespace, and stops at whitespace
/// or at the end.
pub proof fn lemma_word_len(s: Seq<u8>)
    ensures
        word_len(s) <= s.len(),
        forall|i: int| 0 <= i < word_len(s) ==> !is_space(#[trigger] s[i]),
        word_len(s) < s.len() ==> is_space(s[word_len(s) as int]),
    decreases s.len(),
{
    if s.len() > 0 && !is_space(s[0]) {
        let t = s.skip(1);
        lemma_word_len(t);
        assert forall|i: int| 0 <= i < word_len(s) implies !is_space(#[trigger] s[i]) by {
            if i > 0 {
                assert(s[i] == t[i - 1]);
            }
        }
    }
}

/// `word_len` is characterised by what `lemma_word_len` states: a length
/// that covers no whitespace and stops at whitespace or at the end.
pub proof fn lemma_word_len_is(s: Seq<u8>, n: int)
    requires
        0 <= n <= s.len(),
        forall|i: int| 0 <= i < n ==> !is_space(#[trigger] s[i]),
        n < s.len() ==> is_space(s[n]),
    ensures
        word_len(s) == n,
    decreases s.len(),
{
    if n > 0 {
        lemma_word_len_is(s.skip(1), n - 1);
    }
}

/// Every token is a word: it is not empty and holds no whitespace.
pub proof fn lemma_tokens_are_words(s: Seq<u8>)
    ensures
        forall|i: int| 0 <= i < tokens(s).len() ==> is_word(#[trigger] tokens(s)[i]),
    decreases s.len(),
{
    if s.len() == 0 {
    } else if is_space(s[0]) {
        lemma_tokens_are_words(s.skip(1));
        assert(tokens(s) == tokens(s.skip(1)));
    } else {
        let n = word_len(s) as int;
        let rest = tokens(s.skip(n));
        lemma_word_len(s);
        lemma_tokens_are_words(s.skip(n));
        assert forall|i: int| 0 <= i < tokens(s).len() implies is_word(
            #[trigger] tokens(s)[i],
        ) by {
            if i == 0 {
                assert(tokens(s)[0] == s.take(n));
            } else {
                assert(tokens(s)[i] == rest[i - 1]);
            }
        }
    }
}

/// A byte string has no tokens exactly when it is all whitespace.
pub proof fn lemma_no_tokens(s: Seq<u8>)
    ensures
        tokens(s).len() == 0 <==> all_space(s),
    decreases s.len(),
{
    if s.len() == 0 {
    } else if is_space(s[0]) {
        let t = s.skip(1);
        lemma_no_tokens(t);
        if all_space(t) {
            assert forall|i: int| 0 <= i < s.len() implies is_space(#[trigger] s[i]) by {
                if i > 0 {
                    assert(s[i] == t[i - 1]);
                }
            }
        }
    } else {
        lemma_word_len(s);
    }
}

/// A word followed by whitespace or by nothing is the first token, and the
/// other tokens are those of what follows it.
pub proof fn lemma_first_token(s: Seq<u8>, n: int)
    requires
        0 < n <= s.len(),
        is_word(s.take(n)),
        n < s.len() ==> is_space(s[n]),
    ensures
        tokens(s) == seq![s.take(n)] + tokens(s.skip(n)),
{
    assert forall|i: int| 0 <= i < n implies !is_space(#[trigger] s[i]) by {
        assert(s[i] == s.take(n)[i]);
    }
    lemma_word_len_is(s, n);
}

/// Whitespace in front of a byte string adds no token.
pub proof fn lemma_skip_spaces(s: Seq<u8>, n: int)
    requires
        0 <= n <= s.len(),
        all_space(s.take(n)),
    ensures
        tokens(s) == tokens(s.skip(n)),
    decreases n,
{
    if n == 0 {
        assert(s.skip(0) =~= s);
    } else {
        let t = s.skip(1);
        assert(s[0] == s.take(n)[0]);
        assert forall|i: int| 0 <= i < n - 1 implies is_space(#[trigger] t.take(n - 1)[i]) by {
            assert(t.take(n - 1)[i] == s.take(n)[i + 1]);
        }
        lemma_skip_spaces(t, n - 1);
        assert(t.skip(n - 1) =~= s.skip(n));
    }
}

/// Cutting a byte string at a position that lies inside no word cuts its
/// tokens in two: those before the position, then those after it.
pub proof fn lemma_tokens_split(s: Seq<u8>, k: int)
    requires
        is_boundary(s, k),
    ensures
        tokens(s) == tokens(s.take(k)) + tokens(s.skip(k)),
    decreases s.len(),
{
    let a = s.take(k);
    let b = s.skip(k);
    if k == 0 {
        assert(b =~= s);
    } else if is_space(s[0]) {
        let t = s.skip(1);
        lemma_tokens_split(t, k - 1);
        assert(a.skip(1) =~= t.take(k - 1));
        assert(t.skip(k - 1) =~= b);
    } else {
        let n = word_len(s) as int;
        lemma_word_len(s);
        let t = s.skip(n);
        lemma_tokens_split(t, k - n);
        lemma_word_len_is(a, n);
        assert(a.take(n) =~= s.take(n));
        assert(a.skip(n) =~= t.take(k - n));
        assert(t.skip(k - n) =~= b);
    }
}

/// Two byte strings put together have the tokens of the first, then those
/// of the second, provided that whitespace or an empty side keeps the last
/// word of the first from running into the first word of the second.
pub proof fn lemma_tokens_concat(a: Seq<u8>, b: Seq<u8>)
    requires
        a.len() == 0 || b.len() == 0 || is_space(a.last()) || is_space(b[0]),
    ensures
        tokens(a + b) == tokens(a) + tokens(b),
{
    let s = a + b;
    let k = a.len() as int;
    lemma_tokens_split(s, k);
    assert(s.take(k) =~= a);
    assert(s.skip(k) =~= b);
}

/// The first position at or after `from` that holds no whitespace, or the
/// length of `bytes` if only whitespace is left. A `from` beyond the end is
/// returned as it is.
pub fn skip_spaces(bytes: &[u8], from: usize) -> (to: usize)
    ensures
        from >= bytes.len() ==> to == from,
        from <= bytes.len() ==> {
            &&& from <= to <= bytes.len()
            &&& all_space(bytes@.subrange(from as int, to as int))
            &&& to < bytes.len() ==> !is_space(bytes[to as int])
        },
{
    let mut to: usize = from;
    while to < bytes.len() && byte_is_space(bytes[to])
        invariant
            from <= to,
            from <= bytes.len() ==> to <= bytes.len(),
            from <= bytes.len() ==> all_space(bytes@.subrange(from as int, to as int)),
            from > bytes.len() ==> to == from,
        decreases bytes.len() - to,
    {
        to = to + 1;
        assert forall|i: int| 0 <= i < to - from implies is_space(
            #[trigger] bytes@.subrange(from as int, to as int)[i],
        ) by {
            if i < to - from - 1 {
                assert(bytes@.subrange(from as int, to as int)[i] == bytes@.subrange(
                    from as int,
                    to as int - 1,
                )[i]);
            }
        }
    }
    to
}

/// The end of the word that starts at `from`: the first position at or
/// after `from` that holds whitespace, or the length of `bytes`. A `from`
/// beyond the end is returned as it is.
pub fn word_end(bytes: &[u8], from: usize) -> (to: usize)
    ensures
        from >= bytes.len() ==> to == from,
        from <= bytes.len() ==> {
            &&& from <= to <= bytes.len()
            &&& to == from + word_len(bytes@.skip(from as int))
        },
{
    let mut to: usize = from;
    while to < bytes.len() && !byte_is_space(bytes[to])
        invariant
            from <= to,
            from <= bytes.len() ==> to <= bytes.len(),
            from > bytes.len() ==> to == from,
            forall|i: int| from <= i < to ==> !is_space(#[trigger] bytes[i]),
        decreases bytes.len() - to,
    {
        to = to + 1;
    }
    proof {
        if from <= bytes.len() {
            let t = bytes@.skip(from as int);
            lemma_word_len_is(t, to - from);
        }
    }
    to
}

} // verus!
