//! Tokens and the whitespace around them: a byte string is its tokens with
//! gaps of whitespace between them, and in no other way.

use crate::token::{
    all_space, is_space, is_word, lemma_first_token, lemma_no_tokens, lemma_skip_spaces,
    lemma_word_len, tokens, word_len,
};
use vstd::prelude::*;

verus! {

/// `words` written one after another with `gaps` around them: first
/// `gaps[0]`, then each word followed by the next gap.
pub open spec fn interleave(gaps: Seq<Seq<u8>>, words: Seq<Seq<u8>>) -> Seq<u8>
    recommends
        gaps.len() == words.len() + 1,
    decreases words.len(),
{
    if words.len() == 0 {
        gaps[0]
    } else {
        gaps[0] + words[0] + interleave(gaps.skip(1), words.skip(1))
    }
}

/// `gaps` can stand around `words`: there is one gap more than there are
/// words, every gap is whitespace only, and the gaps between two words are
/// not empty.
pub open spec fn separates(gaps: Seq<Seq<u8>>, words: Seq<Seq<u8>>) -> bool {
    &&& gaps.len() == words.len() + 1
    &&& forall|i: int| 0 <= i < gaps.len() ==> all_space(#[trigger] gaps[i])
    &&& forall|i: int| 0 < i < words.len() ==> (#[trigger] gaps[i]).len() > 0
}

/// The number of whitespace bytes that `s` starts with.
pub open spec fn space_len(s: Seq<u8>) -> nat
    decreases s.len(),
{
    if s.len() > 0 && is_space(s[0]) {
        1 + space_len(s.skip(1))
    } else {
        0
    }
}

/// The gaps of `s`: the whitespace before its first token, between each
/// two tokens, and after the last. A gap at either end may be empty.
pub open spec fn gaps(s: Seq<u8>) -> Seq<Seq<u8>>
    decreases s.len(),
{
    let a = space_len(s) as int;
    if a >= s.len() {
        seq![s]
    } else {
        let n = word_len(s.skip(a)) as int;
        proof {
            lemma_space_len(s);
            lemma_word_len(s.skip(a));
        }
        seq![s.take(a)] + gaps(s.skip(a + n))
    }
}

/// `space_len` stays within `s`, covers whitespace only, and stops at a byte
/// that is none or at the end.
pub proof fn lemma_space_len(s: Seq<u8>)
    ensures
        space_len(s) <= s.len(),
        all_space(s.take(space_len(s) as int)),
        space_len(s) < s.len() ==> !is_space(s[space_len(s) as int]),
    decreases s.len(),
{
    if s.len() > 0 && is_space(s[0]) {
        let t = s.skip(1);
        lemma_space_len(t);
        let n = space_len(s) as int;
        assert forall|i: int| 0 <= i < n implies is_space(#[trigger] s.take(n)[i]) by {
            if i > 0 {
                assert(s.take(n)[i] == t.take(n - 1)[i - 1]);
            }
        }
    }
}

/// Words separated by whitespace are the tokens of what they are written
/// into: for any words, with any whitespace before the first and after the
/// last and some whitespace between each two, the tokens of the whole are
/// exactly those words in their order.
pub proof fn lemma_tokens_of_interleave(gaps: Seq<Seq<u8>>, words: Seq<Seq<u8>>)
    requires
        separates(gaps, words),
        forall|i: int| 0 <= i < words.len() ==> is_word(#[trigger] words[i]),
    ensures
        tokens(interleave(gaps, words)) == words,
    decreases words.len(),
{
    if words.len() == 0 {
        lemma_no_tokens(gaps[0]);
        assert(tokens(gaps[0]) =~= words);
    } else {
        let gap = gaps[0];
        let word = words[0];
        let rest_gaps = gaps.skip(1);
        let rest_words = words.skip(1);
        let rest = interleave(rest_gaps, rest_words);
        let tail = word + rest;
        let whole = gap + tail;
        assert(separates(rest_gaps, rest_words)) by {
            assert forall|i: int| 0 <= i < rest_gaps.len() implies all_space(
                #[trigger] rest_gaps[i],
            ) by {
                assert(rest_gaps[i] == gaps[i + 1]);
            }
            assert forall|i: int| 0 < i < rest_words.len() implies (#[trigger] rest_gaps[i]).len()
                > 0 by {
                assert(rest_gaps[i] == gaps[i + 1]);
            }
        }
        assert forall|i: int| 0 <= i < rest_words.len() implies is_word(
            #[trigger] rest_words[i],
        ) by {
            assert(rest_words[i] == words[i + 1]);
        }
        lemma_tokens_of_interleave(rest_gaps, rest_words);
        assert(rest.len() > 0 ==> is_space(rest[0])) by {
            let next = rest_gaps[0];
            assert(next == gaps[1]);
            assert(all_space(next));
            if rest_words.len() > 0 {
                assert(next.len() > 0);
                assert(rest[0] == next[0]);
            }
        }
        assert(tokens(tail) == seq![word] + rest_words) by {
            assert(is_word(word));
            assert(tail.take(word.len() as int) =~= word);
            assert(tail.skip(word.len() as int) =~= rest);
            if rest.len() > 0 {
                assert(tail[word.len() as int] == rest[0]);
            }
            lemma_first_token(tail, word.len() as int);
        }
        assert(tokens(whole) == tokens(tail)) by {
            assert(all_space(gap));
            assert(whole.take(gap.len() as int) =~= gap);
            assert(whole.skip(gap.len() as int) =~= tail);
            lemma_skip_spaces(whole, gap.len() as int);
        }
        assert(interleave(gaps, words) =~= whole);
        assert(seq![word] + rest_words =~= words);
    }
}

/// A byte string is its tokens with its gaps around them: the gaps are
/// whitespace only, those between two tokens are not empty, and writing
/// the tokens with the gaps around them gives the byte string back. So
/// every token is a run of bytes of the string itself, with whitespace or
/// an end of the string on either side.
pub proof fn lemma_gaps(s: Seq<u8>)
    ensures
        separates(gaps(s), tokens(s)),
        interleave(gaps(s), tokens(s)) == s,
    decreases s.len(),
{
    let a = space_len(s) as int;
    lemma_space_len(s);
    lemma_skip_spaces(s, a);
    if a >= s.len() {
        assert(s.take(a) =~= s);
        lemma_no_tokens(s);
    } else {
        let t = s.skip(a);
        let n = word_len(t) as int;
        lemma_word_len(t);
        let word = t.take(n);
        let rest = s.skip(a + n);
        assert(t.skip(n) =~= rest);
        assert(tokens(s) == seq![word] + tokens(rest)) by {
            assert(is_word(word));
            lemma_first_token(t, n);
        }
        lemma_gaps(rest);
        let gs = gaps(s);
        let ws = tokens(s);
        assert(gs == seq![s.take(a)] + gaps(rest));
        assert(gs.skip(1) =~= gaps(rest));
        assert(ws.skip(1) =~= tokens(rest));
        assert forall|i: int| 0 <= i < gs.len() implies all_space(#[trigger] gs[i]) by {
            if i > 0 {
                assert(gs[i] == gaps(rest)[i - 1]);
            }
        }
        assert forall|i: int| 0 < i < ws.len() implies (#[trigger] gs[i]).len() > 0 by {
            assert(gs[i] == gaps(rest)[i - 1]);
            if i == 1 {
                lemma_no_tokens(rest);
                assert(rest.len() > 0);
                assert(is_space(rest[0])) by {
                    assert(rest[0] == t[n]);
                }
                assert(space_len(rest) > 0);
                lemma_space_len(rest);
            }
        }
        assert(interleave(gs, ws) =~= s) by {
            assert(s.take(a) + word + rest =~= s);
        }
    }
}

} // verus!
