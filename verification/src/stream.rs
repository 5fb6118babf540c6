//! A stream cut into lines: what the lines of a byte stream are, and why
//! scanning line by line finds the tokens of the whole stream.

use crate::gaps::{interleave, lemma_tokens_of_interleave, separates};
use crate::token::{is_boundary, is_space, is_word, lemma_tokens_split, tokens};
use vstd::prelude::*;

verus! {

/// The line feed byte, which ends a line.
pub open spec fn is_line_feed(b: u8) -> bool {
    b == 0x0a
}

/// The length of the first line of `s`: up to and including the first line
/// feed, or all of `s` if it holds none.
pub open spec fn line_len(s: Seq<u8>) -> nat
    decreases s.len(),
{
    if s.len() == 0 {
        0
    } else if is_line_feed(s[0]) {
        1
    } else {
        1 + line_len(s.skip(1))
    }
}

/// The lines of `s`: each runs up to and including a line feed, but for the
/// last, which may end without one. Put together they are `s` again.
pub open spec fn lines(s: Seq<u8>) -> Seq<Seq<u8>>
    decreases s.len(),
{
    if s.len() == 0 {
        Seq::empty()
    } else {
        let n = line_len(s) as int;
        proof {
            lemma_line_len(s);
        }
        seq![s.take(n)] + lines(s.skip(n))
    }
}

/// The tokens found by scanning one line after another.
pub open spec fn tokens_by_line(lines: Seq<Seq<u8>>) -> Seq<Seq<u8>>
    decreases lines.len(),
{
    if lines.len() == 0 {
        Seq::empty()
    } else {
        tokens(lines[0]) + tokens_by_line(lines.skip(1))
    }
}

/// The first line of a stream that is not empty is not empty either, lies
/// within the stream, holds no line feed before its last byte, and ends
/// with a line feed unless it is the whole stream.
pub proof fn lemma_line_len(s: Seq<u8>)
    requires
        s.len() > 0,
    ensures
        0 < line_len(s) <= s.len(),
        forall|i: int| 0 <= i < line_len(s) - 1 ==> !is_line_feed(#[trigger] s[i]),
        line_len(s) < s.len() ==> is_line_feed(s[line_len(s) - 1]),
    decreases s.len(),
{
    if !is_line_feed(s[0]) && s.len() > 1 {
        let t = s.skip(1);
        lemma_line_len(t);
        assert forall|i: int| 0 <= i < line_len(s) - 1 implies !is_line_feed(#[trigger] s[i]) by {
            if i > 0 {
                assert(s[i] == t[i - 1]);
            }
        }
    } else if !is_line_feed(s[0]) {
        assert(line_len(s.skip(1)) == 0);
    }
}

/// Scanning a stream line by line finds the tokens of the stream: a line
/// ends with a line feed or with the stream, so no token lies across two
/// lines.
pub proof fn lemma_tokens_by_line(s: Seq<u8>)
    ensures
        tokens_by_line(lines(s)) == tokens(s),
    decreases s.len(),
{
    if s.len() > 0 {
        let n = line_len(s) as int;
        lemma_line_len(s);
        lemma_tokens_by_line(s.skip(n));
        assert(lines(s).skip(1) =~= lines(s.skip(n)));
        assert(is_boundary(s, n)) by {
            if n < s.len() {
                assert(is_space(s[n - 1]));
            }
        }
        lemma_tokens_split(s, n);
    }
}

/// Words written into a stream with whitespace around them, line feeds
/// included, are what scanning the stream line by line finds: the same
/// words, in the same order, none empty and none with whitespace in it.
pub proof fn lemma_words_by_line(gaps: Seq<Seq<u8>>, words: Seq<Seq<u8>>)
    requires
        separates(gaps, words),
        forall|i: int| 0 <= i < words.len() ==> is_word(#[trigger] words[i]),
    ensures
        tokens_by_line(lines(interleave(gaps, words))) == words,
{
    lemma_tokens_of_interleave(gaps, words);
    lemma_tokens_by_line(interleave(gaps, words));
}

} // verus!
