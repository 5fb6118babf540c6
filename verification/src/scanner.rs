//! The scanner: one line of input, a cursor into it, and the typed reads
//! that move the cursor from token to token.

use crate::convert::FromToken;
use crate::token::{
    all_space, is_boundary, is_space, lemma_first_token, lemma_no_tokens, lemma_skip_spaces,
    lemma_tokens_split, lemma_word_len, skip_spaces, tokens, word_end, word_len,
};
use vstd::prelude::*;
use vstd::slice::slice_subrange;

verus! {

/// Why a read gave no value.
#[derive(Debug, Clone, Copy, PartialEq, Eq, Structural)]
pub enum ScanError {
    /// The next token does not denote a value of the requested type. The
    /// token has been taken all the same.
    Parse,
    /// The current line holds no further token: the caller reads the next
    /// line from the source and hands it to [`Scanner::refill`].
    NeedLine,
    /// The current line holds no further token and the source has ended.
    EndOfInput,
}

/// What a read returns, seen through the view of the value, given the
/// tokens that are left on the line and whether the source has ended.
pub open spec fn read_result<T: FromToken>(pending: Seq<Seq<u8>>, ended: bool) -> Result<
    T::V,
    ScanError,
> {
    if pending.len() > 0 {
        match T::denoted(pending[0]) {
            Some(value) => Ok(value),
            None => Err(ScanError::Parse),
        }
    } else if ended {
        Err(ScanError::EndOfInput)
    } else {
        Err(ScanError::NeedLine)
    }
}

/// The result of a read seen through the view of its value.
pub open spec fn outcome<T: View>(r: Result<T, ScanError>) -> Result<T::V, ScanError> {
    match r {
        Ok(value) => Ok(value@),
        Err(e) => Err(e),
    }
}

/// A reader of whitespace-delimited tokens over a source of lines.
///
/// The scanner owns the source but never reads from it: it works on one
/// line at a time, which the caller reads and hands over.
pub struct Scanner<R> {
    reader: R,
    state: LineState,
}

/// The current line, the cursor into it, and whether the source has ended.
struct LineState {
    line: Vec<u8>,
    cursor: usize,
    ended: bool,
}

impl LineState {
    /// The cursor lies inside no word, and a source that has ended left an
    /// empty line.
    #[verifier::type_invariant]
    spec fn inv(self) -> bool {
        &&& is_boundary(self.line@, self.cursor as int)
        &&& self.ended ==> self.line@.len() == 0
    }
}

impl<R> Scanner<R> {
    /// The source that the scanner was made with.
    pub closed spec fn reader(self) -> R {
        self.reader
    }

    /// The bytes of the current line.
    pub closed spec fn line(self) -> Seq<u8> {
        self.state.line@
    }

    /// The tokens of the current line that have been taken, in order.
    pub closed spec fn consumed(self) -> Seq<Seq<u8>> {
        tokens(self.state.line@.take(self.state.cursor as int))
    }

    /// The tokens of the current line that are still to come, in order.
    pub closed spec fn pending(self) -> Seq<Seq<u8>> {
        tokens(self.state.line@.skip(self.state.cursor as int))
    }

    /// Whether the source has ended: the last line handed over was empty.
    pub closed spec fn ended(self) -> bool {
        self.state.ended
    }

    /// The cursor stands between two tokens of the current line: the tokens
    /// taken and the tokens to come are together the tokens of the line. A
    /// scanner whose source has ended holds an empty line.
    pub open spec fn in_step(self) -> bool {
        &&& tokens(self.line()) == self.consumed() + self.pending()
        &&& self.ended() ==> self.line().len() == 0
    }

    /// A scanner over `reader` with an empty line: nothing is read, and no
    /// token is pending.
    pub fn new(reader: R) -> (scanner: Self)
        ensures
            scanner.reader() == reader,
            scanner.line() == Seq::<u8>::empty(),
            scanner.consumed() == Seq::<Seq<u8>>::empty(),
            scanner.pending() == Seq::<Seq<u8>>::empty(),
            !scanner.ended(),
            scanner.in_step(),
    {
        let state = LineState { line: Vec::new(), cursor: 0, ended: false };
        let scanner = Scanner { reader, state };
        scanner
    }

    /// Takes the next token of the current line and reads it as a `T`.
    ///
    /// With a token pending, the token is taken and the result is its value,
    /// or `Parse` if it denotes no `T`. With none pending nothing changes,
    /// and the result is `NeedLine`, or `EndOfInput` once the source has
    /// ended.
    pub fn next<T: FromToken>(&mut self) -> (r: Result<T, ScanError>)
        ensures
            outcome(r) == read_result::<T>(old(self).pending(), old(self).ended()),
            final(self).reader() == old(self).reader(),
            final(self).line() == old(self).line(),
            final(self).ended() == old(self).ended(),
            final(self).in_step(),
            old(self).pending().len() > 0 ==> {
                &&& final(self).pending() == old(self).pending().skip(1)
                &&& final(self).consumed() == old(self).consumed().push(old(self).pending()[0])
            },
            old(self).pending().len() == 0 ==> {
                &&& final(self).pending() == old(self).pending()
                &&& final(self).consumed() == old(self).consumed()
            },
    {
        proof {
            use_type_invariant(&self.state);
        }
        let ghost line = self.state.line@;
        let ghost before = self.state.cursor as int;
        let start = skip_spaces(self.state.line.as_slice(), self.state.cursor);
        proof {
            let rest = line.skip(before);
            assert(rest.skip(start - before) =~= line.skip(start as int));
            lemma_skip_spaces(rest, start - before);
            lemma_gap(line, before, start as int);
        }
        if start == self.state.line.len() {
            self.state.cursor = start;
            proof {
                lemma_tokens_split(line, start as int);
            }
            return if self.state.ended {
                Err(ScanError::EndOfInput)
            } else {
                Err(ScanError::NeedLine)
            };
        }
        let end = word_end(self.state.line.as_slice(), start);
        let token = slice_subrange(self.state.line.as_slice(), start, end);
        let value = T::from_token(token);
        proof {
            let rest = line.skip(start as int);
            lemma_word_len(rest);
            assert(rest.take(end - start) =~= token@);
            assert(rest.skip(end - start) =~= line.skip(end as int));
            lemma_word_after(line, start as int, end as int);
            lemma_tokens_split(line, end as int);
        }
        self.state.cursor = end;
        match value {
            Some(v) => Ok(v),
            None => Err(ScanError::Parse),
        }
    }

    /// Makes `line` the current line, with the cursor at its start.
    ///
    /// All tokens of `line`, and no others, are pending afterwards: whatever
    /// was left of the old line is dropped with it. An empty `line` marks
    /// the end of the source.
    pub fn refill(&mut self, line: Vec<u8>)
        ensures
            final(self).reader() == old(self).reader(),
            final(self).line() == line@,
            final(self).consumed() == Seq::<Seq<u8>>::empty(),
            final(self).pending() == tokens(line@),
            final(self).ended() == (line@.len() == 0),
            final(self).in_step(),
    {
        let ended = line.len() == 0;
        self.state = LineState { line, cursor: 0, ended };
        proof {
            assert(self.state.line@.skip(0) =~= self.state.line@);
        }
    }

    /// Hands out the line buffer, emptied, so that the next line can be
    /// read into the storage it already has.
    ///
    /// The scanner is left with an empty line and no token pending.
    pub fn take_buffer(&mut self) -> (buffer: Vec<u8>)
        ensures
            buffer@ == Seq::<u8>::empty(),
            final(self).reader() == old(self).reader(),
            final(self).line() == Seq::<u8>::empty(),
            final(self).consumed() == Seq::<Seq<u8>>::empty(),
            final(self).pending() == Seq::<Seq<u8>>::empty(),
            final(self).ended() == old(self).ended(),
            final(self).in_step(),
    {
        proof {
            use_type_invariant(&self.state);
        }
        let mut buffer: Vec<u8> = Vec::new();
        self.state.cursor = 0;
        core::mem::swap(&mut self.state.line, &mut buffer);
        buffer.clear();
        proof {
        }
        buffer
    }

    /// The source, for the caller to read the next line from.
    pub fn reader_mut(&mut self) -> (reader: &mut R)
        ensures
            *reader == old(self).reader(),
            final(self).reader() == *final(reader),
            final(self).line() == old(self).line(),
            final(self).consumed() == old(self).consumed(),
            final(self).pending() == old(self).pending(),
            final(self).ended() == old(self).ended(),
    {
        &mut self.reader
    }
}

/// Whitespace after a boundary adds no token to what stands before it, and
/// its end is a boundary again.
proof fn lemma_gap(line: Seq<u8>, from: int, to: int)
    requires
        is_boundary(line, from),
        from <= to <= line.len(),
        all_space(line.subrange(from, to)),
    ensures
        is_boundary(line, to),
        tokens(line.take(to)) == tokens(line.take(from)),
{
    let head = line.take(to);
    if from < to {
        assert(line.subrange(from, to)[to - from - 1] == line[to - 1]);
    }
    lemma_tokens_split(head, from);
    assert(head.take(from) =~= line.take(from));
    assert(head.skip(from) =~= line.subrange(from, to));
    lemma_no_tokens(line.subrange(from, to));
}

/// A word that starts at a boundary and runs up to whitespace or the end
/// is the one token added to what stands before it, and its end is a
/// boundary again.
proof fn lemma_word_after(line: Seq<u8>, from: int, to: int)
    requires
        is_boundary(line, from),
        from < to <= line.len(),
        to - from == word_len(line.skip(from)),
        !is_space(line[from]),
    ensures
        is_boundary(line, to),
        tokens(line.take(to)) == tokens(line.take(from)).push(line.subrange(from, to)),
{
    let head = line.take(to);
    let rest = line.skip(from);
    let word = line.subrange(from, to);
    lemma_word_len(rest);
    lemma_tokens_split(head, from);
    assert(head.take(from) =~= line.take(from));
    assert(head.skip(from) =~= word);
    assert(word.take(to - from) =~= word);
    lemma_first_token(word, to - from);
}

} // verus!
