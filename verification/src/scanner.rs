//! A cursor over the input bytes with bounded lookahead.

use crate::error::ScanError;
use crate::lexical::token_at;
use vstd::prelude::*;

verus! {

/// A cursor into borrowed input. It only moves forward, one byte or one
/// matched token at a time, and never past the end of the input.
pub struct Scanner<'a> {
    input: &'a [u8],
    pos: usize,
}

impl<'a> Scanner<'a> {
    #[verifier::type_invariant]
    spec fn in_bounds(self) -> bool {
        self.pos <= self.input@.len()
    }

    /// The whole input.
    pub closed spec fn source(&self) -> Seq<u8> {
        self.input@
    }

    /// The byte offset of the cursor.
    pub closed spec fn offset(&self) -> int {
        self.pos as int
    }

    /// A cursor at the start of `input`.
    pub fn new(input: &'a [u8]) -> (s: Self)
        ensures
            s.source() == input@,
            s.offset() == 0,
            s.source().len() <= usize::MAX,
    {
        let _ = input.len();
        Scanner { input, pos: 0 }
    }

    /// The current byte offset, which lies within the input or at its end.
    pub fn position(&self) -> (p: usize)
        ensures
            p == self.offset(),
            p <= self.source().len(),
    {
        proof {
            use_type_invariant(self);
        }
        self.pos
    }

    /// Whether the whole input has been consumed.
    pub fn at_end(&self) -> (b: bool)
        ensures
            b == (self.offset() == self.source().len()),
            self.offset() <= self.source().len() <= usize::MAX,
    {
        proof {
            use_type_invariant(self);
        }
        self.pos == self.input.len()
    }

    /// The byte `k` places ahead of the cursor, without consuming anything;
    /// `None` where the input ends before it.
    pub fn peek(&self, k: usize) -> (b: Option<u8>)
        ensures
            self.offset() + k < self.source().len() ==> b == Some(
                self.source()[self.offset() + k],
            ),
            self.offset() + k >= self.source().len() ==> b is None,
    {
        proof {
            use_type_invariant(self);
        }
        if k < self.input.len() - self.pos {
            Some(self.input[self.pos + k])
        } else {
            None
        }
    }

    /// Consumes one byte and returns it. At the end of the input nothing
    /// moves and the call fails with `EndOfInput`.
    pub fn advance(&mut self) -> (r: Result<u8, ScanError>)
        ensures
            final(self).source() == old(self).source(),
            old(self).offset() < old(self).source().len() ==> r == Ok::<u8, ScanError>(
                old(self).source()[old(self).offset()],
            ) && final(self).offset() == old(self).offset() + 1,
            old(self).offset() >= old(self).source().len() ==> r == Err::<u8, ScanError>(
                ScanError::EndOfInput,
            ) && final(self).offset() == old(self).offset(),
    {
        proof {
            use_type_invariant(&*self);
        }
        if self.pos < self.input.len() {
            let b = self.input[self.pos];
            self.pos = self.pos + 1;
            Ok(b)
        } else {
            Err(ScanError::EndOfInput)
        }
    }

    /// Whether `token` stands at the cursor. An empty token stands nowhere.
    /// Looks ahead by the length of the token and consumes nothing.
    pub fn looking_at(&self, token: &[u8]) -> (b: bool)
        ensures
            b == token_at(self.source(), self.offset(), token@),
    {
        proof {
            use_type_invariant(self);
        }
        let n = token.len();
        let len = self.input.len();
        if n == 0 || n > len - self.pos {
            return false;
        }
        let mut k: usize = 0;
        while k < n
            invariant
                n == token@.len(),
                len == self.input@.len(),
                0 < n <= len - self.pos,
                k <= n,
                forall|j: int| 0 <= j < k ==> self.input@[self.pos + j] == #[trigger] token@[j],
            decreases n - k,
        {
            if self.input[self.pos + k] != token[k] {
                return false;
            }
            k = k + 1;
        }
        true
    }

    /// Consumes the `n` bytes of a token that was seen at the cursor.
    pub fn consume(&mut self, n: usize)
        requires
            old(self).offset() + n <= old(self).source().len(),
        ensures
            final(self).source() == old(self).source(),
            final(self).offset() == old(self).offset() + n,
    {
        let len = self.input.len();
        assert(self.pos + n <= len);
        self.pos = self.pos + n;
    }
}

} // verus!
