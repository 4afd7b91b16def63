//! A stream of bytes held in memory, read as a connection is read: by
//! lines, by exact counts, and to its end.

use crate::listener::text::{lemma_position, lemma_position_is, position};
use vstd::prelude::*;
use vstd::slice::{slice_subrange, slice_to_vec};
use vstd::string::*;
use vstd::utf8::{decode_utf8, valid_utf8};

verus! {

/// The length of the first line of `input`: through the first line feed, or
/// all of it where there is none.
pub open spec fn line_len(input: Seq<u8>) -> int {
    let p = position(input, 10u8);
    if p < input.len() {
        p + 1
    } else {
        input.len() as int
    }
}

/// Calls `std::str::from_utf8`, which checks that the bytes are valid UTF-8
/// and, if they are, hands them back as the text that they encode.
#[verifier::external_body]
pub(crate) fn as_text(bytes: &[u8]) -> (r: Option<&str>)
    ensures
        r is Some <==> valid_utf8(bytes@),
        r is Some ==> r->Some_0@ == decode_utf8(bytes@),
{
    std::str::from_utf8(bytes).ok()
}

/// A stream of bytes held in memory, read from the front.
#[derive(Debug)]
pub struct ByteReader {
    data: Vec<u8>,
    pos: usize,
}

impl ByteReader {
    #[verifier::type_invariant]
    spec fn well_formed(self) -> bool {
        self.pos <= self.data.len()
    }

    /// The bytes not yet read.
    pub closed spec fn remaining(&self) -> Seq<u8> {
        self.data@.skip(self.pos as int)
    }

    /// A reader at the start of `data`.
    pub fn new(data: Vec<u8>) -> (reader: Self)
        ensures
            reader.remaining() == data@,
    {
        let reader = ByteReader { data, pos: 0 };
        assert(reader.remaining() =~= data@);
        reader
    }

    /// The number of bytes not yet read.
    pub fn len(&self) -> (n: usize)
        ensures
            n == self.remaining().len(),
    {
        proof {
            use_type_invariant(self);
        }
        self.data.len() - self.pos
    }

    /// Reads through the next line feed, or to the end where there is none,
    /// and gives the line as text: `None` where it is not valid UTF-8. The
    /// bytes are consumed either way.
    pub fn read_line(&mut self) -> (r: Option<String>)
        ensures
            final(self).remaining() == old(self).remaining().skip(line_len(old(self).remaining())),
            0 <= line_len(old(self).remaining()) <= old(self).remaining().len(),
            ({
                let line = old(self).remaining().take(line_len(old(self).remaining()));
                match r {
                    Some(text) => valid_utf8(line) && text@ == decode_utf8(line),
                    None => !valid_utf8(line),
                }
            }),
    {
        proof {
            use_type_invariant(&*self);
        }
        let start = self.pos;
        let mut end: usize = start;
        while end < self.data.len() && self.data[end] != 10u8
            invariant
                start <= end <= self.data.len(),
                forall|j: int| start <= j < end ==> self.data@[j] != 10u8,
            decreases self.data.len() - end,
        {
            end += 1;
        }
        proof {
            let rest = self.data@.skip(start as int);
            assert forall|j: int| 0 <= j < end - start implies rest[j] != 10u8 by {
                assert(rest[j] == self.data@[start + j]);
            }
            lemma_position_is(rest, 10u8, end - start);
        }
        if end < self.data.len() {
            end += 1;
        }
        let r = match as_text(slice_subrange(self.data.as_slice(), start, end)) {
            Some(text) => Some(String::from_str(text)),
            None => None,
        };
        self.pos = end;
        proof {
            let rest = old(self).remaining();
            assert(rest.take(end - start) =~= self.data@.subrange(start as int, end as int));
            assert(self.remaining() =~= rest.skip(end - start));
        }
        r
    }

    /// Reads exactly `n` bytes. Where fewer are left, they are consumed and
    /// nothing is returned.
    pub fn read_exact(&mut self, n: usize) -> (r: Option<Vec<u8>>)
        ensures
            match r {
                Some(bytes) => n <= old(self).remaining().len() && bytes@ == old(
                    self,
                ).remaining().take(n as int) && final(self).remaining() == old(
                    self,
                ).remaining().skip(n as int),
                None => n > old(self).remaining().len() && final(self).remaining()
                    == Seq::<u8>::empty(),
            },
    {
        proof {
            use_type_invariant(&*self);
        }
        let start = self.pos;
        if n <= self.data.len() - start {
            let bytes = slice_to_vec(slice_subrange(self.data.as_slice(), start, start + n));
            self.pos = start + n;
            proof {
                let rest = old(self).remaining();
                assert(bytes@ =~= rest.take(n as int));
                assert(self.remaining() =~= rest.skip(n as int));
            }
            Some(bytes)
        } else {
            self.pos = self.data.len();
            assert(self.remaining() =~= Seq::<u8>::empty());
            None
        }
    }

    /// Reads all that is left.
    pub fn read_to_end(&mut self) -> (bytes: Vec<u8>)
        ensures
            bytes@ == old(self).remaining(),
            final(self).remaining() == Seq::<u8>::empty(),
    {
        proof {
            use_type_invariant(&*self);
        }
        let start = self.pos;
        let bytes = slice_to_vec(slice_subrange(self.data.as_slice(), start, self.data.len()));
        self.pos = self.data.len();
        proof {
            assert(bytes@ =~= old(self).remaining());
            assert(self.remaining() =~= Seq::<u8>::empty());
        }
        bytes
    }
}

/// The first line lies within the input.
pub proof fn lemma_line_len(input: Seq<u8>)
    ensures
        0 <= line_len(input) <= input.len(),
        input.len() > 0 ==> line_len(input) > 0,
{
    lemma_position(input, 10u8);
}

} // verus!
