//! A cursor over a fully buffered byte source: the current byte, or nothing
//! at the end of the input, and a one-byte advance.  Reading the source into
//! memory is the caller's business; from here on nothing can fail.
use vstd::prelude::*;

verus! {

pub struct StringReader {
    bytes: Vec<u8>,
    pos: usize,
}

impl StringReader {
    /// The whole underlying byte source.
    pub closed spec fn src(&self) -> Seq<u8> {
        self.bytes@
    }

    /// How many bytes have been consumed so far.
    pub closed spec fn cursor(&self) -> int {
        self.pos as int
    }

    /// The cursor never points past the end of the source.
    pub open spec fn wf(&self) -> bool {
        0 <= self.cursor() <= self.src().len()
    }

    /// A reader over `bytes`, placed on the first byte; an empty source gives
    /// no reader at all, so that the caller can treat an empty document as a
    /// deliberately empty result.
    pub fn new(bytes: Vec<u8>) -> (r: Option<Self>)
        ensures
            match r {
                Some(reader) => reader.src() == bytes@ && reader.cursor() == 0 && reader.wf()
                    && bytes@.len() > 0,
                None => bytes@.len() == 0,
            },
    {
        if bytes.len() == 0 {
            None
        } else {
            Some(Self { bytes, pos: 0 })
        }
    }

    /// The byte under the cursor, or nothing at the end of the input.
    pub fn chr(&self) -> (r: Option<u8>)
        requires
            self.wf(),
        ensures
            r == if self.cursor() < self.src().len() {
                Some(self.src()[self.cursor()])
            } else {
                None::<u8>
            },
    {
        if self.pos < self.bytes.len() {
            Some(self.bytes[self.pos])
        } else {
            None
        }
    }

    /// Advance past the current byte; at the end of the input this changes
    /// nothing.
    pub fn seek(&mut self)
        requires
            old(self).wf(),
        ensures
            final(self).wf(),
            final(self).src() == old(self).src(),
            final(self).cursor() == if old(self).cursor() < old(self).src().len() {
                old(self).cursor() + 1
            } else {
                old(self).cursor()
            },
    {
        if self.pos < self.bytes.len() {
            self.pos = self.pos + 1;
        }
    }
}

} // verus!
