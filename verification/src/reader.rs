//! A read position over a borrowed byte buffer.

use vstd::prelude::*;

verus! {

/// A cursor into a byte slice: the buffer and how far into it reading has
/// come. The position never lies behind the end of the buffer.
pub struct ASN1Reader<'a> {
    data: &'a [u8],
    pos: usize,
}

impl<'a> ASN1Reader<'a> {
    #[verifier::type_invariant]
    spec fn in_bounds(self) -> bool {
        self.pos <= self.data@.len()
    }

    /// The whole buffer, read or not.
    pub closed spec fn bytes(&self) -> Seq<u8> {
        self.data@
    }

    /// The index of the next octet to read.
    pub closed spec fn offset(&self) -> int {
        self.pos as int
    }

    /// A reader at the start of `data`.
    pub fn new(data: &'a [u8]) -> (reader: Self)
        ensures
            reader.bytes() == data@,
            reader.offset() == 0,
    {
        ASN1Reader { data, pos: 0 }
    }

    /// The buffer that is being read.
    pub fn get_ref(&self) -> (data: &'a [u8])
        ensures
            data@ == self.bytes(),
    {
        self.data
    }

    /// The index of the next octet to read.
    pub fn position(&self) -> (pos: usize)
        ensures
            pos == self.offset(),
            pos <= self.bytes().len() <= usize::MAX,
    {
        proof {
            use_type_invariant(self);
            assert(self.data.len() <= usize::MAX);
        }
        self.pos
    }

    /// How many octets are left to read.
    pub fn remaining(&self) -> (left: usize)
        ensures
            left == self.bytes().len() - self.offset(),
            0 <= self.offset() <= self.bytes().len() <= usize::MAX,
    {
        proof {
            use_type_invariant(self);
            assert(self.data.len() <= usize::MAX);
        }
        self.data.len() - self.pos
    }

    /// Reads one octet and steps over it; `None`, and no step, at the end of
    /// the buffer.
    pub fn read_u8(&mut self) -> (octet: Option<u8>)
        ensures
            final(self).bytes() == old(self).bytes(),
            0 <= old(self).offset() <= old(self).bytes().len(),
            old(self).offset() < old(self).bytes().len() ==> {
                &&& octet == Some(old(self).bytes()[old(self).offset()])
                &&& final(self).offset() == old(self).offset() + 1
            },
            old(self).offset() == old(self).bytes().len() ==> {
                &&& octet is None
                &&& final(self).offset() == old(self).offset()
            },
    {
        proof {
            use_type_invariant(&*self);
        }
        if self.pos < self.data.len() {
            let octet = self.data[self.pos];
            self.pos = self.pos + 1;
            Some(octet)
        } else {
            None
        }
    }

    /// Reads the next `count` octets and steps over them; `None`, and no
    /// step, where fewer than `count` are left.
    pub fn read_exact(&mut self, count: usize) -> (octets: Option<Vec<u8>>)
        ensures
            final(self).bytes() == old(self).bytes(),
            0 <= old(self).offset() <= old(self).bytes().len(),
            count <= old(self).bytes().len() - old(self).offset() ==> {
                &&& octets matches Some(v)
                &&& v@ == old(self).bytes().subrange(old(self).offset(), old(self).offset() + count)
                &&& final(self).offset() == old(self).offset() + count
            },
            count > old(self).bytes().len() - old(self).offset() ==> {
                &&& octets is None
                &&& final(self).offset() == old(self).offset()
            },
    {
        proof {
            use_type_invariant(&*self);
        }
        if count > self.data.len() - self.pos {
            return None;
        }
        let start: usize = self.pos;
        let mut out: Vec<u8> = Vec::new();
        let mut i: usize = 0;
        while i < count
            invariant
                i <= count,
                start + count <= self.data.len(),
                start == self.pos,
                self.data == old(self).data,
                out@ == self.data@.subrange(start as int, start + i),
            decreases count - i,
        {
            out.push(self.data[start + i]);
            i += 1;
        }
        self.pos = start + count;
        Some(out)
    }
}

} // verus!
