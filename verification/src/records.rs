//! Composite wire records built from flat fields.
//!
//! A record of flat fields is itself flat: its byte image is its fields'
//! images laid end to end, with no padding, and a mixed-endianness record is
//! simply a struct of wrapper fields, each obeying the algebra's size and
//! alignment rules independently. The two records here are the crate's
//! demonstration composites: a header of mixed byte orders, and a packet
//! that also carries a host-order word.

use crate::endian::Be32;
use crate::endian::Le16;
use crate::endian::Native16;
use crate::pod::Pod;
use vstd::prelude::*;

verus! {

/// A record of one plain byte, a little-endian 16-bit word and a big-endian
/// 32-bit word: seven bytes on the wire, no padding.
#[derive(Clone, Copy, PartialEq, Eq, Structural, Debug)]
pub struct Data {
    /// A plain byte.
    pub a: u8,
    /// A little-endian word.
    pub b: Le16,
    /// A big-endian double word.
    pub c: Be32,
}

impl Pod for Data {
    open spec fn spec_size() -> nat {
        7
    }

    open spec fn spec_align() -> nat {
        1
    }

    open spec fn image(&self) -> Seq<u8> {
        self.a.image() + self.b.image() + self.c.image()
    }

    open spec fn of_image(b: Seq<u8>) -> Self {
        Data {
            a: u8::of_image(b.subrange(0, 1)),
            b: Le16::of_image(b.subrange(1, 3)),
            c: Be32::of_image(b.subrange(3, 7)),
        }
    }

    proof fn lemma_layout() {
    }

    proof fn lemma_image_len(&self) {
        self.a.lemma_image_len();
        self.b.lemma_image_len();
        self.c.lemma_image_len();
    }

    proof fn lemma_image_of_image(b: Seq<u8>) {
        u8::lemma_image_of_image(b.subrange(0, 1));
        Le16::lemma_image_of_image(b.subrange(1, 3));
        Be32::lemma_image_of_image(b.subrange(3, 7));
        assert(Self::of_image(b).image() =~= b);
    }

    proof fn lemma_of_image_image(&self) {
        self.a.lemma_image_len();
        self.b.lemma_image_len();
        self.c.lemma_image_len();
        assert(self.image().subrange(0, 1) =~= self.a.image());
        assert(self.image().subrange(1, 3) =~= self.b.image());
        assert(self.image().subrange(3, 7) =~= self.c.image());
        self.a.lemma_of_image_image();
        self.b.lemma_of_image_image();
        self.c.lemma_of_image_image();
    }

    fn size() -> (n: usize) {
        7
    }

    fn align() -> (n: usize) {
        1
    }

    fn write_to(&self, out: &mut Vec<u8>) {
        self.a.write_to(out);
        self.b.write_to(out);
        self.c.write_to(out);
        proof {
            assert(out@ =~= old(out)@ + self.image());
        }
    }

    fn read_from(b: &Vec<u8>, off: usize) -> (r: Self) {
        let _n: usize = b.len();
        let a = u8::read_from(b, off);
        let v = Le16::read_from(b, off + 1);
        let c = Be32::read_from(b, off + 3);
        let r = Data { a, b: v, c };
        proof {
            let whole = b@.subrange(off as int, off as int + 7);
            assert(whole.subrange(0, 1) =~= b@.subrange(off as int, off as int + 1));
            assert(whole.subrange(1, 3) =~= b@.subrange(off as int + 1, off as int + 3));
            assert(whole.subrange(3, 7) =~= b@.subrange(off as int + 3, off as int + 7));
        }
        r
    }
}

/// A packet of one plain byte, a host-order 16-bit word, a little-endian
/// 16-bit word and a big-endian 32-bit word: nine bytes on the wire, no
/// padding.
#[derive(Clone, Copy, PartialEq, Eq, Structural, Debug)]
pub struct Packet {
    /// A plain byte.
    pub tag: u8,
    /// A word in the host's own order.
    pub raw: Native16,
    /// A little-endian word.
    pub lo: Le16,
    /// A big-endian double word.
    pub hi: Be32,
}

impl Pod for Packet {
    open spec fn spec_size() -> nat {
        9
    }

    open spec fn spec_align() -> nat {
        1
    }

    open spec fn image(&self) -> Seq<u8> {
        self.tag.image() + self.raw.image() + self.lo.image() + self.hi.image()
    }

    open spec fn of_image(b: Seq<u8>) -> Self {
        Packet {
            tag: u8::of_image(b.subrange(0, 1)),
            raw: Native16::of_image(b.subrange(1, 3)),
            lo: Le16::of_image(b.subrange(3, 5)),
            hi: Be32::of_image(b.subrange(5, 9)),
        }
    }

    proof fn lemma_layout() {
    }

    proof fn lemma_image_len(&self) {
        self.tag.lemma_image_len();
        self.raw.lemma_image_len();
        self.lo.lemma_image_len();
        self.hi.lemma_image_len();
    }

    proof fn lemma_image_of_image(b: Seq<u8>) {
        u8::lemma_image_of_image(b.subrange(0, 1));
        Native16::lemma_image_of_image(b.subrange(1, 3));
        Le16::lemma_image_of_image(b.subrange(3, 5));
        Be32::lemma_image_of_image(b.subrange(5, 9));
        assert(Self::of_image(b).image() =~= b);
    }

    proof fn lemma_of_image_image(&self) {
        self.tag.lemma_image_len();
        self.raw.lemma_image_len();
        self.lo.lemma_image_len();
        self.hi.lemma_image_len();
        assert(self.image().subrange(0, 1) =~= self.tag.image());
        assert(self.image().subrange(1, 3) =~= self.raw.image());
        assert(self.image().subrange(3, 5) =~= self.lo.image());
        assert(self.image().subrange(5, 9) =~= self.hi.image());
        self.tag.lemma_of_image_image();
        self.raw.lemma_of_image_image();
        self.lo.lemma_of_image_image();
        self.hi.lemma_of_image_image();
    }

    fn size() -> (n: usize) {
        9
    }

    fn align() -> (n: usize) {
        1
    }

    fn write_to(&self, out: &mut Vec<u8>) {
        self.tag.write_to(out);
        self.raw.write_to(out);
        self.lo.write_to(out);
        self.hi.write_to(out);
        proof {
            assert(out@ =~= old(out)@ + self.image());
        }
    }

    fn read_from(b: &Vec<u8>, off: usize) -> (r: Self) {
        let _n: usize = b.len();
        let tag = u8::read_from(b, off);
        let raw = Native16::read_from(b, off + 1);
        let lo = Le16::read_from(b, off + 3);
        let hi = Be32::read_from(b, off + 5);
        let r = Packet { tag, raw, lo, hi };
        proof {
            let whole = b@.subrange(off as int, off as int + 9);
            assert(whole.subrange(0, 1) =~= b@.subrange(off as int, off as int + 1));
            assert(whole.subrange(1, 3) =~= b@.subrange(off as int + 1, off as int + 3));
            assert(whole.subrange(3, 5) =~= b@.subrange(off as int + 3, off as int + 5));
            assert(whole.subrange(5, 9) =~= b@.subrange(off as int + 5, off as int + 9));
        }
        r
    }
}

} // verus!
