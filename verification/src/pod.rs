//! The flat-data capability and the copy-based reinterpretation algebra.
//!
//! A type is *plain old data* when a value of it is nothing but a fixed
//! number of bytes: every bit pattern of that size is a legal value, and the
//! value owns no indirection. The [`Pod`] trait states that capability as a
//! verified interface: each implementor defines its byte image, the value
//! read back from an image, and proves the two to be mutual inverses.
//!
//! The functions in this module are the copy-based conversions: they
//! reinterpret a value (or a slice of values) as another flat type by
//! copying its bytes into a freshly constructed destination, so no alignment
//! question arises. The borrowing conversions, which do consult alignment,
//! live in [`crate::buffer`].

use vstd::arithmetic::div_mod::lemma_div_by_multiple;
use vstd::arithmetic::div_mod::lemma_fundamental_div_mod;
use vstd::arithmetic::div_mod::lemma_mod_bound;
use vstd::arithmetic::mul::lemma_mul_inequality;
use vstd::prelude::*;

verus! {

/// A sequence of `n` zero bytes.
pub open spec fn zero_bytes(n: nat) -> Seq<u8> {
    Seq::new(n, |i: int| 0u8)
}

/// The capability of a flat, plain-old-data type.
///
/// An implementor fixes a byte size and an alignment, maps every value to
/// its byte image, and maps every image of the right length back to a value.
/// The proof obligations make the two maps mutual inverses, so a value and
/// its image determine one another exactly.
pub trait Pod: Sized {
    /// The number of bytes in every value's image.
    spec fn spec_size() -> nat;

    /// The address multiple that a direct (borrowing) view of the type
    /// demands. Copy-based conversions never consult it.
    spec fn spec_align() -> nat;

    /// The byte image of this value.
    spec fn image(&self) -> Seq<u8>;

    /// The value whose byte image is `b` (meaningful when `b` has the
    /// type's size).
    spec fn of_image(b: Seq<u8>) -> Self;

    /// Size and alignment are at least one byte, and whole values stay
    /// aligned when laid out one after another.
    proof fn lemma_layout()
        ensures
            1 <= Self::spec_size(),
            1 <= Self::spec_align(),
            Self::spec_size() % Self::spec_align() == 0,
    ;

    /// Every image has the declared size.
    proof fn lemma_image_len(&self)
        ensures
            self.image().len() == Self::spec_size(),
    ;

    /// Every bit pattern of the right length is the image of the value read
    /// from it.
    proof fn lemma_image_of_image(b: Seq<u8>)
        requires
            b.len() == Self::spec_size(),
        ensures
            Self::of_image(b).image() == b,
    ;

    /// The value read back from a value's own image is that value.
    proof fn lemma_of_image_image(&self)
        ensures
            Self::of_image(self.image()) == *self,
    ;

    /// The byte size, as a machine integer.
    fn size() -> (n: usize)
        ensures
            n == Self::spec_size(),
    ;

    /// The alignment, as a machine integer.
    fn align() -> (n: usize)
        ensures
            n == Self::spec_align(),
    ;

    /// Appends this value's byte image to `out`.
    fn write_to(&self, out: &mut Vec<u8>)
        ensures
            final(out)@ == old(out)@ + self.image(),
    ;

    /// Reads the value whose image sits at `b[off..off + size]`.
    fn read_from(b: &Vec<u8>, off: usize) -> (r: Self)
        requires
            off + Self::spec_size() <= b@.len(),
        ensures
            r == Self::of_image(b@.subrange(off as int, off + Self::spec_size())),
    ;
}

impl Pod for u8 {
    open spec fn spec_size() -> nat {
        1
    }

    open spec fn spec_align() -> nat {
        1
    }

    open spec fn image(&self) -> Seq<u8> {
        seq![*self]
    }

    open spec fn of_image(b: Seq<u8>) -> Self {
        b[0]
    }

    proof fn lemma_layout() {
    }

    proof fn lemma_image_len(&self) {
    }

    proof fn lemma_image_of_image(b: Seq<u8>) {
        assert(Self::of_image(b).image() =~= b);
    }

    proof fn lemma_of_image_image(&self) {
    }

    fn size() -> (n: usize) {
        1
    }

    fn align() -> (n: usize) {
        1
    }

    fn write_to(&self, out: &mut Vec<u8>) {
        out.push(*self);
        proof {
            assert(out@ =~= old(out)@ + self.image());
        }
    }

    fn read_from(b: &Vec<u8>, off: usize) -> (r: Self) {
        proof {
            assert(b@.subrange(off as int, off as int + 1)[0] == b@[off as int]);
        }
        b[off]
    }
}

/// The images of the values of `s`, concatenated in order: the byte image
/// of a contiguous slice of flat values.
pub open spec fn cat_images<T: Pod>(s: Seq<T>) -> Seq<u8>
    decreases s.len(),
{
    if s.len() == 0 {
        Seq::empty()
    } else {
        cat_images(s.drop_last()) + s.last().image()
    }
}

/// The `i`-th size-`sz` chunk of `b`.
pub open spec fn chunk(b: Seq<u8>, sz: nat, i: int) -> Seq<u8> {
    b.subrange(i * sz, i * sz + sz)
}

/// The values read from the consecutive `T`-sized chunks of `b`, as many as
/// fit whole.
pub open spec fn split_image<T: Pod>(b: Seq<u8>) -> Seq<T> {
    Seq::new(b.len() / T::spec_size(), |i: int| T::of_image(chunk(b, T::spec_size(), i)))
}

/// A slice's byte image is as long as its element count times the element
/// size.
pub proof fn lemma_cat_images_len<T: Pod>(s: Seq<T>)
    ensures
        cat_images(s).len() == s.len() * T::spec_size(),
    decreases s.len(),
{
    if s.len() == 0 {
    } else {
        lemma_cat_images_len::<T>(s.drop_last());
        s.last().lemma_image_len();
        assert((s.len() - 1) * T::spec_size() + T::spec_size() == s.len() * T::spec_size())
            by (nonlinear_arith);
    }
}

/// Appending one value extends the slice image by that value's image.
pub proof fn lemma_cat_images_push<T: Pod>(s: Seq<T>, v: T)
    ensures
        cat_images(s.push(v)) == cat_images(s) + v.image(),
{
    assert(s.push(v).drop_last() =~= s);
}

/// A chunk taken inside `b` has exactly the chunk size.
proof fn lemma_chunk_in_range(b: Seq<u8>, sz: nat, i: int)
    requires
        1 <= sz,
        0 <= i,
        (i + 1) * sz <= b.len(),
    ensures
        0 <= i * sz,
        i * sz + sz <= b.len(),
        chunk(b, sz, i).len() == sz,
{
    assert(0 <= i * sz && i * sz + sz == (i + 1) * sz) by (nonlinear_arith)
        requires
            0 <= i && 1 <= sz,
    ;
}

/// Chunk `k` fits inside `b` whenever `k` is below the whole-chunk count.
proof fn lemma_chunk_count(b: Seq<u8>, sz: nat, k: int)
    requires
        1 <= sz,
        0 <= k,
        k <= b.len() as int / sz as int,
    ensures
        k * sz <= b.len(),
{
    let len = b.len() as int;
    let q = len / sz as int;
    lemma_fundamental_div_mod(len, sz as int);
    lemma_mod_bound(len, sz as int);
    lemma_mul_inequality(k, q, sz as int);
    assert(sz as int * q == q * sz as int) by (nonlinear_arith);
}

/// Splitting a byte image into `T`-sized pieces and merging the pieces back
/// reproduces the original image: the first `k` pieces cover the first
/// `k * size` bytes.
proof fn lemma_cat_split_prefix<T: Pod>(b: Seq<u8>, k: int)
    requires
        0 <= k,
        k <= b.len() as int / T::spec_size() as int,
    ensures
        cat_images(split_image::<T>(b).take(k)) == b.take(k * T::spec_size()),
    decreases k,
{
    T::lemma_layout();
    let sz = T::spec_size();
    let s = split_image::<T>(b);
    if k == 0 {
        assert(cat_images(s.take(0)) =~= b.take(0));
    } else {
        lemma_cat_split_prefix::<T>(b, k - 1);
        lemma_chunk_count(b, sz, k);
        lemma_chunk_in_range(b, sz, k - 1);
        assert(s.take(k).drop_last() =~= s.take(k - 1));
        assert(s.take(k).last() == T::of_image(chunk(b, sz, k - 1)));
        T::lemma_image_of_image(chunk(b, sz, k - 1));
        assert((k - 1) * sz + sz == k * sz) by (nonlinear_arith);
        assert(b.take((k - 1) * sz) + chunk(b, sz, k - 1) =~= b.take(k * sz));
    }
}

/// Split/merge duality: when a byte image is an exact multiple of `T`'s
/// size, reading it as consecutive `T` values and concatenating those
/// values' images reproduces the original image exactly.
pub proof fn lemma_split_merge<T: Pod>(b: Seq<u8>)
    requires
        b.len() % T::spec_size() == 0,
    ensures
        cat_images(split_image::<T>(b)) == b,
{
    T::lemma_layout();
    let sz = T::spec_size();
    let n = b.len() as int / sz as int;
    lemma_fundamental_div_mod(b.len() as int, sz as int);
    lemma_cat_split_prefix::<T>(b, n);
    assert(split_image::<T>(b).take(n) =~= split_image::<T>(b));
    assert(b.take(n * sz) =~= b);
}

/// Reinterprets `v` as a `T` of exactly the same size, by copying bytes.
///
/// The conversion succeeds precisely when the two sizes are equal; the
/// destination is freshly constructed, so alignment is irrelevant.
pub fn map_copy<S: Pod, T: Pod>(v: &S) -> (r: Option<T>)
    ensures
        r == (if T::spec_size() == S::spec_size() {
            Some(T::of_image(v.image()))
        } else {
            None::<T>
        }),
{
    let ssz = S::size();
    let tsz = T::size();
    if tsz == ssz {
        let mut buf: Vec<u8> = Vec::new();
        v.write_to(&mut buf);
        proof {
            v.lemma_image_len();
            assert(buf@ =~= v.image());
        }
        let t = T::read_from(&buf, 0);
        proof {
            assert(buf@.subrange(0, T::spec_size() as int) =~= v.image());
        }
        Some(t)
    } else {
        None
    }
}

/// Reinterprets `v` as a `T` of the same or lesser size, by copying the
/// leading bytes and ignoring the rest.
pub fn try_map_copy<S: Pod, T: Pod>(v: &S) -> (r: Option<T>)
    ensures
        r == (if T::spec_size() <= S::spec_size() {
            Some(T::of_image(v.image().take(T::spec_size() as int)))
        } else {
            None::<T>
        }),
{
    let ssz = S::size();
    let tsz = T::size();
    if tsz <= ssz {
        let mut buf: Vec<u8> = Vec::new();
        v.write_to(&mut buf);
        proof {
            v.lemma_image_len();
            assert(buf@ =~= v.image());
        }
        let t = T::read_from(&buf, 0);
        proof {
            assert(buf@.subrange(0, T::spec_size() as int) =~= v.image().take(
                T::spec_size() as int,
            ));
        }
        Some(t)
    } else {
        None
    }
}

/// Each value's image within a slice image is the matching chunk.
pub proof fn lemma_cat_chunk<T: Pod>(s: Seq<T>, i: int)
    requires
        0 <= i < s.len(),
    ensures
        chunk(cat_images(s), T::spec_size(), i) == s[i].image(),
    decreases s.len(),
{
    T::lemma_layout();
    let sz = T::spec_size();
    lemma_cat_images_len::<T>(s);
    lemma_cat_images_len::<T>(s.drop_last());
    s.last().lemma_image_len();
    if i == s.len() - 1 {
        assert(chunk(cat_images(s), sz, i) =~= s[i].image());
    } else {
        lemma_cat_chunk::<T>(s.drop_last(), i);
        lemma_mul_inequality(i + 1, s.len() - 1, sz as int);
        assert(0 <= i * sz && i * sz + sz == (i + 1) * sz) by (nonlinear_arith)
            requires
                0 <= i && 0 <= sz,
        ;
        assert(chunk(cat_images(s), sz, i) =~= chunk(cat_images(s.drop_last()), sz, i));
    }
}

/// Merge/split duality, value side: reading a slice's byte image back as
/// consecutive values gives exactly the original values.
pub proof fn lemma_merge_split<T: Pod>(s: Seq<T>)
    ensures
        split_image::<T>(cat_images(s)) == s,
{
    T::lemma_layout();
    let sz = T::spec_size();
    lemma_cat_images_len::<T>(s);
    lemma_div_by_multiple(s.len() as int, sz as int);
    assert forall|i: int| 0 <= i < s.len() implies split_image::<T>(cat_images(s))[i] == s[i] by {
        lemma_cat_chunk::<T>(s, i);
        s[i].lemma_of_image_image();
    }
    assert(split_image::<T>(cat_images(s)) =~= s);
}

/// Appends the byte images of all values of `s`, in order, to `out`.
pub fn write_all<S: Pod>(s: &Vec<S>, out: &mut Vec<u8>)
    ensures
        final(out)@ == old(out)@ + cat_images(s@),
{
    let n = s.len();
    let mut i: usize = 0;
    while i < n
        invariant
            i <= n,
            n == s@.len(),
            out@ == old(out)@ + cat_images(s@.take(i as int)),
        decreases n - i,
    {
        proof {
            assert(s@.take(i as int).push(s@[i as int]) =~= s@.take(i as int + 1));
            lemma_cat_images_push::<S>(s@.take(i as int), s@[i as int]);
        }
        s[i].write_to(out);
        i += 1;
    }
    proof {
        assert(s@.take(n as int) =~= s@);
    }
}

/// Merges a slice of flat values into one `T`, by copying bytes.
///
/// Succeeds precisely when the slice's total byte length equals `T`'s size.
pub fn merge_copy<S: Pod, T: Pod>(s: &Vec<S>) -> (r: Option<T>)
    ensures
        r == (if cat_images(s@).len() == T::spec_size() {
            Some(T::of_image(cat_images(s@)))
        } else {
            None::<T>
        }),
{
    let mut buf: Vec<u8> = Vec::new();
    write_all(s, &mut buf);
    let tsz = T::size();
    if buf.len() == tsz {
        let t = T::read_from(&buf, 0);
        proof {
            assert(buf@.subrange(0, T::spec_size() as int) =~= cat_images(s@));
        }
        Some(t)
    } else {
        None
    }
}

/// Merges the leading bytes of a slice of flat values into one `T`.
///
/// Succeeds precisely when the slice's total byte length is at least `T`'s
/// size; trailing bytes are ignored.
pub fn try_merge_copy<S: Pod, T: Pod>(s: &Vec<S>) -> (r: Option<T>)
    ensures
        r == (if T::spec_size() <= cat_images(s@).len() {
            Some(T::of_image(cat_images(s@).take(T::spec_size() as int)))
        } else {
            None::<T>
        }),
{
    let mut buf: Vec<u8> = Vec::new();
    write_all(s, &mut buf);
    let tsz = T::size();
    if tsz <= buf.len() {
        let t = T::read_from(&buf, 0);
        proof {
            assert(buf@.subrange(0, T::spec_size() as int) =~= cat_images(s@).take(
                T::spec_size() as int,
            ));
        }
        Some(t)
    } else {
        None
    }
}

/// Creates a `T` from a reference to another flat value: the inverse
/// direction of [`map_copy`].
pub fn from_ref<T: Pod, S: Pod>(p: &S) -> (r: Option<T>)
    ensures
        r == (if T::spec_size() == S::spec_size() {
            Some(T::of_image(p.image()))
        } else {
            None::<T>
        }),
{
    map_copy(p)
}

/// Creates a `T` from a slice of flat values: the inverse direction of
/// [`merge_copy`].
pub fn from_slice<T: Pod, S: Pod>(p: &Vec<S>) -> (r: Option<T>)
    ensures
        r == (if cat_images(p@).len() == T::spec_size() {
            Some(T::of_image(cat_images(p@)))
        } else {
            None::<T>
        }),
{
    merge_copy(p)
}

/// Constructs a `T` from a byte view of exactly the right length.
pub fn from_bytes<T: Pod>(b: &Vec<u8>) -> (r: Option<T>)
    ensures
        r == (if b@.len() == T::spec_size() {
            Some(T::of_image(b@))
        } else {
            None::<T>
        }),
{
    let tsz = T::size();
    if b.len() == tsz {
        let t = T::read_from(b, 0);
        proof {
            assert(b@.subrange(0, T::spec_size() as int) =~= b@);
        }
        Some(t)
    } else {
        None
    }
}

/// The value's byte image, as a fresh byte vector.
pub fn as_bytes<T: Pod>(v: &T) -> (r: Vec<u8>)
    ensures
        r@ == v.image(),
{
    let mut buf: Vec<u8> = Vec::new();
    v.write_to(&mut buf);
    proof {
        assert(buf@ =~= v.image());
    }
    buf
}

/// The all-zero value of a flat type.
pub fn zeroed<T: Pod>() -> (r: T)
    ensures
        r == T::of_image(zero_bytes(T::spec_size())),
{
    let tsz = T::size();
    let mut buf: Vec<u8> = Vec::new();
    let mut i: usize = 0;
    while i < tsz
        invariant
            i <= tsz,
            buf@ =~= zero_bytes(i as nat),
        decreases tsz - i,
    {
        buf.push(0u8);
        proof {
            assert(buf@ =~= zero_bytes(i as nat + 1));
        }
        i += 1;
    }
    let t = T::read_from(&buf, 0);
    proof {
        assert(buf@.subrange(0, T::spec_size() as int) =~= zero_bytes(T::spec_size()));
    }
    t
}

/// The escape valve for a value that exists only to be fully overwritten,
/// such as right before a stream fill.
///
/// Nothing here can leave bytes unspecified, so the pending-write value is
/// the zeroed one; callers are expected to overwrite it before reading it.
pub fn uninitialized<T: Pod>() -> (r: T)
    ensures
        r == T::of_image(zero_bytes(T::spec_size())),
{
    zeroed()
}

/// A copy of this flat value, reconstructed from its own byte image.
pub fn copy<T: Pod>(v: &T) -> (r: T)
    ensures
        r == *v,
{
    let buf = as_bytes(v);
    proof {
        v.lemma_image_len();
    }
    let t = T::read_from(&buf, 0);
    proof {
        assert(buf@.subrange(0, T::spec_size() as int) =~= v.image());
        v.lemma_of_image_image();
    }
    t
}

} // verus!
