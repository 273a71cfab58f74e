//! The borrowing and ownership-transferring reinterpretation algebra.
//!
//! A borrowing conversion never copies: it demands that the source address
//! satisfy the target type's alignment, and on success the same bytes are
//! read (or written) under the new type. An address is a fact about where a
//! value sits, so the model carries it explicitly: a [`Buf`] owns the byte
//! image of one flat value at a known address, an [`Arr`] the images of a
//! contiguous run of values. The ownership-transferring conversions
//! (`map_box`, `split_box`, `merge_box`, `map_slice_box`) re-tag a whole
//! buffer in place — the bytes and the address move, nothing is copied —
//! and hand the original back unchanged when the conversion is refused.

use crate::pod::Pod;
use crate::pod::chunk;
use crate::pod::split_image;
use crate::pod::zero_bytes;
use core::marker::PhantomData;
use vstd::arithmetic::div_mod::lemma_fundamental_div_mod;
use vstd::arithmetic::div_mod::lemma_mod_bound;
use vstd::arithmetic::div_mod::lemma_small_mod;
use vstd::arithmetic::mul::lemma_mul_inequality;
use vstd::prelude::*;

verus! {

/// Whether address `a` satisfies `T`'s alignment demand.
pub open spec fn spec_aligned_for<T: Pod>(a: usize) -> bool {
    a as nat % T::spec_align() == 0
}

/// Decides whether address `a` satisfies `T`'s alignment demand.
pub fn address_aligned_for<T: Pod>(a: usize) -> (r: bool)
    ensures
        r == spec_aligned_for::<T>(a),
{
    proof {
        T::lemma_layout();
    }
    let al = T::align();
    a % al == 0
}

/// Appends `b[from..to]` to `out`.
pub(crate) fn push_range(out: &mut Vec<u8>, b: &Vec<u8>, from: usize, to: usize)
    requires
        from <= to,
        to <= b@.len(),
    ensures
        final(out)@ == old(out)@ + b@.subrange(from as int, to as int),
{
    let mut i: usize = from;
    while i < to
        invariant
            from <= i <= to,
            to <= b@.len(),
            out@ == old(out)@ + b@.subrange(from as int, i as int),
        decreases to - i,
    {
        out.push(b[i]);
        proof {
            assert(out@ =~= old(out)@ + b@.subrange(from as int, i as int + 1));
        }
        i += 1;
    }
}

/// Reads the first `count` whole `U` values laid side by side in `b`.
fn read_run<U: Pod>(b: &Vec<u8>, count: usize) -> (r: Vec<U>)
    requires
        count * U::spec_size() <= b@.len(),
    ensures
        r@.len() == count,
        forall|j: int|
            0 <= j < count ==> r@[j] == U::of_image(chunk(b@, U::spec_size(), j)),
{
    let _n: usize = b.len();
    let usz = U::size();
    proof {
        U::lemma_layout();
    }
    let mut out: Vec<U> = Vec::new();
    let mut off: usize = 0;
    let mut i: usize = 0;
    while i < count
        invariant
            i <= count,
            usz == U::spec_size(),
            1 <= usz,
            off == i * U::spec_size(),
            count * U::spec_size() <= b@.len(),
            b@.len() <= usize::MAX,
            out@.len() == i,
            forall|j: int|
                0 <= j < i ==> out@[j] == U::of_image(chunk(b@, U::spec_size(), j)),
        decreases count - i,
    {
        proof {
            lemma_mul_inequality(i as int + 1, count as int, usz as int);
            assert(off + usz == (i as int + 1) * usz) by (nonlinear_arith)
                requires
                    off == i as int * usz,
            ;
        }
        let u = U::read_from(b, off);
        proof {
            assert(b@.subrange(off as int, off as int + U::spec_size()) =~= chunk(
                b@,
                U::spec_size(),
                i as int,
            ));
        }
        out.push(u);
        off = off + usz;
        i += 1;
    }
    out
}

/// Whole chunks fit: `(len / sz) * sz <= len`, with equality when the
/// division is exact.
proof fn lemma_whole_chunks(len: int, sz: int)
    requires
        0 <= len,
        1 <= sz,
    ensures
        (len / sz) * sz <= len,
        len % sz == 0 ==> (len / sz) * sz == len,
{
    lemma_fundamental_div_mod(len, sz);
    lemma_mod_bound(len, sz);
    assert(sz * (len / sz) == (len / sz) * sz) by (nonlinear_arith);
}

/// An exclusively owned allocation holding one flat `T` at a known address.
///
/// The address models where the bytes sit in memory; a real allocation of a
/// `T` is always aligned for `T`, and the model demands the same through
/// [`Buf::wf`].
pub struct Buf<T> {
    addr: usize,
    bytes: Vec<u8>,
    elem: PhantomData<T>,
}

impl<T: Pod> Buf<T> {
    /// The modeled address of the first byte.
    pub closed spec fn spec_addr(&self) -> usize {
        self.addr
    }

    /// The byte image of the held value.
    pub closed spec fn data(&self) -> Seq<u8> {
        self.bytes@
    }

    /// Well-formed: exactly one `T`-image long, at an address aligned for
    /// `T`.
    pub open spec fn wf(&self) -> bool {
        self.data().len() == T::spec_size() && spec_aligned_for::<T>(self.spec_addr())
    }

    /// The held value.
    pub open spec fn value_spec(&self) -> T {
        T::of_image(self.data())
    }

    /// Places a copy of `v` in a fresh allocation at address `addr`.
    pub fn from_value(addr: usize, v: &T) -> (r: Buf<T>)
        requires
            spec_aligned_for::<T>(addr),
        ensures
            r.wf(),
            r.spec_addr() == addr,
            r.data() == v.image(),
            r.value_spec() == *v,
    {
        let mut bytes: Vec<u8> = Vec::new();
        v.write_to(&mut bytes);
        proof {
            v.lemma_image_len();
            assert(bytes@ =~= v.image());
            v.lemma_of_image_image();
        }
        Buf { addr, bytes, elem: PhantomData }
    }

    /// Allocates a zeroed `T` at address `addr`.
    pub fn alloc_zeroed(addr: usize) -> (r: Buf<T>)
        requires
            spec_aligned_for::<T>(addr),
        ensures
            r.wf(),
            r.spec_addr() == addr,
            r.data() == zero_bytes(T::spec_size()),
    {
        let v = crate::pod::zeroed::<T>();
        proof {
            T::lemma_image_of_image(zero_bytes(T::spec_size()));
        }
        Self::from_value(addr, &v)
    }

    /// The modeled address.
    pub fn addr(&self) -> (a: usize)
        ensures
            a == self.spec_addr(),
    {
        self.addr
    }

    /// The byte length of the allocation.
    pub fn len(&self) -> (n: usize)
        ensures
            n == self.data().len(),
    {
        self.bytes.len()
    }

    /// Reads the held value out.
    pub fn value(&self) -> (v: T)
        requires
            self.wf(),
        ensures
            v == self.value_spec(),
    {
        let v = T::read_from(&self.bytes, 0);
        proof {
            assert(self.bytes@.subrange(0, T::spec_size() as int) =~= self.data());
        }
        v
    }

    /// Overwrites the held value.
    pub fn store(&mut self, v: &T)
        requires
            old(self).wf(),
        ensures
            final(self).wf(),
            final(self).spec_addr() == old(self).spec_addr(),
            final(self).data() == v.image(),
    {
        let mut bytes: Vec<u8> = Vec::new();
        v.write_to(&mut bytes);
        proof {
            v.lemma_image_len();
            assert(bytes@ =~= v.image());
        }
        self.bytes = bytes;
    }

    /// The held bytes, copied out as a fresh vector.
    pub fn byte_image(&self) -> (r: Vec<u8>)
        ensures
            r@ == self.data(),
    {
        let n = self.bytes.len();
        let mut out: Vec<u8> = Vec::new();
        push_range(&mut out, &self.bytes, 0, n);
        proof {
            assert(self.bytes@.subrange(0, n as int) =~= self.data());
        }
        out
    }

    /// Views the value as a `U` of exactly the same size, without copying.
    ///
    /// Succeeds precisely when the sizes match and this address satisfies
    /// `U`'s alignment; the value read is the one whose image is these very
    /// bytes.
    pub fn map<U: Pod>(&self) -> (r: Option<U>)
        requires
            self.wf(),
        ensures
            r == (if U::spec_size() == T::spec_size() && spec_aligned_for::<U>(self.spec_addr()) {
                Some(U::of_image(self.data()))
            } else {
                None::<U>
            }),
    {
        let usz = U::size();
        let tsz = T::size();
        if usz == tsz && address_aligned_for::<U>(self.addr) {
            let u = U::read_from(&self.bytes, 0);
            proof {
                assert(self.bytes@.subrange(0, U::spec_size() as int) =~= self.data());
            }
            Some(u)
        } else {
            None
        }
    }

    /// Writes `u` through a same-size view of these bytes: the mutation a
    /// mutable borrowing view permits. Succeeds under exactly the
    /// conditions of [`Buf::map`].
    pub fn map_mut<U: Pod>(&mut self, u: &U) -> (ok: bool)
        requires
            old(self).wf(),
        ensures
            final(self).wf(),
            final(self).spec_addr() == old(self).spec_addr(),
            ok == (U::spec_size() == T::spec_size() && spec_aligned_for::<U>(
                old(self).spec_addr(),
            )),
            final(self).data() == (if ok {
                u.image()
            } else {
                old(self).data()
            }),
    {
        let usz = U::size();
        let tsz = T::size();
        if usz == tsz && address_aligned_for::<U>(self.addr) {
            let mut bytes: Vec<u8> = Vec::new();
            u.write_to(&mut bytes);
            proof {
                u.lemma_image_len();
                assert(bytes@ =~= u.image());
            }
            self.bytes = bytes;
            true
        } else {
            false
        }
    }

    /// Views the value as a `U` of the same or lesser size, without
    /// copying: the leading bytes are read under the new type, the rest
    /// stay hidden behind it. Alignment is still demanded.
    pub fn try_map<U: Pod>(&self) -> (r: Option<U>)
        requires
            self.wf(),
        ensures
            r == (if U::spec_size() <= T::spec_size() && spec_aligned_for::<U>(self.spec_addr()) {
                Some(U::of_image(self.data().take(U::spec_size() as int)))
            } else {
                None::<U>
            }),
    {
        let usz = U::size();
        let tsz = T::size();
        if usz <= tsz && address_aligned_for::<U>(self.addr) {
            let u = U::read_from(&self.bytes, 0);
            proof {
                assert(self.bytes@.subrange(0, U::spec_size() as int) =~= self.data().take(
                    U::spec_size() as int,
                ));
            }
            Some(u)
        } else {
            None
        }
    }

    /// Writes `u` through a same-or-lesser-size view: the leading bytes
    /// become `u`'s image, the trailing bytes keep their old values.
    pub fn try_map_mut<U: Pod>(&mut self, u: &U) -> (ok: bool)
        requires
            old(self).wf(),
        ensures
            final(self).wf(),
            final(self).spec_addr() == old(self).spec_addr(),
            ok == (U::spec_size() <= T::spec_size() && spec_aligned_for::<U>(
                old(self).spec_addr(),
            )),
            final(self).data() == (if ok {
                u.image() + old(self).data().skip(U::spec_size() as int)
            } else {
                old(self).data()
            }),
    {
        let usz = U::size();
        let tsz = T::size();
        if usz <= tsz && address_aligned_for::<U>(self.addr) {
            let mut bytes: Vec<u8> = Vec::new();
            u.write_to(&mut bytes);
            push_range(&mut bytes, &self.bytes, usz, tsz);
            proof {
                u.lemma_image_len();
                assert(bytes@ =~= u.image() + self.bytes@.skip(U::spec_size() as int));
            }
            self.bytes = bytes;
            true
        } else {
            false
        }
    }

    /// Views the value as a run of `U`, without copying.
    ///
    /// Succeeds precisely when `T`'s size is an exact multiple of `U`'s and
    /// this address satisfies `U`'s alignment.
    pub fn split<U: Pod>(&self) -> (r: Option<Vec<U>>)
        requires
            self.wf(),
        ensures
            (r is Some) == (T::spec_size() % U::spec_size() == 0 && spec_aligned_for::<U>(
                self.spec_addr(),
            )),
            r matches Some(v) ==> v@ == split_image::<U>(self.data()),
    {
        let usz = U::size();
        let tsz = T::size();
        proof {
            U::lemma_layout();
        }
        if tsz % usz == 0 && address_aligned_for::<U>(self.addr) {
            proof {
                lemma_whole_chunks(tsz as int, usz as int);
            }
            let v = read_run::<U>(&self.bytes, tsz / usz);
            proof {
                assert(v@ =~= split_image::<U>(self.data()));
            }
            Some(v)
        } else {
            None
        }
    }

    /// Writes `u` in place of element `i` of the strict split view.
    /// Succeeds under the conditions of [`Buf::split`], with `i` in range.
    pub fn split_mut<U: Pod>(&mut self, i: usize, u: &U) -> (ok: bool)
        requires
            old(self).wf(),
        ensures
            final(self).wf(),
            final(self).spec_addr() == old(self).spec_addr(),
            ok == (T::spec_size() % U::spec_size() == 0 && spec_aligned_for::<U>(
                old(self).spec_addr(),
            ) && i < T::spec_size() / U::spec_size()),
            final(self).data() == (if ok {
                old(self).data().take(i * U::spec_size()) + u.image() + old(self).data().skip(
                    (i + 1) * U::spec_size(),
                )
            } else {
                old(self).data()
            }),
    {
        let usz = U::size();
        let tsz = T::size();
        proof {
            U::lemma_layout();
        }
        if tsz % usz == 0 && address_aligned_for::<U>(self.addr) && i < tsz / usz {
            proof {
                lemma_whole_chunks(tsz as int, usz as int);
                lemma_mul_inequality(i as int + 1, tsz as int / usz as int, usz as int);
                assert(i as int * usz + usz == (i as int + 1) * usz) by (nonlinear_arith);
                assert(0 <= i as int * usz) by (nonlinear_arith);
            }
            let off = i * usz;
            let mut bytes: Vec<u8> = Vec::new();
            push_range(&mut bytes, &self.bytes, 0, off);
            u.write_to(&mut bytes);
            push_range(&mut bytes, &self.bytes, off + usz, tsz);
            proof {
                u.lemma_image_len();
                assert(bytes@ =~= self.bytes@.take(i as int * U::spec_size()) + u.image()
                    + self.bytes@.skip((i as int + 1) * U::spec_size()));
                assert(bytes@.len() == T::spec_size());
            }
            self.bytes = bytes;
            true
        } else {
            false
        }
    }

    /// Views the value as a run of `U`, keeping as many whole elements as
    /// fit; a misaligned address yields the empty run.
    pub fn try_split<U: Pod>(&self) -> (r: Vec<U>)
        requires
            self.wf(),
        ensures
            spec_aligned_for::<U>(self.spec_addr()) ==> r@ == split_image::<U>(self.data()),
            !spec_aligned_for::<U>(self.spec_addr()) ==> r@ == Seq::<U>::empty(),
    {
        let usz = U::size();
        let tsz = T::size();
        proof {
            U::lemma_layout();
        }
        if address_aligned_for::<U>(self.addr) {
            proof {
                lemma_whole_chunks(tsz as int, usz as int);
            }
            let v = read_run::<U>(&self.bytes, tsz / usz);
            proof {
                assert(v@ =~= split_image::<U>(self.data()));
            }
            v
        } else {
            let v: Vec<U> = Vec::new();
            proof {
                assert(v@ =~= Seq::<U>::empty());
            }
            v
        }
    }

    /// Writes `u` in place of element `i` of the lenient split view: the
    /// exact-multiple demand is dropped, alignment and range are kept.
    pub fn try_split_mut<U: Pod>(&mut self, i: usize, u: &U) -> (ok: bool)
        requires
            old(self).wf(),
        ensures
            final(self).wf(),
            final(self).spec_addr() == old(self).spec_addr(),
            ok == (spec_aligned_for::<U>(old(self).spec_addr()) && i < T::spec_size()
                / U::spec_size()),
            final(self).data() == (if ok {
                old(self).data().take(i * U::spec_size()) + u.image() + old(self).data().skip(
                    (i + 1) * U::spec_size(),
                )
            } else {
                old(self).data()
            }),
    {
        let usz = U::size();
        let tsz = T::size();
        proof {
            U::lemma_layout();
        }
        if address_aligned_for::<U>(self.addr) && i < tsz / usz {
            proof {
                lemma_whole_chunks(tsz as int, usz as int);
                lemma_mul_inequality(i as int + 1, tsz as int / usz as int, usz as int);
                assert(i as int * usz + usz == (i as int + 1) * usz) by (nonlinear_arith);
                assert(0 <= i as int * usz) by (nonlinear_arith);
            }
            let off = i * usz;
            let mut bytes: Vec<u8> = Vec::new();
            push_range(&mut bytes, &self.bytes, 0, off);
            u.write_to(&mut bytes);
            push_range(&mut bytes, &self.bytes, off + usz, tsz);
            proof {
                u.lemma_image_len();
                assert(bytes@ =~= self.bytes@.take(i as int * U::spec_size()) + u.image()
                    + self.bytes@.skip((i as int + 1) * U::spec_size()));
                assert(bytes@.len() == T::spec_size());
            }
            self.bytes = bytes;
            true
        } else {
            false
        }
    }

    /// Re-tags the whole allocation as a `U` of the same size, in place: the
    /// bytes and the address move, nothing is copied. On refusal the
    /// original comes back unchanged.
    pub fn map_box<U: Pod>(self) -> (r: Result<Buf<U>, Buf<T>>)
        requires
            self.wf(),
        ensures
            (r is Ok) == (U::spec_size() == T::spec_size() && spec_aligned_for::<U>(
                self.spec_addr(),
            )),
            r matches Ok(b) ==> b.wf() && b.spec_addr() == self.spec_addr() && b.data()
                == self.data(),
            r matches Err(b) ==> b == self,
    {
        let usz = U::size();
        let tsz = T::size();
        if usz == tsz && address_aligned_for::<U>(self.addr) {
            let Buf { addr, bytes, elem: _ } = self;
            Ok(Buf { addr, bytes, elem: PhantomData })
        } else {
            Err(self)
        }
    }

    /// Re-tags the whole allocation as a run of `U`, in place. Succeeds
    /// under the conditions of [`Buf::split`]; on refusal the original
    /// comes back unchanged.
    pub fn split_box<U: Pod>(self) -> (r: Result<Arr<U>, Buf<T>>)
        requires
            self.wf(),
        ensures
            (r is Ok) == (T::spec_size() % U::spec_size() == 0 && spec_aligned_for::<U>(
                self.spec_addr(),
            )),
            r matches Ok(a) ==> a.wf() && a.spec_addr() == self.spec_addr() && a.data()
                == self.data(),
            r matches Err(b) ==> b == self,
    {
        let usz = U::size();
        let tsz = T::size();
        proof {
            U::lemma_layout();
        }
        if tsz % usz == 0 && address_aligned_for::<U>(self.addr) {
            let Buf { addr, bytes, elem: _ } = self;
            Ok(Arr { addr, bytes, elem: PhantomData })
        } else {
            Err(self)
        }
    }

    /// Splits the allocation and reads the elements out as owned values.
    /// Succeeds under the conditions of [`Buf::split`]; on refusal the
    /// original comes back unchanged.
    pub fn split_vec<U: Pod>(self) -> (r: Result<Vec<U>, Buf<T>>)
        requires
            self.wf(),
        ensures
            (r is Ok) == (T::spec_size() % U::spec_size() == 0 && spec_aligned_for::<U>(
                self.spec_addr(),
            )),
            r matches Ok(v) ==> v@ == split_image::<U>(self.data()),
            r matches Err(b) ==> b == self,
    {
        let usz = U::size();
        let tsz = T::size();
        proof {
            U::lemma_layout();
        }
        if tsz % usz == 0 && address_aligned_for::<U>(self.addr) {
            proof {
                lemma_whole_chunks(tsz as int, usz as int);
            }
            let v = read_run::<U>(&self.bytes, tsz / usz);
            proof {
                assert(v@ =~= split_image::<U>(self.data()));
            }
            Ok(v)
        } else {
            Err(self)
        }
    }

    /// Makes one `T` out of a run of raw bytes of exactly the right
    /// length: in place when the run's address already satisfies `T`'s
    /// alignment, otherwise by physically copying the bytes into a fresh,
    /// correctly aligned allocation at `fresh_addr`. Only a length
    /// mismatch is refused, and then the bytes come back unchanged.
    pub fn from_byte_run(bytes: Arr<u8>, fresh_addr: usize) -> (r: Result<Buf<T>, Arr<u8>>)
        requires
            bytes.wf(),
            spec_aligned_for::<T>(fresh_addr),
        ensures
            (r is Ok) == (bytes.data().len() == T::spec_size()),
            r matches Ok(b) ==> b.wf() && b.data() == bytes.data() && b.spec_addr() == (
            if spec_aligned_for::<T>(bytes.spec_addr()) {
                bytes.spec_addr()
            } else {
                fresh_addr
            }),
            r matches Err(a) ==> a == bytes,
    {
        let tsz = T::size();
        let n = bytes.byte_len();
        if n != tsz {
            return Err(bytes);
        }
        if address_aligned_for::<T>(bytes.addr()) {
            match bytes.merge_box::<T>() {
                Ok(b) => Ok(b),
                Err(a) => Err(a),
            }
        } else {
            let image = bytes.byte_image();
            Ok(Buf { addr: fresh_addr, bytes: image, elem: PhantomData })
        }
    }

    /// Degrades the allocation to its byte view, in place. A byte has no
    /// alignment demand and every size is a multiple of one, so this always
    /// succeeds.
    pub fn into_bytes(self) -> (r: Arr<u8>)
        requires
            self.wf(),
        ensures
            r.wf(),
            r.spec_addr() == self.spec_addr(),
            r.data() == self.data(),
    {
        proof {
            T::lemma_layout();
            assert(self.spec_addr() as nat % 1nat == 0) by (nonlinear_arith);
            assert(self.data().len() as nat % 1nat == 0) by (nonlinear_arith);
        }
        let Buf { addr, bytes, elem: _ } = self;
        Arr { addr, bytes, elem: PhantomData }
    }
}

/// An exclusively owned allocation holding a contiguous run of flat `T`
/// values at a known address.
pub struct Arr<T> {
    addr: usize,
    bytes: Vec<u8>,
    elem: PhantomData<T>,
}

impl<T: Pod> Arr<T> {
    /// The modeled address of the first byte.
    pub closed spec fn spec_addr(&self) -> usize {
        self.addr
    }

    /// The byte image of the whole run.
    pub closed spec fn data(&self) -> Seq<u8> {
        self.bytes@
    }

    /// Well-formed: a whole number of `T`-images, at an address aligned
    /// for `T`.
    pub open spec fn wf(&self) -> bool {
        self.data().len() % T::spec_size() == 0 && spec_aligned_for::<T>(self.spec_addr())
    }

    /// The number of values in the run.
    pub open spec fn count_spec(&self) -> nat {
        self.data().len() / T::spec_size()
    }

    /// The values in the run.
    pub open spec fn values(&self) -> Seq<T> {
        split_image::<T>(self.data())
    }

    /// An empty run at address `addr`.
    pub fn new(addr: usize) -> (r: Arr<T>)
        requires
            spec_aligned_for::<T>(addr),
        ensures
            r.wf(),
            r.spec_addr() == addr,
            r.data() == Seq::<u8>::empty(),
    {
        proof {
            T::lemma_layout();
            lemma_small_mod(0, T::spec_size());
        }
        let bytes: Vec<u8> = Vec::new();
        proof {
            assert(bytes@ =~= Seq::<u8>::empty());
        }
        Arr { addr, bytes, elem: PhantomData }
    }

    /// Lays the values of `s` out side by side in a fresh run at address
    /// `addr`.
    pub fn from_values(addr: usize, s: &Vec<T>) -> (r: Arr<T>)
        requires
            spec_aligned_for::<T>(addr),
        ensures
            r.wf(),
            r.spec_addr() == addr,
            r.data() == crate::pod::cat_images(s@),
            r.values() == s@,
    {
        proof {
            T::lemma_layout();
            crate::pod::lemma_cat_images_len::<T>(s@);
            crate::pod::lemma_merge_split::<T>(s@);
            assert(s@.len() * T::spec_size() % T::spec_size() == 0) by (nonlinear_arith)
                requires
                    1 <= T::spec_size(),
            ;
        }
        let mut bytes: Vec<u8> = Vec::new();
        crate::pod::write_all(s, &mut bytes);
        Arr { addr, bytes, elem: PhantomData }
    }

    /// Appends a copy of `v` at the end of the run.
    pub fn push(&mut self, v: &T)
        requires
            old(self).wf(),
        ensures
            final(self).wf(),
            final(self).spec_addr() == old(self).spec_addr(),
            final(self).data() == old(self).data() + v.image(),
    {
        v.write_to(&mut self.bytes);
        proof {
            T::lemma_layout();
            v.lemma_image_len();
            let len = old(self).data().len() as int;
            let sz = T::spec_size() as int;
            assert((len + sz) % sz == 0) by (nonlinear_arith)
                requires
                    1 <= sz && 0 <= len && len % sz == 0,
            ;
        }
    }

    /// The modeled address.
    pub fn addr(&self) -> (a: usize)
        ensures
            a == self.spec_addr(),
    {
        self.addr
    }

    /// The byte length of the whole run.
    pub fn byte_len(&self) -> (n: usize)
        ensures
            n == self.data().len(),
    {
        self.bytes.len()
    }

    /// The number of values in the run.
    pub fn count(&self) -> (n: usize)
        requires
            self.wf(),
        ensures
            n == self.count_spec(),
    {
        proof {
            T::lemma_layout();
        }
        let tsz = T::size();
        self.bytes.len() / tsz
    }

    /// Reads value `i` of the run.
    pub fn at(&self, i: usize) -> (v: T)
        requires
            self.wf(),
            i < self.count_spec(),
        ensures
            v == self.values()[i as int],
    {
        proof {
            T::lemma_layout();
            lemma_whole_chunks(self.data().len() as int, T::spec_size() as int);
            lemma_mul_inequality(
                i as int + 1,
                self.data().len() as int / T::spec_size() as int,
                T::spec_size() as int,
            );
            assert(i as int * T::spec_size() + T::spec_size() == (i as int + 1) * T::spec_size())
                by (nonlinear_arith);
            assert(0 <= i as int * T::spec_size()) by (nonlinear_arith);
        }
        let _n: usize = self.bytes.len();
        let tsz = T::size();
        let v = T::read_from(&self.bytes, i * tsz);
        proof {
            assert(self.bytes@.subrange(
                i as int * T::spec_size(),
                i as int * T::spec_size() + T::spec_size(),
            ) =~= chunk(self.data(), T::spec_size(), i as int));
        }
        v
    }

    /// Reads the whole run out as owned values.
    pub fn to_vec(&self) -> (r: Vec<T>)
        requires
            self.wf(),
        ensures
            r@ == self.values(),
    {
        proof {
            T::lemma_layout();
            lemma_whole_chunks(self.data().len() as int, T::spec_size() as int);
        }
        let tsz = T::size();
        let count = self.bytes.len() / tsz;
        let v = read_run::<T>(&self.bytes, count);
        proof {
            assert(v@ =~= self.values());
        }
        v
    }

    /// The held bytes, copied out as a fresh vector.
    pub fn byte_image(&self) -> (r: Vec<u8>)
        ensures
            r@ == self.data(),
    {
        let n = self.bytes.len();
        let mut out: Vec<u8> = Vec::new();
        push_range(&mut out, &self.bytes, 0, n);
        proof {
            assert(self.bytes@.subrange(0, n as int) =~= self.data());
        }
        out
    }

    /// Views the run as a run of `U`, without copying.
    ///
    /// Succeeds precisely when the run's byte length is an exact multiple
    /// of `U`'s size and this address satisfies `U`'s alignment.
    pub fn map_slice<U: Pod>(&self) -> (r: Option<Vec<U>>)
        requires
            self.wf(),
        ensures
            (r is Some) == (self.data().len() % U::spec_size() == 0 && spec_aligned_for::<U>(
                self.spec_addr(),
            )),
            r matches Some(v) ==> v@ == split_image::<U>(self.data()),
    {
        let usz = U::size();
        proof {
            U::lemma_layout();
        }
        let n = self.bytes.len();
        if n % usz == 0 && address_aligned_for::<U>(self.addr) {
            proof {
                lemma_whole_chunks(n as int, usz as int);
            }
            let v = read_run::<U>(&self.bytes, n / usz);
            proof {
                assert(v@ =~= split_image::<U>(self.data()));
            }
            Some(v)
        } else {
            None
        }
    }

    /// Writes `u` in place of element `i` of the strict re-typed view.
    /// Succeeds under the conditions of [`Arr::map_slice`], with `i` in
    /// range.
    pub fn map_slice_mut<U: Pod>(&mut self, i: usize, u: &U) -> (ok: bool)
        requires
            old(self).wf(),
        ensures
            final(self).wf(),
            final(self).spec_addr() == old(self).spec_addr(),
            ok == (old(self).data().len() % U::spec_size() == 0 && spec_aligned_for::<U>(
                old(self).spec_addr(),
            ) && i < old(self).data().len() / U::spec_size()),
            final(self).data() == (if ok {
                old(self).data().take(i * U::spec_size()) + u.image() + old(self).data().skip(
                    (i + 1) * U::spec_size(),
                )
            } else {
                old(self).data()
            }),
    {
        let usz = U::size();
        proof {
            U::lemma_layout();
            T::lemma_layout();
        }
        let n = self.bytes.len();
        if n % usz == 0 && address_aligned_for::<U>(self.addr) && i < n / usz {
            proof {
                lemma_whole_chunks(n as int, usz as int);
                lemma_mul_inequality(i as int + 1, n as int / usz as int, usz as int);
                assert(i as int * usz + usz == (i as int + 1) * usz) by (nonlinear_arith);
                assert(0 <= i as int * usz) by (nonlinear_arith);
            }
            let off = i * usz;
            let mut bytes: Vec<u8> = Vec::new();
            push_range(&mut bytes, &self.bytes, 0, off);
            u.write_to(&mut bytes);
            push_range(&mut bytes, &self.bytes, off + usz, n);
            proof {
                u.lemma_image_len();
                assert(bytes@ =~= self.bytes@.take(i as int * U::spec_size()) + u.image()
                    + self.bytes@.skip((i as int + 1) * U::spec_size()));
                assert(bytes@.len() == self.bytes@.len());
            }
            self.bytes = bytes;
            true
        } else {
            false
        }
    }

    /// Views the run as a run of `U`, keeping as many whole elements as
    /// fit; a misaligned address yields the empty run.
    pub fn try_map_slice<U: Pod>(&self) -> (r: Vec<U>)
        requires
            self.wf(),
        ensures
            spec_aligned_for::<U>(self.spec_addr()) ==> r@ == split_image::<U>(self.data()),
            !spec_aligned_for::<U>(self.spec_addr()) ==> r@ == Seq::<U>::empty(),
    {
        let usz = U::size();
        proof {
            U::lemma_layout();
        }
        let n = self.bytes.len();
        if address_aligned_for::<U>(self.addr) {
            proof {
                lemma_whole_chunks(n as int, usz as int);
            }
            let v = read_run::<U>(&self.bytes, n / usz);
            proof {
                assert(v@ =~= split_image::<U>(self.data()));
            }
            v
        } else {
            let v: Vec<U> = Vec::new();
            proof {
                assert(v@ =~= Seq::<U>::empty());
            }
            v
        }
    }

    /// Writes `u` in place of element `i` of the lenient re-typed view.
    pub fn try_map_slice_mut<U: Pod>(&mut self, i: usize, u: &U) -> (ok: bool)
        requires
            old(self).wf(),
        ensures
            final(self).wf(),
            final(self).spec_addr() == old(self).spec_addr(),
            ok == (spec_aligned_for::<U>(old(self).spec_addr()) && i < old(self).data().len()
                / U::spec_size()),
            final(self).data() == (if ok {
                old(self).data().take(i * U::spec_size()) + u.image() + old(self).data().skip(
                    (i + 1) * U::spec_size(),
                )
            } else {
                old(self).data()
            }),
    {
        let usz = U::size();
        proof {
            U::lemma_layout();
            T::lemma_layout();
        }
        let n = self.bytes.len();
        if address_aligned_for::<U>(self.addr) && i < n / usz {
            proof {
                lemma_whole_chunks(n as int, usz as int);
                lemma_mul_inequality(i as int + 1, n as int / usz as int, usz as int);
                assert(i as int * usz + usz == (i as int + 1) * usz) by (nonlinear_arith);
                assert(0 <= i as int * usz) by (nonlinear_arith);
            }
            let off = i * usz;
            let mut bytes: Vec<u8> = Vec::new();
            push_range(&mut bytes, &self.bytes, 0, off);
            u.write_to(&mut bytes);
            push_range(&mut bytes, &self.bytes, off + usz, n);
            proof {
                u.lemma_image_len();
                assert(bytes@ =~= self.bytes@.take(i as int * U::spec_size()) + u.image()
                    + self.bytes@.skip((i as int + 1) * U::spec_size()));
                let len = self.bytes@.len() as int;
                let sz = T::spec_size() as int;
                assert(bytes@.len() == len);
            }
            self.bytes = bytes;
            true
        } else {
            false
        }
    }

    /// Re-tags the whole run as a run of `U`, in place. Succeeds under the
    /// conditions of [`Arr::map_slice`]; on refusal the original comes back
    /// unchanged.
    pub fn map_slice_box<U: Pod>(self) -> (r: Result<Arr<U>, Arr<T>>)
        requires
            self.wf(),
        ensures
            (r is Ok) == (self.data().len() % U::spec_size() == 0 && spec_aligned_for::<U>(
                self.spec_addr(),
            )),
            r matches Ok(a) ==> a.wf() && a.spec_addr() == self.spec_addr() && a.data()
                == self.data(),
            r matches Err(a) ==> a == self,
    {
        let usz = U::size();
        proof {
            U::lemma_layout();
        }
        let n = self.bytes.len();
        if n % usz == 0 && address_aligned_for::<U>(self.addr) {
            let Arr { addr, bytes, elem: _ } = self;
            Ok(Arr { addr, bytes, elem: PhantomData })
        } else {
            Err(self)
        }
    }

    /// Re-types the run and reads the elements out as owned values.
    /// Succeeds under the conditions of [`Arr::map_slice`]; on refusal the
    /// original comes back unchanged.
    pub fn map_slice_vec<U: Pod>(self) -> (r: Result<Vec<U>, Arr<T>>)
        requires
            self.wf(),
        ensures
            (r is Ok) == (self.data().len() % U::spec_size() == 0 && spec_aligned_for::<U>(
                self.spec_addr(),
            )),
            r matches Ok(v) ==> v@ == split_image::<U>(self.data()),
            r matches Err(a) ==> a == self,
    {
        let usz = U::size();
        proof {
            U::lemma_layout();
        }
        let n = self.bytes.len();
        if n % usz == 0 && address_aligned_for::<U>(self.addr) {
            proof {
                lemma_whole_chunks(n as int, usz as int);
            }
            let v = read_run::<U>(&self.bytes, n / usz);
            proof {
                assert(v@ =~= split_image::<U>(self.data()));
            }
            Ok(v)
        } else {
            Err(self)
        }
    }

    /// Views the whole run as one `U`, without copying.
    ///
    /// Succeeds precisely when the run's total byte length equals `U`'s
    /// size and this address satisfies `U`'s alignment.
    pub fn merge<U: Pod>(&self) -> (r: Option<U>)
        requires
            self.wf(),
        ensures
            r == (if self.data().len() == U::spec_size() && spec_aligned_for::<U>(
                self.spec_addr(),
            ) {
                Some(U::of_image(self.data()))
            } else {
                None::<U>
            }),
    {
        let usz = U::size();
        let n = self.bytes.len();
        if n == usz && address_aligned_for::<U>(self.addr) {
            let u = U::read_from(&self.bytes, 0);
            proof {
                assert(self.bytes@.subrange(0, U::spec_size() as int) =~= self.data());
            }
            Some(u)
        } else {
            None
        }
    }

    /// Writes `u` through a whole-run view: the run's bytes become `u`'s
    /// image. Succeeds under exactly the conditions of [`Arr::merge`].
    pub fn merge_mut<U: Pod>(&mut self, u: &U) -> (ok: bool)
        requires
            old(self).wf(),
        ensures
            final(self).wf(),
            final(self).spec_addr() == old(self).spec_addr(),
            ok == (old(self).data().len() == U::spec_size() && spec_aligned_for::<U>(
                old(self).spec_addr(),
            )),
            final(self).data() == (if ok {
                u.image()
            } else {
                old(self).data()
            }),
    {
        let usz = U::size();
        let n = self.bytes.len();
        if n == usz && address_aligned_for::<U>(self.addr) {
            let mut bytes: Vec<u8> = Vec::new();
            u.write_to(&mut bytes);
            proof {
                u.lemma_image_len();
                assert(bytes@ =~= u.image());
            }
            self.bytes = bytes;
            true
        } else {
            false
        }
    }

    /// Views the leading bytes of the run as one `U`, without copying; the
    /// run must hold at least a whole `U`.
    pub fn try_merge<U: Pod>(&self) -> (r: Option<U>)
        requires
            self.wf(),
        ensures
            r == (if U::spec_size() <= self.data().len() && spec_aligned_for::<U>(
                self.spec_addr(),
            ) {
                Some(U::of_image(self.data().take(U::spec_size() as int)))
            } else {
                None::<U>
            }),
    {
        let usz = U::size();
        let n = self.bytes.len();
        if usz <= n && address_aligned_for::<U>(self.addr) {
            let u = U::read_from(&self.bytes, 0);
            proof {
                assert(self.bytes@.subrange(0, U::spec_size() as int) =~= self.data().take(
                    U::spec_size() as int,
                ));
            }
            Some(u)
        } else {
            None
        }
    }

    /// Writes `u` through a leading-bytes view: the leading bytes become
    /// `u`'s image, the rest keep their old values. Succeeds under exactly
    /// the conditions of [`Arr::try_merge`].
    pub fn try_merge_mut<U: Pod>(&mut self, u: &U) -> (ok: bool)
        requires
            old(self).wf(),
        ensures
            final(self).wf(),
            final(self).spec_addr() == old(self).spec_addr(),
            ok == (U::spec_size() <= old(self).data().len() && spec_aligned_for::<U>(
                old(self).spec_addr(),
            )),
            final(self).data() == (if ok {
                u.image() + old(self).data().skip(U::spec_size() as int)
            } else {
                old(self).data()
            }),
    {
        let usz = U::size();
        let n = self.bytes.len();
        if usz <= n && address_aligned_for::<U>(self.addr) {
            let mut bytes: Vec<u8> = Vec::new();
            u.write_to(&mut bytes);
            push_range(&mut bytes, &self.bytes, usz, n);
            proof {
                u.lemma_image_len();
                assert(bytes@ =~= u.image() + self.bytes@.skip(U::spec_size() as int));
            }
            self.bytes = bytes;
            true
        } else {
            false
        }
    }

    /// Re-tags the whole run as one `U`, in place. Succeeds under the
    /// conditions of [`Arr::merge`]; on refusal the original comes back
    /// unchanged.
    pub fn merge_box<U: Pod>(self) -> (r: Result<Buf<U>, Arr<T>>)
        requires
            self.wf(),
        ensures
            (r is Ok) == (self.data().len() == U::spec_size() && spec_aligned_for::<U>(
                self.spec_addr(),
            )),
            r matches Ok(b) ==> b.wf() && b.spec_addr() == self.spec_addr() && b.data()
                == self.data(),
            r matches Err(a) ==> a == self,
    {
        let usz = U::size();
        let n = self.bytes.len();
        if n == usz && address_aligned_for::<U>(self.addr) {
            let Arr { addr, bytes, elem: _ } = self;
            Ok(Buf { addr, bytes, elem: PhantomData })
        } else {
            Err(self)
        }
    }

    /// Degrades the run to its byte view, in place; always succeeds.
    pub fn into_bytes(self) -> (r: Arr<u8>)
        requires
            self.wf(),
        ensures
            r.wf(),
            r.spec_addr() == self.spec_addr(),
            r.data() == self.data(),
    {
        proof {
            assert(self.spec_addr() as nat % 1nat == 0) by (nonlinear_arith);
            assert(self.data().len() as nat % 1nat == 0) by (nonlinear_arith);
        }
        let Arr { addr, bytes, elem: _ } = self;
        Arr { addr, bytes, elem: PhantomData }
    }
}

} // verus!
