//! Byte-order arithmetic and the endian wrapper types.
//!
//! A wire format fixes the order in which an integer's bytes appear. The
//! spec functions here define the little- and big-endian images of 16- and
//! 32-bit integers, and the wrapper types ([`Le16`], [`Be32`], ...) store an
//! integer whose byte image is exactly that ordered sequence.

use crate::pod::Pod;
use vstd::prelude::*;

verus! {

/// The little-endian byte image of a 16-bit integer.
pub open spec fn le16_bytes(v: u16) -> Seq<u8> {
    seq![(v & 0xff) as u8, ((v >> 8) & 0xff) as u8]
}

/// The 16-bit integer whose little-endian byte image is `b`.
pub open spec fn le16_value(b: Seq<u8>) -> u16
    recommends
        b.len() == 2,
{
    (b[0] as u16) | ((b[1] as u16) << 8)
}

/// The big-endian byte image of a 16-bit integer.
pub open spec fn be16_bytes(v: u16) -> Seq<u8> {
    seq![((v >> 8) & 0xff) as u8, (v & 0xff) as u8]
}

/// The 16-bit integer whose big-endian byte image is `b`.
pub open spec fn be16_value(b: Seq<u8>) -> u16
    recommends
        b.len() == 2,
{
    ((b[0] as u16) << 8) | (b[1] as u16)
}

/// The little-endian byte image of a 32-bit integer.
pub open spec fn le32_bytes(v: u32) -> Seq<u8> {
    seq![
        (v & 0xff) as u8,
        ((v >> 8) & 0xff) as u8,
        ((v >> 16) & 0xff) as u8,
        ((v >> 24) & 0xff) as u8,
    ]
}

/// The 32-bit integer whose little-endian byte image is `b`.
pub open spec fn le32_value(b: Seq<u8>) -> u32
    recommends
        b.len() == 4,
{
    (b[0] as u32) | ((b[1] as u32) << 8) | ((b[2] as u32) << 16) | ((b[3] as u32) << 24)
}

/// The big-endian byte image of a 32-bit integer.
pub open spec fn be32_bytes(v: u32) -> Seq<u8> {
    seq![
        ((v >> 24) & 0xff) as u8,
        ((v >> 16) & 0xff) as u8,
        ((v >> 8) & 0xff) as u8,
        (v & 0xff) as u8,
    ]
}

/// The 32-bit integer whose big-endian byte image is `b`.
pub open spec fn be32_value(b: Seq<u8>) -> u32
    recommends
        b.len() == 4,
{
    ((b[0] as u32) << 24) | ((b[1] as u32) << 16) | ((b[2] as u32) << 8) | (b[3] as u32)
}

/// Reading back the little-endian image of a 16-bit integer gives it back.
pub proof fn lemma_le16_value_bytes(v: u16)
    ensures
        le16_value(le16_bytes(v)) == v,
{
    assert((((v & 0xff) as u8) as u16) | (((((v >> 8) & 0xff) as u8) as u16) << 8) == v)
        by (bit_vector);
}

/// The little-endian image of the integer read from two bytes is those bytes.
pub proof fn lemma_le16_bytes_value(b: Seq<u8>)
    requires
        b.len() == 2,
    ensures
        le16_bytes(le16_value(b)) == b,
{
    let b0 = b[0];
    let b1 = b[1];
    assert(((((b0 as u16) | ((b1 as u16) << 8)) & 0xff) as u8) == b0) by (bit_vector);
    assert((((((b0 as u16) | ((b1 as u16) << 8)) >> 8) & 0xff) as u8) == b1) by (bit_vector);
    assert(le16_bytes(le16_value(b)) =~= b);
}

/// Reading back the big-endian image of a 16-bit integer gives it back.
pub proof fn lemma_be16_value_bytes(v: u16)
    ensures
        be16_value(be16_bytes(v)) == v,
{
    assert(((((v >> 8) & 0xff) as u8) as u16) << 8 | (((v & 0xff) as u8) as u16) == v)
        by (bit_vector);
}

/// The big-endian image of the integer read from two bytes is those bytes.
pub proof fn lemma_be16_bytes_value(b: Seq<u8>)
    requires
        b.len() == 2,
    ensures
        be16_bytes(be16_value(b)) == b,
{
    let b0 = b[0];
    let b1 = b[1];
    assert((((((b0 as u16) << 8) | (b1 as u16)) >> 8) & 0xff) as u8 == b0) by (bit_vector);
    assert(((((b0 as u16) << 8) | (b1 as u16)) & 0xff) as u8 == b1) by (bit_vector);
    assert(be16_bytes(be16_value(b)) =~= b);
}

/// Reading back the little-endian image of a 32-bit integer gives it back.
pub proof fn lemma_le32_value_bytes(v: u32)
    ensures
        le32_value(le32_bytes(v)) == v,
{
    assert((((v & 0xff) as u8) as u32) | (((((v >> 8) & 0xff) as u8) as u32) << 8) | (((((v >> 16)
        & 0xff) as u8) as u32) << 16) | (((((v >> 24) & 0xff) as u8) as u32) << 24) == v)
        by (bit_vector);
}

/// The little-endian image of the integer read from four bytes is those bytes.
pub proof fn lemma_le32_bytes_value(b: Seq<u8>)
    requires
        b.len() == 4,
    ensures
        le32_bytes(le32_value(b)) == b,
{
    let b0 = b[0];
    let b1 = b[1];
    let b2 = b[2];
    let b3 = b[3];
    let x = (b0 as u32) | ((b1 as u32) << 8) | ((b2 as u32) << 16) | ((b3 as u32) << 24);
    assert(((x & 0xff) as u8) == b0 && (((x >> 8) & 0xff) as u8) == b1 && (((x >> 16) & 0xff) as u8)
        == b2 && (((x >> 24) & 0xff) as u8) == b3) by (bit_vector)
        requires
            x == (b0 as u32) | ((b1 as u32) << 8) | ((b2 as u32) << 16) | ((b3 as u32) << 24),
    ;
    assert(le32_bytes(le32_value(b)) =~= b);
}

/// Reading back the big-endian image of a 32-bit integer gives it back.
pub proof fn lemma_be32_value_bytes(v: u32)
    ensures
        be32_value(be32_bytes(v)) == v,
{
    assert((((((v >> 24) & 0xff) as u8) as u32) << 24) | (((((v >> 16) & 0xff) as u8) as u32) << 16)
        | (((((v >> 8) & 0xff) as u8) as u32) << 8) | (((v & 0xff) as u8) as u32) == v)
        by (bit_vector);
}

/// The big-endian image of the integer read from four bytes is those bytes.
pub proof fn lemma_be32_bytes_value(b: Seq<u8>)
    requires
        b.len() == 4,
    ensures
        be32_bytes(be32_value(b)) == b,
{
    let b0 = b[0];
    let b1 = b[1];
    let b2 = b[2];
    let b3 = b[3];
    let x = ((b0 as u32) << 24) | ((b1 as u32) << 16) | ((b2 as u32) << 8) | (b3 as u32);
    assert((((x >> 24) & 0xff) as u8) == b0 && (((x >> 16) & 0xff) as u8) == b1 && (((x >> 8)
        & 0xff) as u8) == b2 && ((x & 0xff) as u8) == b3) by (bit_vector)
        requires
            x == ((b0 as u32) << 24) | ((b1 as u32) << 16) | ((b2 as u32) << 8) | (b3 as u32),
    ;
    assert(be32_bytes(be32_value(b)) =~= b);
}

/// Appends the little-endian image of `v` to `out`.
pub fn push_le16(out: &mut Vec<u8>, v: u16)
    ensures
        final(out)@ == old(out)@ + le16_bytes(v),
{
    proof {
        assert(v & 0xff < 256 && (v >> 8) & 0xff < 256) by (bit_vector);
    }
    out.push((v & 0xff) as u8);
    out.push(((v >> 8) & 0xff) as u8);
    proof {
        assert(out@ =~= old(out)@ + le16_bytes(v));
    }
}

/// Reads the 16-bit integer whose little-endian image sits at `b[off..off + 2]`.
pub fn get_le16(b: &Vec<u8>, off: usize) -> (v: u16)
    requires
        off + 2 <= b@.len(),
    ensures
        v == le16_value(b@.subrange(off as int, off as int + 2)),
{
    let _n: usize = b.len();
    let b0 = b[off];
    let b1 = b[off + 1];
    proof {
        let s = b@.subrange(off as int, off as int + 2);
        assert(s[0] == b@[off as int] && s[1] == b@[off as int + 1]);
    }
    (b0 as u16) | ((b1 as u16) << 8)
}

/// Appends the big-endian image of `v` to `out`.
pub fn push_be16(out: &mut Vec<u8>, v: u16)
    ensures
        final(out)@ == old(out)@ + be16_bytes(v),
{
    proof {
        assert(v & 0xff < 256 && (v >> 8) & 0xff < 256) by (bit_vector);
    }
    out.push(((v >> 8) & 0xff) as u8);
    out.push((v & 0xff) as u8);
    proof {
        assert(out@ =~= old(out)@ + be16_bytes(v));
    }
}

/// Reads the 16-bit integer whose big-endian image sits at `b[off..off + 2]`.
pub fn get_be16(b: &Vec<u8>, off: usize) -> (v: u16)
    requires
        off + 2 <= b@.len(),
    ensures
        v == be16_value(b@.subrange(off as int, off as int + 2)),
{
    let _n: usize = b.len();
    let b0 = b[off];
    let b1 = b[off + 1];
    proof {
        let s = b@.subrange(off as int, off as int + 2);
        assert(s[0] == b@[off as int] && s[1] == b@[off as int + 1]);
    }
    ((b0 as u16) << 8) | (b1 as u16)
}

/// Appends the little-endian image of `v` to `out`.
pub fn push_le32(out: &mut Vec<u8>, v: u32)
    ensures
        final(out)@ == old(out)@ + le32_bytes(v),
{
    proof {
        assert(v & 0xff < 256 && (v >> 8) & 0xff < 256 && (v >> 16) & 0xff < 256 && (v >> 24) & 0xff
            < 256) by (bit_vector);
    }
    out.push((v & 0xff) as u8);
    out.push(((v >> 8) & 0xff) as u8);
    out.push(((v >> 16) & 0xff) as u8);
    out.push(((v >> 24) & 0xff) as u8);
    proof {
        assert(out@ =~= old(out)@ + le32_bytes(v));
    }
}

/// Reads the 32-bit integer whose little-endian image sits at `b[off..off + 4]`.
pub fn get_le32(b: &Vec<u8>, off: usize) -> (v: u32)
    requires
        off + 4 <= b@.len(),
    ensures
        v == le32_value(b@.subrange(off as int, off as int + 4)),
{
    let _n: usize = b.len();
    let b0 = b[off];
    let b1 = b[off + 1];
    let b2 = b[off + 2];
    let b3 = b[off + 3];
    proof {
        let s = b@.subrange(off as int, off as int + 4);
        assert(s[0] == b@[off as int] && s[1] == b@[off as int + 1] && s[2] == b@[off as int + 2]
            && s[3] == b@[off as int + 3]);
    }
    (b0 as u32) | ((b1 as u32) << 8) | ((b2 as u32) << 16) | ((b3 as u32) << 24)
}

/// Appends the big-endian image of `v` to `out`.
pub fn push_be32(out: &mut Vec<u8>, v: u32)
    ensures
        final(out)@ == old(out)@ + be32_bytes(v),
{
    proof {
        assert(v & 0xff < 256 && (v >> 8) & 0xff < 256 && (v >> 16) & 0xff < 256 && (v >> 24) & 0xff
            < 256) by (bit_vector);
    }
    out.push(((v >> 24) & 0xff) as u8);
    out.push(((v >> 16) & 0xff) as u8);
    out.push(((v >> 8) & 0xff) as u8);
    out.push((v & 0xff) as u8);
    proof {
        assert(out@ =~= old(out)@ + be32_bytes(v));
    }
}

/// Reads the 32-bit integer whose big-endian image sits at `b[off..off + 4]`.
pub fn get_be32(b: &Vec<u8>, off: usize) -> (v: u32)
    requires
        off + 4 <= b@.len(),
    ensures
        v == be32_value(b@.subrange(off as int, off as int + 4)),
{
    let _n: usize = b.len();
    let b0 = b[off];
    let b1 = b[off + 1];
    let b2 = b[off + 2];
    let b3 = b[off + 3];
    proof {
        let s = b@.subrange(off as int, off as int + 4);
        assert(s[0] == b@[off as int] && s[1] == b@[off as int + 1] && s[2] == b@[off as int + 2]
            && s[3] == b@[off as int + 3]);
    }
    ((b0 as u32) << 24) | ((b1 as u32) << 16) | ((b2 as u32) << 8) | (b3 as u32)
}

/// The two byte orders a host machine may use.
///
/// Which one the running machine uses is a fact about the machine, not
/// about any value; code at the machine boundary supplies it where a
/// host-order integer enters or leaves the model.
#[derive(Clone, Copy, PartialEq, Eq, Structural, Debug)]
pub enum Endian {
    /// Least significant byte first.
    Little,
    /// Most significant byte first.
    Big,
}

/// A 16-bit integer stored least significant byte first.
///
/// A distinct flat type of the same size as the integer, with no alignment
/// demand, so it composes without padding inside larger flat records.
#[derive(Clone, Copy, PartialEq, Eq, Structural, Debug)]
pub struct Le16 {
    v: u16,
}

impl Le16 {
    /// The host-order integer this wrapper holds.
    pub closed spec fn value_spec(&self) -> u16 {
        self.v
    }

    /// Wraps a host-order integer; the stored image is its little-endian
    /// bytes.
    pub fn new(v: u16) -> (r: Le16)
        ensures
            r.value_spec() == v,
            r.image() == le16_bytes(v),
    {
        Le16 { v }
    }

    /// Converts back to a host-order integer.
    pub fn get(&self) -> (v: u16)
        ensures
            v == self.value_spec(),
    {
        self.v
    }

    /// The stored image is the held value's bytes in this wrapper's order.
    pub proof fn lemma_image(&self)
        ensures
            self.image() == le16_bytes(self.value_spec()),
    {
    }

    /// The value read from an image is the integer those bytes spell in
    /// this wrapper's order.
    pub proof fn lemma_of_image(b: Seq<u8>)
        ensures
            Le16::of_image(b).value_spec() == le16_value(b),
    {
    }
}

impl Pod for Le16 {
    open spec fn spec_size() -> nat {
        2
    }

    open spec fn spec_align() -> nat {
        1
    }

    closed spec fn image(&self) -> Seq<u8> {
        le16_bytes(self.v)
    }

    closed spec fn of_image(b: Seq<u8>) -> Self {
        Le16 { v: le16_value(b) }
    }

    proof fn lemma_layout() {
    }

    proof fn lemma_image_len(&self) {
    }

    proof fn lemma_image_of_image(b: Seq<u8>) {
        lemma_le16_bytes_value(b);
    }

    proof fn lemma_of_image_image(&self) {
        lemma_le16_value_bytes(self.v);
    }

    fn size() -> (n: usize) {
        2
    }

    fn align() -> (n: usize) {
        1
    }

    fn write_to(&self, out: &mut Vec<u8>) {
        push_le16(out, self.v);
    }

    fn read_from(b: &Vec<u8>, off: usize) -> (r: Self) {
        Le16 { v: get_le16(b, off) }
    }
}

/// A 16-bit integer stored most significant byte first.
#[derive(Clone, Copy, PartialEq, Eq, Structural, Debug)]
pub struct Be16 {
    v: u16,
}

impl Be16 {
    /// The host-order integer this wrapper holds.
    pub closed spec fn value_spec(&self) -> u16 {
        self.v
    }

    /// Wraps a host-order integer; the stored image is its big-endian
    /// bytes.
    pub fn new(v: u16) -> (r: Be16)
        ensures
            r.value_spec() == v,
            r.image() == be16_bytes(v),
    {
        Be16 { v }
    }

    /// Converts back to a host-order integer.
    pub fn get(&self) -> (v: u16)
        ensures
            v == self.value_spec(),
    {
        self.v
    }

    /// The stored image is the held value's bytes in this wrapper's order.
    pub proof fn lemma_image(&self)
        ensures
            self.image() == be16_bytes(self.value_spec()),
    {
    }

    /// The value read from an image is the integer those bytes spell in
    /// this wrapper's order.
    pub proof fn lemma_of_image(b: Seq<u8>)
        ensures
            Be16::of_image(b).value_spec() == be16_value(b),
    {
    }
}

impl Pod for Be16 {
    open spec fn spec_size() -> nat {
        2
    }

    open spec fn spec_align() -> nat {
        1
    }

    closed spec fn image(&self) -> Seq<u8> {
        be16_bytes(self.v)
    }

    closed spec fn of_image(b: Seq<u8>) -> Self {
        Be16 { v: be16_value(b) }
    }

    proof fn lemma_layout() {
    }

    proof fn lemma_image_len(&self) {
    }

    proof fn lemma_image_of_image(b: Seq<u8>) {
        lemma_be16_bytes_value(b);
    }

    proof fn lemma_of_image_image(&self) {
        lemma_be16_value_bytes(self.v);
    }

    fn size() -> (n: usize) {
        2
    }

    fn align() -> (n: usize) {
        1
    }

    fn write_to(&self, out: &mut Vec<u8>) {
        push_be16(out, self.v);
    }

    fn read_from(b: &Vec<u8>, off: usize) -> (r: Self) {
        Be16 { v: get_be16(b, off) }
    }
}

/// A 32-bit integer stored least significant byte first.
#[derive(Clone, Copy, PartialEq, Eq, Structural, Debug)]
pub struct Le32 {
    v: u32,
}

impl Le32 {
    /// The host-order integer this wrapper holds.
    pub closed spec fn value_spec(&self) -> u32 {
        self.v
    }

    /// Wraps a host-order integer; the stored image is its little-endian
    /// bytes.
    pub fn new(v: u32) -> (r: Le32)
        ensures
            r.value_spec() == v,
            r.image() == le32_bytes(v),
    {
        Le32 { v }
    }

    /// Converts back to a host-order integer.
    pub fn get(&self) -> (v: u32)
        ensures
            v == self.value_spec(),
    {
        self.v
    }

    /// The stored image is the held value's bytes in this wrapper's order.
    pub proof fn lemma_image(&self)
        ensures
            self.image() == le32_bytes(self.value_spec()),
    {
    }

    /// The value read from an image is the integer those bytes spell in
    /// this wrapper's order.
    pub proof fn lemma_of_image(b: Seq<u8>)
        ensures
            Le32::of_image(b).value_spec() == le32_value(b),
    {
    }
}

impl Pod for Le32 {
    open spec fn spec_size() -> nat {
        4
    }

    open spec fn spec_align() -> nat {
        1
    }

    closed spec fn image(&self) -> Seq<u8> {
        le32_bytes(self.v)
    }

    closed spec fn of_image(b: Seq<u8>) -> Self {
        Le32 { v: le32_value(b) }
    }

    proof fn lemma_layout() {
    }

    proof fn lemma_image_len(&self) {
    }

    proof fn lemma_image_of_image(b: Seq<u8>) {
        lemma_le32_bytes_value(b);
    }

    proof fn lemma_of_image_image(&self) {
        lemma_le32_value_bytes(self.v);
    }

    fn size() -> (n: usize) {
        4
    }

    fn align() -> (n: usize) {
        1
    }

    fn write_to(&self, out: &mut Vec<u8>) {
        push_le32(out, self.v);
    }

    fn read_from(b: &Vec<u8>, off: usize) -> (r: Self) {
        Le32 { v: get_le32(b, off) }
    }
}

/// A 32-bit integer stored most significant byte first.
#[derive(Clone, Copy, PartialEq, Eq, Structural, Debug)]
pub struct Be32 {
    v: u32,
}

impl Be32 {
    /// The host-order integer this wrapper holds.
    pub closed spec fn value_spec(&self) -> u32 {
        self.v
    }

    /// Wraps a host-order integer; the stored image is its big-endian
    /// bytes.
    pub fn new(v: u32) -> (r: Be32)
        ensures
            r.value_spec() == v,
            r.image() == be32_bytes(v),
    {
        Be32 { v }
    }

    /// Converts back to a host-order integer.
    pub fn get(&self) -> (v: u32)
        ensures
            v == self.value_spec(),
    {
        self.v
    }

    /// The stored image is the held value's bytes in this wrapper's order.
    pub proof fn lemma_image(&self)
        ensures
            self.image() == be32_bytes(self.value_spec()),
    {
    }

    /// The value read from an image is the integer those bytes spell in
    /// this wrapper's order.
    pub proof fn lemma_of_image(b: Seq<u8>)
        ensures
            Be32::of_image(b).value_spec() == be32_value(b),
    {
    }
}

impl Pod for Be32 {
    open spec fn spec_size() -> nat {
        4
    }

    open spec fn spec_align() -> nat {
        1
    }

    closed spec fn image(&self) -> Seq<u8> {
        be32_bytes(self.v)
    }

    closed spec fn of_image(b: Seq<u8>) -> Self {
        Be32 { v: be32_value(b) }
    }

    proof fn lemma_layout() {
    }

    proof fn lemma_image_len(&self) {
    }

    proof fn lemma_image_of_image(b: Seq<u8>) {
        lemma_be32_bytes_value(b);
    }

    proof fn lemma_of_image_image(&self) {
        lemma_be32_value_bytes(self.v);
    }

    fn size() -> (n: usize) {
        4
    }

    fn align() -> (n: usize) {
        1
    }

    fn write_to(&self, out: &mut Vec<u8>) {
        push_be32(out, self.v);
    }

    fn read_from(b: &Vec<u8>, off: usize) -> (r: Self) {
        Be32 { v: get_be32(b, off) }
    }
}

/// A 16-bit integer stored in the host's own byte order, with the bare
/// integer's natural two-byte alignment demand.
///
/// Which order the host uses is a fact about the machine, so the wrapper
/// stores the two raw bytes as they are; converting to or from a host-order
/// integer takes the host's [`Endian`] as an argument, supplied by the code
/// at the machine boundary.
#[derive(Clone, Copy, PartialEq, Eq, Structural, Debug)]
pub struct Native16 {
    b0: u8,
    b1: u8,
}

impl Native16 {
    /// Wraps a host-order integer, storing its bytes in the host's order.
    pub fn new(v: u16, host: Endian) -> (r: Native16)
        ensures
            r.image() == (if host == Endian::Little {
                le16_bytes(v)
            } else {
                be16_bytes(v)
            }),
    {
        proof {
            assert(v & 0xff < 256 && (v >> 8) & 0xff < 256) by (bit_vector);
        }
        let lo: u8 = (v & 0xff) as u8;
        let hi: u8 = ((v >> 8) & 0xff) as u8;
        match host {
            Endian::Little => Native16 { b0: lo, b1: hi },
            Endian::Big => Native16 { b0: hi, b1: lo },
        }
    }

    /// Converts back to a host-order integer.
    pub fn get(&self, host: Endian) -> (v: u16)
        ensures
            v == (if host == Endian::Little {
                le16_value(self.image())
            } else {
                be16_value(self.image())
            }),
    {
        match host {
            Endian::Little => (self.b0 as u16) | ((self.b1 as u16) << 8),
            Endian::Big => ((self.b0 as u16) << 8) | (self.b1 as u16),
        }
    }
}

impl Pod for Native16 {
    open spec fn spec_size() -> nat {
        2
    }

    open spec fn spec_align() -> nat {
        2
    }

    closed spec fn image(&self) -> Seq<u8> {
        seq![self.b0, self.b1]
    }

    closed spec fn of_image(b: Seq<u8>) -> Self {
        Native16 { b0: b[0], b1: b[1] }
    }

    proof fn lemma_layout() {
    }

    proof fn lemma_image_len(&self) {
    }

    proof fn lemma_image_of_image(b: Seq<u8>) {
        assert(Self::of_image(b).image() =~= b);
    }

    proof fn lemma_of_image_image(&self) {
    }

    fn size() -> (n: usize) {
        2
    }

    fn align() -> (n: usize) {
        2
    }

    fn write_to(&self, out: &mut Vec<u8>) {
        out.push(self.b0);
        out.push(self.b1);
        proof {
            assert(out@ =~= old(out)@ + self.image());
        }
    }

    fn read_from(b: &Vec<u8>, off: usize) -> (r: Self) {
        let _n: usize = b.len();
        proof {
            let s = b@.subrange(off as int, off as int + 2);
            assert(s[0] == b@[off as int] && s[1] == b@[off as int + 1]);
        }
        Native16 { b0: b[off], b1: b[off + 1] }
    }
}

/// A 32-bit integer stored in the host's own byte order, with the bare
/// integer's natural four-byte alignment demand.
#[derive(Clone, Copy, PartialEq, Eq, Structural, Debug)]
pub struct Native32 {
    b0: u8,
    b1: u8,
    b2: u8,
    b3: u8,
}

impl Native32 {
    /// Wraps a host-order integer, storing its bytes in the host's order.
    pub fn new(v: u32, host: Endian) -> (r: Native32)
        ensures
            r.image() == (if host == Endian::Little {
                le32_bytes(v)
            } else {
                be32_bytes(v)
            }),
    {
        proof {
            assert(v & 0xff < 256 && (v >> 8) & 0xff < 256 && (v >> 16) & 0xff < 256 && (v >> 24)
                & 0xff < 256) by (bit_vector);
        }
        let x0: u8 = (v & 0xff) as u8;
        let x1: u8 = ((v >> 8) & 0xff) as u8;
        let x2: u8 = ((v >> 16) & 0xff) as u8;
        let x3: u8 = ((v >> 24) & 0xff) as u8;
        match host {
            Endian::Little => Native32 { b0: x0, b1: x1, b2: x2, b3: x3 },
            Endian::Big => Native32 { b0: x3, b1: x2, b2: x1, b3: x0 },
        }
    }

    /// Converts back to a host-order integer.
    pub fn get(&self, host: Endian) -> (v: u32)
        ensures
            v == (if host == Endian::Little {
                le32_value(self.image())
            } else {
                be32_value(self.image())
            }),
    {
        match host {
            Endian::Little => (self.b0 as u32) | ((self.b1 as u32) << 8) | ((self.b2 as u32) << 16)
                | ((self.b3 as u32) << 24),
            Endian::Big => ((self.b0 as u32) << 24) | ((self.b1 as u32) << 16) | ((self.b2
                as u32) << 8) | (self.b3 as u32),
        }
    }
}

impl Pod for Native32 {
    open spec fn spec_size() -> nat {
        4
    }

    open spec fn spec_align() -> nat {
        4
    }

    closed spec fn image(&self) -> Seq<u8> {
        seq![self.b0, self.b1, self.b2, self.b3]
    }

    closed spec fn of_image(b: Seq<u8>) -> Self {
        Native32 { b0: b[0], b1: b[1], b2: b[2], b3: b[3] }
    }

    proof fn lemma_layout() {
    }

    proof fn lemma_image_len(&self) {
    }

    proof fn lemma_image_of_image(b: Seq<u8>) {
        assert(Self::of_image(b).image() =~= b);
    }

    proof fn lemma_of_image_image(&self) {
    }

    fn size() -> (n: usize) {
        4
    }

    fn align() -> (n: usize) {
        4
    }

    fn write_to(&self, out: &mut Vec<u8>) {
        out.push(self.b0);
        out.push(self.b1);
        out.push(self.b2);
        out.push(self.b3);
        proof {
            assert(out@ =~= old(out)@ + self.image());
        }
    }

    fn read_from(b: &Vec<u8>, off: usize) -> (r: Self) {
        let _n: usize = b.len();
        proof {
            let s = b@.subrange(off as int, off as int + 4);
            assert(s[0] == b@[off as int] && s[1] == b@[off as int + 1] && s[2] == b@[off as int
                + 2] && s[3] == b@[off as int + 3]);
        }
        Native32 { b0: b[off], b1: b[off + 1], b2: b[off + 2], b3: b[off + 3] }
    }
}


} // verus!
