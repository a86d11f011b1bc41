//! The value-type contract: how a type flattens into primitive leaves.
use vstd::prelude::*;

verus! {

/// The sum of a list of byte widths.
pub open spec fn total_size(sizes: Seq<usize>) -> nat
    decreases sizes.len(),
{
    if sizes.len() == 0 {
        0
    } else {
        total_size(sizes.drop_last()) + sizes.last() as nat
    }
}

/// A single width sums to itself.
pub proof fn lemma_total_size_single(sizes: Seq<usize>)
    requires
        sizes.len() == 1,
    ensures
        total_size(sizes) == sizes[0] as nat,
{
    assert(sizes.drop_last().len() == 0);
    assert(total_size(sizes.drop_last()) == 0);
}

/// The lists `parts`, one after the other.
pub open spec fn concat_sizes(parts: Seq<Seq<usize>>) -> Seq<usize>
    decreases parts.len(),
{
    if parts.len() == 0 {
        Seq::empty()
    } else {
        concat_sizes(parts.drop_last()) + parts.last()
    }
}

/// The summed lengths of the lists `parts`.
pub open spec fn sum_of_lens(parts: Seq<Seq<usize>>) -> nat
    decreases parts.len(),
{
    if parts.len() == 0 {
        0
    } else {
        sum_of_lens(parts.drop_last()) + parts.last().len()
    }
}

/// The concatenation has as many entries as its parts have together.
pub proof fn lemma_concat_sizes_len(parts: Seq<Seq<usize>>)
    ensures
        concat_sizes(parts).len() == sum_of_lens(parts),
    decreases parts.len(),
{
    if parts.len() > 0 {
        lemma_concat_sizes_len(parts.drop_last());
    }
}

/// The concatenation sums to what its parts sum to together.
pub proof fn lemma_total_size_concat(left: Seq<usize>, right: Seq<usize>)
    ensures
        total_size(left + right) == total_size(left) + total_size(right),
    decreases right.len(),
{
    if right.len() == 0 {
        assert(left + right =~= left);
    } else {
        assert((left + right).drop_last() =~= left + right.drop_last());
        lemma_total_size_concat(left, right.drop_last());
    }
}

/// The lists that the vectors `fields` hold.
pub open spec fn lists_of(fields: Seq<Vec<usize>>) -> Seq<Seq<usize>> {
    Seq::new(fields.len(), |i: int| fields[i]@)
}

/// The leaf widths of a composite type, from the leaf widths of its fields
/// in field order: the lists one after the other.
pub fn composite_sizes(fields: &Vec<Vec<usize>>) -> (sizes: Vec<usize>)
    ensures
        sizes@ == concat_sizes(lists_of(fields@)),
        sizes@.len() == sum_of_lens(lists_of(fields@)),
{
    let ghost parts = lists_of(fields@);
    let mut sizes: Vec<usize> = Vec::new();
    let mut i: usize = 0;
    while i < fields.len()
        invariant
            i <= fields@.len(),
            parts == lists_of(fields@),
            parts.len() == fields@.len(),
            sizes@ == concat_sizes(parts.take(i as int)),
        decreases fields@.len() - i,
    {
        let field = &fields[i];
        let ghost start = sizes@;
        let mut j: usize = 0;
        while j < field.len()
            invariant
                j <= field@.len(),
                sizes@ == start + field@.take(j as int),
            decreases field@.len() - j,
        {
            sizes.push(field[j]);
            proof {
                assert(field@.take(j + 1) =~= field@.take(j as int).push(field@[j as int]));
                assert(sizes@ =~= start + field@.take(j + 1));
            }
            j = j + 1;
        }
        proof {
            assert(field@.take(j as int) =~= field@);
            assert(parts[i as int] =~= field@);
            assert(parts.take(i + 1).drop_last() =~= parts.take(i as int));
        }
        i = i + 1;
    }
    proof {
        assert(parts.take(i as int) =~= parts);
        lemma_concat_sizes_len(parts);
    }
    sizes
}

/// A fixed-size value without further structure, with the bytes it is stored as.
pub trait Scalar: Copy {
    /// The bytes that stand for the value, least significant first.
    spec fn encoding(self) -> Seq<u8>;

    /// The value that `bytes` stand for.
    spec fn decoding(bytes: Seq<u8>) -> Self;

    /// A value takes `size_of::<Self>()` bytes and is recovered from them.
    proof fn lemma_encoding(v: Self)
        ensures
            vstd::layout::size_of::<Self>() <= usize::MAX,
            v.encoding().len() == vstd::layout::size_of::<Self>(),
            Self::decoding(v.encoding()) == v,
    ;

    fn encode(self) -> (bytes: Vec<u8>)
        ensures
            bytes@ == self.encoding(),
    ;

    fn decode(bytes: &[u8]) -> (v: Self)
        requires
            bytes@.len() == vstd::layout::size_of::<Self>(),
        ensures
            v == Self::decoding(bytes@),
    ;
}

impl Scalar for u8 {
    open spec fn encoding(self) -> Seq<u8> {
        seq![self]
    }

    open spec fn decoding(bytes: Seq<u8>) -> Self {
        bytes[0]
    }

    proof fn lemma_encoding(v: Self) {
        broadcast use vstd::layout::layout_of_primitives;

    }

    fn encode(self) -> (bytes: Vec<u8>) {
        let mut bytes: Vec<u8> = Vec::new();
        bytes.push(self);
        bytes
    }

    fn decode(bytes: &[u8]) -> (v: Self) {
        proof {
            broadcast use vstd::layout::layout_of_primitives;

        }
        bytes[0]
    }
}

impl Scalar for u16 {
    open spec fn encoding(self) -> Seq<u8> {
        vstd::bytes::spec_u16_to_le_bytes(self)
    }

    open spec fn decoding(bytes: Seq<u8>) -> Self {
        vstd::bytes::spec_u16_from_le_bytes(bytes)
    }

    proof fn lemma_encoding(v: Self) {
        broadcast use vstd::layout::layout_of_primitives;

        vstd::bytes::lemma_auto_spec_u16_to_from_le_bytes();
    }

    fn encode(self) -> (bytes: Vec<u8>) {
        vstd::bytes::u16_to_le_bytes(self)
    }

    fn decode(bytes: &[u8]) -> (v: Self) {
        proof {
            broadcast use vstd::layout::layout_of_primitives;

        }
        vstd::bytes::u16_from_le_bytes(bytes)
    }
}

impl Scalar for u32 {
    open spec fn encoding(self) -> Seq<u8> {
        vstd::bytes::spec_u32_to_le_bytes(self)
    }

    open spec fn decoding(bytes: Seq<u8>) -> Self {
        vstd::bytes::spec_u32_from_le_bytes(bytes)
    }

    proof fn lemma_encoding(v: Self) {
        broadcast use vstd::layout::layout_of_primitives;

        vstd::bytes::lemma_auto_spec_u32_to_from_le_bytes();
    }

    fn encode(self) -> (bytes: Vec<u8>) {
        vstd::bytes::u32_to_le_bytes(self)
    }

    fn decode(bytes: &[u8]) -> (v: Self) {
        proof {
            broadcast use vstd::layout::layout_of_primitives;

        }
        vstd::bytes::u32_from_le_bytes(bytes)
    }
}

impl Scalar for u64 {
    open spec fn encoding(self) -> Seq<u8> {
        vstd::bytes::spec_u64_to_le_bytes(self)
    }

    open spec fn decoding(bytes: Seq<u8>) -> Self {
        vstd::bytes::spec_u64_from_le_bytes(bytes)
    }

    proof fn lemma_encoding(v: Self) {
        broadcast use vstd::layout::layout_of_primitives;

        vstd::bytes::lemma_auto_spec_u64_to_from_le_bytes();
    }

    fn encode(self) -> (bytes: Vec<u8>) {
        vstd::bytes::u64_to_le_bytes(self)
    }

    fn decode(bytes: &[u8]) -> (v: Self) {
        proof {
            broadcast use vstd::layout::layout_of_primitives;

        }
        vstd::bytes::u64_from_le_bytes(bytes)
    }
}

impl Scalar for i8 {
    open spec fn encoding(self) -> Seq<u8> {
        (self as u8).encoding()
    }

    open spec fn decoding(bytes: Seq<u8>) -> Self {
        <u8 as Scalar>::decoding(bytes) as i8
    }

    proof fn lemma_encoding(v: Self) {
        broadcast use vstd::layout::layout_of_primitives;

        <u8 as Scalar>::lemma_encoding(v as u8);
        assert(((v as u8) as i8) == v) by (bit_vector);
    }

    fn encode(self) -> (bytes: Vec<u8>) {
        (#[verifier::truncate] (self as u8)).encode()
    }

    fn decode(bytes: &[u8]) -> (v: Self) {
        proof {
            broadcast use vstd::layout::layout_of_primitives;

        }
        #[verifier::truncate]
        (<u8 as Scalar>::decode(bytes) as i8)
    }
}

impl Scalar for i16 {
    open spec fn encoding(self) -> Seq<u8> {
        (self as u16).encoding()
    }

    open spec fn decoding(bytes: Seq<u8>) -> Self {
        <u16 as Scalar>::decoding(bytes) as i16
    }

    proof fn lemma_encoding(v: Self) {
        broadcast use vstd::layout::layout_of_primitives;

        <u16 as Scalar>::lemma_encoding(v as u16);
        assert(((v as u16) as i16) == v) by (bit_vector);
    }

    fn encode(self) -> (bytes: Vec<u8>) {
        (#[verifier::truncate] (self as u16)).encode()
    }

    fn decode(bytes: &[u8]) -> (v: Self) {
        proof {
            broadcast use vstd::layout::layout_of_primitives;

        }
        #[verifier::truncate]
        (<u16 as Scalar>::decode(bytes) as i16)
    }
}

impl Scalar for i32 {
    open spec fn encoding(self) -> Seq<u8> {
        (self as u32).encoding()
    }

    open spec fn decoding(bytes: Seq<u8>) -> Self {
        <u32 as Scalar>::decoding(bytes) as i32
    }

    proof fn lemma_encoding(v: Self) {
        broadcast use vstd::layout::layout_of_primitives;

        <u32 as Scalar>::lemma_encoding(v as u32);
        assert(((v as u32) as i32) == v) by (bit_vector);
    }

    fn encode(self) -> (bytes: Vec<u8>) {
        (#[verifier::truncate] (self as u32)).encode()
    }

    fn decode(bytes: &[u8]) -> (v: Self) {
        proof {
            broadcast use vstd::layout::layout_of_primitives;

        }
        #[verifier::truncate]
        (<u32 as Scalar>::decode(bytes) as i32)
    }
}

impl Scalar for i64 {
    open spec fn encoding(self) -> Seq<u8> {
        (self as u64).encoding()
    }

    open spec fn decoding(bytes: Seq<u8>) -> Self {
        <u64 as Scalar>::decoding(bytes) as i64
    }

    proof fn lemma_encoding(v: Self) {
        broadcast use vstd::layout::layout_of_primitives;

        <u64 as Scalar>::lemma_encoding(v as u64);
        assert(((v as u64) as i64) == v) by (bit_vector);
    }

    fn encode(self) -> (bytes: Vec<u8>) {
        (#[verifier::truncate] (self as u64)).encode()
    }

    fn decode(bytes: &[u8]) -> (v: Self) {
        proof {
            broadcast use vstd::layout::layout_of_primitives;

        }
        #[verifier::truncate]
        (<u64 as Scalar>::decode(bytes) as i64)
    }
}

impl Scalar for u128 {
    open spec fn encoding(self) -> Seq<u8> {
        vstd::bytes::spec_u128_to_le_bytes(self)
    }

    open spec fn decoding(bytes: Seq<u8>) -> Self {
        vstd::bytes::spec_u128_from_le_bytes(bytes)
    }

    proof fn lemma_encoding(v: Self) {
        broadcast use vstd::layout::layout_of_primitives;

        assert(vstd::layout::size_of::<u8>() == 1);
        vstd::bytes::lemma_auto_spec_u128_to_from_le_bytes();
    }

    fn encode(self) -> (bytes: Vec<u8>) {
        vstd::bytes::u128_to_le_bytes(self)
    }

    fn decode(bytes: &[u8]) -> (v: Self) {
        proof {
            broadcast use vstd::layout::layout_of_primitives;

            assert(vstd::layout::size_of::<u8>() == 1);
        }
        vstd::bytes::u128_from_le_bytes(bytes)
    }
}

impl Scalar for i128 {
    open spec fn encoding(self) -> Seq<u8> {
        (self as u128).encoding()
    }

    open spec fn decoding(bytes: Seq<u8>) -> Self {
        <u128 as Scalar>::decoding(bytes) as i128
    }

    proof fn lemma_encoding(v: Self) {
        broadcast use vstd::layout::layout_of_primitives;

        assert(vstd::layout::size_of::<u8>() == 1);
        <u128 as Scalar>::lemma_encoding(v as u128);
        assert(((v as u128) as i128) == v) by (bit_vector);
    }

    fn encode(self) -> (bytes: Vec<u8>) {
        (#[verifier::truncate] (self as u128)).encode()
    }

    fn decode(bytes: &[u8]) -> (v: Self) {
        proof {
            broadcast use vstd::layout::layout_of_primitives;

            assert(vstd::layout::size_of::<u8>() == 1);
        }
        #[verifier::truncate]
        (<u128 as Scalar>::decode(bytes) as i128)
    }
}

impl Scalar for bool {
    open spec fn encoding(self) -> Seq<u8> {
        if self {
            seq![1u8]
        } else {
            seq![0u8]
        }
    }

    open spec fn decoding(bytes: Seq<u8>) -> Self {
        bytes[0] != 0
    }

    proof fn lemma_encoding(v: Self) {
        broadcast use vstd::layout::layout_of_primitives;

    }

    fn encode(self) -> (bytes: Vec<u8>) {
        let mut bytes: Vec<u8> = Vec::new();
        bytes.push(if self {
            1
        } else {
            0
        });
        bytes
    }

    fn decode(bytes: &[u8]) -> (v: Self) {
        proof {
            broadcast use vstd::layout::layout_of_primitives;

        }
        bytes[0] != 0
    }
}

/// A value type that a column store can hold: a primitive, or a fixed
/// sequence of fields that are themselves components.
///
/// The functions without a contract of their own say what a type is taken to
/// be; an implementation states them, and its methods are held to them.
pub trait Component: Sized {
    /// The leaves of one value, as a tuple in leaf order.
    type DismemberedOutput;

    /// The number of primitive leaves the type flattens into.
    const COUNT: usize;

    /// The byte width of each leaf, in leaf order.
    open spec fn leaf_sizes() -> Seq<usize> {
        arbitrary()
    }

    /// The identity the type is looked up by; primitives share `0`.
    open spec fn identity() -> u32 {
        arbitrary()
    }

    /// The leaves of `self`.
    open spec fn leaves(self) -> Self::DismemberedOutput {
        arbitrary()
    }

    /// The bytes of `self`: leaf after leaf, without padding.
    open spec fn image(&self) -> Seq<u8> {
        arbitrary()
    }

    /// The value whose bytes are `bytes`.
    open spec fn from_image(bytes: Seq<u8>) -> Self {
        arbitrary()
    }

    fn dismember(self) -> (out: Self::DismemberedOutput)
        ensures
            out == self.leaves(),
    ;

    fn dismembered_type_count() -> (n: u32)
        ensures
            n == Self::COUNT,
            n == Self::leaf_sizes().len(),
    ;

    fn id() -> (r: u32)
        ensures
            r == Self::identity(),
    ;

    /// There is one width per leaf.
    fn sizes() -> (v: Vec<usize>)
        ensures
            v@ == Self::leaf_sizes(),
            v@.len() == Self::COUNT,
    ;

    /// A value fills exactly the widths of its leaves, and is recovered from
    /// its bytes.
    fn to_bytes(&self) -> (bytes: Vec<u8>)
        ensures
            bytes@ == self.image(),
            bytes@.len() == total_size(Self::leaf_sizes()),
            Self::from_image(self.image()) == *self,
    ;

    fn from_bytes(bytes: &[u8]) -> (v: Self)
        requires
            bytes@.len() == total_size(Self::leaf_sizes()),
        ensures
            v == Self::from_image(bytes@),
    ;
}

impl<T: Scalar> Component for T {
    type DismemberedOutput = T;

    const COUNT: usize = 1;

    open spec fn leaf_sizes() -> Seq<usize> {
        seq![vstd::layout::size_of::<T>() as usize]
    }

    open spec fn identity() -> u32 {
        0
    }

    open spec fn leaves(self) -> T {
        self
    }

    open spec fn image(&self) -> Seq<u8> {
        self.encoding()
    }

    open spec fn from_image(bytes: Seq<u8>) -> Self {
        T::decoding(bytes)
    }

    fn dismember(self) -> (out: T) {
        self
    }

    fn dismembered_type_count() -> (n: u32) {
        1
    }

    fn id() -> (r: u32) {
        0
    }

    fn sizes() -> (v: Vec<usize>) {
        let mut v: Vec<usize> = Vec::new();
        v.push(core::mem::size_of::<T>());
        v
    }

    fn to_bytes(&self) -> (bytes: Vec<u8>) {
        proof {
            T::lemma_encoding(*self);
            lemma_total_size_single(Self::leaf_sizes());
        }
        (*self).encode()
    }

    fn from_bytes(bytes: &[u8]) -> (v: Self) {
        vstd::layout::layout_for_type_is_valid::<T>();
        proof {
            lemma_total_size_single(Self::leaf_sizes());
        }
        T::decode(bytes)
    }
}

/// The number of bytes one value of `T` takes.
pub open spec fn width_of<T: Component>() -> nat {
    total_size(T::leaf_sizes())
}

/// A prefix of a list of widths sums to no more than the whole list.
pub proof fn lemma_total_size_prefix(sizes: Seq<usize>, n: int)
    requires
        0 <= n <= sizes.len(),
    ensures
        total_size(sizes.take(n)) <= total_size(sizes),
        n < sizes.len() ==> total_size(sizes.take(n + 1)) == total_size(sizes.take(n))
            + sizes[n] as nat,
    decreases sizes.len() - n,
{
    if n < sizes.len() {
        assert(sizes.take(n + 1).drop_last() =~= sizes.take(n));
        lemma_total_size_prefix(sizes, n + 1);
    } else {
        assert(sizes.take(n) =~= sizes);
    }
}

/// The sum of the widths in `sizes`.
pub fn sum_sizes(sizes: &Vec<usize>) -> (sum: usize)
    requires
        total_size(sizes@) <= usize::MAX,
    ensures
        sum == total_size(sizes@),
{
    let mut sum: usize = 0;
    let mut i: usize = 0;
    while i < sizes.len()
        invariant
            i <= sizes.len(),
            sum == total_size(sizes@.take(i as int)),
            total_size(sizes@) <= usize::MAX,
        decreases sizes.len() - i,
    {
        proof {
            lemma_total_size_prefix(sizes@, i as int);
            lemma_total_size_prefix(sizes@, i + 1);
        }
        sum = sum + sizes[i];
        i = i + 1;
    }
    proof {
        assert(sizes@.take(i as int) =~= sizes@);
    }
    sum
}

/// The number of bytes one value of `T` takes.
pub fn byte_width<T: Component>() -> (width: usize)
    requires
        width_of::<T>() <= usize::MAX,
    ensures
        width == width_of::<T>(),
{
    let sizes = T::sizes();
    sum_sizes(&sizes)
}

/// A primitive has one leaf, as wide as the primitive itself, and is
/// recovered from its bytes.
pub proof fn lemma_primitive_layout<T: Scalar>(value: T)
    ensures
        <T as Component>::COUNT == 1,
        <T as Component>::leaf_sizes() == seq![vstd::layout::size_of::<T>() as usize],
        vstd::layout::size_of::<T>() as usize == vstd::layout::size_of::<T>(),
        total_size(<T as Component>::leaf_sizes()) == vstd::layout::size_of::<T>(),
        value.image().len() == vstd::layout::size_of::<T>(),
        <T as Component>::from_image(value.image()) == value,
{
    T::lemma_encoding(value);
    lemma_total_size_single(<T as Component>::leaf_sizes());
}

} // verus!
