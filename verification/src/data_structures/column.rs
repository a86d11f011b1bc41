//! What a column is: a growable byte buffer that knows nothing of the values
//! stored in it.
use crate::traits::{lemma_primitive_layout, width_of, Component, Scalar};
use vstd::prelude::*;

verus! {

/// `len` zero bytes.
pub open spec fn zeroed(len: int) -> Seq<u8> {
    Seq::new(len as nat, |i: int| 0u8)
}

/// `bytes` cut or zero-extended to `len` bytes.
pub open spec fn resized(bytes: Seq<u8>, len: int) -> Seq<u8> {
    Seq::new(
        len as nat,
        |i: int|
            if i < bytes.len() {
                bytes[i]
            } else {
                0u8
            },
    )
}

/// `bytes` with `data` written over the bytes from offset `at` on.
pub open spec fn overwritten(bytes: Seq<u8>, at: int, data: Seq<u8>) -> Seq<u8> {
    Seq::new(
        bytes.len(),
        |i: int|
            if at <= i < at + data.len() {
                data[i - at]
            } else {
                bytes[i]
            },
    )
}

/// The element of `width` bytes at element index `index`.
pub open spec fn element(bytes: Seq<u8>, index: int, width: nat) -> Seq<u8> {
    bytes.subrange(index * width, (index + 1) * width)
}

/// `bytes` with `item` written at every element index from `start` up to,
/// not including, `end`.
pub open spec fn filled(bytes: Seq<u8>, start: int, end: int, item: Seq<u8>) -> Seq<u8>
    decreases end - start,
{
    if end <= start {
        bytes
    } else {
        overwritten(filled(bytes, start, end - 1, item), (end - 1) * item.len(), item)
    }
}

/// A type-erased growable byte buffer. It checks nothing: whoever owns it
/// keeps every access inside the buffer.
pub trait Column: Sized {
    /// The bytes of the buffer.
    spec fn bytes(&self) -> Seq<u8>;

    /// A zeroed buffer with room for four values of `T`.
    fn new<T: Component>() -> (column: Self)
        requires
            4 * width_of::<T>() <= usize::MAX,
        ensures
            column.bytes() == zeroed(4 * width_of::<T>() as int),
    ;

    /// A zeroed buffer with room for `size` values of `T`.
    fn new_with_size<T: Component>(size: usize) -> (column: Self)
        requires
            size * width_of::<T>() <= usize::MAX,
        ensures
            column.bytes() == zeroed(size * width_of::<T>()),
    ;

    /// A zeroed buffer of `size` bytes.
    fn new_bytes_with_size(size: usize) -> (column: Self)
        ensures
            column.bytes() == zeroed(size as int),
    ;

    /// Cuts or zero-extends the buffer to room for `new_cap` values of `T`.
    /// What the buffer held up to the smaller of its old and new size stays;
    /// `old_cap` is the room that the caller takes it to have had.
    fn resize<T: Component>(&mut self, old_cap: usize, new_cap: usize)
        requires
            new_cap * width_of::<T>() <= usize::MAX,
        ensures
            final(self).bytes() == resized(old(self).bytes(), new_cap * width_of::<T>()),
    ;

    /// Cuts or zero-extends the buffer to `new_cap` bytes. What the buffer
    /// held up to the smaller of its old and new size stays; `old_cap` is the
    /// size that the caller takes it to have had.
    fn resize_bytes(&mut self, old_cap: usize, new_cap: usize)
        ensures
            final(self).bytes() == resized(old(self).bytes(), new_cap as int),
    ;

    /// Writes `data` at element index `index`, over what was there.
    fn insert<T: Component>(&mut self, index: usize, data: T)
        requires
            (index + 1) * width_of::<T>() <= old(self).bytes().len(),
        ensures
            final(self).bytes() == overwritten(
                old(self).bytes(),
                index * width_of::<T>(),
                data.image(),
            ),
    ;

    /// Reads the value of `T` at element index `index`.
    fn get<T: Component>(&self, index: usize) -> (value: T)
        requires
            (index + 1) * width_of::<T>() <= self.bytes().len(),
        ensures
            value == T::from_image(element(self.bytes(), index as int, width_of::<T>())),
    ;

    /// Writes `data` at every element index from `start` up to, not
    /// including, `end`.
    fn fill<T: Component>(&mut self, start: usize, end: usize, data: T)
        requires
            start <= end,
            end * width_of::<T>() <= old(self).bytes().len(),
        ensures
            final(self).bytes() == filled(
                old(self).bytes(),
                start as int,
                end as int,
                data.image(),
            ),
    ;

    /// Writes the bytes `data` at element index `start`, an element being as
    /// long as `data`.
    fn write_bytes(&mut self, start: usize, data: &[u8])
        requires
            (start + 1) * data@.len() <= old(self).bytes().len(),
        ensures
            final(self).bytes() == overwritten(old(self).bytes(), start * data@.len(), data@),
    ;
}

/// Whether `value` obeys what its type says of itself: it fills exactly the
/// widths of its leaves, and is recovered from its bytes.
pub open spec fn well_laid_out<T: Component>(value: T) -> bool {
    &&& value.image().len() == width_of::<T>()
    &&& T::from_image(value.image()) == value
}

/// An item written at an element index is what that element then holds.
pub proof fn lemma_write_then_read(bytes: Seq<u8>, index: int, item: Seq<u8>)
    requires
        0 <= index,
        (index + 1) * item.len() <= bytes.len(),
    ensures
        element(overwritten(bytes, index * item.len(), item), index, item.len()) == item,
{
    let w = item.len();
    let after = overwritten(bytes, index * w, item);
    assert(0 <= index * w && (index + 1) * w == index * w + w) by (nonlinear_arith)
        requires
            0 <= index,
            0 <= w,
    ;
    assert(element(after, index, w) =~= item);
}

/// A value written at an element index is read back at that index unchanged.
pub proof fn lemma_insert_then_get<T: Component>(bytes: Seq<u8>, index: int, value: T)
    requires
        well_laid_out(value),
        0 <= index,
        (index + 1) * width_of::<T>() <= bytes.len(),
    ensures
        T::from_image(
            element(
                overwritten(bytes, index * width_of::<T>(), value.image()),
                index,
                width_of::<T>(),
            ),
        ) == value,
{
    lemma_write_then_read(bytes, index, value.image());
}

/// A primitive written at an element index is read back at that index
/// unchanged.
pub proof fn lemma_primitive_round_trip<T: Scalar>(bytes: Seq<u8>, index: int, value: T)
    requires
        0 <= index,
        (index + 1) * vstd::layout::size_of::<T>() <= bytes.len(),
    ensures
        width_of::<T>() == vstd::layout::size_of::<T>(),
        T::from_image(
            element(
                overwritten(bytes, index * width_of::<T>(), value.image()),
                index,
                width_of::<T>(),
            ),
        ) == value,
{
    lemma_primitive_layout(value);
    lemma_insert_then_get(bytes, index, value);
}

/// Growing a buffer keeps every byte, and so every element, that it held.
pub proof fn lemma_resize_preserves(bytes: Seq<u8>, len: int, index: int, width: nat)
    requires
        bytes.len() <= len,
        0 <= index,
        (index + 1) * width <= bytes.len(),
    ensures
        resized(bytes, len).subrange(0, bytes.len() as int) == bytes,
        element(resized(bytes, len), index, width) == element(bytes, index, width),
{
    assert(resized(bytes, len).subrange(0, bytes.len() as int) =~= bytes);
    assert(0 <= index * width <= (index + 1) * width) by (nonlinear_arith)
        requires
            0 <= index,
    ;
    assert(element(resized(bytes, len), index, width) =~= element(bytes, index, width));
}

/// After a fill every element in the range holds the item, and the bytes
/// outside the range are as before.
pub proof fn lemma_filled(bytes: Seq<u8>, start: int, end: int, item: Seq<u8>)
    requires
        0 <= start <= end,
        end * item.len() <= bytes.len(),
    ensures
        filled(bytes, start, end, item).len() == bytes.len(),
        forall|e: int|
            start <= e < end ==> #[trigger] element(
                filled(bytes, start, end, item),
                e,
                item.len(),
            ) == item,
        forall|i: int|
            0 <= i < bytes.len() && !(start * item.len() <= i < end * item.len()) ==> filled(
                bytes,
                start,
                end,
                item,
            )[i] == bytes[i],
    decreases end - start,
{
    let w = item.len();
    if end > start {
        let before = filled(bytes, start, end - 1, item);
        let after = filled(bytes, start, end, item);
        assert((end - 1) * w + w == end * w) by (nonlinear_arith);
        assert(start * w <= (end - 1) * w) by (nonlinear_arith)
            requires
                start <= end - 1,
                0 <= w,
        ;
        lemma_filled(bytes, start, end - 1, item);
        assert forall|e: int| start <= e < end implies #[trigger] element(after, e, w) == item by {
            assert(0 <= e * w && (e + 1) * w == e * w + w) by (nonlinear_arith)
                requires
                    0 <= e,
                    0 <= w,
            ;
            if e < end - 1 {
                assert((e + 1) * w <= (end - 1) * w) by (nonlinear_arith)
                    requires
                        e + 1 <= end - 1,
                        0 <= w,
                ;
                assert(element(after, e, w) =~= element(before, e, w));
            } else {
                assert(element(after, e, w) =~= item);
            }
        }
    } else {
        assert forall|e: int| start <= e < end implies #[trigger] element(
            filled(bytes, start, end, item),
            e,
            w,
        ) == item by {}
    }
}

} // verus!
