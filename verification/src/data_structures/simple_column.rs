//! The column that the store uses: one owned byte buffer.
use crate::data_structures::column::{filled, overwritten, resized, zeroed, Column};
use crate::traits::{byte_width, width_of, Component};
use vstd::prelude::*;

verus! {

/// A column backed by one owned byte buffer.
///
/// The element type and the logical length are not kept here; whoever owns
/// the column tracks them and keeps every access inside the buffer.
#[derive(Debug)]
pub struct SimpleColumn {
    pub data: Box<Vec<u8>>,
}

impl Column for SimpleColumn {
    open spec fn bytes(&self) -> Seq<u8> {
        self.data@
    }

    fn new<T: Component>() -> (column: Self) {
        let width = byte_width::<T>();
        Self::new_bytes_with_size(4 * width)
    }

    fn new_with_size<T: Component>(size: usize) -> (column: Self) {
        if size == 0 {
            return Self::new_bytes_with_size(0);
        }
        proof {
            assert(width_of::<T>() <= size * width_of::<T>()) by (nonlinear_arith)
                requires
                    size >= 1,
            ;
        }
        let width = byte_width::<T>();
        Self::new_bytes_with_size(size * width)
    }

    fn new_bytes_with_size(size: usize) -> (column: Self) {
        let data: Vec<u8> = vec![0u8; size];
        proof {
            assert(data@ =~= zeroed(size as int));
        }
        SimpleColumn { data: Box::new(data) }
    }

    fn resize<T: Component>(&mut self, old_cap: usize, new_cap: usize) {
        if new_cap == 0 {
            self.resize_bytes(old_cap, 0);
            return ;
        }
        proof {
            assert(width_of::<T>() <= new_cap * width_of::<T>()) by (nonlinear_arith)
                requires
                    new_cap >= 1,
            ;
        }
        let width = byte_width::<T>();
        self.resize_bytes(self.data.len(), new_cap * width);
    }

    fn resize_bytes(&mut self, old_cap: usize, new_cap: usize) {
        self.data.resize(new_cap, 0u8);
        proof {
            assert(self.data@ =~= resized(old(self).data@, new_cap as int));
        }
    }

    fn insert<T: Component>(&mut self, index: usize, data: T) {
        let bytes = data.to_bytes();
        self.write_bytes(index, bytes.as_slice());
    }

    fn get<T: Component>(&self, index: usize) -> (value: T) {
        proof {
            let w = width_of::<T>();
            assert(self.data@.len() == self.data.len());
            assert(w <= (index + 1) * w && index * w + w == (index + 1) * w) by (nonlinear_arith)
                requires
                    0 <= index,
                    0 <= w,
            ;
        }
        let width = byte_width::<T>();
        let from = index * width;
        let bytes = vstd::slice::slice_subrange(self.data.as_slice(), from, from + width);
        T::from_bytes(bytes)
    }

    fn fill<T: Component>(&mut self, start: usize, end: usize, data: T) {
        let bytes = data.to_bytes();
        let ghost before = self.data@;
        let ghost item = data.image();
        let mut i: usize = start;
        while i < end
            invariant
                start <= i <= end,
                bytes@ == item,
                end * item.len() <= before.len(),
                self.data@.len() == before.len(),
                self.data@ == filled(before, start as int, i as int, item),
            decreases end - i,
        {
            proof {
                assert((i + 1) * item.len() <= end * item.len()) by (nonlinear_arith)
                    requires
                        i + 1 <= end,
                ;
            }
            self.write_bytes(i, bytes.as_slice());
            i = i + 1;
        }
    }

    fn write_bytes(&mut self, start: usize, data: &[u8]) {
        let len = data.len();
        let ghost before = self.data@;
        proof {
            assert(self.data@.len() == self.data.len());
            assert(0 <= start * len && start * len + len == (start + 1) * len)
                by (nonlinear_arith)
                requires
                    0 <= start,
                    0 <= len,
            ;
        }
        let base = start * len;
        let mut i: usize = 0;
        while i < len
            invariant
                i <= len,
                len == data@.len(),
                base + len <= before.len() <= usize::MAX,
                self.data@.len() == before.len(),
                forall|j: int|
                    0 <= j < before.len() ==> self.data@[j] == if base <= j < base + i {
                        data@[j - base]
                    } else {
                        before[j]
                    },
            decreases len - i,
        {
            self.data.set(base + i, data[i]);
            i = i + 1;
        }
        proof {
            assert(self.data@ =~= overwritten(before, base as int, data@));
        }
    }
}

} // verus!
