//! The archetype that the store uses.
use crate::data_structures::column::{overwritten, zeroed, Column};
use crate::data_structures::simple_column::SimpleColumn;
use crate::ecs::archetype::{
    found_at, fresh_buffers, growth_due, growth_fits, initial_rows_fit, is_power_of_two,
    leaf_bytes, leaf_offset, lemma_locate_absent, lemma_locate_found, run_has_room, with_row,
    Archetype, ArchetypeError, INITIAL_ROWS,
};
use crate::ecs::signature::{addressable, committed, flat_sizes, hosts, identity_layout, Signature};
use crate::traits::{lemma_total_size_prefix, total_size, Component};
use vstd::arithmetic::power2::{lemma2_to64, lemma_pow2_strictly_increases, pow2};
use vstd::prelude::*;

verus! {

/// The entities of one record kind, stored column by column.
///
/// Each leaf of each declared value type has a column of its own; the row
/// count is kept once, for all columns.
pub struct SimpleArchetype {
    pub entity_count: u32,
    pub columns: Vec<SimpleColumn>,
    pub type_to_col: Vec<u32>,
}

/// A positive 32-bit number shares no bit with its predecessor exactly when
/// it is a power of two.
pub proof fn lemma_power_of_two_bits(n: u32)
    requires
        n >= 1,
    ensures
        (n & ((n - 1) as u32)) == 0 <==> is_power_of_two(n as nat),
{
    lemma2_to64();
    assert(n >= 1 ==> ((n & ((n - 1) as u32)) == 0 <==> (n == 0x1 || n == 0x2 || n == 0x4 || n
        == 0x8 || n == 0x10 || n == 0x20 || n == 0x40 || n == 0x80 || n == 0x100 || n == 0x200
        || n == 0x400 || n == 0x800 || n == 0x1000 || n == 0x2000 || n == 0x4000 || n == 0x8000
        || n == 0x10000 || n == 0x20000 || n == 0x40000 || n == 0x80000 || n == 0x100000 || n
        == 0x200000 || n == 0x400000 || n == 0x800000 || n == 0x1000000 || n == 0x2000000 || n
        == 0x4000000 || n == 0x8000000 || n == 0x10000000 || n == 0x20000000 || n == 0x40000000
        || n == 0x80000000))) by (bit_vector);
    if is_power_of_two(n as nat) {
        let k = choose|k: nat| n as nat == pow2(k);
        if k >= 32 {
            if k > 32 {
                lemma_pow2_strictly_increases(32, k);
            }
        }
        assert(k < 32);
    }
    if (n & ((n - 1) as u32)) == 0 {
        assert(exists|k: nat| k < 32 && n as nat == pow2(k));
    }
}

/// The bytes of each of `columns`.
pub open spec fn buffers_of(columns: Seq<SimpleColumn>) -> Seq<Seq<u8>> {
    Seq::new(columns.len(), |i: int| columns[i].data@)
}

/// Replacing one column replaces its bytes and no others.
pub proof fn lemma_buffers_of_update(columns: Seq<SimpleColumn>, i: int)
    requires
        0 <= i < columns.len(),
    ensures
        forall|c: SimpleColumn| #[trigger]
            buffers_of(columns.update(i, c)) == buffers_of(columns).update(i, c.data@),
{
    assert forall|c: SimpleColumn| #[trigger]
        buffers_of(columns.update(i, c)) == buffers_of(columns).update(i, c.data@) by {
        assert(buffers_of(columns.update(i, c)) =~= buffers_of(columns).update(i, c.data@));
    }
}

/// The bytes of columns put side by side are their bytes put side by side.
pub proof fn lemma_buffers_of_concat()
    ensures
        forall|left: Seq<SimpleColumn>, right: Seq<SimpleColumn>| #[trigger]
            buffers_of(left + right) == buffers_of(left) + buffers_of(right),
        forall|columns: Seq<SimpleColumn>| #[trigger]
            buffers_of(columns) == Seq::new(columns.len(), |k: int| columns[k].bytes()),
{
    assert forall|left: Seq<SimpleColumn>, right: Seq<SimpleColumn>| #[trigger]
        buffers_of(left + right) == buffers_of(left) + buffers_of(right) by {
        assert(buffers_of(left + right) =~= buffers_of(left) + buffers_of(right));
    }
    assert forall|columns: Seq<SimpleColumn>| #[trigger]
        buffers_of(columns) == Seq::new(columns.len(), |k: int| columns[k].bytes()) by {
        assert(buffers_of(columns) =~= Seq::new(columns.len(), |k: int| columns[k].bytes()));
    }
}

impl SimpleArchetype {
    /// An archetype for the record kind `T`: no rows, the identity slots of
    /// `T`, and a zeroed column for every leaf.
    pub fn new<T: Signature>() -> (arch: Self)
        requires
            initial_rows_fit(flat_sizes(T::declared())),
        ensures
            arch.rows() == 0,
            arch.identities() == identity_layout(T::declared()),
            arch.buffers() == fresh_buffers(flat_sizes(T::declared())),
            addressable(T::declared()) ==> hosts(&arch, T::declared()),
    {
        let mut arch = SimpleArchetype {
            entity_count: 0,
            columns: Vec::new(),
            type_to_col: T::gen_ids(),
        };
        T::create(&mut arch);
        proof {
            assert(arch.buffers() =~= fresh_buffers(flat_sizes(T::declared())));
        }
        arch
    }

    /// Adds `signature` as the row after the last one.
    pub fn insert<T: Signature>(&mut self, signature: T)
        requires
            hosts(old(self), T::declared()),
            old(self).rows() < u32::MAX,
            growth_due(old(self).rows() + 1) ==> growth_fits(
                flat_sizes(T::declared()),
                old(self).rows() + 1,
            ),
        ensures
            hosts(final(self), T::declared()),
            final(self).rows() == old(self).rows() + 1,
            final(self).buffers() == committed(
                old(self).buffers(),
                T::declared(),
                old(self).rows(),
                signature.images(),
            ),
    {
        signature.insert_components(self);
    }
}

impl Archetype for SimpleArchetype {
    type Col = SimpleColumn;

    open spec fn identities(&self) -> Seq<u32> {
        self.type_to_col@
    }

    open spec fn buffers(&self) -> Seq<Seq<u8>> {
        buffers_of(self.columns@)
    }

    open spec fn rows(&self) -> nat {
        self.entity_count as nat
    }

    fn map<T: Component>(&self) -> (r: Result<usize, ArchetypeError>) {
        let id = T::id();
        let n = self.type_to_col.len();
        let ghost ids = self.type_to_col@;
        let mut left: usize = 0;
        while left < n - left
            invariant
                n == ids.len(),
                ids == self.type_to_col@,
                id == T::identity(),
                left <= n,
                2 * left <= n + 1,
                forall|j: int| 0 <= j < left ==> ids[j] != id,
                forall|j: int| n - left <= j < n ==> ids[j] != id,
            decreases n - left,
        {
            let right = n - 1 - left;
            if self.type_to_col[left] == id {
                proof {
                    assert(found_at(ids, id, left as int));
                    lemma_locate_found(ids, id, left as int);
                }
                return Ok(left);
            }
            if self.type_to_col[right] == id {
                proof {
                    assert(found_at(ids, id, right as int));
                    lemma_locate_found(ids, id, right as int);
                }
                return Ok(right);
            }
            left = left + 1;
        }
        proof {
            lemma_locate_absent(ids, id);
        }
        Err(ArchetypeError::ComponentNotFound)
    }

    fn get<T: Component>(&self, field_position: usize) -> (r: Result<
        &SimpleColumn,
        ArchetypeError,
    >) {
        let first = match self.map::<T>() {
            Ok(a) => a,
            Err(_) => return Err(ArchetypeError::ComponentNotFound),
        };
        let len = self.columns.len();
        if first >= len || field_position >= len - first {
            return Err(ArchetypeError::IndexOutOfBounds);
        }
        if field_position >= T::dismembered_type_count() as usize {
            return Err(ArchetypeError::FieldPositionOverlapsNextComponent);
        }
        Ok(&self.columns[first + field_position])
    }

    fn get_mut<T: Component>(&mut self, field_position: usize) -> (r: Result<
        &mut SimpleColumn,
        ArchetypeError,
    >) {
        let first = match self.map::<T>() {
            Ok(a) => a,
            Err(_) => return Err(ArchetypeError::ComponentNotFound),
        };
        let len = self.columns.len();
        if first >= len || field_position >= len - first {
            return Err(ArchetypeError::IndexOutOfBounds);
        }
        if field_position >= T::dismembered_type_count() as usize {
            return Err(ArchetypeError::FieldPositionOverlapsNextComponent);
        }
        proof {
            lemma_buffers_of_update(self.columns@, first + field_position);
        }
        Ok(&mut self.columns[first + field_position])
    }

    fn get_all<T: Component>(&self) -> (r: Result<&[SimpleColumn], ArchetypeError>) {
        let first = match self.map::<T>() {
            Ok(a) => a,
            Err(_) => return Err(ArchetypeError::ComponentNotFound),
        };
        let count = T::dismembered_type_count() as usize;
        let len = self.columns.len();
        if first > len || count > len - first {
            return Err(ArchetypeError::IndexOutOfBounds);
        }
        Ok(vstd::slice::slice_subrange(self.columns.as_slice(), first, first + count))
    }

    fn get_all_mut<T: Component>(&mut self) -> (r: Result<&mut [SimpleColumn], ArchetypeError>) {
        let first = match self.map::<T>() {
            Ok(a) => a,
            Err(_) => return Err(ArchetypeError::ComponentNotFound),
        };
        let count = T::dismembered_type_count() as usize;
        let len = self.columns.len();
        if first > len || count > len - first {
            return Err(ArchetypeError::IndexOutOfBounds);
        }
        proof {
            lemma_buffers_of_concat();
            let columns = self.columns@;
            assert(buffers_of(columns.subrange(0, first as int)) =~= buffers_of(columns).take(
                first as int,
            ));
            assert(buffers_of(
                columns.subrange(first as int, columns.len() as int).subrange(
                    count as int,
                    columns.len() - first,
                ),
            ) =~= buffers_of(columns).skip(first + count));
        }
        let (_, tail) = self.columns.as_mut_slice().split_at_mut(first);
        let (run, _) = tail.split_at_mut(count);
        Ok(run)
    }

    fn insert_component<T: Component>(&mut self, component: &T) -> (r: Result<(), ArchetypeError>) {
        let first = match self.map::<T>() {
            Ok(a) => a,
            Err(_) => return Err(ArchetypeError::ComponentNotFound),
        };
        let sizes = T::sizes();
        let n = sizes.len();
        let len = self.columns.len();
        if first > len || n > len - first {
            return Err(ArchetypeError::IndexOutOfBounds);
        }
        let bytes = component.to_bytes();
        let row = self.entity_count as usize;
        let ghost before = buffers_of(self.columns@);
        let ghost image = component.image();
        let mut offset: usize = 0;
        let mut k: usize = 0;
        proof {
            assert(bytes@.len() == bytes.len());
            assert(sizes@.take(0) =~= Seq::<usize>::empty());
        }
        while k < n
            invariant
                k <= n,
                n == sizes@.len(),
                sizes@ == T::leaf_sizes(),
                bytes@ == image,
                image.len() == total_size(sizes@),
                offset == leaf_offset(sizes@, k as int),
                image.len() <= usize::MAX,
                first + n <= len,
                len == before.len(),
                self.columns@.len() == before.len(),
                row == self.entity_count,
                self.entity_count == old(self).entity_count,
                self.type_to_col == old(self).type_to_col,
                run_has_room(before, first as int, sizes@, row as nat),
                forall|j: int|
                    0 <= j < before.len() ==> (#[trigger] self.columns@[j]).data@ == if first <= j
                        < first + k {
                        overwritten(
                            before[j],
                            row * sizes@[j - first],
                            leaf_bytes(image, sizes@, j - first),
                        )
                    } else {
                        before[j]
                    },
            decreases n - k,
        {
            let size = sizes[k];
            proof {
                lemma_total_size_prefix(sizes@, k as int);
                lemma_total_size_prefix(sizes@, k + 1);
                assert(sizes@[k as int] == size);
            }
            let leaf = vstd::slice::slice_subrange(bytes.as_slice(), offset, offset + size);
            let column = &mut self.columns[first + k];
            column.write_bytes(row, leaf);
            offset = offset + size;
            k = k + 1;
        }
        proof {
            assert(buffers_of(self.columns@) =~= with_row(
                before,
                first as int,
                sizes@,
                row as nat,
                image,
            ));
        }
        Ok(())
    }

    fn initialize_column<T: Component>(&mut self) {
        let sizes = T::sizes();
        let ghost before = buffers_of(self.columns@);
        let mut k: usize = 0;
        while k < sizes.len()
            invariant
                k <= sizes@.len(),
                sizes@ == T::leaf_sizes(),
                self.entity_count == old(self).entity_count,
                self.type_to_col == old(self).type_to_col,
                initial_rows_fit(sizes@),
                buffers_of(self.columns@) =~= before + fresh_buffers(sizes@).take(k as int),
            decreases sizes@.len() - k,
        {
            let size = sizes[k];
            proof {
                assert(sizes@[k as int] == size);
            }
            let ghost so_far = self.columns@;
            let column = SimpleColumn::new_bytes_with_size(INITIAL_ROWS * size);
            self.columns.push(column);
            proof {
                assert(buffers_of(self.columns@) =~= buffers_of(so_far).push(
                    zeroed(INITIAL_ROWS * size),
                ));
                assert(fresh_buffers(sizes@).take(k + 1) =~= fresh_buffers(sizes@).take(
                    k as int,
                ).push(zeroed(INITIAL_ROWS * size)));
            }
            k = k + 1;
        }
        proof {
            assert(fresh_buffers(sizes@).take(k as int) =~= fresh_buffers(sizes@));
        }
    }

    fn column_must_resize(&self) -> (due: bool) {
        if self.entity_count < 4 {
            return false;
        }
        proof {
            lemma_power_of_two_bits(self.entity_count);
        }
        (self.entity_count & (self.entity_count - 1)) == 0
    }

    fn has<T: Component>(&self) -> (present: bool) {
        self.map::<T>().is_ok()
    }

    fn get_entity_count(&self) -> (count: usize) {
        self.entity_count as usize
    }

    fn set_entity_count(&mut self, count: usize) {
        self.entity_count = count as u32;
    }
}

} // verus!
