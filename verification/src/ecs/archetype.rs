//! What an archetype is: a row count, an ordered list of columns, and the
//! list of identities that maps a value type to its first column.
use crate::data_structures::column::{overwritten, zeroed, Column};
use crate::traits::{total_size, Component};
use vstd::arithmetic::power2::pow2;
use vstd::prelude::*;

verus! {

/// The ways a lookup into an archetype can fail.
#[derive(Debug, Clone, Copy, PartialEq, Eq, Hash, Structural)]
pub enum ArchetypeError {
    /// The value type's identity is in no slot of the archetype.
    ComponentNotFound,
    /// The column asked for lies beyond the archetype's columns.
    IndexOutOfBounds,
    /// The field position is not below the value type's own leaf count.
    FieldPositionOverlapsNextComponent,
}

/// The rows that a column has room for when it is first made.
pub const INITIAL_ROWS: usize = 4;

/// How far slot `i` is from the nearer end of a list of `len` slots.
pub open spec fn distance_from_ends(len: int, i: int) -> int {
    if i <= len - 1 - i {
        i
    } else {
        len - 1 - i
    }
}

/// Whether slot `i` holds `id` and is, among the slots that do, the one
/// nearest to an end of the list, the lower slot winning a tie.
pub open spec fn found_at(ids: Seq<u32>, id: u32, i: int) -> bool {
    &&& 0 <= i < ids.len()
    &&& ids[i] == id
    &&& forall|j: int|
        0 <= j < ids.len() && ids[j] == id ==> {
            ||| distance_from_ends(ids.len() as int, i) < distance_from_ends(ids.len() as int, j)
            ||| (distance_from_ends(ids.len() as int, i) == distance_from_ends(
                ids.len() as int,
                j,
            ) && i <= j)
        }
}

/// The slot that a scan from both ends towards the middle finds `id` in, if
/// any slot holds it.
pub open spec fn locate(ids: Seq<u32>, id: u32) -> Option<int> {
    if exists|i: int| found_at(ids, id, i) {
        Some(choose|i: int| found_at(ids, id, i))
    } else {
        None
    }
}

/// At most one slot is the one found.
pub proof fn lemma_found_at_unique(ids: Seq<u32>, id: u32, i: int, j: int)
    requires
        found_at(ids, id, i),
        found_at(ids, id, j),
    ensures
        i == j,
{
}

/// A slot that is the one found is what `locate` gives.
pub proof fn lemma_locate_found(ids: Seq<u32>, id: u32, i: int)
    requires
        found_at(ids, id, i),
    ensures
        locate(ids, id) == Some(i),
{
    let c = choose|c: int| found_at(ids, id, c);
    lemma_found_at_unique(ids, id, i, c);
}

/// Where no slot holds `id`, `locate` gives nothing.
pub proof fn lemma_locate_absent(ids: Seq<u32>, id: u32)
    requires
        forall|j: int| 0 <= j < ids.len() ==> ids[j] != id,
    ensures
        locate(ids, id) is None,
{
}

/// The column that field `field_position` of a value type resolves to: the
/// type has identity `id` and `count` leaves, the archetype `columns` columns.
pub open spec fn resolve(
    ids: Seq<u32>,
    columns: nat,
    id: u32,
    count: nat,
    field_position: nat,
) -> Result<int, ArchetypeError> {
    match locate(ids, id) {
        None => Err(ArchetypeError::ComponentNotFound),
        Some(first) => if first + field_position >= columns {
            Err(ArchetypeError::IndexOutOfBounds)
        } else if field_position >= count {
            Err(ArchetypeError::FieldPositionOverlapsNextComponent)
        } else {
            Ok(first + field_position)
        },
    }
}

/// The first column of a value type with identity `id` and `count` leaves,
/// where all its columns lie within the archetype's `columns` columns.
pub open spec fn resolve_run(ids: Seq<u32>, columns: nat, id: u32, count: nat) -> Result<
    int,
    ArchetypeError,
> {
    match locate(ids, id) {
        None => Err(ArchetypeError::ComponentNotFound),
        Some(first) => if first + count > columns {
            Err(ArchetypeError::IndexOutOfBounds)
        } else {
            Ok(first)
        },
    }
}

/// Whether `n` is a power of two.
pub open spec fn is_power_of_two(n: nat) -> bool {
    exists|k: nat| n == pow2(k)
}

/// Whether columns are due to grow once the row count has become `rows`.
pub open spec fn growth_due(rows: nat) -> bool {
    rows >= 4 && is_power_of_two(rows)
}

/// The byte offset of leaf `k` within a value whose leaves have the widths
/// `sizes`.
pub open spec fn leaf_offset(sizes: Seq<usize>, k: int) -> nat {
    total_size(sizes.take(k))
}

/// The bytes of leaf `k` within the bytes `image` of a value.
pub open spec fn leaf_bytes(image: Seq<u8>, sizes: Seq<usize>, k: int) -> Seq<u8> {
    image.subrange(leaf_offset(sizes, k) as int, leaf_offset(sizes, k) + sizes[k])
}

/// Whether each of the columns from `first` on has room for row `row` of the
/// leaf it holds, the leaves having the widths `sizes`.
pub open spec fn run_has_room(
    buffers: Seq<Seq<u8>>,
    first: int,
    sizes: Seq<usize>,
    row: nat,
) -> bool {
    forall|k: int|
        0 <= k < sizes.len() ==> (row + 1) * (#[trigger] sizes[k]) <= buffers[first + k].len()
}

/// The buffers after the leaves of a value with bytes `image` are written as
/// row `row` into the columns from `first` on.
pub open spec fn with_row(
    buffers: Seq<Seq<u8>>,
    first: int,
    sizes: Seq<usize>,
    row: nat,
    image: Seq<u8>,
) -> Seq<Seq<u8>> {
    Seq::new(
        buffers.len(),
        |j: int|
            if first <= j < first + sizes.len() {
                overwritten(
                    buffers[j],
                    row * sizes[j - first],
                    leaf_bytes(image, sizes, j - first),
                )
            } else {
                buffers[j]
            },
    )
}

/// One zeroed buffer per leaf, each with room for the initial rows.
pub open spec fn fresh_buffers(sizes: Seq<usize>) -> Seq<Seq<u8>> {
    Seq::new(sizes.len(), |k: int| zeroed(INITIAL_ROWS * sizes[k]))
}

/// Whether columns of the widths `sizes` can be made with room for the
/// initial rows.
pub open spec fn initial_rows_fit(sizes: Seq<usize>) -> bool {
    forall|k: int| 0 <= k < sizes.len() ==> INITIAL_ROWS * (#[trigger] sizes[k]) <= usize::MAX
}

/// Whether columns of the widths `sizes` can grow to twice `rows` rows.
pub open spec fn growth_fits(sizes: Seq<usize>, rows: nat) -> bool {
    forall|k: int| 0 <= k < sizes.len() ==> 2 * rows * (#[trigger] sizes[k]) <= usize::MAX
}

/// The owner of the columns of one record kind.
pub trait Archetype: Sized {
    /// The columns that the archetype owns.
    type Col: Column;

    /// The identity slots, one per column once the columns are made: the
    /// first slot of a value type's run holds its identity, the others `0`.
    spec fn identities(&self) -> Seq<u32>;

    /// The bytes of each column, in column order.
    spec fn buffers(&self) -> Seq<Seq<u8>>;

    /// The number of rows stored.
    spec fn rows(&self) -> nat;

    /// The first column of `T`.
    fn map<T: Component>(&self) -> (r: Result<usize, ArchetypeError>)
        ensures
            match r {
                Ok(first) => locate(self.identities(), T::identity()) == Some(first as int),
                Err(e) => e == ArchetypeError::ComponentNotFound && locate(
                    self.identities(),
                    T::identity(),
                ) is None,
            },
    ;

    /// The column of leaf `field_position` of `T`.
    fn get<T: Component>(&self, field_position: usize) -> (r: Result<&Self::Col, ArchetypeError>)
        ensures
            match (
                r,
                resolve(
                    self.identities(),
                    self.buffers().len(),
                    T::identity(),
                    T::leaf_sizes().len(),
                    field_position as nat,
                ),
            ) {
                (Ok(column), Ok(i)) => column.bytes() == self.buffers()[i],
                (Err(e), Err(f)) => e == f,
                _ => false,
            },
    ;

    /// The column of leaf `field_position` of `T`, to be written.
    fn get_mut<T: Component>(&mut self, field_position: usize) -> (r: Result<
        &mut Self::Col,
        ArchetypeError,
    >)
        ensures
            final(self).identities() == old(self).identities(),
            final(self).rows() == old(self).rows(),
            match (
                r,
                resolve(
                    old(self).identities(),
                    old(self).buffers().len(),
                    T::identity(),
                    T::leaf_sizes().len(),
                    field_position as nat,
                ),
            ) {
                (Ok(column), Ok(i)) => {
                    &&& column.bytes() == old(self).buffers()[i]
                    &&& final(self).buffers() == old(self).buffers().update(
                        i,
                        final(column).bytes(),
                    )
                },
                (Err(e), Err(f)) => e == f && final(self).buffers() == old(self).buffers(),
                _ => false,
            },
    ;

    /// All columns of `T`, in leaf order.
    fn get_all<T: Component>(&self) -> (r: Result<&[Self::Col], ArchetypeError>)
        ensures
            match (
                r,
                resolve_run(
                    self.identities(),
                    self.buffers().len(),
                    T::identity(),
                    T::leaf_sizes().len(),
                ),
            ) {
                (Ok(run), Ok(first)) => {
                    &&& run@.len() == T::leaf_sizes().len()
                    &&& forall|k: int|
                        0 <= k < T::leaf_sizes().len() ==> {
                            (#[trigger] run@[k]).bytes() == self.buffers()[first + k]
                        }
                },
                (Err(e), Err(f)) => e == f,
                _ => false,
            },
    ;

    /// All columns of `T`, in leaf order, to be written.
    fn get_all_mut<T: Component>(&mut self) -> (r: Result<&mut [Self::Col], ArchetypeError>)
        ensures
            final(self).identities() == old(self).identities(),
            final(self).rows() == old(self).rows(),
            match (
                r,
                resolve_run(
                    old(self).identities(),
                    old(self).buffers().len(),
                    T::identity(),
                    T::leaf_sizes().len(),
                ),
            ) {
                (Ok(run), Ok(first)) => {
                    &&& run@.len() == T::leaf_sizes().len()
                    &&& forall|k: int|
                        0 <= k < T::leaf_sizes().len() ==> {
                            (#[trigger] run@[k]).bytes() == old(self).buffers()[first + k]
                        }
                    &&& final(self).buffers() == old(self).buffers().take(first) + Seq::new(
                        final(run)@.len(),
                        |k: int| final(run)@[k].bytes(),
                    ) + old(self).buffers().skip(first + T::leaf_sizes().len())
                },
                (Err(e), Err(f)) => e == f && final(self).buffers() == old(self).buffers(),
                _ => false,
            },
    ;

    /// Writes the leaves of `component` as the row after the last one into
    /// the columns of `T`. The row count stays: a row is committed once all
    /// its values are in.
    fn insert_component<T: Component>(&mut self, component: &T) -> (r: Result<(), ArchetypeError>)
        requires
            match resolve_run(
                old(self).identities(),
                old(self).buffers().len(),
                T::identity(),
                T::leaf_sizes().len(),
            ) {
                Ok(first) => run_has_room(
                    old(self).buffers(),
                    first,
                    T::leaf_sizes(),
                    old(self).rows(),
                ),
                Err(_) => true,
            },
        ensures
            final(self).identities() == old(self).identities(),
            final(self).rows() == old(self).rows(),
            match resolve_run(
                old(self).identities(),
                old(self).buffers().len(),
                T::identity(),
                T::leaf_sizes().len(),
            ) {
                Ok(first) => r is Ok && final(self).buffers() == with_row(
                    old(self).buffers(),
                    first,
                    T::leaf_sizes(),
                    old(self).rows(),
                    component.image(),
                ),
                Err(e) => {
                    &&& r == Err::<(), ArchetypeError>(e)
                    &&& final(self).buffers() == old(self).buffers()
                },
            },
    ;

    /// Adds one zeroed column per leaf of `T`, each with room for the
    /// initial rows.
    fn initialize_column<T: Component>(&mut self)
        requires
            initial_rows_fit(T::leaf_sizes()),
        ensures
            final(self).identities() == old(self).identities(),
            final(self).rows() == old(self).rows(),
            final(self).buffers() == old(self).buffers() + fresh_buffers(T::leaf_sizes()),
    ;

    /// Whether columns are due to grow at the present row count.
    fn column_must_resize(&self) -> (due: bool)
        ensures
            due == growth_due(self.rows()),
    ;

    /// Whether some slot holds the identity of `T`.
    fn has<T: Component>(&self) -> (present: bool)
        ensures
            present == locate(self.identities(), T::identity()) is Some,
    ;

    fn get_entity_count(&self) -> (count: usize)
        ensures
            count == self.rows(),
    ;

    fn set_entity_count(&mut self, count: usize)
        requires
            count <= u32::MAX,
        ensures
            final(self).rows() == count,
            final(self).identities() == old(self).identities(),
            final(self).buffers() == old(self).buffers(),
    ;
}

} // verus!
