//! Record kinds: which value types make up one row, and how a row goes into
//! an archetype.
use crate::data_structures::column::{resized, Column};
use crate::ecs::archetype::{
    fresh_buffers, growth_due, growth_fits, initial_rows_fit, is_power_of_two, locate,
    resolve_run, run_has_room, with_row, Archetype, INITIAL_ROWS,
};
use crate::traits::Component;
use vstd::prelude::*;

verus! {

/// What a record kind declares of one value type: its identity and the
/// widths of its leaves.
pub open spec fn shape_of<T: Component>() -> (u32, Seq<usize>) {
    (T::identity(), T::leaf_sizes())
}

/// The identity slots of one value type with `count` leaves: its identity,
/// then `0` for every further leaf.
pub open spec fn identity_run(id: u32, count: nat) -> Seq<u32> {
    Seq::new(
        count,
        |i: int|
            if i == 0 {
                id
            } else {
                0u32
            },
    )
}

/// The identity slots of the declared value types, run after run.
pub open spec fn identity_layout(declared: Seq<(u32, Seq<usize>)>) -> Seq<u32>
    decreases declared.len(),
{
    if declared.len() == 0 {
        Seq::empty()
    } else {
        identity_layout(declared.drop_last()) + identity_run(
            declared.last().0,
            declared.last().1.len(),
        )
    }
}

/// The width of every column of the declared value types, in column order.
pub open spec fn flat_sizes(declared: Seq<(u32, Seq<usize>)>) -> Seq<usize>
    decreases declared.len(),
{
    if declared.len() == 0 {
        Seq::empty()
    } else {
        flat_sizes(declared.drop_last()) + declared.last().1
    }
}

/// The first column of the declared value type `i`.
pub open spec fn first_column(declared: Seq<(u32, Seq<usize>)>, i: int) -> int {
    flat_sizes(declared.take(i)).len() as int
}

/// Column `k` of the declared value type `i`.
pub open spec fn column_of(declared: Seq<(u32, Seq<usize>)>, i: int, k: int) -> int {
    first_column(declared, i) + k
}

/// The rows that every column has room for once the row count is `rows`:
/// the initial rows, doubled whenever growth was due.
pub open spec fn row_capacity(rows: nat) -> nat
    decreases rows,
{
    if rows < INITIAL_ROWS {
        INITIAL_ROWS as nat
    } else if is_power_of_two(rows) {
        2 * rows
    } else {
        row_capacity((rows - 1) as nat)
    }
}

/// Whether every declared value type with a leaf is found, by its identity,
/// at its own first column.
pub open spec fn addressable(declared: Seq<(u32, Seq<usize>)>) -> bool {
    forall|i: int|
        0 <= i < declared.len() && (#[trigger] declared[i]).1.len() > 0 ==> locate(
            identity_layout(declared),
            declared[i].0,
        ) == Some(first_column(declared, i))
}

/// Whether identity slots, buffers and a row count are laid out for the
/// declared value types: the slots are theirs, there is one column per leaf,
/// every value type is found at its own columns, and every column has room
/// for the rows that the row count stands for.
pub open spec fn laid_out(
    identities: Seq<u32>,
    buffers: Seq<Seq<u8>>,
    rows: nat,
    declared: Seq<(u32, Seq<usize>)>,
) -> bool {
    &&& identities == identity_layout(declared)
    &&& buffers.len() == flat_sizes(declared).len()
    &&& addressable(declared)
    &&& forall|j: int|
        0 <= j < flat_sizes(declared).len() ==> row_capacity(rows) * flat_sizes(declared)[j] <= (
        #[trigger] buffers[j]).len()
}

/// Whether `archetype` is laid out for the declared value types.
pub open spec fn hosts<A: Archetype>(archetype: &A, declared: Seq<(u32, Seq<usize>)>) -> bool {
    laid_out(archetype.identities(), archetype.buffers(), archetype.rows(), declared)
}

/// The buffers after every column is cut or zero-extended to twice the
/// bytes that `rows` rows of its leaf take.
pub open spec fn grown(buffers: Seq<Seq<u8>>, sizes: Seq<usize>, rows: nat) -> Seq<Seq<u8>> {
    Seq::new(buffers.len(), |j: int| resized(buffers[j], 2 * rows * sizes[j]))
}

/// The buffers after the columns from `first` on, one per width in
/// `sizes`, are cut or zero-extended to twice the bytes that `rows` rows take.
pub open spec fn grown_run(buffers: Seq<Seq<u8>>, first: int, sizes: Seq<usize>, rows: nat) -> Seq<
    Seq<u8>,
> {
    Seq::new(
        buffers.len(),
        |j: int|
            if first <= j < first + sizes.len() {
                resized(buffers[j], 2 * rows * sizes[j - first])
            } else {
                buffers[j]
            },
    )
}

/// The buffers after the first columns, one per width in `sizes`, are cut
/// or zero-extended to twice the bytes that `rows` rows take.
pub open spec fn grown_through(buffers: Seq<Seq<u8>>, sizes: Seq<usize>, rows: nat) -> Seq<
    Seq<u8>,
> {
    grown_run(buffers, 0, sizes, rows)
}

/// The buffers after one value of each declared value type is written as
/// row `row`, the values having the bytes `images`.
pub open spec fn with_rows(
    buffers: Seq<Seq<u8>>,
    declared: Seq<(u32, Seq<usize>)>,
    images: Seq<Seq<u8>>,
    row: nat,
) -> Seq<Seq<u8>>
    decreases declared.len(),
{
    if declared.len() == 0 {
        buffers
    } else {
        with_row(
            with_rows(buffers, declared.drop_last(), images.drop_last(), row),
            first_column(declared, declared.len() - 1),
            declared.last().1,
            row,
            images.last(),
        )
    }
}

/// The buffers after a record, its values having the bytes `images`, is
/// added as row `rows`: the leaves are written into the columns, and the
/// columns grow where the new row count makes growth due.
pub open spec fn committed(
    buffers: Seq<Seq<u8>>,
    declared: Seq<(u32, Seq<usize>)>,
    rows: nat,
    images: Seq<Seq<u8>>,
) -> Seq<Seq<u8>> {
    let written = with_rows(buffers, declared, images, rows);
    if growth_due(rows + 1) {
        grown(written, flat_sizes(declared), rows + 1)
    } else {
        written
    }
}

/// A record kind: an ordered set of value types that make up one row.
///
/// The functions without a contract of their own say what a record kind is
/// taken to be; an implementation states them, and its methods are held to
/// them.
pub trait Signature: Sized {
    /// The declared value types in declaration order, each with its
    /// identity and the widths of its leaves.
    open spec fn declared() -> Seq<(u32, Seq<usize>)> {
        arbitrary()
    }

    /// The bytes of each value of `self`, in declaration order.
    open spec fn images(&self) -> Seq<Seq<u8>> {
        arbitrary()
    }

    /// Adds `self` as the row after the last one: writes every leaf into
    /// its column, counts the row, and grows the columns where that is due.
    fn insert_components<A: Archetype>(&self, archetype: &mut A)
        requires
            hosts(old(archetype), Self::declared()),
            old(archetype).rows() < u32::MAX,
            growth_due(old(archetype).rows() + 1) ==> growth_fits(
                flat_sizes(Self::declared()),
                old(archetype).rows() + 1,
            ),
        ensures
            hosts(final(archetype), Self::declared()),
            final(archetype).rows() == old(archetype).rows() + 1,
            final(archetype).buffers() == committed(
                old(archetype).buffers(),
                Self::declared(),
                old(archetype).rows(),
                self.images(),
            ),
    ;

    /// Makes the columns of every declared value type, if the archetype has
    /// no rows; changes nothing if it has.
    fn create<A: Archetype>(archetype: &mut A)
        requires
            initial_rows_fit(flat_sizes(Self::declared())),
        ensures
            final(archetype).identities() == old(archetype).identities(),
            final(archetype).rows() == old(archetype).rows(),
            final(archetype).buffers() == if old(archetype).rows() == 0 {
                old(archetype).buffers() + fresh_buffers(flat_sizes(Self::declared()))
            } else {
                old(archetype).buffers()
            },
    ;

    /// The identity slots of the declared value types.
    fn gen_ids() -> (ids: Vec<u32>)
        ensures
            ids@ == identity_layout(Self::declared()),
    ;
}

/// Appends the identity slots of `T`: its identity, then `0` for each of
/// its leaves beyond the first. A type without leaves takes no slot.
pub fn push_identity<T: Component>(ids: &mut Vec<u32>)
    ensures
        final(ids)@ == old(ids)@ + identity_run(T::identity(), T::leaf_sizes().len()),
{
    let count = T::dismembered_type_count();
    let ghost before = ids@;
    let ghost run = identity_run(T::identity(), T::leaf_sizes().len());
    if count == 0 {
        proof {
            assert(ids@ =~= before + run);
        }
        return ;
    }
    ids.push(T::id());
    let mut i: u32 = 1;
    while i < count
        invariant
            1 <= i <= count,
            count == run.len(),
            run == identity_run(T::identity(), T::leaf_sizes().len()),
            ids@ == before + run.take(i as int),
        decreases count - i,
    {
        ids.push(0);
        proof {
            assert(ids@ =~= before + run.take(i + 1));
        }
        i = i + 1;
    }
    proof {
        assert(run.take(i as int) =~= run);
    }
}

/// Writes the leaves of `value` as the row after the last one, where `T`
/// has leaves; a type without leaves has nothing to write.
pub fn insert_leaves<T: Component, A: Archetype>(archetype: &mut A, value: &T)
    requires
        T::leaf_sizes().len() > 0 ==> {
            &&& resolve_run(
                old(archetype).identities(),
                old(archetype).buffers().len(),
                T::identity(),
                T::leaf_sizes().len(),
            ) is Ok
            &&& run_has_room(
                old(archetype).buffers(),
                locate(old(archetype).identities(), T::identity())->Some_0,
                T::leaf_sizes(),
                old(archetype).rows(),
            )
        },
    ensures
        final(archetype).identities() == old(archetype).identities(),
        final(archetype).rows() == old(archetype).rows(),
        final(archetype).buffers() == with_row(
            old(archetype).buffers(),
            locate(old(archetype).identities(), T::identity())->Some_0,
            T::leaf_sizes(),
            old(archetype).rows(),
            value.image(),
        ),
{
    let ghost before = archetype.buffers();
    let ghost first = locate(archetype.identities(), T::identity())->Some_0;
    if T::dismembered_type_count() > 0 {
        archetype.insert_component::<T>(value).unwrap();
    } else {
        proof {
            assert(before =~= with_row(
                before,
                first,
                T::leaf_sizes(),
                archetype.rows(),
                value.image(),
            ));
        }
    }
}

/// Grows every column of `T` to twice the bytes that the present rows of
/// its leaf take.
pub fn grow_columns<T: Component, A: Archetype>(archetype: &mut A)
    requires
        T::leaf_sizes().len() > 0 ==> resolve_run(
            old(archetype).identities(),
            old(archetype).buffers().len(),
            T::identity(),
            T::leaf_sizes().len(),
        ) is Ok,
        growth_fits(T::leaf_sizes(), old(archetype).rows()),
    ensures
        final(archetype).identities() == old(archetype).identities(),
        final(archetype).rows() == old(archetype).rows(),
        final(archetype).buffers() == grown_run(
            old(archetype).buffers(),
            locate(old(archetype).identities(), T::identity())->Some_0,
            T::leaf_sizes(),
            old(archetype).rows(),
        ),
{
    let entity_count = archetype.get_entity_count();
    let sizes = T::sizes();
    let ghost before = archetype.buffers();
    let ghost first = locate(archetype.identities(), T::identity())->Some_0;
    if sizes.len() == 0 {
        proof {
            assert(archetype.buffers() =~= grown_run(before, first, sizes@, entity_count as nat));
        }
        return ;
    }
    let mut index: usize = 0;
    while index < sizes.len()
        invariant
            index <= sizes@.len(),
            sizes@ == T::leaf_sizes(),
            entity_count == archetype.rows(),
            archetype.identities() == old(archetype).identities(),
            archetype.rows() == old(archetype).rows(),
            locate(archetype.identities(), T::identity()) == Some(first),
            0 <= first,
            first + sizes@.len() <= before.len(),
            growth_fits(sizes@, entity_count as nat),
            archetype.buffers().len() == before.len(),
            forall|j: int|
                0 <= j < before.len() ==> #[trigger] archetype.buffers()[j] == if first <= j
                    < first + index {
                    resized(before[j], 2 * entity_count * sizes@[j - first])
                } else {
                    before[j]
                },
        decreases sizes@.len() - index,
    {
        let value = sizes[index];
        proof {
            assert(sizes@[index as int] == value);
            assert(entity_count * value <= 2 * entity_count * value && entity_count * value * 2
                == 2 * entity_count * value) by (nonlinear_arith);
        }
        let ghost so_far = archetype.buffers();
        match archetype.get_mut::<T>(index) {
            Ok(column) => {
                column.resize_bytes(entity_count * value, entity_count * value * 2);
            },
            Err(_) => {},
        }
        proof {
            assert(archetype.buffers() == so_far.update(
                first + index,
                resized(so_far[first + index], 2 * entity_count * value),
            ));
        }
        index = index + 1;
    }
    proof {
        assert(archetype.buffers() =~= grown_run(before, first, sizes@, entity_count as nat));
    }
}

} // verus!
