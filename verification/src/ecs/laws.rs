//! What holds of every record kind: where its value types are found, that
//! its columns always have room, and that its rows read back.
use crate::data_structures::column::{element, lemma_write_then_read, overwritten};
use crate::ecs::archetype::{
    found_at, fresh_buffers, growth_due, growth_fits, initial_rows_fit, is_power_of_two,
    leaf_bytes, lemma_locate_found, locate, resolve_run, run_has_room, with_row, Archetype,
    INITIAL_ROWS,
};
use crate::ecs::signature::{
    addressable, column_of, committed, first_column, flat_sizes, grown, grown_run,
    grown_through, hosts, identity_layout, identity_run, laid_out, row_capacity, with_rows,
};
use crate::traits::{lemma_total_size_prefix, total_size};
use vstd::arithmetic::power2::{lemma2_to64, lemma_pow2_unfold, pow2};
use vstd::prelude::*;

verus! {

/// The columns always have room for one more row than the row count, their
/// room is a power of two, and it changes only where growth is due.
pub proof fn lemma_row_capacity(rows: nat)
    ensures
        rows < row_capacity(rows),
        INITIAL_ROWS <= row_capacity(rows),
        is_power_of_two(row_capacity(rows)),
        row_capacity(rows + 1) == if growth_due(rows + 1) {
            2 * (rows + 1)
        } else {
            row_capacity(rows)
        },
    decreases rows,
{
    lemma2_to64();
    if rows < INITIAL_ROWS {
        assert(row_capacity(rows) == pow2(2));
        if rows + 1 == INITIAL_ROWS {
            assert(rows + 1 == pow2(2));
        }
    } else if is_power_of_two(rows) {
        let k = choose|k: nat| rows == pow2(k);
        lemma_pow2_unfold(k + 1);
        assert(row_capacity(rows) == pow2(k + 1));
    } else {
        lemma_row_capacity((rows - 1) as nat);
    }
}

/// In an archetype laid out for a declaration, the columns from `first`
/// on, which hold leaves of the widths `sizes`, have room for one more row.
pub proof fn lemma_room_for_row(
    buffers: Seq<Seq<u8>>,
    flat: Seq<usize>,
    rows: nat,
    first: int,
    sizes: Seq<usize>,
)
    requires
        buffers.len() == flat.len(),
        forall|j: int|
            0 <= j < flat.len() ==> row_capacity(rows) * flat[j] <= (#[trigger] buffers[j]).len(),
        0 <= first,
        first + sizes.len() <= flat.len(),
        flat.subrange(first, first + sizes.len()) == sizes,
    ensures
        run_has_room(buffers, first, sizes, rows),
{
    lemma_row_capacity(rows);
    assert forall|k: int| 0 <= k < sizes.len() implies (rows + 1) * (#[trigger] sizes[k])
        <= buffers[first + k].len() by {
        let j = first + k;
        assert(flat.subrange(first, first + sizes.len())[k] == flat[j]);
        assert(row_capacity(rows) * flat[j] <= buffers[j].len());
        assert((rows + 1) * flat[j] <= row_capacity(rows) * flat[j]) by (nonlinear_arith)
            requires
                rows + 1 <= row_capacity(rows),
                0 <= flat[j],
        ;
    }
}

/// Once a row is written and counted, and the columns have grown where
/// that was due, the archetype has room again for the rows that its count
/// stands for.
pub proof fn lemma_room_kept(
    before: Seq<Seq<u8>>,
    after: Seq<Seq<u8>>,
    flat: Seq<usize>,
    rows: nat,
)
    requires
        before.len() == flat.len(),
        after.len() == flat.len(),
        forall|j: int|
            0 <= j < flat.len() ==> row_capacity(rows) * flat[j] <= (#[trigger] before[j]).len(),
        forall|j: int|
            0 <= j < flat.len() ==> (#[trigger] after[j]).len() == if growth_due(rows + 1) {
                2 * (rows + 1) * flat[j]
            } else {
                before[j].len() as int
            },
    ensures
        forall|j: int|
            0 <= j < flat.len() ==> row_capacity(rows + 1) * flat[j] <= (#[trigger] after[j]).len(),
{
    lemma_row_capacity(rows);
    assert forall|j: int| 0 <= j < flat.len() implies row_capacity(rows + 1) * flat[j] <= (
    #[trigger] after[j]).len() by {
        assert(row_capacity(rows) * flat[j] <= before[j].len());
        if growth_due(rows + 1) {
            assert(row_capacity(rows + 1) * flat[j] == 2 * (rows + 1) * flat[j])
                by (nonlinear_arith)
                requires
                    row_capacity(rows + 1) == 2 * (rows + 1),
            ;
        }
    }
}

/// Whether slot `p` is a column of some declared value type.
pub open spec fn has_owner(declared: Seq<(u32, Seq<usize>)>, p: int) -> bool {
    exists|i: int, k: int|
        0 <= i < declared.len() && 0 <= k < declared[i].1.len() && p == #[trigger] column_of(
            declared,
            i,
            k,
        )
}

/// There is one identity slot per column, the columns of every declared
/// value type lie within them, the first slot of each run holds the
/// identity and the others `0`, and every slot belongs to some run.
pub proof fn lemma_layout_slots(declared: Seq<(u32, Seq<usize>)>)
    ensures
        identity_layout(declared).len() == flat_sizes(declared).len(),
        forall|i: int, k: int|
            0 <= i < declared.len() && 0 <= k < declared[i].1.len() ==> {
                &&& 0 <= #[trigger] column_of(declared, i, k) < identity_layout(declared).len()
                &&& identity_layout(declared)[column_of(declared, i, k)] == if k == 0 {
                    declared[i].0
                } else {
                    0u32
                }
                &&& flat_sizes(declared)[column_of(declared, i, k)] == declared[i].1[k]
            },
        forall|p: int|
            0 <= p < identity_layout(declared).len() ==> #[trigger] has_owner(declared, p),
    decreases declared.len(),
{
    if declared.len() > 0 {
        let n = declared.len() - 1;
        let rest = declared.drop_last();
        let last = declared.last();
        let layout = identity_layout(declared);
        lemma_layout_slots(rest);
        assert(declared.take(n) =~= rest);
        assert forall|i: int| 0 <= i < n implies first_column(declared, i) == first_column(
            rest,
            i,
        ) by {
            assert(declared.take(i) =~= rest.take(i));
        }
        assert forall|i: int, k: int|
            0 <= i < declared.len() && 0 <= k < declared[i].1.len() implies {
            &&& 0 <= #[trigger] column_of(declared, i, k) < layout.len()
            &&& layout[column_of(declared, i, k)] == if k == 0 {
                declared[i].0
            } else {
                0u32
            }
            &&& flat_sizes(declared)[column_of(declared, i, k)] == declared[i].1[k]
        } by {
            if i < n {
                assert(column_of(declared, i, k) == column_of(rest, i, k));
                assert(rest[i] == declared[i]);
            }
        }
        assert forall|p: int| 0 <= p < layout.len() implies #[trigger] has_owner(declared, p) by {
            if p < identity_layout(rest).len() {
                assert(has_owner(rest, p));
                let (i, k) = choose|i: int, k: int|
                    0 <= i < rest.len() && 0 <= k < rest[i].1.len() && p == #[trigger] column_of(
                        rest,
                        i,
                        k,
                    );
                assert(rest[i] == declared[i]);
                assert(p == column_of(declared, i, k));
            } else {
                assert(p == column_of(declared, n, p - identity_layout(rest).len()));
            }
        }
    }
}

/// Where the declared value types that have leaves carry identities other
/// than `0`, no two of them the same, each is found at its own first
/// column.
pub proof fn lemma_distinct_identities_addressable(declared: Seq<(u32, Seq<usize>)>)
    requires
        forall|i: int|
            0 <= i < declared.len() && (#[trigger] declared[i]).1.len() > 0 ==> declared[i].0 != 0,
        forall|i: int, j: int|
            0 <= i < j < declared.len() && (#[trigger] declared[i]).1.len() > 0 && (
            #[trigger] declared[j]).1.len() > 0 ==> declared[i].0 != declared[j].0,
    ensures
        addressable(declared),
{
    let layout = identity_layout(declared);
    lemma_layout_slots(declared);
    assert forall|i: int|
        0 <= i < declared.len() && (#[trigger] declared[i]).1.len() > 0 implies locate(
        layout,
        declared[i].0,
    ) == Some(first_column(declared, i)) by {
        let id = declared[i].0;
        let first = first_column(declared, i);
        assert(first == column_of(declared, i, 0));
        assert forall|p: int| 0 <= p < layout.len() && layout[p] == id implies p == first by {
            assert(has_owner(declared, p));
            let (j, k) = choose|j: int, k: int|
                0 <= j < declared.len() && 0 <= k < declared[j].1.len() && p
                    == #[trigger] column_of(declared, j, k);
            assert(k == 0);
            assert(declared[j].0 == id);
            assert(j == i);
        }
        assert(found_at(layout, id, first));
        lemma_locate_found(layout, id, first);
    }
}

/// A fresh archetype of a record kind whose value types can be told apart
/// is laid out for that record kind.
pub proof fn lemma_fresh_archetype_hosts<A: Archetype>(
    archetype: &A,
    declared: Seq<(u32, Seq<usize>)>,
)
    requires
        archetype.rows() == 0,
        archetype.identities() == identity_layout(declared),
        archetype.buffers() == fresh_buffers(flat_sizes(declared)),
        addressable(declared),
    ensures
        hosts(archetype, declared),
{
}

/// Writing a row for the declared value types writes, into each of their
/// columns, the leaf that the column holds, at the row; it keeps the number
/// of columns and leaves the columns behind the declared ones as they were.
pub proof fn lemma_with_rows_column(
    buffers: Seq<Seq<u8>>,
    declared: Seq<(u32, Seq<usize>)>,
    images: Seq<Seq<u8>>,
    row: nat,
)
    requires
        flat_sizes(declared).len() <= buffers.len(),
        images.len() == declared.len(),
    ensures
        with_rows(buffers, declared, images, row).len() == buffers.len(),
        forall|p: int|
            flat_sizes(declared).len() <= p < buffers.len() ==> with_rows(
                buffers,
                declared,
                images,
                row,
            )[p] == buffers[p],
        forall|i: int, k: int|
            0 <= i < declared.len() && 0 <= k < declared[i].1.len() ==> with_rows(
                buffers,
                declared,
                images,
                row,
            )[#[trigger] column_of(declared, i, k)] == overwritten(
                buffers[column_of(declared, i, k)],
                row * declared[i].1[k],
                leaf_bytes(images[i], declared[i].1, k),
            ),
    decreases declared.len(),
{
    lemma_layout_slots(declared);
    if declared.len() > 0 {
        let n = declared.len() - 1;
        let rest = declared.drop_last();
        let last = declared.last();
        let inner = with_rows(buffers, rest, images.drop_last(), row);
        let all = with_rows(buffers, declared, images, row);
        lemma_with_rows_column(buffers, rest, images.drop_last(), row);
        lemma_layout_slots(rest);
        assert(declared.take(n) =~= rest);
        assert(first_column(declared, n) == flat_sizes(rest).len());
        assert forall|i: int, k: int|
            0 <= i < declared.len() && 0 <= k < declared[i].1.len() implies all[
                #[trigger] column_of(declared, i, k)
            ] == overwritten(
            buffers[column_of(declared, i, k)],
            row * declared[i].1[k],
            leaf_bytes(images[i], declared[i].1, k),
        ) by {
            if i < n {
                assert(declared.take(i) =~= rest.take(i));
                assert(column_of(declared, i, k) == column_of(rest, i, k));
                assert(rest[i] == declared[i]);
                assert(images.drop_last()[i] == images[i]);
            }
        }
    }
}

/// The row that `committed` adds reads back leaf by leaf, and every row
/// that was there before reads back as it did.
pub proof fn lemma_committed_rows(
    buffers: Seq<Seq<u8>>,
    declared: Seq<(u32, Seq<usize>)>,
    rows: nat,
    images: Seq<Seq<u8>>,
    i: int,
    k: int,
)
    requires
        buffers.len() == flat_sizes(declared).len(),
        images.len() == declared.len(),
        0 <= i < declared.len(),
        0 <= k < declared[i].1.len(),
        images[i].len() == total_size(declared[i].1),
        forall|j: int|
            0 <= j < buffers.len() ==> (rows + 1) * flat_sizes(declared)[j] <= (
            #[trigger] buffers[j]).len(),
    ensures
        0 <= column_of(declared, i, k) < buffers.len(),
        committed(buffers, declared, rows, images).len() == buffers.len(),
        element(
            committed(buffers, declared, rows, images)[column_of(declared, i, k)],
            rows as int,
            declared[i].1[k] as nat,
        ) == leaf_bytes(images[i], declared[i].1, k),
        forall|r: int|
            0 <= r < rows ==> #[trigger] element(
                committed(buffers, declared, rows, images)[column_of(declared, i, k)],
                r,
                declared[i].1[k] as nat,
            ) == element(buffers[column_of(declared, i, k)], r, declared[i].1[k] as nat),
{
    let column = column_of(declared, i, k);
    let sizes = declared[i].1;
    let size = sizes[k] as nat;
    let leaf = leaf_bytes(images[i], sizes, k);
    let written = with_rows(buffers, declared, images, rows);
    let after = committed(buffers, declared, rows, images);
    lemma_layout_slots(declared);
    lemma_with_rows_column(buffers, declared, images, rows);
    lemma_total_size_prefix(sizes, k);
    lemma_total_size_prefix(sizes, k + 1);
    assert(leaf.len() == size);
    assert(written[column] == overwritten(buffers[column], (rows * size) as int, leaf));
    lemma_write_then_read(buffers[column], rows as int, leaf);
    assert(rows * size + size == (rows + 1) * size) by (nonlinear_arith);
    assert((rows + 1) * size <= 2 * (rows + 1) * size) by (nonlinear_arith);
    assert(flat_sizes(declared)[column] == size);
    assert(element(after[column], rows as int, size) =~= element(
        written[column],
        rows as int,
        size,
    ));
    assert forall|r: int| 0 <= r < rows implies #[trigger] element(after[column], r, size)
        == element(buffers[column], r, size) by {
        assert(0 <= r * size <= (r + 1) * size <= rows * size) by (nonlinear_arith)
            requires
                0 <= r < rows,
                0 <= size,
        ;
        assert(written[column].len() == buffers[column].len());
        assert(after[column].len() >= (rows + 1) * size);
        assert forall|p: int| r * size <= p < (r + 1) * size implies after[column][p]
            == buffers[column][p] by {
            assert(written[column][p] == buffers[column][p]);
        }
        assert(element(after[column], r, size) =~= element(buffers[column], r, size));
    }
}

/// Declaring one more value type appends its identity slots and its
/// columns, and moves no value type declared before it.
pub proof fn lemma_declare_one_more(declared: Seq<(u32, Seq<usize>)>, next: (u32, Seq<usize>))
    ensures
        identity_layout(declared.push(next)) == identity_layout(declared) + identity_run(
            next.0,
            next.1.len(),
        ),
        flat_sizes(declared.push(next)) == flat_sizes(declared) + next.1,
        first_column(declared.push(next), declared.len() as int) == flat_sizes(declared).len(),
        forall|i: int|
            0 <= i < declared.len() ==> #[trigger] first_column(declared.push(next), i)
                == first_column(declared, i),
        flat_sizes(declared.push(next)).subrange(
            flat_sizes(declared).len() as int,
            (flat_sizes(declared).len() + next.1.len()) as int,
        ) == next.1,
{
    let more = declared.push(next);
    assert(more.drop_last() =~= declared);
    assert(more.take(declared.len() as int) =~= declared);
    assert forall|i: int| 0 <= i < declared.len() implies #[trigger] first_column(more, i)
        == first_column(declared, i) by {
        assert(more.take(i) =~= declared.take(i));
    }
    assert(flat_sizes(more).subrange(
        flat_sizes(declared).len() as int,
        (flat_sizes(declared).len() + next.1.len()) as int,
    ) =~= next.1);
}

/// Writing the row of one more value type behind the rows of those
/// declared before it writes the row of them all.
pub proof fn lemma_write_one_more(
    buffers: Seq<Seq<u8>>,
    declared: Seq<(u32, Seq<usize>)>,
    images: Seq<Seq<u8>>,
    next: (u32, Seq<usize>),
    image: Seq<u8>,
    row: nat,
    first: int,
)
    requires
        images.len() == declared.len(),
        next.1.len() > 0 ==> first == flat_sizes(declared).len(),
    ensures
        with_row(with_rows(buffers, declared, images, row), first, next.1, row, image)
            == with_rows(buffers, declared.push(next), images.push(image), row),
{
    let more = declared.push(next);
    let so_far = with_rows(buffers, declared, images, row);
    lemma_declare_one_more(declared, next);
    assert(more.drop_last() =~= declared);
    assert(images.push(image).drop_last() =~= images);
    assert(with_row(so_far, first, next.1, row, image) =~= with_row(
        so_far,
        flat_sizes(declared).len() as int,
        next.1,
        row,
        image,
    ));
}

/// Writing rows changes the length of no column.
pub proof fn lemma_with_rows_lengths(
    buffers: Seq<Seq<u8>>,
    declared: Seq<(u32, Seq<usize>)>,
    images: Seq<Seq<u8>>,
    row: nat,
)
    ensures
        with_rows(buffers, declared, images, row).len() == buffers.len(),
        forall|j: int|
            0 <= j < buffers.len() ==> (#[trigger] with_rows(buffers, declared, images, row)[j]).len()
                == buffers[j].len(),
    decreases declared.len(),
{
    if declared.len() > 0 {
        lemma_with_rows_lengths(buffers, declared.drop_last(), images.drop_last(), row);
    }
}

/// Columns that had room for a row still have it once other leaves of the
/// row are written.
pub proof fn lemma_room_after_writes(
    buffers: Seq<Seq<u8>>,
    declared: Seq<(u32, Seq<usize>)>,
    images: Seq<Seq<u8>>,
    row: nat,
    first: int,
    sizes: Seq<usize>,
)
    requires
        0 <= first,
        first + sizes.len() <= buffers.len(),
        run_has_room(buffers, first, sizes, row),
    ensures
        run_has_room(with_rows(buffers, declared, images, row), first, sizes, row),
{
    let written = with_rows(buffers, declared, images, row);
    lemma_with_rows_lengths(buffers, declared, images, row);
    assert forall|k: int| 0 <= k < sizes.len() implies (row + 1) * (#[trigger] sizes[k])
        <= written[first + k].len() by {
        assert(written[first + k].len() == buffers[first + k].len());
    }
}

/// Growing the columns of one more value type behind those grown before it
/// grows them all.
pub proof fn lemma_grow_one_more(
    buffers: Seq<Seq<u8>>,
    sizes: Seq<usize>,
    next: Seq<usize>,
    rows: nat,
    first: int,
)
    requires
        next.len() > 0 ==> first == sizes.len(),
    ensures
        grown_run(grown_through(buffers, sizes, rows), first, next, rows) == grown_through(
            buffers,
            sizes + next,
            rows,
        ),
{
    assert(grown_run(grown_through(buffers, sizes, rows), first, next, rows) =~= grown_through(
        buffers,
        sizes + next,
        rows,
    ));
}

/// Growing the columns of every declared value type grows every column.
pub proof fn lemma_grown_through_all(buffers: Seq<Seq<u8>>, sizes: Seq<usize>, rows: nat)
    requires
        buffers.len() == sizes.len(),
    ensures
        grown_through(buffers, sizes, rows) == grown(buffers, sizes, rows),
        grown_through(buffers, Seq::empty(), rows) == buffers,
{
    assert(grown_through(buffers, sizes, rows) =~= grown(buffers, sizes, rows));
    assert(grown_through(buffers, Seq::empty(), rows) =~= buffers);
}

/// Columns that can be made or grown together can be made or grown apart.
pub proof fn lemma_fits_apart(left: Seq<usize>, right: Seq<usize>, rows: nat)
    ensures
        initial_rows_fit(left + right) ==> initial_rows_fit(left) && initial_rows_fit(right),
        growth_fits(left + right, rows) ==> growth_fits(left, rows) && growth_fits(right, rows),
{
    let both = left + right;
    if initial_rows_fit(both) {
        assert forall|k: int| 0 <= k < left.len() implies INITIAL_ROWS * (#[trigger] left[k])
            <= usize::MAX by {
            assert(both[k] == left[k]);
        }
        assert forall|k: int| 0 <= k < right.len() implies INITIAL_ROWS * (#[trigger] right[k])
            <= usize::MAX by {
            assert(both[left.len() + k] == right[k]);
        }
    }
    if growth_fits(both, rows) {
        assert forall|k: int| 0 <= k < left.len() implies 2 * rows * (#[trigger] left[k])
            <= usize::MAX by {
            assert(both[k] == left[k]);
        }
        assert forall|k: int| 0 <= k < right.len() implies 2 * rows * (#[trigger] right[k])
            <= usize::MAX by {
            assert(both[left.len() + k] == right[k]);
        }
    }
}

/// In an archetype laid out for a declaration, once the rows of the value
/// types before number `i` are written, value type `i` is found at its own
/// columns, they have room for the row, and writing its row there writes the
/// rows of the value types up to and including it.
pub proof fn lemma_ready_to_write(
    identities: Seq<u32>,
    buffers: Seq<Seq<u8>>,
    rows: nat,
    declared: Seq<(u32, Seq<usize>)>,
    images: Seq<Seq<u8>>,
    i: int,
)
    requires
        laid_out(identities, buffers, rows, declared),
        images.len() == declared.len(),
        0 <= i < declared.len(),
    ensures
        with_rows(buffers, declared.take(i), images.take(i), rows).len() == buffers.len(),
        declared[i].1.len() > 0 ==> {
            &&& resolve_run(identities, buffers.len(), declared[i].0, declared[i].1.len()) is Ok
            &&& run_has_room(
                with_rows(buffers, declared.take(i), images.take(i), rows),
                locate(identities, declared[i].0)->Some_0,
                declared[i].1,
                rows,
            )
        },
        with_row(
            with_rows(buffers, declared.take(i), images.take(i), rows),
            locate(identities, declared[i].0)->Some_0,
            declared[i].1,
            rows,
            images[i],
        ) == with_rows(buffers, declared.take(i + 1), images.take(i + 1), rows),
{
    let first = locate(identities, declared[i].0)->Some_0;
    let sizes = declared[i].1;
    let earlier = declared.take(i);
    lemma_layout_slots(declared);
    lemma_with_rows_lengths(buffers, earlier, images.take(i), rows);
    assert(declared.take(i + 1) =~= earlier.push(declared[i]));
    assert(images.take(i + 1) =~= images.take(i).push(images[i]));
    lemma_write_one_more(buffers, earlier, images.take(i), declared[i], images[i], rows, first);
    if sizes.len() > 0 {
        assert(first == first_column(declared, i));
        assert(first == column_of(declared, i, 0));
        assert(first + sizes.len() - 1 == column_of(declared, i, sizes.len() - 1));
        assert(flat_sizes(declared).subrange(first, first + sizes.len()) =~= sizes) by {
            assert forall|k: int| 0 <= k < sizes.len() implies flat_sizes(declared)[first + k]
                == sizes[k] by {
                assert(first + k == column_of(declared, i, k));
            }
        }
        lemma_room_for_row(buffers, flat_sizes(declared), rows, first, sizes);
        lemma_room_after_writes(buffers, earlier, images.take(i), rows, first, sizes);
    }
}

/// In an archetype laid out for a declaration, once the columns of the
/// value types before number `i` have grown, value type `i` is found at its
/// own columns, and growing them grows the columns of the value types up to
/// and including it.
pub proof fn lemma_ready_to_grow(
    identities: Seq<u32>,
    buffers: Seq<Seq<u8>>,
    rows: nat,
    declared: Seq<(u32, Seq<usize>)>,
    i: int,
)
    requires
        identities == identity_layout(declared),
        buffers.len() == flat_sizes(declared).len(),
        addressable(declared),
        growth_fits(flat_sizes(declared), rows),
        0 <= i < declared.len(),
    ensures
        grown_through(buffers, flat_sizes(declared.take(i)), rows).len() == buffers.len(),
        growth_fits(declared[i].1, rows),
        declared[i].1.len() > 0 ==> resolve_run(
            identities,
            buffers.len(),
            declared[i].0,
            declared[i].1.len(),
        ) is Ok,
        grown_run(
            grown_through(buffers, flat_sizes(declared.take(i)), rows),
            locate(identities, declared[i].0)->Some_0,
            declared[i].1,
            rows,
        ) == grown_through(buffers, flat_sizes(declared.take(i + 1)), rows),
{
    let first = locate(identities, declared[i].0)->Some_0;
    let sizes = declared[i].1;
    let earlier = declared.take(i);
    lemma_layout_slots(declared);
    assert(declared.take(i + 1) =~= earlier.push(declared[i]));
    lemma_declare_one_more(earlier, declared[i]);
    lemma_grow_one_more(buffers, flat_sizes(earlier), sizes, rows, first);
    assert forall|k: int| 0 <= k < sizes.len() implies 2 * rows * (#[trigger] sizes[k])
        <= usize::MAX by {
        assert(flat_sizes(declared)[column_of(declared, i, k)] == sizes[k]);
    }
    if sizes.len() > 0 {
        assert(first == column_of(declared, i, 0));
        assert(first + sizes.len() - 1 == column_of(declared, i, sizes.len() - 1));
    }
}

} // verus!
