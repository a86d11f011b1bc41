//! Tuples of value types as record kinds.
use crate::ecs::archetype::{fresh_buffers, Archetype};
use crate::ecs::laws::{
    lemma_declare_one_more, lemma_fits_apart, lemma_grown_through_all, lemma_ready_to_grow,
    lemma_ready_to_write, lemma_room_kept, lemma_with_rows_lengths,
};
use crate::ecs::signature::{
    flat_sizes, grow_columns, identity_layout, identity_run, insert_leaves,
    push_identity, shape_of, with_rows, Signature,
};
use crate::traits::Component;
use vstd::prelude::*;

verus! {

/// The identity slots and column widths of up to three declared value
/// types are those of each, one after the other.
pub proof fn lemma_declared_tuple(a: (u32, Seq<usize>), b: (u32, Seq<usize>), c: (u32, Seq<usize>))
    ensures
        identity_layout(seq![a]) == identity_run(a.0, a.1.len()),
        flat_sizes(seq![a]) == a.1,
        identity_layout(seq![a, b]) == identity_run(a.0, a.1.len()) + identity_run(
            b.0,
            b.1.len(),
        ),
        flat_sizes(seq![a, b]) == a.1 + b.1,
        identity_layout(seq![a, b, c]) == identity_run(a.0, a.1.len()) + identity_run(
            b.0,
            b.1.len(),
        ) + identity_run(c.0, c.1.len()),
        flat_sizes(seq![a, b, c]) == a.1 + b.1 + c.1,
{
    let none = Seq::<(u32, Seq<usize>)>::empty();
    assert(seq![a] =~= none.push(a));
    assert(seq![a, b] =~= seq![a].push(b));
    assert(seq![a, b, c] =~= seq![a, b].push(c));
    lemma_declare_one_more(none, a);
    lemma_declare_one_more(seq![a], b);
    lemma_declare_one_more(seq![a, b], c);
    assert(identity_layout(none) + identity_run(a.0, a.1.len()) =~= identity_run(
        a.0,
        a.1.len(),
    ));
    assert(flat_sizes(none) + a.1 =~= a.1);
}

impl<C1: Component> Signature for (C1,) {
    open spec fn declared() -> Seq<(u32, Seq<usize>)> {
        seq![shape_of::<C1>()]
    }

    open spec fn images(&self) -> Seq<Seq<u8>> {
        seq![self.0.image()]
    }

    fn insert_components<A: Archetype>(&self, archetype: &mut A) {
        let ghost declared = Self::declared();
        let ghost images = self.images();
        let ghost identities = archetype.identities();
        let ghost before = archetype.buffers();
        let ghost rows = archetype.rows();
        proof {
            assert(with_rows(before, declared.take(0), images.take(0), rows) == before);
            lemma_ready_to_write(identities, before, rows, declared, images, 0);
        }
        insert_leaves::<C1, A>(archetype, &self.0);
        let ghost written = archetype.buffers();
        proof {
            assert(declared.take(1) =~= declared);
            assert(images.take(1) =~= images);
            lemma_with_rows_lengths(before, declared, images, rows);
        }
        archetype.set_entity_count(archetype.get_entity_count() + 1);
        if archetype.column_must_resize() {
            let ghost next = (rows + 1) as nat;
            proof {
                lemma_grown_through_all(written, flat_sizes(declared), next);
                assert(flat_sizes(declared.take(0)) =~= Seq::<usize>::empty());
                lemma_ready_to_grow(identities, written, next, declared, 0);
            }
            grow_columns::<C1, A>(archetype);
        }
        proof {
            lemma_room_kept(before, archetype.buffers(), flat_sizes(declared), rows);
        }
    }

    fn create<A: Archetype>(archetype: &mut A) {
        proof {
            lemma_declared_tuple(shape_of::<C1>(), shape_of::<C1>(), shape_of::<C1>());
        }
        if archetype.get_entity_count() == 0 {
            let ghost before = archetype.buffers();
            archetype.initialize_column::<C1>();
            proof {
                assert(archetype.buffers() =~= before + fresh_buffers(
                    flat_sizes(Self::declared()),
                ));
            }
        }
    }

    fn gen_ids() -> (ids: Vec<u32>) {
        proof {
            lemma_declared_tuple(shape_of::<C1>(), shape_of::<C1>(), shape_of::<C1>());
        }
        let mut ids: Vec<u32> = Vec::new();
        push_identity::<C1>(&mut ids);
        ids
    }
}

impl<C1: Component, C2: Component> Signature for (C1, C2) {
    open spec fn declared() -> Seq<(u32, Seq<usize>)> {
        seq![shape_of::<C1>(), shape_of::<C2>()]
    }

    open spec fn images(&self) -> Seq<Seq<u8>> {
        seq![self.0.image(), self.1.image()]
    }

    fn insert_components<A: Archetype>(&self, archetype: &mut A) {
        let ghost declared = Self::declared();
        let ghost images = self.images();
        let ghost identities = archetype.identities();
        let ghost before = archetype.buffers();
        let ghost rows = archetype.rows();
        proof {
            assert(with_rows(before, declared.take(0), images.take(0), rows) == before);
            lemma_ready_to_write(identities, before, rows, declared, images, 0);
        }
        insert_leaves::<C1, A>(archetype, &self.0);
        proof {
            lemma_ready_to_write(identities, before, rows, declared, images, 1);
        }
        insert_leaves::<C2, A>(archetype, &self.1);
        let ghost written = archetype.buffers();
        proof {
            assert(declared.take(2) =~= declared);
            assert(images.take(2) =~= images);
            lemma_with_rows_lengths(before, declared, images, rows);
        }
        archetype.set_entity_count(archetype.get_entity_count() + 1);
        if archetype.column_must_resize() {
            let ghost next = (rows + 1) as nat;
            proof {
                lemma_grown_through_all(written, flat_sizes(declared), next);
                assert(flat_sizes(declared.take(0)) =~= Seq::<usize>::empty());
                lemma_ready_to_grow(identities, written, next, declared, 0);
            }
            grow_columns::<C1, A>(archetype);
            proof {
                lemma_ready_to_grow(identities, written, next, declared, 1);
            }
            grow_columns::<C2, A>(archetype);
        }
        proof {
            lemma_room_kept(before, archetype.buffers(), flat_sizes(declared), rows);
        }
    }

    fn create<A: Archetype>(archetype: &mut A) {
        proof {
            lemma_declared_tuple(shape_of::<C1>(), shape_of::<C2>(), shape_of::<C2>());
            lemma_fits_apart(C1::leaf_sizes(), C2::leaf_sizes(), 0);
        }
        if archetype.get_entity_count() == 0 {
            let ghost before = archetype.buffers();
            archetype.initialize_column::<C1>();
            archetype.initialize_column::<C2>();
            proof {
                assert(archetype.buffers() =~= before + fresh_buffers(
                    flat_sizes(Self::declared()),
                ));
            }
        }
    }

    fn gen_ids() -> (ids: Vec<u32>) {
        proof {
            lemma_declared_tuple(shape_of::<C1>(), shape_of::<C2>(), shape_of::<C2>());
        }
        let mut ids: Vec<u32> = Vec::new();
        push_identity::<C1>(&mut ids);
        push_identity::<C2>(&mut ids);
        ids
    }
}

impl<C1: Component, C2: Component, C3: Component> Signature for (C1, C2, C3) {
    open spec fn declared() -> Seq<(u32, Seq<usize>)> {
        seq![shape_of::<C1>(), shape_of::<C2>(), shape_of::<C3>()]
    }

    open spec fn images(&self) -> Seq<Seq<u8>> {
        seq![self.0.image(), self.1.image(), self.2.image()]
    }

    fn insert_components<A: Archetype>(&self, archetype: &mut A) {
        let ghost declared = Self::declared();
        let ghost images = self.images();
        let ghost identities = archetype.identities();
        let ghost before = archetype.buffers();
        let ghost rows = archetype.rows();
        proof {
            assert(with_rows(before, declared.take(0), images.take(0), rows) == before);
            lemma_ready_to_write(identities, before, rows, declared, images, 0);
        }
        insert_leaves::<C1, A>(archetype, &self.0);
        proof {
            lemma_ready_to_write(identities, before, rows, declared, images, 1);
        }
        insert_leaves::<C2, A>(archetype, &self.1);
        proof {
            lemma_ready_to_write(identities, before, rows, declared, images, 2);
        }
        insert_leaves::<C3, A>(archetype, &self.2);
        let ghost written = archetype.buffers();
        proof {
            assert(declared.take(3) =~= declared);
            assert(images.take(3) =~= images);
            lemma_with_rows_lengths(before, declared, images, rows);
        }
        archetype.set_entity_count(archetype.get_entity_count() + 1);
        if archetype.column_must_resize() {
            let ghost next = (rows + 1) as nat;
            proof {
                lemma_grown_through_all(written, flat_sizes(declared), next);
                assert(flat_sizes(declared.take(0)) =~= Seq::<usize>::empty());
                lemma_ready_to_grow(identities, written, next, declared, 0);
            }
            grow_columns::<C1, A>(archetype);
            proof {
                lemma_ready_to_grow(identities, written, next, declared, 1);
            }
            grow_columns::<C2, A>(archetype);
            proof {
                lemma_ready_to_grow(identities, written, next, declared, 2);
            }
            grow_columns::<C3, A>(archetype);
        }
        proof {
            lemma_room_kept(before, archetype.buffers(), flat_sizes(declared), rows);
        }
    }

    fn create<A: Archetype>(archetype: &mut A) {
        proof {
            lemma_declared_tuple(shape_of::<C1>(), shape_of::<C2>(), shape_of::<C3>());
            lemma_fits_apart(C1::leaf_sizes(), C2::leaf_sizes(), 0);
            lemma_fits_apart(C1::leaf_sizes() + C2::leaf_sizes(), C3::leaf_sizes(), 0);
        }
        if archetype.get_entity_count() == 0 {
            let ghost before = archetype.buffers();
            archetype.initialize_column::<C1>();
            archetype.initialize_column::<C2>();
            archetype.initialize_column::<C3>();
            proof {
                assert(archetype.buffers() =~= before + fresh_buffers(
                    flat_sizes(Self::declared()),
                ));
            }
        }
    }

    fn gen_ids() -> (ids: Vec<u32>) {
        proof {
            lemma_declared_tuple(shape_of::<C1>(), shape_of::<C2>(), shape_of::<C3>());
        }
        let mut ids: Vec<u32> = Vec::new();
        push_identity::<C1>(&mut ids);
        push_identity::<C2>(&mut ids);
        push_identity::<C3>(&mut ids);
        ids
    }
}

} // verus!
