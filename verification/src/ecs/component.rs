//! Value types that ship with the store.
use crate::traits::{composite_sizes, concat_sizes, lists_of, sum_of_lens, Component};
use vstd::prelude::*;

verus! {

/// The player that an entity belongs to.
#[derive(Debug)]
pub struct Player {
    pub id: u32,
}

/// Marks an entity as an enemy. It has no fields, and so no leaves.
#[derive(Debug)]
pub struct Enemy;

/// A composite of one field has the leaf widths of that field.
pub proof fn lemma_concat_sizes_single(field: Seq<usize>)
    ensures
        concat_sizes(seq![field]) == field,
        sum_of_lens(seq![field]) == field.len(),
{
    let parts = seq![field];
    assert(parts.drop_last() =~= Seq::<Seq<usize>>::empty());
    assert(concat_sizes(parts.drop_last()) =~= Seq::<usize>::empty());
    assert(sum_of_lens(parts.drop_last()) == 0);
    assert(parts.last() == field);
    assert(concat_sizes(parts) =~= field);
}

impl Component for Player {
    type DismemberedOutput = u32;

    const COUNT: usize = 0 + <u32 as Component>::COUNT;

    open spec fn leaf_sizes() -> Seq<usize> {
        concat_sizes(seq![<u32 as Component>::leaf_sizes()])
    }

    open spec fn identity() -> u32 {
        1
    }

    open spec fn leaves(self) -> u32 {
        self.id.leaves()
    }

    open spec fn image(&self) -> Seq<u8> {
        self.id.image()
    }

    open spec fn from_image(bytes: Seq<u8>) -> Self {
        Player { id: <u32 as Component>::from_image(bytes) }
    }

    fn dismember(self) -> (out: u32) {
        self.id.dismember()
    }

    fn dismembered_type_count() -> (n: u32) {
        proof {
            lemma_concat_sizes_single(<u32 as Component>::leaf_sizes());
        }
        0 + <u32 as Component>::dismembered_type_count()
    }

    fn id() -> (r: u32) {
        1
    }

    fn sizes() -> (v: Vec<usize>) {
        let mut fields: Vec<Vec<usize>> = Vec::new();
        fields.push(<u32 as Component>::sizes());
        proof {
            assert(lists_of(fields@) =~= seq![<u32 as Component>::leaf_sizes()]);
            lemma_concat_sizes_single(<u32 as Component>::leaf_sizes());
        }
        composite_sizes(&fields)
    }

    fn to_bytes(&self) -> (bytes: Vec<u8>) {
        proof {
            lemma_concat_sizes_single(<u32 as Component>::leaf_sizes());
        }
        self.id.to_bytes()
    }

    fn from_bytes(bytes: &[u8]) -> (v: Self) {
        proof {
            lemma_concat_sizes_single(<u32 as Component>::leaf_sizes());
        }
        Player { id: <u32 as Component>::from_bytes(bytes) }
    }
}

impl Component for Enemy {
    type DismemberedOutput = ();

    const COUNT: usize = 0;

    open spec fn leaf_sizes() -> Seq<usize> {
        concat_sizes(Seq::empty())
    }

    open spec fn identity() -> u32 {
        6
    }

    open spec fn leaves(self) -> () {
        ()
    }

    open spec fn image(&self) -> Seq<u8> {
        Seq::empty()
    }

    open spec fn from_image(bytes: Seq<u8>) -> Self {
        Enemy
    }

    fn dismember(self) -> (out: ()) {
        ()
    }

    fn dismembered_type_count() -> (n: u32) {
        Self::COUNT as u32
    }

    fn id() -> (r: u32) {
        6
    }

    fn sizes() -> (v: Vec<usize>) {
        let fields: Vec<Vec<usize>> = Vec::new();
        proof {
            assert(lists_of(fields@) =~= Seq::<Seq<usize>>::empty());
        }
        composite_sizes(&fields)
    }

    fn to_bytes(&self) -> (bytes: Vec<u8>) {
        Vec::new()
    }

    fn from_bytes(bytes: &[u8]) -> (v: Self) {
        Enemy
    }
}

} // verus!
