//! Hands out identities: one per distinct type, in the order of asking.
use std::any::TypeId;
use vstd::prelude::*;

verus! {

#[verifier::external_type_specification]
#[verifier::external_body]
pub struct ExTypeId(TypeId);

/// `TypeId::of`: the key by which the running program knows the type `T`.
/// Nothing is claimed of the key.
#[verifier::external_body]
fn type_key<T: 'static>() -> (key: TypeId) {
    TypeId::of::<T>()
}

/// `==` on `TypeId`: true for two equal keys, false for two different ones.
#[verifier::external_body]
fn same_key(a: &TypeId, b: &TypeId) -> (same: bool)
    ensures
        same == (*a == *b),
{
    a == b
}

/// The identities handed out so far, and the next one to hand out.
pub struct ComponentRegistry {
    pub components: Vec<(TypeId, u32)>,
    pub next_id: u32,
}

/// Whether `after` and `id` are what asking `before` for the identity of
/// `key` gives: a known key keeps its identity and changes nothing, a new
/// key takes the next identity and is entered last.
pub open spec fn assigned(
    before: ComponentRegistry,
    key: TypeId,
    after: ComponentRegistry,
    id: u32,
) -> bool {
    if before.registered(key) {
        &&& id == before.identity_of(key)
        &&& after.components@ == before.components@
        &&& after.next_id == before.next_id
    } else {
        &&& id == before.next_id
        &&& after.components@ == before.components@.push((key, id))
        &&& after.next_id == before.next_id + 1
    }
}

impl ComponentRegistry {
    /// Whether `key` has an identity.
    pub open spec fn registered(&self, key: TypeId) -> bool {
        exists|i: int| 0 <= i < self.components@.len() && self.components@[i].0 == key
    }

    /// The identity of `key`, which has one.
    pub open spec fn identity_of(&self, key: TypeId) -> u32 {
        let i = choose|i: int| 0 <= i < self.components@.len() && self.components@[i].0 == key;
        self.components@[i].1
    }

    /// No key is entered twice, no identity is given twice, and every
    /// identity given lies below the next one.
    pub open spec fn well_formed(&self) -> bool {
        &&& forall|i: int, j: int|
            0 <= i < j < self.components@.len() ==> {
                &&& self.components@[i].0 != self.components@[j].0
                &&& self.components@[i].1 != self.components@[j].1
            }
        &&& forall|i: int|
            0 <= i < self.components@.len() ==> (#[trigger] self.components@[i]).1 < self.next_id
    }

    /// The identity of the type that `key` stands for, handed out now if the
    /// key is new.
    pub fn id_for(&mut self, key: TypeId) -> (id: u32)
        requires
            old(self).well_formed(),
            !old(self).registered(key) ==> old(self).next_id < u32::MAX,
        ensures
            final(self).well_formed(),
            assigned(*old(self), key, *final(self), id),
    {
        let mut i: usize = 0;
        while i < self.components.len()
            invariant
                i <= self.components@.len(),
                *self == *old(self),
                self.well_formed(),
                forall|j: int| 0 <= j < i ==> self.components@[j].0 != key,
            decreases self.components@.len() - i,
        {
            if same_key(&self.components[i].0, &key) {
                proof {
                    let c = choose|c: int|
                        0 <= c < self.components@.len() && self.components@[c].0 == key;
                    assert(c == i);
                }
                return self.components[i].1;
            }
            i = i + 1;
        }
        let id = self.next_id;
        self.components.push((key, id));
        self.next_id = id + 1;
        id
    }

    /// The identity of the type `T`, handed out now if `T` is new.
    pub fn id<T: 'static>(&mut self) -> (id: u32)
        requires
            old(self).well_formed(),
            old(self).next_id < u32::MAX,
        ensures
            final(self).well_formed(),
            exists|key: TypeId| #[trigger] assigned(*old(self), key, *final(self), id),
            old(self).next_id <= final(self).next_id <= old(self).next_id + 1,
            id < final(self).next_id,
    {
        let key = type_key::<T>();
        self.id_for(key)
    }
}

} // verus!
