use lynx::data_structures::column::Column;
use lynx::data_structures::simple_column::SimpleColumn;
use lynx::ecs::archetype::{Archetype, ArchetypeError, INITIAL_ROWS};
use lynx::ecs::component::{Enemy, Player};
use lynx::ecs::simple_archetype::SimpleArchetype;
use lynx::ecs::signature::{grow_columns, insert_leaves, push_identity, Signature};
use lynx::traits::{composite_sizes, Component};

#[derive(Debug, Clone, Copy, PartialEq)]
struct F32(f32);

impl Component for F32 {
    type DismemberedOutput = f32;

    const COUNT: usize = 1;

    fn dismember(self) -> f32 {
        self.0
    }

    fn dismembered_type_count() -> u32 {
        1
    }

    fn id() -> u32 {
        0
    }

    fn sizes() -> Vec<usize> {
        vec![std::mem::size_of::<f32>()]
    }

    fn to_bytes(&self) -> Vec<u8> {
        self.0.to_le_bytes().to_vec()
    }

    fn from_bytes(bytes: &[u8]) -> Self {
        F32(f32::from_le_bytes([bytes[0], bytes[1], bytes[2], bytes[3]]))
    }
}

#[derive(Debug, Clone, Copy, PartialEq)]
struct F64(f64);

impl Component for F64 {
    type DismemberedOutput = f64;

    const COUNT: usize = 1;

    fn dismember(self) -> f64 {
        self.0
    }

    fn dismembered_type_count() -> u32 {
        1
    }

    fn id() -> u32 {
        0
    }

    fn sizes() -> Vec<usize> {
        vec![std::mem::size_of::<f64>()]
    }

    fn to_bytes(&self) -> Vec<u8> {
        self.0.to_le_bytes().to_vec()
    }

    fn from_bytes(bytes: &[u8]) -> Self {
        let mut raw = [0u8; 8];
        raw.copy_from_slice(&bytes[0..8]);
        F64(f64::from_le_bytes(raw))
    }
}

#[derive(Debug, Clone, Copy, PartialEq)]
struct Vector2 {
    x: f32,
    y: f32,
}

impl Component for Vector2 {
    type DismemberedOutput = (f32, f32);

    const COUNT: usize = 0 + <F32 as Component>::COUNT + <F32 as Component>::COUNT;

    fn dismember(self) -> (f32, f32) {
        (F32(self.x).dismember(), F32(self.y).dismember())
    }

    fn dismembered_type_count() -> u32 {
        Self::COUNT as u32
    }

    fn id() -> u32 {
        2
    }

    fn sizes() -> Vec<usize> {
        composite_sizes(&vec![F32::sizes(), F32::sizes()])
    }

    fn to_bytes(&self) -> Vec<u8> {
        let mut bytes = F32(self.x).to_bytes();
        bytes.extend(F32(self.y).to_bytes());
        bytes
    }

    fn from_bytes(bytes: &[u8]) -> Self {
        Vector2 { x: F32::from_bytes(&bytes[0..4]).0, y: F32::from_bytes(&bytes[4..8]).0 }
    }
}

#[derive(Debug, Clone, Copy, PartialEq)]
struct PhysicsMaterial {
    bounciness: f64,
    roughness: f64,
}

impl Component for PhysicsMaterial {
    type DismemberedOutput = (f64, f64);

    const COUNT: usize = 0 + <F64 as Component>::COUNT + <F64 as Component>::COUNT;

    fn dismember(self) -> (f64, f64) {
        (F64(self.bounciness).dismember(), F64(self.roughness).dismember())
    }

    fn dismembered_type_count() -> u32 {
        Self::COUNT as u32
    }

    fn id() -> u32 {
        3
    }

    fn sizes() -> Vec<usize> {
        composite_sizes(&vec![F64::sizes(), F64::sizes()])
    }

    fn to_bytes(&self) -> Vec<u8> {
        let mut bytes = F64(self.bounciness).to_bytes();
        bytes.extend(F64(self.roughness).to_bytes());
        bytes
    }

    fn from_bytes(bytes: &[u8]) -> Self {
        PhysicsMaterial {
            bounciness: F64::from_bytes(&bytes[0..8]).0,
            roughness: F64::from_bytes(&bytes[8..16]).0,
        }
    }
}

#[derive(Debug, Clone, Copy, PartialEq)]
struct RigidBody {
    material: PhysicsMaterial,
    linear_momentum: f64,
    angular_momentum: f64,
    position: Vector2,
    velocity: Vector2,
}

impl Component for RigidBody {
    type DismemberedOutput = ((f64, f64), f64, f64, (f32, f32), (f32, f32));

    const COUNT: usize = 0
        + <PhysicsMaterial as Component>::COUNT
        + <F64 as Component>::COUNT
        + <F64 as Component>::COUNT
        + <Vector2 as Component>::COUNT
        + <Vector2 as Component>::COUNT;

    fn dismember(self) -> Self::DismemberedOutput {
        (
            self.material.dismember(),
            F64(self.linear_momentum).dismember(),
            F64(self.angular_momentum).dismember(),
            self.position.dismember(),
            self.velocity.dismember(),
        )
    }

    fn dismembered_type_count() -> u32 {
        Self::COUNT as u32
    }

    fn id() -> u32 {
        4
    }

    fn sizes() -> Vec<usize> {
        composite_sizes(&vec![
            PhysicsMaterial::sizes(),
            F64::sizes(),
            F64::sizes(),
            Vector2::sizes(),
            Vector2::sizes(),
        ])
    }

    fn to_bytes(&self) -> Vec<u8> {
        let mut bytes = self.material.to_bytes();
        bytes.extend(F64(self.linear_momentum).to_bytes());
        bytes.extend(F64(self.angular_momentum).to_bytes());
        bytes.extend(self.position.to_bytes());
        bytes.extend(self.velocity.to_bytes());
        bytes
    }

    fn from_bytes(bytes: &[u8]) -> Self {
        RigidBody {
            material: PhysicsMaterial::from_bytes(&bytes[0..16]),
            linear_momentum: F64::from_bytes(&bytes[16..24]).0,
            angular_momentum: F64::from_bytes(&bytes[24..32]).0,
            position: Vector2::from_bytes(&bytes[32..40]),
            velocity: Vector2::from_bytes(&bytes[40..48]),
        }
    }
}

/// A value type with a chosen identity and a chosen number of 4-byte leaves.
#[derive(Debug, Clone, Copy, PartialEq)]
struct Tagged<const ID: u32, const LEAVES: usize>([u32; LEAVES]);

impl<const ID: u32, const LEAVES: usize> Component for Tagged<ID, LEAVES> {
    type DismemberedOutput = [u32; LEAVES];

    const COUNT: usize = LEAVES;

    fn dismember(self) -> [u32; LEAVES] {
        self.0
    }

    fn dismembered_type_count() -> u32 {
        LEAVES as u32
    }

    fn id() -> u32 {
        ID
    }

    fn sizes() -> Vec<usize> {
        vec![4; LEAVES]
    }

    fn to_bytes(&self) -> Vec<u8> {
        let mut bytes = Vec::new();
        for leaf in self.0.iter() {
            bytes.extend(leaf.to_bytes());
        }
        bytes
    }

    fn from_bytes(bytes: &[u8]) -> Self {
        let mut leaves = [0u32; LEAVES];
        for (k, leaf) in leaves.iter_mut().enumerate() {
            *leaf = <u32 as Component>::from_bytes(&bytes[4 * k..4 * k + 4]);
        }
        Tagged(leaves)
    }
}

struct TestSignature {
    vector2: Vector2,
    player: Player,
    rigid_body: RigidBody,
}

impl Signature for TestSignature {
    fn insert_components<A: Archetype>(&self, archetype: &mut A) {
        archetype.insert_component::<Vector2>(&self.vector2).unwrap();
        archetype.insert_component::<Player>(&self.player).unwrap();
        archetype.insert_component::<RigidBody>(&self.rigid_body).unwrap();
        archetype.set_entity_count(archetype.get_entity_count() + 1);
        if archetype.column_must_resize() {
            grow_columns::<Vector2, A>(archetype);
            grow_columns::<Player, A>(archetype);
            grow_columns::<RigidBody, A>(archetype);
        }
    }

    fn create<A: Archetype>(archetype: &mut A) {
        if archetype.get_entity_count() == 0 {
            archetype.initialize_column::<Vector2>();
            archetype.initialize_column::<Player>();
            archetype.initialize_column::<RigidBody>();
        }
    }

    fn gen_ids() -> Vec<u32> {
        let mut ids = Vec::new();
        push_identity::<Vector2>(&mut ids);
        push_identity::<Player>(&mut ids);
        push_identity::<RigidBody>(&mut ids);
        ids
    }
}

fn column_index(arch: &SimpleArchetype, column: &SimpleColumn) -> usize {
    arch.columns.iter().position(|c| std::ptr::eq(c, column)).unwrap()
}

#[test]
fn archetype_insert_signature() {
    let mut arch = SimpleArchetype::new::<TestSignature>();
    println!(
        "Vector: {}\tPlayer {}\t RigidBody: {}",
        Vector2::id(),
        Player::id(),
        RigidBody::id()
    );

    arch.insert(TestSignature {
        vector2: Vector2 { x: 1.52, y: 1.52 },
        player: Player { id: 19 },
        rigid_body: RigidBody {
            position: Vector2 { x: 10.0, y: 15.0 },
            velocity: Vector2 { x: 19.2, y: 0.0 },
            angular_momentum: 10.0,
            linear_momentum: 15.0,
            material: PhysicsMaterial { bounciness: 10.0, roughness: 9.999 },
        },
    });

    assert_eq!(arch.get::<Vector2>(0).unwrap().get::<F32>(0).0, 1.52);
    assert_eq!(arch.get::<Vector2>(1).unwrap().get::<F32>(0).0, 1.52);
    assert_eq!(arch.get::<Player>(0).unwrap().get::<u32>(0), 19);
    assert_eq!(arch.get::<RigidBody>(0).unwrap().get::<F64>(0).0, 10.0);
    assert_eq!(arch.get::<RigidBody>(1).unwrap().get::<F64>(0).0, 9.999);
    assert_eq!(arch.get::<RigidBody>(2).unwrap().get::<F64>(0).0, 15.0);
    assert_eq!(arch.get::<RigidBody>(3).unwrap().get::<F64>(0).0, 10.0);
    assert_eq!(arch.get::<RigidBody>(4).unwrap().get::<F32>(0).0, 10.0);
    assert_eq!(arch.get::<RigidBody>(5).unwrap().get::<F32>(0).0, 15.0);
    assert_eq!(arch.get::<RigidBody>(6).unwrap().get::<F32>(0).0, 19.2);
    assert_eq!(arch.get::<RigidBody>(7).unwrap().get::<F32>(0).0, 0.0);
}

#[test]
fn a_tuple_of_three_inserts_like_a_written_record_kind() {
    let body = RigidBody {
        position: Vector2 { x: 10.0, y: 15.0 },
        velocity: Vector2 { x: 19.2, y: 0.0 },
        angular_momentum: 10.0,
        linear_momentum: 15.0,
        material: PhysicsMaterial { bounciness: 10.0, roughness: 9.999 },
    };
    let mut by_tuple = SimpleArchetype::new::<(Vector2, Player, RigidBody)>();
    let mut by_hand = SimpleArchetype::new::<TestSignature>();
    assert_eq!(by_tuple.type_to_col, by_hand.type_to_col);
    for row in 0..40u32 {
        let vector2 = Vector2 { x: row as f32, y: 1.52 };
        by_tuple.insert((vector2, Player { id: row }, body));
        by_hand.insert(TestSignature { vector2, player: Player { id: row }, rigid_body: body });
        assert_eq!(by_tuple.get_entity_count(), by_hand.get_entity_count());
        for (left, right) in by_tuple.columns.iter().zip(by_hand.columns.iter()) {
            assert_eq!(left.data, right.data);
        }
    }
    assert_eq!(by_tuple.get::<Vector2>(0).unwrap().get::<F32>(39).0, 39.0);
    assert_eq!(by_tuple.get::<Player>(0).unwrap().get::<u32>(17), 17);
    assert_eq!(by_tuple.get::<RigidBody>(1).unwrap().get::<F64>(39).0, 9.999);
    assert_eq!(by_tuple.get::<RigidBody>(6).unwrap().get::<F32>(5).0, 19.2);
    assert_eq!(by_tuple.columns[3].data.len(), 64 * 8);
}

#[test]
fn a_tuple_of_one_is_a_record_kind() {
    assert_eq!(<(RigidBody,)>::gen_ids(), vec![4, 0, 0, 0, 0, 0, 0, 0]);
    assert_eq!(<(Enemy,)>::gen_ids(), Vec::<u32>::new());
    let mut arch = SimpleArchetype::new::<(Vector2,)>();
    assert_eq!(arch.type_to_col, vec![2, 0]);
    assert_eq!(arch.columns.len(), 2);
    for row in 0..5u32 {
        arch.insert((Vector2 { x: row as f32, y: -(row as f32) },));
    }
    assert_eq!(arch.get_entity_count(), 5);
    assert_eq!(arch.columns[0].data.len(), 8 * 4);
    for row in 0..5usize {
        assert_eq!(arch.get::<Vector2>(0).unwrap().get::<F32>(row).0, row as f32);
        assert_eq!(arch.get::<Vector2>(1).unwrap().get::<F32>(row).0, -(row as f32));
    }
    <(Vector2,)>::create(&mut arch);
    assert_eq!(arch.columns.len(), 2);
}

#[test]
fn a_fresh_archetype_has_a_zeroed_column_per_leaf() {
    let arch = SimpleArchetype::new::<(Vector2, Player)>();
    assert_eq!(arch.entity_count, 0);
    assert_eq!(arch.get_entity_count(), 0);
    assert_eq!(arch.type_to_col, vec![2, 0, 1]);
    assert_eq!(arch.columns.len(), 3);
    for column in arch.columns.iter() {
        assert_eq!(*column.data, vec![0u8; INITIAL_ROWS * 4]);
    }
    let arch = SimpleArchetype::new::<TestSignature>();
    assert_eq!(arch.type_to_col, vec![2, 0, 1, 4, 0, 0, 0, 0, 0, 0, 0]);
    let widths: Vec<usize> = arch.columns.iter().map(|c| c.data.len()).collect();
    assert_eq!(widths, vec![16, 16, 16, 32, 32, 32, 32, 16, 16, 16, 16]);
}

#[test]
fn identity_slots_follow_the_declaration() {
    assert_eq!(<(Vector2, Player)>::gen_ids(), vec![2, 0, 1]);
    assert_eq!(<(Player, Vector2)>::gen_ids(), vec![1, 2, 0]);
    assert_eq!(<(RigidBody, Vector2)>::gen_ids(), vec![4, 0, 0, 0, 0, 0, 0, 0, 2, 0]);
    assert_eq!(<(Enemy, Player)>::gen_ids(), vec![1]);
    assert_eq!(<(Enemy, Enemy)>::gen_ids(), Vec::<u32>::new());
    assert_eq!(<(u32, u64)>::gen_ids(), vec![0, 0]);
    let mut ids = vec![9];
    push_identity::<Tagged<7, 3>>(&mut ids);
    assert_eq!(ids, vec![9, 7, 0, 0]);
    push_identity::<Enemy>(&mut ids);
    assert_eq!(ids, vec![9, 7, 0, 0]);
    push_identity::<Player>(&mut ids);
    assert_eq!(ids, vec![9, 7, 0, 0, 1]);
}

#[test]
fn fields_resolve_to_their_columns() {
    let arch = SimpleArchetype::new::<(Vector2, Player)>();
    assert_eq!(column_index(&arch, arch.get::<Vector2>(0).unwrap()), 0);
    assert_eq!(column_index(&arch, arch.get::<Vector2>(1).unwrap()), 1);
    assert_eq!(column_index(&arch, arch.get::<Player>(0).unwrap()), 2);
    assert_eq!(
        arch.get::<Vector2>(2).err(),
        Some(ArchetypeError::FieldPositionOverlapsNextComponent)
    );
    assert_eq!(arch.get::<Player>(1).err(), Some(ArchetypeError::IndexOutOfBounds));
    assert_eq!(arch.get::<RigidBody>(0).err(), Some(ArchetypeError::ComponentNotFound));
    assert_eq!(arch.get::<Vector2>(usize::MAX).err(), Some(ArchetypeError::IndexOutOfBounds));
}

#[test]
fn fields_resolve_to_their_columns_for_writing() {
    let mut arch = SimpleArchetype::new::<(Vector2, Player)>();
    arch.get_mut::<Vector2>(1).unwrap().insert::<u32>(0, 0xAABB_CCDD);
    arch.get_mut::<Player>(0).unwrap().insert::<u32>(3, 5);
    assert_eq!(*arch.columns[0].data, vec![0u8; 16]);
    assert_eq!(arch.columns[1].get::<u32>(0), 0xAABB_CCDD);
    assert_eq!(arch.columns[2].get::<u32>(3), 5);
    assert_eq!(
        arch.get_mut::<Vector2>(2).err(),
        Some(ArchetypeError::FieldPositionOverlapsNextComponent)
    );
    assert_eq!(arch.get_mut::<Player>(1).err(), Some(ArchetypeError::IndexOutOfBounds));
    assert_eq!(arch.get_mut::<RigidBody>(0).err(), Some(ArchetypeError::ComponentNotFound));
}

#[test]
fn one_row_reads_back() {
    let mut arch = SimpleArchetype::new::<(Vector2, Player)>();
    arch.insert((Vector2 { x: 1.5, y: -2.5 }, Player { id: 42 }));
    assert_eq!(arch.get_entity_count(), 1);
    assert_eq!(arch.get::<Vector2>(0).unwrap().get::<F32>(0).0, 1.5);
    assert_eq!(arch.get::<Vector2>(1).unwrap().get::<F32>(0).0, -2.5);
    assert_eq!(arch.get::<Player>(0).unwrap().get::<u32>(0), 42);
}

#[test]
fn creating_again_after_a_row_adds_no_column() {
    let mut arch = SimpleArchetype::new::<(Vector2, Player)>();
    arch.insert((Vector2 { x: 1.5, y: -2.5 }, Player { id: 42 }));
    let before: Vec<Vec<u8>> = arch.columns.iter().map(|c| (*c.data).clone()).collect();
    <(Vector2, Player)>::create(&mut arch);
    let after: Vec<Vec<u8>> = arch.columns.iter().map(|c| (*c.data).clone()).collect();
    assert_eq!(arch.columns.len(), 3);
    assert_eq!(before, after);
    assert_eq!(arch.get_entity_count(), 1);
    assert_eq!(arch.type_to_col, vec![2, 0, 1]);
    let mut arch = SimpleArchetype::new::<TestSignature>();
    arch.set_entity_count(1);
    TestSignature::create(&mut arch);
    assert_eq!(arch.columns.len(), 11);
}

#[test]
fn creating_on_an_empty_archetype_adds_the_columns() {
    let mut arch = SimpleArchetype { entity_count: 0, columns: Vec::new(), type_to_col: vec![2, 0, 1] };
    <(Vector2, Player)>::create(&mut arch);
    assert_eq!(arch.columns.len(), 3);
    <(Vector2, Player)>::create(&mut arch);
    assert_eq!(arch.columns.len(), 6);
}

#[test]
fn growth_is_due_at_powers_of_two_from_four() {
    let mut arch = SimpleArchetype::new::<(Vector2, Player)>();
    assert!(!arch.column_must_resize());
    for row in 0..300u32 {
        arch.insert((Vector2 { x: row as f32, y: 0.5 }, Player { id: row }));
        let count = row + 1;
        let due = count >= 4 && count.is_power_of_two();
        assert_eq!(arch.get_entity_count(), count as usize);
        assert_eq!(arch.column_must_resize(), due, "at {} rows", count);
    }
    for count in [0usize, 1, 2, 3, 5, 6, 7, 9, 12, 100, 4095, 4097, (1 << 31) + 1, u32::MAX as usize] {
        arch.set_entity_count(count);
        assert!(!arch.column_must_resize(), "at {} rows", count);
    }
    for shift in 2..32 {
        arch.set_entity_count(1usize << shift);
        assert!(arch.column_must_resize(), "at 2^{} rows", shift);
    }
}

#[test]
fn columns_double_when_growth_is_due() {
    let mut arch = SimpleArchetype::new::<(Player, RigidBody)>();
    let body = RigidBody {
        position: Vector2 { x: 10.0, y: 15.0 },
        velocity: Vector2 { x: 19.2, y: 0.0 },
        angular_momentum: 10.0,
        linear_momentum: 15.0,
        material: PhysicsMaterial { bounciness: 10.0, roughness: 9.999 },
    };
    let widths = [4usize, 8, 8, 8, 8, 4, 4, 4, 4];
    let mut room = 4usize;
    for row in 0..70u32 {
        arch.insert((Player { id: row }, body));
        let count = row as usize + 1;
        if count >= 4 && count.is_power_of_two() {
            room = 2 * count;
        }
        for (column, width) in arch.columns.iter().zip(widths.iter()) {
            assert_eq!(column.data.len(), room * width, "at {} rows", count);
        }
    }
    assert_eq!(room, 128);
}

#[test]
fn every_row_reads_back_after_growth() {
    let mut arch = SimpleArchetype::new::<(Vector2, Player)>();
    for row in 0..1000u32 {
        arch.insert((Vector2 { x: row as f32 + 0.25, y: -(row as f32) }, Player { id: row * 3 }));
    }
    assert_eq!(arch.get_entity_count(), 1000);
    for row in 0..1000usize {
        assert_eq!(arch.get::<Vector2>(0).unwrap().get::<F32>(row).0, row as f32 + 0.25);
        assert_eq!(arch.get::<Vector2>(1).unwrap().get::<F32>(row).0, -(row as f32));
        assert_eq!(arch.get::<Player>(0).unwrap().get::<u32>(row), row as u32 * 3);
    }
}

#[test]
fn insert_component_writes_each_leaf_at_the_row() {
    let mut arch = SimpleArchetype::new::<(Tagged<7, 3>, Player)>();
    arch.set_entity_count(2);
    assert_eq!(arch.insert_component(&Tagged::<7, 3>([0x11, 0x22, 0x33])), Ok(()));
    assert_eq!(arch.get_entity_count(), 2);
    assert_eq!(*arch.columns[0].data, vec![0, 0, 0, 0, 0, 0, 0, 0, 0x11, 0, 0, 0, 0, 0, 0, 0]);
    assert_eq!(*arch.columns[1].data, vec![0, 0, 0, 0, 0, 0, 0, 0, 0x22, 0, 0, 0, 0, 0, 0, 0]);
    assert_eq!(*arch.columns[2].data, vec![0, 0, 0, 0, 0, 0, 0, 0, 0x33, 0, 0, 0, 0, 0, 0, 0]);
    assert_eq!(*arch.columns[3].data, vec![0u8; 16]);
    assert_eq!(arch.insert_component(&Player { id: 0x0102_0304 }), Ok(()));
    assert_eq!(*arch.columns[3].data, vec![0, 0, 0, 0, 0, 0, 0, 0, 4, 3, 2, 1, 0, 0, 0, 0]);
}

#[test]
fn insert_component_of_mixed_widths_splits_at_the_leaves() {
    let mut arch = SimpleArchetype::new::<(Player, RigidBody)>();
    let body = RigidBody {
        material: PhysicsMaterial { bounciness: 1.0, roughness: 2.0 },
        linear_momentum: 3.0,
        angular_momentum: 4.0,
        position: Vector2 { x: 5.0, y: 6.0 },
        velocity: Vector2 { x: 7.0, y: 8.0 },
    };
    arch.set_entity_count(3);
    assert_eq!(arch.insert_component(&body), Ok(()));
    let doubles = [1.0f64, 2.0, 3.0, 4.0];
    let singles = [5.0f32, 6.0, 7.0, 8.0];
    for (k, value) in doubles.iter().enumerate() {
        assert_eq!(arch.get::<RigidBody>(k).unwrap().get::<F64>(3).0, *value);
        assert_eq!(&arch.columns[1 + k].data[24..32], &value.to_le_bytes());
    }
    for (k, value) in singles.iter().enumerate() {
        assert_eq!(arch.get::<RigidBody>(4 + k).unwrap().get::<F32>(3).0, *value);
        assert_eq!(&arch.columns[5 + k].data[12..16], &value.to_le_bytes());
    }
    assert_eq!(*arch.columns[0].data, vec![0u8; 16]);
}

#[test]
fn insert_component_fails_without_writing() {
    let mut arch = SimpleArchetype::new::<(Vector2, Player)>();
    let body = RigidBody {
        material: PhysicsMaterial { bounciness: 1.0, roughness: 2.0 },
        linear_momentum: 3.0,
        angular_momentum: 4.0,
        position: Vector2 { x: 5.0, y: 6.0 },
        velocity: Vector2 { x: 7.0, y: 8.0 },
    };
    assert_eq!(arch.insert_component(&body), Err(ArchetypeError::ComponentNotFound));
    assert_eq!(arch.insert_component(&Enemy), Err(ArchetypeError::ComponentNotFound));
    let mut short = SimpleArchetype {
        entity_count: 0,
        columns: vec![SimpleColumn::new_bytes_with_size(16)],
        type_to_col: vec![2, 0],
    };
    assert_eq!(
        short.insert_component(&Vector2 { x: 1.0, y: 2.0 }),
        Err(ArchetypeError::IndexOutOfBounds)
    );
    assert_eq!(*short.columns[0].data, vec![0u8; 16]);
    for column in arch.columns.iter() {
        assert_eq!(*column.data, vec![0u8; 16]);
    }
}

#[test]
fn lookup_scans_from_both_ends() {
    let with = |ids: Vec<u32>| SimpleArchetype { entity_count: 0, columns: Vec::new(), type_to_col: ids };
    assert_eq!(with(vec![]).map::<Tagged<7, 1>>(), Err(ArchetypeError::ComponentNotFound));
    assert_eq!(with(vec![7]).map::<Tagged<7, 1>>(), Ok(0));
    assert_eq!(with(vec![5]).map::<Tagged<7, 1>>(), Err(ArchetypeError::ComponentNotFound));
    assert_eq!(with(vec![5, 7]).map::<Tagged<7, 1>>(), Ok(1));
    assert_eq!(with(vec![5, 9, 7, 9, 5]).map::<Tagged<7, 1>>(), Ok(2));
    assert_eq!(with(vec![5, 9, 9, 7, 5, 5]).map::<Tagged<7, 1>>(), Ok(3));
    assert_eq!(with(vec![5, 7, 9, 7, 5]).map::<Tagged<7, 1>>(), Ok(1));
    assert_eq!(with(vec![9, 7, 5, 5, 7]).map::<Tagged<7, 1>>(), Ok(4));
    assert_eq!(with(vec![7, 5, 5, 5, 7]).map::<Tagged<7, 1>>(), Ok(0));
    assert_eq!(with(vec![5, 5, 7, 7, 5, 5]).map::<Tagged<7, 1>>(), Ok(2));
    assert_eq!(with(vec![5, 9, 5, 9]).map::<Tagged<7, 1>>(), Err(ArchetypeError::ComponentNotFound));
    assert!(with(vec![5, 7]).has::<Tagged<7, 1>>());
    assert!(!with(vec![5, 9]).has::<Tagged<7, 1>>());
    assert!(!with(vec![]).has::<Tagged<7, 1>>());
}

#[test]
fn primitives_cannot_be_told_apart() {
    let arch = SimpleArchetype::new::<(u32, u64)>();
    assert_eq!(arch.type_to_col, vec![0, 0]);
    assert_eq!(arch.map::<u32>(), Ok(0));
    assert_eq!(arch.map::<u64>(), Ok(0));
    assert_eq!(arch.map::<u8>(), Ok(0));
    let arch = SimpleArchetype::new::<(Vector2, u64)>();
    assert_eq!(arch.type_to_col, vec![2, 0, 0]);
    assert_eq!(arch.map::<u64>(), Ok(2));
    let arch = SimpleArchetype::new::<(u64, Vector2)>();
    assert_eq!(arch.type_to_col, vec![0, 2, 0]);
    assert_eq!(arch.map::<u64>(), Ok(0));
    let arch = SimpleArchetype::new::<(Player, RigidBody)>();
    assert_eq!(arch.map::<u64>(), Ok(8));
}

#[test]
fn a_marker_takes_no_column() {
    let mut arch = SimpleArchetype::new::<(Enemy, Player)>();
    assert_eq!(arch.columns.len(), 1);
    assert_eq!(arch.map::<Enemy>(), Err(ArchetypeError::ComponentNotFound));
    assert!(!arch.has::<Enemy>());
    for row in 0..9u32 {
        arch.insert((Enemy, Player { id: row + 100 }));
    }
    assert_eq!(arch.get_entity_count(), 9);
    assert_eq!(arch.columns[0].data.len(), 16 * 4);
    for row in 0..9usize {
        assert_eq!(arch.get::<Player>(0).unwrap().get::<u32>(row), row as u32 + 100);
    }
    let mut arch = SimpleArchetype::new::<(Enemy, Player)>();
    insert_leaves::<Enemy, SimpleArchetype>(&mut arch, &Enemy);
    grow_columns::<Enemy, SimpleArchetype>(&mut arch);
    assert_eq!(*arch.columns[0].data, vec![0u8; 16]);
}

#[test]
fn all_columns_of_a_type_come_in_leaf_order() {
    let mut arch = SimpleArchetype::new::<(Player, Tagged<7, 3>)>();
    arch.insert((Player { id: 1 }, Tagged::<7, 3>([10, 20, 30])));
    let run = arch.get_all::<Tagged<7, 3>>().unwrap();
    assert_eq!(run.len(), 3);
    assert_eq!(run[0].get::<u32>(0), 10);
    assert_eq!(run[1].get::<u32>(0), 20);
    assert_eq!(run[2].get::<u32>(0), 30);
    assert!(std::ptr::eq(&run[0], &arch.columns[1]));
    let run = arch.get_all::<Player>().unwrap();
    assert_eq!(run.len(), 1);
    assert!(std::ptr::eq(&run[0], &arch.columns[0]));
    assert_eq!(arch.get_all::<Vector2>().err(), Some(ArchetypeError::ComponentNotFound));
    let short = SimpleArchetype {
        entity_count: 0,
        columns: vec![SimpleColumn::new_bytes_with_size(16)],
        type_to_col: vec![2, 0],
    };
    assert_eq!(short.get_all::<Vector2>().err(), Some(ArchetypeError::IndexOutOfBounds));
}

#[test]
fn all_columns_of_a_type_can_be_written() {
    let mut arch = SimpleArchetype::new::<(Player, Tagged<7, 3>)>();
    {
        let run = arch.get_all_mut::<Tagged<7, 3>>().unwrap();
        assert_eq!(run.len(), 3);
        run[0].insert::<u32>(1, 100);
        run[2].insert::<u32>(3, 300);
    }
    assert_eq!(*arch.columns[0].data, vec![0u8; 16]);
    assert_eq!(arch.columns[1].get::<u32>(1), 100);
    assert_eq!(*arch.columns[2].data, vec![0u8; 16]);
    assert_eq!(arch.columns[3].get::<u32>(3), 300);
    assert_eq!(arch.get_all_mut::<Vector2>().err(), Some(ArchetypeError::ComponentNotFound));
    let mut short = SimpleArchetype {
        entity_count: 0,
        columns: vec![SimpleColumn::new_bytes_with_size(16)],
        type_to_col: vec![2, 0],
    };
    assert_eq!(short.get_all_mut::<Vector2>().err(), Some(ArchetypeError::IndexOutOfBounds));
}

#[test]
fn initialize_column_adds_one_column_per_leaf() {
    let mut arch = SimpleArchetype { entity_count: 0, columns: Vec::new(), type_to_col: Vec::new() };
    arch.initialize_column::<RigidBody>();
    let widths: Vec<usize> = arch.columns.iter().map(|c| c.data.len()).collect();
    assert_eq!(widths, vec![32, 32, 32, 32, 16, 16, 16, 16]);
    arch.initialize_column::<Enemy>();
    assert_eq!(arch.columns.len(), 8);
    arch.initialize_column::<u8>();
    assert_eq!(arch.columns.len(), 9);
    assert_eq!(*arch.columns[8].data, vec![0u8; 4]);
    assert_eq!(arch.entity_count, 0);
    assert!(arch.type_to_col.is_empty());
}

#[test]
fn grow_columns_doubles_the_bytes_in_use() {
    let mut arch = SimpleArchetype::new::<(Player, Tagged<7, 2>)>();
    arch.columns[1].insert::<u32>(2, 77);
    arch.set_entity_count(3);
    grow_columns::<Tagged<7, 2>, SimpleArchetype>(&mut arch);
    assert_eq!(arch.columns[0].data.len(), 16);
    assert_eq!(arch.columns[1].data.len(), 24);
    assert_eq!(arch.columns[2].data.len(), 24);
    assert_eq!(arch.columns[1].get::<u32>(2), 77);
    assert_eq!(arch.columns[1].get::<u32>(5), 0);
    arch.set_entity_count(1);
    grow_columns::<Tagged<7, 2>, SimpleArchetype>(&mut arch);
    assert_eq!(arch.columns[1].data.len(), 8);
    assert_eq!(arch.get_entity_count(), 1);
}

#[test]
fn the_row_count_is_read_and_set() {
    let mut arch = SimpleArchetype::new::<(Vector2, Player)>();
    assert_eq!(arch.get_entity_count(), 0);
    arch.set_entity_count(17);
    assert_eq!(arch.get_entity_count(), 17);
    assert_eq!(arch.entity_count, 17);
    arch.set_entity_count(u32::MAX as usize);
    assert_eq!(arch.get_entity_count(), u32::MAX as usize);
    assert_eq!(arch.columns.len(), 3);
    assert_eq!(arch.type_to_col, vec![2, 0, 1]);
}

#[test]
fn errors_compare_and_print() {
    assert_ne!(ArchetypeError::ComponentNotFound, ArchetypeError::IndexOutOfBounds);
    assert_ne!(
        ArchetypeError::IndexOutOfBounds,
        ArchetypeError::FieldPositionOverlapsNextComponent
    );
    let copy = ArchetypeError::ComponentNotFound;
    assert_eq!(copy.clone(), ArchetypeError::ComponentNotFound);
    assert_eq!(format!("{:?}", ArchetypeError::IndexOutOfBounds), "IndexOutOfBounds");
}
