use exclusive_state::command::CommandBuffer;
use exclusive_state::group::{declare_group, VariantSpec};
use exclusive_state::predicate::{Predicate, WithState};
use exclusive_state::store::{Payload, PayloadShape, StorageLayout, Store};

#[test]
fn test_exclusive() {
    let mut world = Store::new();

    let specs = vec![
        VariantSpec { name: String::from("CaseOne"), shape: PayloadShape::Bits },
        VariantSpec { name: String::from("CaseTwo"), shape: PayloadShape::Unit },
        VariantSpec { name: String::from("CaseThree"), shape: PayloadShape::Unit },
    ];
    let my_state = declare_group(&mut world, String::from("MyState"), &specs).unwrap();
    let case_one = my_state.variant_key(0);
    let case_two = my_state.variant_key(1);
    let case_three = my_state.variant_key(2);

    // optionally use sparse storage
    world.register_layout(case_one, StorageLayout::Sparse);
    world.register_layout(case_two, StorageLayout::Sparse);
    world.register_layout(case_three, StorageLayout::Sparse);

    let data = world.create_component_type(String::from("Data"), PayloadShape::Bits);

    let one_id = world.spawn();
    world.insert_component(one_id, case_one, Payload::Bits((5.0f32).to_bits() as u64));
    world.insert_component(one_id, data, Payload::Bits(1));
    let two_id = world.spawn();
    world.insert_component(two_id, case_two, Payload::Unit);
    world.insert_component(two_id, data, Payload::Bits(2));
    // bad setup - avoid this in practice by transitioning instead of raw insert
    let both_id = world.spawn();
    world.insert_component(both_id, case_one, Payload::Bits((6.0f32).to_bits() as u64));
    world.insert_component(both_id, data, Payload::Bits(3));
    world.insert_component(both_id, case_two, Payload::Unit);

    // exclusive state queries
    let q_x_one = world.query(&my_state.exclusive_match(0));
    assert!(q_x_one.contains(&one_id));
    assert!(q_x_one.len() == 1); // the exclusive filter skips items with multiple states

    let q_x_two = world.query(&my_state.exclusive_match(1));
    assert!(q_x_two.contains(&two_id));
    assert!(q_x_two.len() == 1);

    let q_x_three = world.query(&my_state.exclusive_match(2));
    assert!(q_x_three.is_empty());

    // access data
    let q_x_one_data = world.query_with(&my_state.exclusive_match(0), case_one);
    assert!(q_x_one_data.len() == 1);
    match q_x_one_data[0].1 {
        Some(Payload::Bits(b)) => assert!(f32::from_bits(b as u32) == 5.0),
        _ => panic!("payload missing"),
    }

    // the two state systems queue their transitions into one deferred
    // buffer; the flush point applies them in append order
    let mut commands = CommandBuffer::new();
    for e in world.query(&my_state.exclusive_match(0)) {
        commands.transition(e, &my_state, 2, Payload::Unit);
        world.insert_component(e, data, Payload::Bits(103));
    }
    for e in world.query(&my_state.exclusive_match(1)) {
        commands.transition(e, &my_state, 2, Payload::Unit);
        world.insert_component(e, data, Payload::Bits(203));
    }
    commands.flush(&mut world);

    // exclusive state queries
    let q_x_one = world.query(&my_state.exclusive_match(0));
    assert!(q_x_one.is_empty());

    let q_x_two = world.query(&my_state.exclusive_match(1));
    assert!(q_x_two.is_empty());

    let q_x_three = world.query(&my_state.exclusive_match(2));
    assert!(q_x_three.contains(&one_id));
    assert!(q_x_three.contains(&two_id));
    assert!(q_x_three.len() == 2);

    // bare presence tests avoid the exclusive filter
    let q_one = world.query(&my_state.loose_match(0));
    assert!(q_one.contains(&both_id));
    assert!(q_one.len() == 1);

    let q_two = world.query(&my_state.loose_match(1));
    assert!(q_two.contains(&both_id));
    assert!(q_two.len() == 1);

    let q_three = world.query(&my_state.loose_match(2));
    assert!(q_three.contains(&one_id));
    assert!(q_three.contains(&two_id));
    assert!(q_three.len() == 2);

    // find items with any state (including invalid multiple states)
    let q_any = world.query(&my_state.any_match());
    assert!(q_any.len() == 3);
}

#[test]
fn transition_from_payload_state() {
    // group {A, B, C}; e1 starts holding A(5.0); transition to C
    let mut world = Store::new();
    let specs = vec![
        VariantSpec { name: String::from("A"), shape: PayloadShape::Bits },
        VariantSpec { name: String::from("B"), shape: PayloadShape::Unit },
        VariantSpec { name: String::from("C"), shape: PayloadShape::Unit },
    ];
    let group = declare_group(&mut world, String::from("G"), &specs).unwrap();
    let e1 = world.spawn();
    world.insert_component(e1, group.variant_key(0), Payload::Bits((5.0f32).to_bits() as u64));

    let mut buf = CommandBuffer::new();
    buf.transition(e1, &group, 2, Payload::Unit);
    buf.flush(&mut world);

    assert!(!world.query(&group.exclusive_match(0)).contains(&e1));
    assert!(world.query(&group.exclusive_match(2)).contains(&e1));
    assert!(world.query(&group.any_match()).contains(&e1));
}

#[test]
fn transition_from_plain_state() {
    // e2 starts holding B; transition to C
    let mut world = Store::new();
    let specs = vec![
        VariantSpec { name: String::from("A"), shape: PayloadShape::Bits },
        VariantSpec { name: String::from("B"), shape: PayloadShape::Unit },
        VariantSpec { name: String::from("C"), shape: PayloadShape::Unit },
    ];
    let group = declare_group(&mut world, String::from("G"), &specs).unwrap();
    let e2 = world.spawn();
    world.insert_component(e2, group.variant_key(1), Payload::Unit);

    let mut buf = CommandBuffer::new();
    buf.transition(e2, &group, 2, Payload::Unit);
    buf.flush(&mut world);

    assert!(!world.query(&group.exclusive_match(1)).contains(&e2));
    assert!(world.query(&group.exclusive_match(2)).contains(&e2));
}

#[test]
fn direct_mutation_violation_is_permitted() {
    // e3 is given A(6.0) and B directly, bypassing transitions: the
    // violation is neither detected nor repaired, and the predicates
    // answer as documented
    let mut world = Store::new();
    let specs = vec![
        VariantSpec { name: String::from("A"), shape: PayloadShape::Bits },
        VariantSpec { name: String::from("B"), shape: PayloadShape::Unit },
        VariantSpec { name: String::from("C"), shape: PayloadShape::Unit },
    ];
    let group = declare_group(&mut world, String::from("G"), &specs).unwrap();
    let e3 = world.spawn();
    world.insert_component(e3, group.variant_key(0), Payload::Bits((6.0f32).to_bits() as u64));
    world.insert_component(e3, group.variant_key(1), Payload::Unit);

    assert!(!world.query(&group.exclusive_match(0)).contains(&e3));
    assert!(!world.query(&group.exclusive_match(1)).contains(&e3));
    assert!(world.query(&group.loose_match(0)).contains(&e3));
    assert!(world.query(&group.loose_match(1)).contains(&e3));
    assert!(world.query(&group.any_match()).contains(&e3));
}

#[test]
fn transition_twice_is_idempotent() {
    let make_specs = || {
        vec![
            VariantSpec { name: String::from("A"), shape: PayloadShape::Unit },
            VariantSpec { name: String::from("B"), shape: PayloadShape::Bits },
        ]
    };

    let mut world_once = Store::new();
    let group_once = declare_group(&mut world_once, String::from("G"), &make_specs()).unwrap();
    let e_once = world_once.spawn();
    world_once.insert_component(e_once, group_once.variant_key(0), Payload::Unit);
    let mut buf = CommandBuffer::new();
    buf.transition(e_once, &group_once, 1, Payload::Bits(7));
    buf.flush(&mut world_once);

    let mut world_twice = Store::new();
    let group_twice = declare_group(&mut world_twice, String::from("G"), &make_specs()).unwrap();
    let e_twice = world_twice.spawn();
    world_twice.insert_component(e_twice, group_twice.variant_key(0), Payload::Unit);
    let mut buf2 = CommandBuffer::new();
    buf2.transition(e_twice, &group_twice, 1, Payload::Bits(7));
    buf2.transition(e_twice, &group_twice, 1, Payload::Bits(7));
    buf2.flush(&mut world_twice);

    // the two worlds were built identically, so their handles coincide
    assert_eq!(e_once, e_twice);
    for i in 0..2 {
        let q1 = world_once.query(&group_once.exclusive_match(i));
        let q2 = world_twice.query(&group_twice.exclusive_match(i));
        assert_eq!(q1, q2);
    }
    assert_eq!(
        world_once.get_component(e_once, group_once.variant_key(1)),
        world_twice.get_component(e_twice, group_twice.variant_key(1))
    );
    assert_eq!(world_once.get_component(e_once, group_once.variant_key(1)), Some(Payload::Bits(7)));
}

#[test]
fn storage_hint_never_changes_results() {
    let mut world = Store::new();
    let specs = vec![
        VariantSpec { name: String::from("A"), shape: PayloadShape::Unit },
        VariantSpec { name: String::from("B"), shape: PayloadShape::Unit },
    ];
    let group = declare_group(&mut world, String::from("G"), &specs).unwrap();
    let e1 = world.spawn();
    let e2 = world.spawn();
    world.insert_component(e1, group.variant_key(0), Payload::Unit);
    world.insert_component(e2, group.variant_key(1), Payload::Unit);
    world.insert_component(e2, group.variant_key(0), Payload::Unit);

    let before_a = world.query(&group.exclusive_match(0));
    let before_any = world.query(&group.any_match());
    let before_loose = world.query(&group.loose_match(0));

    // flip the layouts both ways; repeating the call must be safe too
    world.register_layout(group.variant_key(0), StorageLayout::Sparse);
    world.register_layout(group.variant_key(1), StorageLayout::Sparse);
    world.register_layout(group.variant_key(1), StorageLayout::Sparse);
    world.register_layout(group.variant_key(1), StorageLayout::Dense);

    assert_eq!(before_a, world.query(&group.exclusive_match(0)));
    assert_eq!(before_any, world.query(&group.any_match()));
    assert_eq!(before_loose, world.query(&group.loose_match(0)));
}

#[test]
fn with_state_filter_matches_predicate_form() {
    let mut world = Store::new();
    let specs = vec![
        VariantSpec { name: String::from("A"), shape: PayloadShape::Unit },
        VariantSpec { name: String::from("B"), shape: PayloadShape::Unit },
        VariantSpec { name: String::from("C"), shape: PayloadShape::Unit },
    ];
    let group = declare_group(&mut world, String::from("G"), &specs).unwrap();
    let clean = world.spawn();
    world.insert_component(clean, group.variant_key(1), Payload::Unit);
    let dirty = world.spawn();
    world.insert_component(dirty, group.variant_key(1), Payload::Unit);
    world.insert_component(dirty, group.variant_key(2), Payload::Unit);
    let empty = world.spawn();

    let w = WithState::new(&group, 1);
    assert!(w.eval(&world, clean));
    assert!(!w.eval(&world, dirty));
    assert!(!w.eval(&world, empty));

    let q = world.query(&w.predicate());
    assert!(q.contains(&clean));
    assert!(!q.contains(&dirty));
    assert!(!q.contains(&empty));
    assert_eq!(q, world.query(&group.exclusive_match(1)));
}

#[test]
fn predicates_compose_with_unrelated_filters() {
    let mut world = Store::new();
    let specs = vec![
        VariantSpec { name: String::from("On"), shape: PayloadShape::Unit },
        VariantSpec { name: String::from("Off"), shape: PayloadShape::Unit },
    ];
    let group = declare_group(&mut world, String::from("Power"), &specs).unwrap();
    let marker = world.create_component_type(String::from("Marker"), PayloadShape::Unit);

    let on_marked = world.spawn();
    world.insert_component(on_marked, group.variant_key(0), Payload::Unit);
    world.insert_component(on_marked, marker, Payload::Unit);
    let on_plain = world.spawn();
    world.insert_component(on_plain, group.variant_key(0), Payload::Unit);

    let combined = Predicate::And(vec![group.exclusive_match(0), Predicate::Has(marker)]);
    let q = world.query(&combined);
    assert!(q.contains(&on_marked));
    assert!(!q.contains(&on_plain));

    let negated = Predicate::And(vec![
        group.any_match(),
        Predicate::Not(Box::new(Predicate::Has(marker))),
    ]);
    let q2 = world.query(&negated);
    assert!(!q2.contains(&on_marked));
    assert!(q2.contains(&on_plain));
}

#[test]
fn edit_against_destroyed_entity_is_dropped() {
    let mut world = Store::new();
    let specs = vec![
        VariantSpec { name: String::from("A"), shape: PayloadShape::Unit },
        VariantSpec { name: String::from("B"), shape: PayloadShape::Unit },
    ];
    let group = declare_group(&mut world, String::from("G"), &specs).unwrap();
    let doomed = world.spawn();
    let survivor = world.spawn();
    world.insert_component(doomed, group.variant_key(0), Payload::Unit);
    world.insert_component(survivor, group.variant_key(0), Payload::Unit);

    let mut buf = CommandBuffer::new();
    buf.transition(doomed, &group, 1, Payload::Unit);
    buf.transition(survivor, &group, 1, Payload::Unit);
    world.destroy(doomed);
    buf.flush(&mut world);

    assert!(!world.is_live(doomed));
    assert_eq!(world.get_component(doomed, group.variant_key(1)), None);
    let q = world.query(&group.exclusive_match(1));
    assert!(q.contains(&survivor));
    assert!(q.len() == 1);
}

#[test]
fn respawn_never_revives_a_stale_handle() {
    let mut world = Store::new();
    let specs = vec![VariantSpec { name: String::from("A"), shape: PayloadShape::Unit }];
    let group = declare_group(&mut world, String::from("G"), &specs).unwrap();
    let old_handle = world.spawn();
    world.insert_component(old_handle, group.variant_key(0), Payload::Unit);
    world.destroy(old_handle);
    let new_handle = world.spawn();

    assert_ne!(old_handle, new_handle);
    assert!(!world.is_live(old_handle));
    assert!(world.is_live(new_handle));
    assert_eq!(world.get_component(old_handle, group.variant_key(0)), None);
    assert_eq!(world.get_component(new_handle, group.variant_key(0)), None);
    assert!(!world.query(&group.any_match()).contains(&old_handle));
}

#[test]
fn flush_empties_the_buffer() {
    let mut world = Store::new();
    let specs = vec![
        VariantSpec { name: String::from("A"), shape: PayloadShape::Unit },
        VariantSpec { name: String::from("B"), shape: PayloadShape::Unit },
    ];
    let group = declare_group(&mut world, String::from("G"), &specs).unwrap();
    let e = world.spawn();

    let mut buf = CommandBuffer::new();
    assert_eq!(buf.num_queued(), 0);
    buf.transition(e, &group, 0, Payload::Unit);
    buf.transition(e, &group, 1, Payload::Unit);
    assert_eq!(buf.num_queued(), 2);
    buf.flush(&mut world);
    assert_eq!(buf.num_queued(), 0);

    // last-applied-wins in append order
    assert!(world.query(&group.exclusive_match(1)).contains(&e));
    assert!(!world.query(&group.loose_match(0)).contains(&e));
}

#[test]
fn deferred_bare_insert_bypasses_sibling_removal() {
    let mut world = Store::new();
    let specs = vec![
        VariantSpec { name: String::from("A"), shape: PayloadShape::Unit },
        VariantSpec { name: String::from("B"), shape: PayloadShape::Unit },
    ];
    let group = declare_group(&mut world, String::from("G"), &specs).unwrap();
    let e = world.spawn();

    let mut buf = CommandBuffer::new();
    buf.transition(e, &group, 0, Payload::Unit);
    buf.insert(e, group.variant_key(1), Payload::Unit);
    buf.flush(&mut world);

    // both tags present: the documented escape hatch
    assert!(world.query(&group.loose_match(0)).contains(&e));
    assert!(world.query(&group.loose_match(1)).contains(&e));
    assert!(!world.query(&group.exclusive_match(0)).contains(&e));
    assert!(world.query(&group.any_match()).contains(&e));
}
