use exclusive_state::group::{declare_group, DeclareError, VariantSpec};
use exclusive_state::store::{PayloadShape, Store};

#[test]
fn empty_group_is_rejected() {
    let mut world = Store::new();
    let specs: Vec<VariantSpec> = Vec::new();
    let r = declare_group(&mut world, String::from("G"), &specs);
    assert_eq!(r.err(), Some(DeclareError::EmptyGroup));
    assert_eq!(world.num_component_types(), 0);
}

#[test]
fn duplicate_variant_is_rejected() {
    let mut world = Store::new();
    let specs = vec![
        VariantSpec { name: String::from("A"), shape: PayloadShape::Unit },
        VariantSpec { name: String::from("B"), shape: PayloadShape::Bits },
        VariantSpec { name: String::from("A"), shape: PayloadShape::Unit },
    ];
    let r = declare_group(&mut world, String::from("G"), &specs);
    assert_eq!(r.err(), Some(DeclareError::DuplicateVariant));
    // a failed declaration registers nothing
    assert_eq!(world.num_component_types(), 0);
}

#[test]
fn declaration_registers_each_variant_in_order() {
    let mut world = Store::new();
    let specs = vec![
        VariantSpec { name: String::from("Idle"), shape: PayloadShape::Unit },
        VariantSpec { name: String::from("Running"), shape: PayloadShape::Bits },
        VariantSpec { name: String::from("Done"), shape: PayloadShape::Unit },
    ];
    let group = declare_group(&mut world, String::from("Job"), &specs).unwrap();
    assert_eq!(group.num_variants(), 3);
    assert_eq!(group.variant_key(0), 0);
    assert_eq!(group.variant_key(1), 1);
    assert_eq!(group.variant_key(2), 2);
    assert_eq!(group.group_name().as_str(), "Job");
    assert_eq!(group.siblings(1), vec![0, 2]);
    assert_eq!(world.num_component_types(), 3);
}

#[test]
fn two_groups_get_disjoint_keys() {
    let mut world = Store::new();
    let first = declare_group(
        &mut world,
        String::from("G1"),
        &vec![
            VariantSpec { name: String::from("A"), shape: PayloadShape::Unit },
            VariantSpec { name: String::from("B"), shape: PayloadShape::Unit },
        ],
    )
    .unwrap();
    let second = declare_group(
        &mut world,
        String::from("G2"),
        &vec![
            VariantSpec { name: String::from("A"), shape: PayloadShape::Unit },
            VariantSpec { name: String::from("B"), shape: PayloadShape::Unit },
        ],
    )
    .unwrap();
    assert_eq!(first.variant_key(0), 0);
    assert_eq!(first.variant_key(1), 1);
    assert_eq!(second.variant_key(0), 2);
    assert_eq!(second.variant_key(1), 3);
}
