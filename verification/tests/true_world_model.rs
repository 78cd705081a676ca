use quantum_core::true_world_model::{contact_index_between, BodyId, JointHandle, JointRegistry};

fn body(index: u32) -> BodyId {
    BodyId { index, generation: 0 }
}

#[test]
fn joint_handles_count_up_from_one() {
    let mut reg: JointRegistry<&str> = JointRegistry::new();
    assert_eq!(reg.next_handle(), JointHandle(1));
    let h1 = reg.add("revolute");
    let h2 = reg.add("prismatic");
    assert_eq!(h1, JointHandle(1));
    assert_eq!(h2, JointHandle(2));
    assert_eq!(reg.len(), 2);
    assert_eq!(reg.entry_at(1), (JointHandle(2), &"prismatic"));
    assert!(reg.can_add());
}

#[test]
fn test_joint_count_tracks_registry() {
    let mut reg: JointRegistry<(u32, u32)> = JointRegistry::new();
    reg.add((1, 2));
    reg.add((2, 3));
    assert_eq!(reg.len(), 2);
}

#[test]
fn contact_lookup_either_order() {
    let pairs = vec![(body(1), body(2)), (body(3), body(0)), (body(0), body(3))];
    assert_eq!(contact_index_between(&pairs, body(0), body(3)), Some(1));
    assert_eq!(contact_index_between(&pairs, body(3), body(0)), Some(1));
    assert_eq!(contact_index_between(&pairs, body(2), body(1)), Some(0));
    assert_eq!(contact_index_between(&pairs, body(1), body(3)), None);
    let stale = BodyId { index: 1, generation: 1 };
    assert_eq!(contact_index_between(&pairs, stale, body(2)), None);
}
