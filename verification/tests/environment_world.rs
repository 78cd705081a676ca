use quantum_core::environment_world::{dynamic_bodies, push_bounded};
use quantum_core::true_world_model::BodyId;

#[test]
fn history_drops_oldest_past_limit() {
    let mut h: Vec<u32> = Vec::new();
    for i in 0..5 {
        push_bounded(&mut h, i, 3);
    }
    assert_eq!(h, vec![2, 3, 4]);
}

#[test]
fn history_with_zero_limit_stays_empty() {
    let mut h: Vec<u32> = Vec::new();
    push_bounded(&mut h, 1, 0);
    assert!(h.is_empty());
}

#[test]
fn history_under_limit_keeps_all() {
    let mut h = vec![[1.0f32, 2.0, 3.0]];
    push_bounded(&mut h, [4.0, 5.0, 6.0], 100);
    assert_eq!(h.len(), 2);
    assert_eq!(h.last().copied(), Some([4.0, 5.0, 6.0]));
}

#[test]
fn only_dynamic_bodies_are_selected() {
    let b = |i: u32| BodyId { index: i, generation: 0 };
    let bodies = vec![(b(0), false), (b(1), true), (b(2), true), (b(3), false)];
    assert_eq!(dynamic_bodies(&bodies), vec![b(1), b(2)]);
    assert!(dynamic_bodies(&Vec::new()).is_empty());
}
