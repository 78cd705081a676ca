use quantum_core::android_bridge::{kind_from_code, reading_from_push, EngineTable};
use quantum_core::sensors::SensorKind;

#[test]
fn push_codes_map_to_kinds() {
    assert_eq!(kind_from_code(0), Some(SensorKind::Accelerometer));
    assert_eq!(kind_from_code(1), Some(SensorKind::Gyroscope));
    assert_eq!(kind_from_code(2), Some(SensorKind::Magnetometer));
    assert_eq!(kind_from_code(3), Some(SensorKind::AmbientLight));
    assert_eq!(kind_from_code(4), Some(SensorKind::Barometer));
    assert_eq!(kind_from_code(5), Some(SensorKind::Temperature));
    assert_eq!(kind_from_code(6), Some(SensorKind::Proximity));
    assert_eq!(kind_from_code(7), Some(SensorKind::Microphone));
    assert_eq!(kind_from_code(8), Some(SensorKind::Gps));
    assert_eq!(kind_from_code(9), None);
    assert_eq!(kind_from_code(-1), None);
}

#[test]
fn pushed_sample_becomes_reading() {
    let r = reading_from_push(0, 1.0f32.to_bits(), 2.0f32.to_bits(), 3.0f32.to_bits(), 123)
        .unwrap();
    assert_eq!(r.kind, SensorKind::Accelerometer);
    assert_eq!(r.timestamp_ns, 123);
    assert_eq!(r.vec, [1.0f32.to_bits(), 2.0f32.to_bits(), 3.0f32.to_bits()]);
    assert_eq!(r.scalar, 0.0f32.to_bits());
    assert!(r.raw.is_none());
    assert!(reading_from_push(9, 0, 0, 0, 1).is_none());
}

#[test]
fn pushed_microphone_level_is_the_scalar() {
    let loud = 95.0f32.to_bits();
    let r = reading_from_push(7, loud, 0, 0, 5).unwrap();
    assert_eq!(r.kind, SensorKind::Microphone);
    assert_eq!(f32::from_bits(r.scalar), 95.0);
    assert_eq!(r.vec, [loud, 0, 0]);
}

#[test]
fn pushed_temperature_and_gps() {
    let t = reading_from_push(5, 21.5f32.to_bits(), 0, 0, 1).unwrap();
    assert_eq!(f32::from_bits(t.scalar), 21.5);
    let g = reading_from_push(8, 39.9f32.to_bits(), 116.4f32.to_bits(), 0, 1).unwrap();
    assert_eq!(g.kind, SensorKind::Gps);
    assert_eq!(g.scalar, 0);
    assert_eq!(f32::from_bits(g.vec[1]), 116.4);
}

#[test]
fn pushed_negative_timestamp_wraps() {
    let r = reading_from_push(5, 0, 0, 0, -1).unwrap();
    assert_eq!(r.timestamp_ns, u128::MAX);
    assert_eq!(r.timestamp_ns, (-1i64) as u128);
    let r = reading_from_push(5, 0, 0, 0, i64::MIN).unwrap();
    assert_eq!(r.timestamp_ns, i64::MIN as u128);
}

#[test]
fn engine_table_create_find_destroy() {
    let mut t: EngineTable<String> = EngineTable::new();
    let a = t.create("a".to_string());
    let b = t.create("b".to_string());
    assert_eq!((a, b), (0, 1));
    assert_eq!(t.get(a).map(|s| s.as_str()), Some("a"));
    t.destroy(a);
    assert!(t.get(a).is_none());
    assert_eq!(t.get(b).map(|s| s.as_str()), Some("b"));
    let c = t.create("c".to_string());
    assert_eq!(c, 2);
    assert_eq!(t.len(), 3);
    t.destroy(17);
    assert_eq!(t.len(), 3);
    if let Some(s) = t.get_mut(b) {
        s.push('!');
    }
    assert_eq!(t.get(b).map(|s| s.as_str()), Some("b!"));
    assert!(t.get_mut(a).is_none());
    assert!(t.get(99).is_none());
}
