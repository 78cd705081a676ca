use quantum_core::sensors::{
    gps_timestamp_ns, gps_walk_noise, mic_noise, mic_timestamp_ns, Sensor, SensorError, SensorHub,
    SensorKind, SensorReading,
};
use std::sync::{Arc, Mutex};

type Hub = SensorHub<Box<dyn Sensor>, Box<dyn FnMut(&SensorReading) + Send>>;

fn reading(kind: SensorKind, t: u64) -> SensorReading {
    SensorReading {
        kind,
        timestamp_ns: t as u128,
        vec: [0.5f32.to_bits(), (-9.81f32).to_bits(), 0.0f32.to_bits()],
        scalar: 0.0f32.to_bits(),
        raw: None,
    }
}

/// A sensor of a fixed kind that gives one reading per read while running.
struct Ticker {
    kind: SensorKind,
    running: bool,
    t: u64,
}

impl Ticker {
    fn new(kind: SensorKind) -> Self {
        Ticker { kind, running: false, t: 0 }
    }
}

impl Sensor for Ticker {
    fn kind(&self) -> SensorKind {
        self.kind
    }
    fn name(&self) -> &str {
        "ticker"
    }
    fn read(&mut self) -> Option<SensorReading> {
        if !self.running {
            return None;
        }
        self.t += 1;
        Some(reading(self.kind, self.t))
    }
    fn start(&mut self) -> Result<(), SensorError> {
        self.running = true;
        Ok(())
    }
    fn stop(&mut self) -> Result<(), SensorError> {
        self.running = false;
        Ok(())
    }
    fn is_running(&self) -> bool {
        self.running
    }
}

#[test]
fn test_sensor_kind_distinct() {
    assert_ne!(SensorKind::Accelerometer, SensorKind::Gyroscope);
    assert_eq!(SensorKind::Accelerometer, SensorKind::Accelerometer);
}

#[test]
fn test_sensor_hub_routes() {
    let mut hub: Hub = SensorHub::new();
    hub.register(Box::new(Ticker::new(SensorKind::Accelerometer)));
    hub.register(Box::new(Ticker::new(SensorKind::Gps)));
    hub.start_all();
    let r1 = hub.read(SensorKind::Accelerometer);
    let r2 = hub.read(SensorKind::Gps);
    assert!(r1.is_some());
    assert!(r2.is_some());
    assert_eq!(r1.unwrap().kind, SensorKind::Accelerometer);
    assert_eq!(r2.unwrap().kind, SensorKind::Gps);
}

#[test]
fn test_sensor_hub_poll_all() {
    let mut hub: Hub = SensorHub::new();
    hub.register(Box::new(Ticker::new(SensorKind::Accelerometer)));
    hub.register(Box::new(Ticker::new(SensorKind::Microphone)));
    hub.start_all();
    let readings = hub.poll_all();
    assert_eq!(readings.len(), 2);
}

#[test]
fn test_sensor_hub_subscribe() {
    let counter = Arc::new(Mutex::new(0));
    let c2 = counter.clone();
    let mut hub: Hub = SensorHub::new();
    hub.register(Box::new(Ticker::new(SensorKind::Accelerometer)));
    hub.subscribe(Box::new(move |_r: &SensorReading| {
        *c2.lock().unwrap() += 1;
    }));
    hub.start_all();
    hub.poll_all();
    hub.poll_all();
    let n = *counter.lock().unwrap();
    assert!(n >= 2);
}

#[test]
fn hub_counts_each_subscriber_call_once_per_reading() {
    let seen = Arc::new(Mutex::new(Vec::new()));
    let s1 = seen.clone();
    let s2 = seen.clone();
    let mut hub: Hub = SensorHub::new();
    hub.register(Box::new(Ticker::new(SensorKind::Gyroscope)));
    hub.subscribe(Box::new(move |r: &SensorReading| s1.lock().unwrap().push((1, r.timestamp_ns))));
    hub.subscribe(Box::new(move |r: &SensorReading| s2.lock().unwrap().push((2, r.timestamp_ns))));
    hub.start_all();
    hub.read(SensorKind::Gyroscope);
    hub.read(SensorKind::Gyroscope);
    assert_eq!(*seen.lock().unwrap(), vec![(1, 1), (2, 1), (1, 2), (2, 2)]);
}

#[test]
fn hub_read_of_unregistered_kind_is_none() {
    let mut hub: Hub = SensorHub::new();
    hub.register(Box::new(Ticker::new(SensorKind::Accelerometer)));
    hub.start_all();
    assert!(hub.read(SensorKind::Barometer).is_none());
    assert!(hub.last(SensorKind::Barometer).is_none());
}

#[test]
fn hub_stopped_sensor_gives_nothing_and_keeps_last() {
    let mut hub: Hub = SensorHub::new();
    hub.register(Box::new(Ticker::new(SensorKind::Temperature)));
    hub.start_all();
    let r = hub.read(SensorKind::Temperature).unwrap();
    hub.stop_all();
    assert!(hub.read(SensorKind::Temperature).is_none());
    assert_eq!(hub.last(SensorKind::Temperature).unwrap().timestamp_ns, r.timestamp_ns);
}

#[test]
fn hub_last_is_the_reading_just_read() {
    let mut hub: Hub = SensorHub::default();
    hub.register(Box::new(Ticker::new(SensorKind::Accelerometer)));
    assert!(hub.last(SensorKind::Accelerometer).is_none());
    hub.start_all();
    let r = hub.read(SensorKind::Accelerometer).unwrap();
    let last = hub.last(SensorKind::Accelerometer).unwrap();
    assert_eq!(last.timestamp_ns, r.timestamp_ns);
    assert_eq!(last.vec, r.vec);
    assert_eq!(last.kind, SensorKind::Accelerometer);
}

#[test]
fn hub_register_same_kind_replaces() {
    let mut hub: Hub = SensorHub::new();
    hub.register(Box::new(Ticker::new(SensorKind::Accelerometer)));
    hub.register(Box::new(Ticker::new(SensorKind::Microphone)));
    assert_eq!(hub.sensor_count(), 2);
    hub.register(Box::new(Ticker::new(SensorKind::Accelerometer)));
    assert_eq!(hub.sensor_count(), 2);
    hub.start_all();
    assert_eq!(hub.poll_all().len(), 2);
}

#[test]
fn hub_deliver_records_and_returns() {
    let mut hub: Hub = SensorHub::new();
    let out = hub.deliver(SensorKind::Humidity, Some(reading(SensorKind::Humidity, 42)));
    assert_eq!(out.unwrap().timestamp_ns, 42);
    assert_eq!(hub.last(SensorKind::Humidity).unwrap().timestamp_ns, 42);
    assert!(hub.deliver(SensorKind::Humidity, None).is_none());
    assert_eq!(hub.last(SensorKind::Humidity).unwrap().timestamp_ns, 42);
}

#[test]
fn kind_index_follows_declaration_order() {
    assert_eq!(SensorKind::Accelerometer.index(), 0);
    assert_eq!(SensorKind::Microphone.index(), 8);
    assert_eq!(SensorKind::Gps.index(), 11);
}

#[test]
fn error_messages() {
    assert_eq!(SensorError::NotAvailable.message(), "sensor not available");
    assert_eq!(SensorError::PermissionDenied.message(), "permission denied");
    assert_eq!(SensorError::IoError("disk".to_string()).message(), "io error: disk");
}

#[test]
fn duplicate_copies_raw_bytes() {
    let mut r = reading(SensorKind::CameraRgb, 7);
    r.raw = Some(vec![1, 2, 3]);
    let d = r.duplicate();
    assert_eq!(d.raw, Some(vec![1, 2, 3]));
    assert_eq!(d.timestamp_ns, 7);
    assert_eq!(d.kind, SensorKind::CameraRgb);
}

#[test]
fn simulated_sample_noise_values() {
    // 1 * 0x9E3779B97F4A7C15: low 16 bits 0x7C15, next 16 bits 0x7F4A.
    assert_eq!(gps_walk_noise(1), (0x7C15, 0x7F4A));
    // 2 * 0x9E3779B97F4A7C15 wraps to 0x3C6EF372FE94F82A.
    assert_eq!(gps_walk_noise(2), (0xF82A, 0xFE94));
    // 1 * 0x123456789ABCDEF0: bits 8..16 are 0xDE.
    assert_eq!(mic_noise(1), 0xDE);
    assert_eq!(mic_noise(0), 0);
    assert_eq!(gps_timestamp_ns(3), 3_000_000_000);
    assert_eq!(mic_timestamp_ns(2), 33_333_334);
}

#[test]
fn hub_register_as_uses_given_kind() {
    let mut hub: Hub = SensorHub::new();
    hub.register_as(SensorKind::Barometer, Box::new(Ticker::new(SensorKind::Accelerometer)));
    hub.start_all();
    assert!(hub.read(SensorKind::Accelerometer).is_none());
    let r = hub.read(SensorKind::Barometer).unwrap();
    assert_eq!(r.kind, SensorKind::Accelerometer);
    assert_eq!(hub.last(SensorKind::Barometer).unwrap().timestamp_ns, r.timestamp_ns);
}

#[test]
fn reading_constructors_fill_the_other_channels_with_zero() {
    let r = SensorReading::at_3d(SensorKind::Gyroscope, 9, [1, 2, 3]);
    assert_eq!((r.kind, r.timestamp_ns, r.vec, r.scalar), (SensorKind::Gyroscope, 9, [1, 2, 3], 0));
    assert!(r.raw.is_none());
    let r = SensorReading::at_scalar(SensorKind::Temperature, 10, 20.5f32.to_bits());
    assert_eq!(r.vec, [0, 0, 0]);
    assert_eq!(f32::from_bits(r.scalar), 20.5);
    assert!(r.raw.is_none());
}

#[test]
fn hub_poll_all_gives_one_reading_per_running_sensor_in_order() {
    let mut hub: Hub = SensorHub::new();
    hub.register(Box::new(Ticker::new(SensorKind::Gps)));
    hub.register(Box::new(Ticker::new(SensorKind::Accelerometer)));
    hub.register(Box::new(Ticker::new(SensorKind::Humidity)));
    hub.start_all();
    let out = hub.poll_all();
    let kinds: Vec<SensorKind> = out.iter().map(|r| r.kind).collect();
    assert_eq!(kinds, vec![SensorKind::Gps, SensorKind::Accelerometer, SensorKind::Humidity]);
    for r in &out {
        assert_eq!(hub.last(r.kind).unwrap().timestamp_ns, r.timestamp_ns);
    }
}

#[test]
fn hub_poll_all_before_start_reads_nothing_and_start_all_reaches_every_sensor() {
    let mut hub: Hub = SensorHub::new();
    hub.register(Box::new(Ticker::new(SensorKind::Gps)));
    hub.register(Box::new(Ticker::new(SensorKind::Barometer)));
    assert!(hub.poll_all().is_empty());
    assert!(hub.last(SensorKind::Gps).is_none());
    hub.start_all();
    let first = hub.poll_all();
    assert_eq!(first.len(), 2);
    assert_eq!(first[0].timestamp_ns, 1);
    assert_eq!(first[1].timestamp_ns, 1);
    let second = hub.poll_all();
    assert_eq!(second[0].timestamp_ns, 2);
    assert_eq!(second[1].timestamp_ns, 2);
    hub.stop_all();
    assert!(hub.poll_all().is_empty());
    assert_eq!(hub.last(SensorKind::Barometer).unwrap().timestamp_ns, 2);
}
