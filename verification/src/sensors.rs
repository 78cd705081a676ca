//! Sensor kinds, readings, the `Sensor` trait and the `SensorHub` that routes
//! readings from registered sensors to subscribers.
//!
//! Floating-point channel values travel through this module as IEEE-754
//! binary32 bit patterns (what `f32::to_bits` gives); nothing here does
//! arithmetic on them.

use vstd::prelude::*;
use crate::subscribers::SubscriberList;

verus! {

/// The kind of a sensor; a hub holds at most one sensor of each kind.
#[derive(Debug, Clone, Copy, PartialEq, Eq, Structural, Hash)]
pub enum SensorKind {
    /// Accelerometer (m/s²)
    Accelerometer,
    /// Gyroscope (rad/s)
    Gyroscope,
    /// Magnetometer (μT)
    Magnetometer,
    /// Ambient light (lux)
    AmbientLight,
    /// Proximity (cm)
    Proximity,
    /// Barometer (hPa)
    Barometer,
    /// Temperature (°C)
    Temperature,
    /// Humidity (%)
    Humidity,
    /// Microphone (dB)
    Microphone,
    /// Camera, RGB frames
    CameraRgb,
    /// Camera, depth frames
    CameraDepth,
    /// GPS (lat, lon, alt)
    Gps,
}

/// Number of sensor kinds.
pub const SENSOR_KIND_COUNT: usize = 12;

impl SensorKind {
    /// Position of the kind in declaration order.
    pub open spec fn ordinal(self) -> int {
        match self {
            SensorKind::Accelerometer => 0,
            SensorKind::Gyroscope => 1,
            SensorKind::Magnetometer => 2,
            SensorKind::AmbientLight => 3,
            SensorKind::Proximity => 4,
            SensorKind::Barometer => 5,
            SensorKind::Temperature => 6,
            SensorKind::Humidity => 7,
            SensorKind::Microphone => 8,
            SensorKind::CameraRgb => 9,
            SensorKind::CameraDepth => 10,
            SensorKind::Gps => 11,
        }
    }

    /// Position of the kind in declaration order.
    pub fn index(&self) -> (i: usize)
        ensures
            i == self.ordinal(),
            i < SENSOR_KIND_COUNT,
    {
        match self {
            SensorKind::Accelerometer => 0,
            SensorKind::Gyroscope => 1,
            SensorKind::Magnetometer => 2,
            SensorKind::AmbientLight => 3,
            SensorKind::Proximity => 4,
            SensorKind::Barometer => 5,
            SensorKind::Temperature => 6,
            SensorKind::Humidity => 7,
            SensorKind::Microphone => 8,
            SensorKind::CameraRgb => 9,
            SensorKind::CameraDepth => 10,
            SensorKind::Gps => 11,
        }
    }
}

/// Distinct kinds have distinct ordinals.
pub proof fn lemma_ordinal_injective(a: SensorKind, b: SensorKind)
    ensures
        a.ordinal() == b.ordinal() <==> a == b,
        0 <= a.ordinal() < SENSOR_KIND_COUNT,
{
}

/// Failure of a sensor operation.
#[derive(Debug)]
pub enum SensorError {
    NotAvailable,
    PermissionDenied,
    IoError(String),
}

/// The human-readable text of an error.
pub open spec fn error_text(e: SensorError) -> Seq<char> {
    match e {
        SensorError::NotAvailable => "sensor not available"@,
        SensorError::PermissionDenied => "permission denied"@,
        SensorError::IoError(msg) => "io error: "@ + msg@,
    }
}

impl SensorError {
    /// The text the error displays as.
    pub fn message(&self) -> (s: String)
        ensures
            s@ == error_text(*self),
    {
        match self {
            SensorError::NotAvailable => String::from_str("sensor not available"),
            SensorError::PermissionDenied => String::from_str("permission denied"),
            SensorError::IoError(e) => {
                let mut s = String::from_str("io error: ");
                s.append(e.as_str());
                s
            },
        }
    }
}


/// One sensor reading. `vec` and `scalar` hold binary32 bit patterns.
#[derive(Debug, Clone)]
pub struct SensorReading {
    pub kind: SensorKind,
    /// Nanoseconds since the UNIX epoch.
    pub timestamp_ns: u128,
    /// Three-axis value (acceleration, rotation rate, field, ...), as bit patterns.
    pub vec: [u32; 3],
    /// Scalar value (pressure, temperature, level, ...), as a bit pattern.
    pub scalar: u32,
    /// Raw bytes (camera frames, audio buffers).
    pub raw: Option<Vec<u8>>,
}

/// The contents of a reading: kind, timestamp, axes, scalar and raw bytes.
pub type ReadingView = (SensorKind, u128, Seq<u32>, u32, Option<Seq<u8>>);

impl View for SensorReading {
    type V = ReadingView;

    open spec fn view(&self) -> ReadingView {
        (
            self.kind,
            self.timestamp_ns,
            self.vec@,
            self.scalar,
            match self.raw {
                Some(v) => Some(v@),
                None => None,
            },
        )
    }
}

/// The readings among `outs`, in order.
pub open spec fn present(outs: Seq<Option<SensorReading>>) -> Seq<ReadingView> {
    outs.filter_map(|o: Option<SensorReading>| opt_view(o))
}

/// The contents of each reading of `rs`, in order.
pub open spec fn views(rs: Seq<SensorReading>) -> Seq<ReadingView> {
    rs.map_values(|r: SensorReading| r@)
}

/// The contents of an optional reading.
pub open spec fn opt_view(r: Option<SensorReading>) -> Option<ReadingView> {
    match r {
        Some(x) => Some(x@),
        None => None,
    }
}

impl SensorReading {
    /// A three-axis reading taken at `timestamp_ns`: zero scalar, no raw bytes.
    pub fn at_3d(kind: SensorKind, timestamp_ns: u128, vec: [u32; 3]) -> (r: SensorReading)
        ensures
            r@ == (kind, timestamp_ns, vec@, 0u32, None::<Seq<u8>>),
    {
        SensorReading { kind, timestamp_ns, vec, scalar: 0, raw: None }
    }

    /// A scalar reading taken at `timestamp_ns`: zero axes, no raw bytes.
    pub fn at_scalar(kind: SensorKind, timestamp_ns: u128, scalar: u32) -> (r: SensorReading)
        ensures
            r@ == (kind, timestamp_ns, seq![0u32, 0u32, 0u32], scalar, None::<Seq<u8>>),
    {
        let r = SensorReading { kind, timestamp_ns, vec: [0, 0, 0], scalar, raw: None };
        assert(r.vec@ =~= seq![0u32, 0u32, 0u32]);
        r
    }

    /// A copy of the reading with the same contents.
    pub fn duplicate(&self) -> (r: SensorReading)
        ensures
            r@ == self@,
    {
        let raw = match &self.raw {
            Some(v) => Some(v.clone()),
            None => None,
        };
        let r = SensorReading {
            kind: self.kind,
            timestamp_ns: self.timestamp_ns,
            vec: self.vec,
            scalar: self.scalar,
            raw,
        };
        proof {
            if self.raw is Some {
                assert(r.raw.unwrap()@ =~= self.raw.unwrap()@);
            }
        }
        r
    }
}

/// A source of readings, implemented by each concrete sensor.
pub trait Sensor: Send {
    fn kind(&self) -> SensorKind;

    fn name(&self) -> &str;

    fn read(&mut self) -> Option<SensorReading>;

    fn start(&mut self) -> Result<(), SensorError>;

    fn stop(&mut self) -> Result<(), SensorError>;

    fn is_running(&self) -> bool;
}

/// A boxed sensor of any type behaves as the sensor inside it.
impl Sensor for Box<dyn Sensor> {
    fn kind(&self) -> SensorKind {
        (**self).kind()
    }

    fn name(&self) -> &str {
        (**self).name()
    }

    fn read(&mut self) -> Option<SensorReading> {
        (**self).read()
    }

    fn start(&mut self) -> Result<(), SensorError> {
        (**self).start()
    }

    fn stop(&mut self) -> Result<(), SensorError> {
        (**self).stop()
    }

    fn is_running(&self) -> bool {
        (**self).is_running()
    }
}

/// Routes readings from registered sensors (at most one per kind) to
/// subscribers, and remembers the last reading taken of each kind.
pub struct SensorHub<S: Sensor, F: FnMut(&SensorReading)> {
    /// Registered sensors, each with the kind it was registered under.
    sensors: Vec<(SensorKind, S)>,
    /// The last reading of each kind, indexed by `SensorKind::index`.
    last_readings: Vec<Option<SensorReading>>,
    /// Callbacks handed every reading that the hub delivers.
    subscribers: SubscriberList<F>,
}

impl<S: Sensor, F: FnMut(&SensorReading)> SensorHub<S, F> {
    /// Well-formedness: one slot per kind for last readings, no kind
    /// registered twice, and every subscriber accepts every reading.
    pub closed spec fn wf(&self) -> bool {
        &&& self.last_readings@.len() == SENSOR_KIND_COUNT
        &&& forall|i: int, j: int|
            0 <= i < j < self.sensors@.len() ==> #[trigger] self.sensors@[i].0
                != #[trigger] self.sensors@[j].0
        &&& forall|i: int, r: &SensorReading|
            0 <= i < self.subscribers.values().len() ==> #[trigger] call_requires(
                self.subscribers.values()[i],
                (r,),
            )
    }

    /// The kinds of the registered sensors, in registration order.
    pub closed spec fn kinds(&self) -> Seq<SensorKind> {
        self.sensors@.map_values(|p: (SensorKind, S)| p.0)
    }

    /// The registered sensors, in registration order.
    pub closed spec fn sensor_values(&self) -> Seq<S> {
        self.sensors@.map_values(|p: (SensorKind, S)| p.1)
    }

    /// The last reading taken of kind `k`, if any.
    pub closed spec fn last_reading(&self, k: SensorKind) -> Option<ReadingView> {
        opt_view(self.last_readings@[k.ordinal()])
    }

    /// `after` is `self` once each registered sensor, in registration order,
    /// has given outcome `outs[i]`: a reading becomes the last reading of the
    /// sensor's kind, no reading leaves that kind's last reading as it was.
    pub open spec fn polled(self, after: Self, outs: Seq<Option<SensorReading>>) -> bool {
        &&& outs.len() == self.kinds().len()
        &&& forall|i: int|
            0 <= i < outs.len() ==> match #[trigger] outs[i] {
                Some(v) => after.last_reading(self.kinds()[i]) == Some(v@),
                None => after.last_reading(self.kinds()[i]) == self.last_reading(self.kinds()[i]),
            }
    }

    /// The subscribers, in subscription order.
    pub closed spec fn subscriber_values(&self) -> Seq<F> {
        self.subscribers.values()
    }

    /// The readings handed to the subscribers since the hub was made, in
    /// order: one entry per delivery, in which each subscriber, in
    /// subscription order, was called once with that reading.
    pub closed spec fn notified(&self) -> Seq<ReadingView> {
        self.subscribers.handed()
    }

    /// An empty hub.
    pub fn new() -> (hub: Self)
        ensures
            hub.wf(),
            hub.kinds() == Seq::<SensorKind>::empty(),
            hub.sensor_values() == Seq::<S>::empty(),
            forall|k: SensorKind| #[trigger] hub.last_reading(k) is None,
            hub.subscriber_values() == Seq::<F>::empty(),
            hub.notified() == Seq::<ReadingView>::empty(),
    {
        let mut last_readings: Vec<Option<SensorReading>> = Vec::new();
        let mut i: usize = 0;
        while i < SENSOR_KIND_COUNT
            invariant
                i <= SENSOR_KIND_COUNT,
                last_readings@.len() == i,
                forall|j: int| 0 <= j < i ==> last_readings@[j] is None,
            decreases SENSOR_KIND_COUNT - i,
        {
            last_readings.push(None);
            i = i + 1;
        }
        let hub = SensorHub { sensors: Vec::new(), last_readings, subscribers: SubscriberList::new() };
        assert(hub.kinds() =~= Seq::<SensorKind>::empty());
        assert(hub.sensor_values() =~= Seq::<S>::empty());
        assert forall|k: SensorKind| #[trigger] hub.last_reading(k) is None by {
            lemma_ordinal_injective(k, k);
        }
        hub
    }

    /// `after` is `self` with sensor `s` registered under kind `k`: a sensor
    /// already registered under `k` is replaced in place, otherwise `s` is
    /// appended; last readings and subscribers are untouched.
    pub open spec fn registered(self, after: Self, k: SensorKind, s: S) -> bool {
        &&& self.kinds().contains(k) ==> {
            &&& after.kinds() == self.kinds()
            &&& exists|i: int|
                0 <= i < self.kinds().len() && self.kinds()[i] == k && after.sensor_values()
                    == self.sensor_values().update(i, s)
        }
        &&& !self.kinds().contains(k) ==> {
            &&& after.kinds() == self.kinds().push(k)
            &&& after.sensor_values() == self.sensor_values().push(s)
        }
        &&& forall|k2: SensorKind| #[trigger] after.last_reading(k2) == self.last_reading(k2)
        &&& after.subscriber_values() == self.subscriber_values()
    }

    /// Registers a sensor under the kind its `kind` returns; see `register_as`.
    pub fn register(&mut self, sensor: S)
        requires
            old(self).wf(),
        ensures
            final(self).wf(),
            exists|k: SensorKind|
                call_ensures(S::kind, (&sensor,), k) && #[trigger] old(self).registered(
                    *final(self),
                    k,
                    sensor,
                ),
    {
        let kind = sensor.kind();
        self.register_as(kind, sensor);
    }

    /// Registers `sensor` under `kind`, replacing in place a sensor already
    /// registered under that kind.
    pub fn register_as(&mut self, kind: SensorKind, sensor: S)
        requires
            old(self).wf(),
        ensures
            final(self).wf(),
            old(self).registered(*final(self), kind, sensor),
            final(self).notified() == old(self).notified(),
            exists|i: int|
                0 <= i < final(self).kinds().len() && #[trigger] final(self).kinds()[i] == kind
                    && final(self).sensor_values()[i] == sensor,
    {
        let pos = self.position(kind);
        let mut sensors: Vec<(SensorKind, S)> = Vec::new();
        std::mem::swap(&mut sensors, &mut self.sensors);
        let ghost old_sensors = sensors@;
        let ghost added = sensor;
        match pos {
            Some(i) => {
                sensors.set(i, (kind, sensor));
                proof {
                    assert(sensors@ == old_sensors.update(i as int, (kind, added)));
                    assert(sensors@.map_values(|p: (SensorKind, S)| p.0) =~= old_sensors.map_values(
                        |p: (SensorKind, S)| p.0,
                    ));
                    assert(sensors@.map_values(|p: (SensorKind, S)| p.1) =~= old_sensors.map_values(
                        |p: (SensorKind, S)| p.1,
                    ).update(i as int, added));
                }
            },
            None => {
                sensors.push((kind, sensor));
                proof {
                    assert(sensors@.map_values(|p: (SensorKind, S)| p.0) =~= old_sensors.map_values(
                        |p: (SensorKind, S)| p.0,
                    ).push(kind));
                    assert(sensors@.map_values(|p: (SensorKind, S)| p.1) =~= old_sensors.map_values(
                        |p: (SensorKind, S)| p.1,
                    ).push(added));
                    assert forall|a: int, b: int|
                        0 <= a < b < sensors@.len() implies #[trigger] sensors@[a].0
                        != #[trigger] sensors@[b].0 by {
                        if b == sensors@.len() - 1 {
                            assert(old_sensors.map_values(|p: (SensorKind, S)| p.0)[a] == sensors@[a].0);
                        }
                    }
                }
            },
        }
        self.sensors = sensors;
        proof {
            assert(old(self).registered(*self, kind, added));
            law_register_holds_new_sensor(old(self), self, kind, added);
        }
    }

    /// Adds a callback that is handed every reading the hub delivers.
    pub fn subscribe(&mut self, f: F)
        requires
            forall|r: &SensorReading| call_requires(f, (r,)),
            old(self).wf(),
        ensures
            final(self).wf(),
            final(self).subscriber_values() == old(self).subscriber_values().push(f),
            final(self).kinds() == old(self).kinds(),
            final(self).sensor_values() == old(self).sensor_values(),
            forall|k: SensorKind| #[trigger] final(self).last_reading(k) == old(self).last_reading(k),
            final(self).notified() == old(self).notified(),
    {
        let ghost old_subs = self.subscribers.values();
        self.subscribers.push(f);
        assert forall|i: int, r: &SensorReading|
            0 <= i < self.subscribers.values().len() implies #[trigger] call_requires(
                self.subscribers.values()[i],
                (r,),
            ) by {
            if i < old_subs.len() {
                assert(old_subs[i] == self.subscribers.values()[i]);
            }
        }
    }

    /// Hands a reading taken of `kind` to every subscriber, in subscription
    /// order, and records it as the last reading of `kind`; a missing reading
    /// changes nothing. Returns what it was given.
    pub fn deliver(&mut self, kind: SensorKind, reading: Option<SensorReading>) -> (out: Option<SensorReading>)
        requires
            old(self).wf(),
        ensures
            final(self).wf(),
            out == reading,
            final(self).kinds() == old(self).kinds(),
            final(self).sensor_values() == old(self).sensor_values(),
            final(self).subscriber_values() == old(self).subscriber_values(),
            reading is Some ==> final(self).last_reading(kind) == opt_view(reading),
            reading is None ==> final(self).last_reading(kind) == old(self).last_reading(kind),
            forall|k: SensorKind|
                k != kind ==> #[trigger] final(self).last_reading(k) == old(self).last_reading(k),
            reading matches Some(r) ==> forall|i: int|
                0 <= i < old(self).subscriber_values().len() ==> call_ensures(
                    #[trigger] old(self).subscriber_values()[i],
                    (&r,),
                    (),
                ),
            reading matches Some(r) ==> final(self).notified() == old(self).notified().push(r@),
            reading is None ==> final(self).notified() == old(self).notified(),
    {
        match reading {
            Some(r) => {
                self.subscribers.notify(&r);
                let idx: usize = kind.index();
                let copy = r.duplicate();
                self.last_readings.set(idx, Some(copy));
                proof {
                    assert forall|k: SensorKind| k != kind implies #[trigger] self.last_reading(k)
                        == old(self).last_reading(k) by {
                        lemma_ordinal_injective(k, kind);
                    }
                }
                Some(r)
            },
            None => None,
        }
    }

    /// Reads the sensor registered at position `i` and delivers what it gives.
    fn read_at(&mut self, i: usize) -> (out: Option<SensorReading>)
        requires
            i < old(self).kinds().len(),
            old(self).wf(),
        ensures
            final(self).wf(),
            final(self).kinds() == old(self).kinds(),
            final(self).subscriber_values() == old(self).subscriber_values(),
            final(self).sensor_values().len() == old(self).sensor_values().len(),
            forall|j: int|
                0 <= j < old(self).sensor_values().len() && j != i
                    ==> #[trigger] final(self).sensor_values()[j] == old(self).sensor_values()[j],
            exists|m: &mut S|
                #[trigger] call_ensures(S::read, (m,), out) && mut_ref_current(m) == old(
                    self,
                ).sensor_values()[i as int] && mut_ref_future(m) == final(self).sensor_values()[i as int],
            out is Some ==> final(self).last_reading(old(self).kinds()[i as int]) == opt_view(out),
            out is None ==> final(self).last_reading(old(self).kinds()[i as int]) == old(
                self,
            ).last_reading(old(self).kinds()[i as int]),
            forall|k: SensorKind|
                k != old(self).kinds()[i as int] ==> #[trigger] final(self).last_reading(k) == old(
                    self,
                ).last_reading(k),
            out matches Some(r) ==> forall|j: int|
                0 <= j < old(self).subscriber_values().len() ==> call_ensures(
                    #[trigger] old(self).subscriber_values()[j],
                    (&r,),
                    (),
                ),
            out matches Some(r) ==> final(self).notified() == old(self).notified().push(r@),
            out is None ==> final(self).notified() == old(self).notified(),
    {
        let kind = self.sensors[i].0;
        let ghost old_sensors = self.sensors@;
        let taken = self.sensors[i].1.read();
        proof {
            assert forall|j: int| 0 <= j < self.sensors@.len() implies #[trigger] self.sensors@[j].0
                == old_sensors[j].0 by {}
            assert(self.kinds() =~= old(self).kinds());
            assert(self.subscriber_values() == old(self).subscriber_values());
            assert forall|j: int|
                0 <= j < old(self).sensor_values().len() && j != i implies #[trigger] self.sensor_values()[j]
                    == old(self).sensor_values()[j] by {
                assert(self.sensors@[j] == old_sensors[j]);
            }
        }
        self.deliver(kind, taken)
    }

    /// Reads the sensor registered under `kind`. With no such sensor the hub
    /// is left as it was and the result is `None`; otherwise what the sensor
    /// gives is delivered (see `deliver`) and returned.
    pub fn read(&mut self, kind: SensorKind) -> (out: Option<SensorReading>)
        requires
            old(self).wf(),
        ensures
            final(self).wf(),
            final(self).kinds() == old(self).kinds(),
            final(self).subscriber_values() == old(self).subscriber_values(),
            !old(self).kinds().contains(kind) ==> out is None && final(self).sensor_values()
                == old(self).sensor_values(),
            final(self).sensor_values().len() == old(self).sensor_values().len(),
            forall|j: int|
                0 <= j < old(self).kinds().len() && old(self).kinds()[j] != kind
                    ==> #[trigger] final(self).sensor_values()[j] == old(self).sensor_values()[j],
            old(self).kinds().contains(kind) ==> exists|i: int, m: &mut S|
                #![trigger old(self).kinds()[i], call_ensures(S::read, (m,), out)]
                0 <= i < old(self).kinds().len() && old(self).kinds()[i] == kind && call_ensures(
                    S::read,
                    (m,),
                    out,
                ) && mut_ref_current(m) == old(self).sensor_values()[i] && mut_ref_future(m)
                    == final(self).sensor_values()[i],
            out is Some ==> old(self).kinds().contains(kind) && final(self).last_reading(kind)
                == opt_view(out),
            out is None ==> final(self).last_reading(kind) == old(self).last_reading(kind),
            forall|k: SensorKind|
                k != kind ==> #[trigger] final(self).last_reading(k) == old(self).last_reading(k),
            out matches Some(r) ==> forall|j: int|
                0 <= j < old(self).subscriber_values().len() ==> call_ensures(
                    #[trigger] old(self).subscriber_values()[j],
                    (&r,),
                    (),
                ),
            out matches Some(r) ==> final(self).notified() == old(self).notified().push(r@),
            out is None ==> final(self).notified() == old(self).notified(),
    {
        match self.position(kind) {
            Some(i) => self.read_at(i),
            None => None,
        }
    }

    /// Reads every registered sensor once, in registration order, and returns
    /// the readings they gave.
    pub fn poll_all(&mut self) -> (out: Vec<SensorReading>)
        requires
            old(self).wf(),
        ensures
            final(self).wf(),
            final(self).kinds() == old(self).kinds(),
            final(self).subscriber_values() == old(self).subscriber_values(),
            out@.len() <= old(self).kinds().len(),
            final(self).sensor_values().len() == old(self).sensor_values().len(),
            exists|outs: Seq<Option<SensorReading>>, calls: Seq<&mut S>|
                #![trigger old(self).polled(*final(self), outs), calls.len()]
                old(self).polled(*final(self), outs) && present(outs) == views(out@) && calls.len()
                    == outs.len() && forall|i: int|
                    #![trigger calls[i]]
                    0 <= i < outs.len() ==> call_ensures(S::read, (calls[i],), outs[i])
                        && mut_ref_current(calls[i]) == old(self).sensor_values()[i]
                        && mut_ref_future(calls[i]) == final(self).sensor_values()[i],
            forall|j: int, s: int|
                #![trigger old(self).subscriber_values()[s], out@[j]]
                0 <= j < out@.len() && 0 <= s < old(self).subscriber_values().len() ==> call_ensures(
                    old(self).subscriber_values()[s],
                    (&out@[j],),
                    (),
                ),
            forall|k: SensorKind|
                !old(self).kinds().contains(k) ==> #[trigger] final(self).last_reading(k) == old(
                    self,
                ).last_reading(k),
            final(self).notified() == old(self).notified() + views(out@),
    {
        let n: usize = self.sensors.len();
        let ghost kinds0 = self.kinds();
        proof { self.lemma_kinds_distinct(); }
        let mut readings: Vec<SensorReading> = Vec::new();
        let ghost mut outs: Seq<Option<SensorReading>> = Seq::empty();
        let mut i: usize = 0;
        assert(present(outs) =~= views(readings@));
        assert(self.notified() =~= old(self).notified() + views(readings@));
        assert(Seq::<&mut S>::empty().len() == 0);
        while i < n
            invariant
                n == kinds0.len(),
                kinds0 == old(self).kinds(),
                self.wf(),
                self.kinds() == kinds0,
                self.subscriber_values() == old(self).subscriber_values(),
                i <= n,
                outs.len() == i,
                readings@.len() <= i,
                present(outs) == views(readings@),
                self.notified() == old(self).notified() + views(readings@),
                self.sensor_values().len() == old(self).sensor_values().len(),
                forall|a: int|
                    i <= a < n ==> #[trigger] self.sensor_values()[a] == old(self).sensor_values()[a],
                exists|calls: Seq<&mut S>|
                    #![trigger calls.len()]
                    calls.len() == i && forall|a: int|
                        #![trigger calls[a]]
                        0 <= a < i ==> call_ensures(S::read, (calls[a],), outs[a])
                            && mut_ref_current(calls[a]) == old(self).sensor_values()[a]
                            && mut_ref_future(calls[a]) == self.sensor_values()[a],
                forall|a: int|
                    0 <= a < i ==> match #[trigger] outs[a] {
                        Some(v) => self.last_reading(kinds0[a]) == Some(v@),
                        None => self.last_reading(kinds0[a]) == old(self).last_reading(kinds0[a]),
                    },
                forall|k: SensorKind|
                    !kinds0.subrange(0, i as int).contains(k) ==> #[trigger] self.last_reading(k)
                        == old(self).last_reading(k),
                forall|j: int, s: int|
                    #![trigger old(self).subscriber_values()[s], readings@[j]]
                    0 <= j < readings@.len() && 0 <= s < old(self).subscriber_values().len()
                        ==> call_ensures(old(self).subscriber_values()[s], (&readings@[j],), ()),
            decreases n - i,
        {
            let ghost before = *self;
            let r = self.read_at(i);
            let ghost rr = r;
            proof {
                assert(!kinds0.subrange(0, i as int).contains(kinds0[i as int])) by {
                    if kinds0.subrange(0, i as int).contains(kinds0[i as int]) {
                        let a = choose|a: int|
                            0 <= a < i && kinds0.subrange(0, i as int)[a] == kinds0[i as int];
                        assert(kinds0[a] == kinds0[i as int]);
                    }
                }
                assert forall|a: int| 0 <= a < i implies self.last_reading(kinds0[a])
                    == before.last_reading(kinds0[a]) by {
                    assert(kinds0[a] != kinds0[i as int]);
                }
                assert forall|k: SensorKind| !kinds0.subrange(0, i + 1).contains(k)
                    implies #[trigger] self.last_reading(k) == old(self).last_reading(k) by {
                    assert(kinds0.subrange(0, i + 1)[i as int] == kinds0[i as int]);
                    if kinds0.subrange(0, i as int).contains(k) {
                        let a = choose|a: int| 0 <= a < i && kinds0.subrange(0, i as int)[a] == k;
                        assert(kinds0.subrange(0, i + 1)[a] == k);
                    }
                }
            }
            let ghost out_before = readings@;
            let ghost outs_before = outs;
            match r {
                Some(x) => {
                    let ghost xv = x@;
                    let ghost xr = x;
                    readings.push(x);
                    proof {
                        assert forall|j: int, t: int|
                            #![trigger old(self).subscriber_values()[t], readings@[j]]
                            0 <= j < readings@.len() && 0 <= t < old(self).subscriber_values().len()
                                implies call_ensures(old(self).subscriber_values()[t], (&readings@[j],), ()) by {
                            if j < out_before.len() {
                                assert(readings@[j] == out_before[j]);
                            }
                        }
                        outs = outs.push(Some(xr));
                        assert(outs.drop_last() =~= outs_before);
                        assert(views(readings@) =~= views(out_before).push(xv));
                        assert(present(outs) =~= present(outs_before).push(xv));
                        assert(self.notified() =~= old(self).notified() + views(readings@));
                    }
                },
                None => {
                    proof {
                        outs = outs.push(None);
                        assert(outs.drop_last() =~= outs_before);
                        assert(present(outs) =~= present(outs_before));
                    }
                },
            }
            proof {
                assert forall|a: int| 0 <= a < i + 1 implies match #[trigger] outs[a] {
                    Some(v) => self.last_reading(kinds0[a]) == Some(v@),
                    None => self.last_reading(kinds0[a]) == old(self).last_reading(kinds0[a]),
                } by {
                    if a < i {
                        assert(outs[a] == outs_before[a]);
                    }
                }
                assert(outs[i as int] == rr);
                assert(exists|next: Seq<&mut S>|
                    #![trigger next.len()]
                    next.len() == i + 1 && forall|a: int|
                        #![trigger next[a]]
                        0 <= a < i + 1 ==> call_ensures(S::read, (next[a],), outs[a])
                            && mut_ref_current(next[a]) == old(self).sensor_values()[a]
                            && mut_ref_future(next[a]) == self.sensor_values()[a]) by {
                    let done = choose|done: Seq<&mut S>|
                        #![trigger done.len()]
                        done.len() == i && forall|a: int|
                            #![trigger done[a]]
                            0 <= a < i ==> call_ensures(S::read, (done[a],), outs_before[a])
                                && mut_ref_current(done[a]) == old(self).sensor_values()[a]
                                && mut_ref_future(done[a]) == before.sensor_values()[a];
                    let m = choose|m: &mut S|
                        #[trigger] call_ensures(S::read, (m,), rr) && mut_ref_current(m)
                            == before.sensor_values()[i as int] && mut_ref_future(m)
                            == self.sensor_values()[i as int];
                    let next = done.push(m);
                    assert forall|a: int| #![trigger next[a]] 0 <= a < i + 1 implies call_ensures(
                        S::read,
                        (next[a],),
                        outs[a],
                    ) && mut_ref_current(next[a]) == old(self).sensor_values()[a]
                        && mut_ref_future(next[a]) == self.sensor_values()[a] by {
                        if a < i {
                            assert(outs[a] == outs_before[a]);
                            assert(next[a] == done[a]);
                            assert(self.sensor_values()[a] == before.sensor_values()[a]);
                        } else {
                            assert(before.sensor_values()[a] == old(self).sensor_values()[a]);
                        }
                    }
                    assert(next.len() == i + 1);
                }
                assert forall|a: int| i + 1 <= a < n implies #[trigger] self.sensor_values()[a]
                    == old(self).sensor_values()[a] by {
                    assert(self.sensor_values()[a] == before.sensor_values()[a]);
                }
            }
            i = i + 1;
        }
        proof {
            assert(old(self).polled(*self, outs));
        }
        readings
    }

    /// Starts the sensor registered at position `i` and returns what `start` gave.
    fn start_at(&mut self, i: usize) -> (res: Result<(), SensorError>)
        requires
            i < old(self).kinds().len(),
            old(self).wf(),
        ensures
            final(self).wf(),
            final(self).kinds() == old(self).kinds(),
            final(self).subscriber_values() == old(self).subscriber_values(),
            forall|k: SensorKind| #[trigger] final(self).last_reading(k) == old(self).last_reading(k),
            final(self).notified() == old(self).notified(),
            final(self).sensor_values().len() == old(self).sensor_values().len(),
            forall|j: int|
                0 <= j < old(self).sensor_values().len() && j != i
                    ==> #[trigger] final(self).sensor_values()[j] == old(self).sensor_values()[j],
            exists|m: &mut S|
                #[trigger] call_ensures(S::start, (m,), res) && mut_ref_current(m) == old(
                    self,
                ).sensor_values()[i as int] && mut_ref_future(m) == final(self).sensor_values()[i as int],
    {
        let ghost old_sensors = self.sensors@;
        let res = self.sensors[i].1.start();
        proof {
            assert forall|j: int| 0 <= j < self.sensors@.len() implies #[trigger] self.sensors@[j].0
                == old_sensors[j].0 by {}
            assert(self.kinds() =~= old(self).kinds());
            assert forall|j: int|
                0 <= j < old(self).sensor_values().len() && j != i implies #[trigger] self.sensor_values()[j]
                    == old(self).sensor_values()[j] by {
                assert(self.sensors@[j] == old_sensors[j]);
            }
        }
        res
    }

    /// Starts every registered sensor, in registration order; failures are ignored.
    pub fn start_all(&mut self)
        requires
            old(self).wf(),
        ensures
            final(self).wf(),
            final(self).kinds() == old(self).kinds(),
            final(self).subscriber_values() == old(self).subscriber_values(),
            forall|k: SensorKind| #[trigger] final(self).last_reading(k) == old(self).last_reading(k),
            final(self).notified() == old(self).notified(),
            final(self).sensor_values().len() == old(self).sensor_values().len(),
            exists|results: Seq<Result<(), SensorError>>, calls: Seq<&mut S>|
                #![trigger results.len(), calls.len()]
                results.len() == old(self).kinds().len() && calls.len() == results.len() && forall|i: int|
                    #![trigger calls[i]]
                    0 <= i < results.len() ==> call_ensures(S::start, (calls[i],), results[i])
                        && mut_ref_current(calls[i]) == old(self).sensor_values()[i]
                        && mut_ref_future(calls[i]) == final(self).sensor_values()[i],
    {
        let n: usize = self.sensors.len();
        let ghost mut results: Seq<Result<(), SensorError>> = Seq::empty();
        let mut i: usize = 0;
        assert(Seq::<&mut S>::empty().len() == 0);
        while i < n
            invariant
                n == old(self).kinds().len(),
                self.wf(),
                self.kinds() == old(self).kinds(),
                self.subscriber_values() == old(self).subscriber_values(),
                forall|k: SensorKind| #[trigger] self.last_reading(k) == old(self).last_reading(k),
                self.notified() == old(self).notified(),
                i <= n,
                results.len() == i,
                self.sensor_values().len() == old(self).sensor_values().len(),
                forall|a: int|
                    i <= a < n ==> #[trigger] self.sensor_values()[a] == old(self).sensor_values()[a],
                exists|calls: Seq<&mut S>|
                    #![trigger calls.len()]
                    calls.len() == i && forall|a: int|
                        #![trigger calls[a]]
                        0 <= a < i ==> call_ensures(S::start, (calls[a],), results[a])
                            && mut_ref_current(calls[a]) == old(self).sensor_values()[a]
                            && mut_ref_future(calls[a]) == self.sensor_values()[a],
            decreases n - i,
        {
            let ghost before = *self;
            let res = self.start_at(i);
            proof {
                let results_before = results;
                results = results.push(res);
                assert(exists|next: Seq<&mut S>|
                    #![trigger next.len()]
                    next.len() == i + 1 && forall|a: int|
                        #![trigger next[a]]
                        0 <= a < i + 1 ==> call_ensures(S::start, (next[a],), results[a])
                            && mut_ref_current(next[a]) == old(self).sensor_values()[a]
                            && mut_ref_future(next[a]) == self.sensor_values()[a]) by {
                    let done = choose|done: Seq<&mut S>|
                        #![trigger done.len()]
                        done.len() == i && forall|a: int|
                            #![trigger done[a]]
                            0 <= a < i ==> call_ensures(S::start, (done[a],), results_before[a])
                                && mut_ref_current(done[a]) == old(self).sensor_values()[a]
                                && mut_ref_future(done[a]) == before.sensor_values()[a];
                    let m = choose|m: &mut S|
                        #[trigger] call_ensures(S::start, (m,), res) && mut_ref_current(m)
                            == before.sensor_values()[i as int] && mut_ref_future(m)
                            == self.sensor_values()[i as int];
                    let next = done.push(m);
                    assert forall|a: int| #![trigger next[a]] 0 <= a < i + 1 implies call_ensures(
                        S::start,
                        (next[a],),
                        results[a],
                    ) && mut_ref_current(next[a]) == old(self).sensor_values()[a]
                        && mut_ref_future(next[a]) == self.sensor_values()[a] by {
                        if a < i {
                            assert(results[a] == results_before[a]);
                            assert(next[a] == done[a]);
                            assert(self.sensor_values()[a] == before.sensor_values()[a]);
                        }
                    }
                    assert(next.len() == i + 1);
                }
                assert forall|a: int| i + 1 <= a < n implies #[trigger] self.sensor_values()[a]
                    == old(self).sensor_values()[a] by {
                    assert(self.sensor_values()[a] == before.sensor_values()[a]);
                }
            }
            i = i + 1;
        }
        assert(results.len() == n);
    }

    /// Stops the sensor registered at position `i` and returns what `stop` gave.
    fn stop_at(&mut self, i: usize) -> (res: Result<(), SensorError>)
        requires
            i < old(self).kinds().len(),
            old(self).wf(),
        ensures
            final(self).wf(),
            final(self).kinds() == old(self).kinds(),
            final(self).subscriber_values() == old(self).subscriber_values(),
            forall|k: SensorKind| #[trigger] final(self).last_reading(k) == old(self).last_reading(k),
            final(self).notified() == old(self).notified(),
            final(self).sensor_values().len() == old(self).sensor_values().len(),
            forall|j: int|
                0 <= j < old(self).sensor_values().len() && j != i
                    ==> #[trigger] final(self).sensor_values()[j] == old(self).sensor_values()[j],
            exists|m: &mut S|
                #[trigger] call_ensures(S::stop, (m,), res) && mut_ref_current(m) == old(
                    self,
                ).sensor_values()[i as int] && mut_ref_future(m) == final(self).sensor_values()[i as int],
    {
        let ghost old_sensors = self.sensors@;
        let res = self.sensors[i].1.stop();
        proof {
            assert forall|j: int| 0 <= j < self.sensors@.len() implies #[trigger] self.sensors@[j].0
                == old_sensors[j].0 by {}
            assert(self.kinds() =~= old(self).kinds());
            assert forall|j: int|
                0 <= j < old(self).sensor_values().len() && j != i implies #[trigger] self.sensor_values()[j]
                    == old(self).sensor_values()[j] by {
                assert(self.sensors@[j] == old_sensors[j]);
            }
        }
        res
    }

    /// Stops every registered sensor, in registration order; failures are ignored.
    pub fn stop_all(&mut self)
        requires
            old(self).wf(),
        ensures
            final(self).wf(),
            final(self).kinds() == old(self).kinds(),
            final(self).subscriber_values() == old(self).subscriber_values(),
            forall|k: SensorKind| #[trigger] final(self).last_reading(k) == old(self).last_reading(k),
            final(self).notified() == old(self).notified(),
            final(self).sensor_values().len() == old(self).sensor_values().len(),
            exists|results: Seq<Result<(), SensorError>>, calls: Seq<&mut S>|
                #![trigger results.len(), calls.len()]
                results.len() == old(self).kinds().len() && calls.len() == results.len() && forall|i: int|
                    #![trigger calls[i]]
                    0 <= i < results.len() ==> call_ensures(S::stop, (calls[i],), results[i])
                        && mut_ref_current(calls[i]) == old(self).sensor_values()[i]
                        && mut_ref_future(calls[i]) == final(self).sensor_values()[i],
    {
        let n: usize = self.sensors.len();
        let ghost mut results: Seq<Result<(), SensorError>> = Seq::empty();
        let mut i: usize = 0;
        assert(Seq::<&mut S>::empty().len() == 0);
        while i < n
            invariant
                n == old(self).kinds().len(),
                self.wf(),
                self.kinds() == old(self).kinds(),
                self.subscriber_values() == old(self).subscriber_values(),
                forall|k: SensorKind| #[trigger] self.last_reading(k) == old(self).last_reading(k),
                self.notified() == old(self).notified(),
                i <= n,
                results.len() == i,
                self.sensor_values().len() == old(self).sensor_values().len(),
                forall|a: int|
                    i <= a < n ==> #[trigger] self.sensor_values()[a] == old(self).sensor_values()[a],
                exists|calls: Seq<&mut S>|
                    #![trigger calls.len()]
                    calls.len() == i && forall|a: int|
                        #![trigger calls[a]]
                        0 <= a < i ==> call_ensures(S::stop, (calls[a],), results[a])
                            && mut_ref_current(calls[a]) == old(self).sensor_values()[a]
                            && mut_ref_future(calls[a]) == self.sensor_values()[a],
            decreases n - i,
        {
            let ghost before = *self;
            let res = self.stop_at(i);
            proof {
                let results_before = results;
                results = results.push(res);
                assert(exists|next: Seq<&mut S>|
                    #![trigger next.len()]
                    next.len() == i + 1 && forall|a: int|
                        #![trigger next[a]]
                        0 <= a < i + 1 ==> call_ensures(S::stop, (next[a],), results[a])
                            && mut_ref_current(next[a]) == old(self).sensor_values()[a]
                            && mut_ref_future(next[a]) == self.sensor_values()[a]) by {
                    let done = choose|done: Seq<&mut S>|
                        #![trigger done.len()]
                        done.len() == i && forall|a: int|
                            #![trigger done[a]]
                            0 <= a < i ==> call_ensures(S::stop, (done[a],), results_before[a])
                                && mut_ref_current(done[a]) == old(self).sensor_values()[a]
                                && mut_ref_future(done[a]) == before.sensor_values()[a];
                    let m = choose|m: &mut S|
                        #[trigger] call_ensures(S::stop, (m,), res) && mut_ref_current(m)
                            == before.sensor_values()[i as int] && mut_ref_future(m)
                            == self.sensor_values()[i as int];
                    let next = done.push(m);
                    assert forall|a: int| #![trigger next[a]] 0 <= a < i + 1 implies call_ensures(
                        S::stop,
                        (next[a],),
                        results[a],
                    ) && mut_ref_current(next[a]) == old(self).sensor_values()[a]
                        && mut_ref_future(next[a]) == self.sensor_values()[a] by {
                        if a < i {
                            assert(results[a] == results_before[a]);
                            assert(next[a] == done[a]);
                            assert(self.sensor_values()[a] == before.sensor_values()[a]);
                        }
                    }
                    assert(next.len() == i + 1);
                }
                assert forall|a: int| i + 1 <= a < n implies #[trigger] self.sensor_values()[a]
                    == old(self).sensor_values()[a] by {
                    assert(self.sensor_values()[a] == before.sensor_values()[a]);
                }
            }
            i = i + 1;
        }
        assert(results.len() == n);
    }

    /// The last reading taken of `kind`, if any.
    pub fn last(&self, kind: SensorKind) -> (r: Option<&SensorReading>)
        requires
            self.wf(),
        ensures
            match r {
                Some(x) => self.last_reading(kind) == Some(x@),
                None => self.last_reading(kind) is None,
            },
    {
        let idx: usize = kind.index();
        self.last_readings[idx].as_ref()
    }

    /// Number of registered sensors.
    pub fn sensor_count(&self) -> (n: usize)
        ensures
            n == self.kinds().len(),
    {
        self.sensors.len()
    }

    /// In a well-formed hub no kind occurs twice.
    proof fn lemma_kinds_distinct(&self)
        requires
            self.wf(),
        ensures
            forall|a: int, b: int|
                0 <= a < self.kinds().len() && 0 <= b < self.kinds().len() && a != b
                    ==> #[trigger] self.kinds()[a] != #[trigger] self.kinds()[b],
    {
        assert forall|a: int, b: int|
            0 <= a < self.kinds().len() && 0 <= b < self.kinds().len() && a != b
                implies #[trigger] self.kinds()[a] != #[trigger] self.kinds()[b] by {
            if a < b {
                assert(self.sensors@[a].0 != self.sensors@[b].0);
            } else {
                assert(self.sensors@[b].0 != self.sensors@[a].0);
            }
        }
    }

    /// Position of the sensor registered under `kind`, if any.
    fn position(&self, kind: SensorKind) -> (pos: Option<usize>)
        ensures
            match pos {
                Some(i) => i < self.kinds().len() && self.kinds()[i as int] == kind,
                None => !self.kinds().contains(kind),
            },
    {
        let mut i: usize = 0;
        while i < self.sensors.len()
            invariant
                i <= self.sensors@.len(),
                forall|j: int| 0 <= j < i ==> self.sensors@[j].0 != kind,
            decreases self.sensors@.len() - i,
        {
            if self.sensors[i].0 == kind {
                return Some(i);
            }
            i = i + 1;
        }
        proof {
            if self.kinds().contains(kind) {
                let j = choose|j: int| 0 <= j < self.kinds().len() && self.kinds()[j] == kind;
                assert(self.sensors@[j].0 == kind);
            }
        }
        None
    }
}


impl<S: Sensor, F: FnMut(&SensorReading)> Default for SensorHub<S, F> {
    fn default() -> (hub: Self)
        ensures
            hub.wf(),
            hub.kinds() == Seq::<SensorKind>::empty(),
            hub.sensor_values() == Seq::<S>::empty(),
            forall|k: SensorKind| #[trigger] hub.last_reading(k) is None,
            hub.subscriber_values() == Seq::<F>::empty(),
            hub.notified() == Seq::<ReadingView>::empty(),
    {
        Self::new()
    }
}

/// In a well-formed hub no kind is registered twice.
pub proof fn law_one_sensor_per_kind<S: Sensor, F: FnMut(&SensorReading)>(hub: &SensorHub<S, F>)
    requires
        hub.wf(),
    ensures
        forall|a: int, b: int|
            0 <= a < hub.kinds().len() && 0 <= b < hub.kinds().len() && a != b
                ==> #[trigger] hub.kinds()[a] != #[trigger] hub.kinds()[b],
{
    hub.lemma_kinds_distinct();
}

/// Registering `s` under `k` leaves `s` as the sensor held under `k`, and
/// every sensor of another kind where and as it was.
pub proof fn law_register_holds_new_sensor<S: Sensor, F: FnMut(&SensorReading)>(
    before: &SensorHub<S, F>,
    after: &SensorHub<S, F>,
    k: SensorKind,
    s: S,
)
    requires
        before.registered(*after, k, s),
    ensures
        exists|i: int|
            0 <= i < after.kinds().len() && #[trigger] after.kinds()[i] == k
                && after.sensor_values()[i] == s,
        forall|j: int|
            0 <= j < before.kinds().len() && before.kinds()[j] != k ==> after.kinds()[j]
                == before.kinds()[j] && #[trigger] after.sensor_values()[j]
                == before.sensor_values()[j],
{
    assert(before.kinds().len() == before.sensor_values().len());
    if before.kinds().contains(k) {
        let i = choose|i: int|
            0 <= i < before.kinds().len() && before.kinds()[i] == k && after.sensor_values()
                == before.sensor_values().update(i, s);
        assert(after.kinds()[i] == k);
    } else {
        let n = before.kinds().len() as int;
        assert(after.kinds()[n] == k);
        assert(after.sensor_values()[n] == s);
    }
}

// ------------------------------------------------------------------
// Samples of the simulated sensors
// ------------------------------------------------------------------

/// Multiplier that scrambles the tick count of the simulated GPS.
pub const GPS_SCRAMBLE: u64 = 0x9E3779B97F4A7C15;

/// Multiplier that scrambles the tick count of the simulated microphone.
pub const MIC_SCRAMBLE: u64 = 0x123456789ABCDEF0;

/// Spacing of simulated microphone samples, in nanoseconds (60 Hz).
pub const MIC_PERIOD_NS: u128 = 16_666_667;

/// Spacing of simulated GPS fixes, in nanoseconds.
pub const GPS_PERIOD_NS: u128 = 1_000_000_000;

/// The product of tick `t` and `k`, modulo 2^64.
pub open spec fn scrambled(t: u64, k: u64) -> int {
    (t * k) % 0x1_0000_0000_0000_0000
}

/// The two 16-bit noise values of GPS tick `t`: the lowest 16 bits of the
/// scrambled tick (latitude step) and the 16 bits above them (longitude step).
pub fn gps_walk_noise(t: u64) -> (n: (u16, u16))
    ensures
        n.0 == scrambled(t, GPS_SCRAMBLE) % 0x10000,
        n.1 == (scrambled(t, GPS_SCRAMBLE) / 0x10000) % 0x10000,
{
    let hash: u64 = t.wrapping_mul(GPS_SCRAMBLE);
    let lat: u64 = hash & 0xFFFF;
    let lon: u64 = (hash >> 16) & 0xFFFF;
    assert(hash & 0xFFFF == hash % 0x10000) by (bit_vector);
    assert((hash >> 16) & 0xFFFF == (hash / 0x10000) % 0x10000) by (bit_vector);
    (lat as u16, lon as u16)
}

/// The noise byte of microphone tick `t`: bits 8 to 15 of the scrambled tick.
pub fn mic_noise(t: u64) -> (b: u8)
    ensures
        b == (scrambled(t, MIC_SCRAMBLE) / 0x100) % 0x100,
{
    let hash: u64 = t.wrapping_mul(MIC_SCRAMBLE);
    let r: u64 = (hash >> 8) & 0xFF;
    assert((hash >> 8) & 0xFF == (hash / 0x100) % 0x100) by (bit_vector);
    r as u8
}

/// Timestamp of GPS tick `t`: one fix per second.
pub fn gps_timestamp_ns(t: u64) -> (ts: u128)
    ensures
        ts == t * GPS_PERIOD_NS,
{
    assert(t * GPS_PERIOD_NS < 0x1_0000_0000_0000_0000_0000_0000_0000_0000) by (nonlinear_arith)
        requires
            t < 0x1_0000_0000_0000_0000,
    ;
    (t as u128) * GPS_PERIOD_NS
}

/// Timestamp of microphone tick `t`: sixty samples per second.
pub fn mic_timestamp_ns(t: u64) -> (ts: u128)
    ensures
        ts == t * MIC_PERIOD_NS,
{
    assert(t * MIC_PERIOD_NS < 0x1_0000_0000_0000_0000_0000_0000_0000_0000) by (nonlinear_arith)
        requires
            t < 0x1_0000_0000_0000_0000,
    ;
    (t as u128) * MIC_PERIOD_NS
}

} // verus!
