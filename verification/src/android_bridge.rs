//! The decisions behind the native bridge: which sensor kind a numeric code
//! names, what reading a pushed sample becomes, and the table of engines that
//! native callers address by index.

use vstd::prelude::*;
use crate::sensors::{SensorKind, SensorReading, opt_view};

verus! {

/// The sensor kind a native caller means by `code`; other codes are ignored.
pub open spec fn pushed_kind(code: int) -> Option<SensorKind> {
    if code == 0 {
        Some(SensorKind::Accelerometer)
    } else if code == 1 {
        Some(SensorKind::Gyroscope)
    } else if code == 2 {
        Some(SensorKind::Magnetometer)
    } else if code == 3 {
        Some(SensorKind::AmbientLight)
    } else if code == 4 {
        Some(SensorKind::Barometer)
    } else if code == 5 {
        Some(SensorKind::Temperature)
    } else if code == 6 {
        Some(SensorKind::Proximity)
    } else if code == 7 {
        Some(SensorKind::Microphone)
    } else if code == 8 {
        Some(SensorKind::Gps)
    } else {
        None
    }
}

/// Kinds whose value is a single number (light, proximity, pressure,
/// temperature, sound level) rather than three axes.
pub open spec fn is_scalar_kind(k: SensorKind) -> bool {
    match k {
        SensorKind::AmbientLight | SensorKind::Proximity | SensorKind::Barometer
        | SensorKind::Temperature | SensorKind::Humidity | SensorKind::Microphone => true,
        _ => false,
    }
}

/// Whether kind `k` carries its value as a single number.
pub fn scalar_kind(k: SensorKind) -> (b: bool)
    ensures
        b == is_scalar_kind(k),
{
    match k {
        SensorKind::AmbientLight | SensorKind::Proximity | SensorKind::Barometer
        | SensorKind::Temperature | SensorKind::Humidity | SensorKind::Microphone => true,
        _ => false,
    }
}

/// The sensor kind a native caller means by `code`.
pub fn kind_from_code(code: i32) -> (k: Option<SensorKind>)
    ensures
        k == pushed_kind(code as int),
{
    match code {
        0 => Some(SensorKind::Accelerometer),
        1 => Some(SensorKind::Gyroscope),
        2 => Some(SensorKind::Magnetometer),
        3 => Some(SensorKind::AmbientLight),
        4 => Some(SensorKind::Barometer),
        5 => Some(SensorKind::Temperature),
        6 => Some(SensorKind::Proximity),
        7 => Some(SensorKind::Microphone),
        8 => Some(SensorKind::Gps),
        _ => None,
    }
}

/// A signed nanosecond count read as an unsigned 128-bit timestamp
/// (two's complement: negative counts wrap around).
pub open spec fn wrapped_timestamp(ts: int) -> int {
    if ts >= 0 {
        ts
    } else {
        ts + 0x1_0000_0000_0000_0000_0000_0000_0000_0000
    }
}

/// The reading a pushed sample becomes: `x`, `y`, `z` (bit patterns) are the
/// axes; a single-number kind (see `is_scalar_kind`) also carries `x` as its
/// scalar, the others a zero scalar; there are no raw bytes. Unknown kind
/// codes give `None`.
pub fn reading_from_push(code: i32, x: u32, y: u32, z: u32, ts_nanos: i64) -> (r: Option<SensorReading>)
    ensures
        match pushed_kind(code as int) {
            None => r is None,
            Some(k) => opt_view(r) == Some(
                (
                    k,
                    wrapped_timestamp(ts_nanos as int) as u128,
                    seq![x, y, z],
                    if is_scalar_kind(k) { x } else { 0u32 },
                    None::<Seq<u8>>,
                ),
            ),
        },
{
    match kind_from_code(code) {
        None => None,
        Some(kind) => {
            // Two's-complement reading of the signed count, as `as u128` gives.
            let timestamp_ns: u128 = if ts_nanos >= 0 {
                ts_nanos as u128
            } else {
                let magnitude: u128 = ((-(ts_nanos + 1)) as u128) + 1;
                u128::MAX - magnitude + 1
            };
            let mut r = SensorReading::at_3d(kind, timestamp_ns, [x, y, z]);
            if scalar_kind(kind) {
                r.scalar = x;
            }
            Some(r)
        },
    }
}

/// Exactly the codes 0 to 8 name a kind, and no two of them the same kind;
/// the microphone (code 7) is among them, with its level as the scalar.
pub proof fn law_codes_name_distinct_kinds(c1: int, c2: int)
    ensures
        pushed_kind(c1) is Some <==> 0 <= c1 <= 8,
        pushed_kind(7) == Some(SensorKind::Microphone) && is_scalar_kind(SensorKind::Microphone),
        pushed_kind(c1) is Some && c1 != c2 ==> pushed_kind(c1) != pushed_kind(c2),
{
}

/// The slots of a table after the engine at `id` is dropped.
pub open spec fn after_destroy<T>(slots: Seq<Option<T>>, id: int) -> Seq<Option<T>> {
    if 0 <= id < slots.len() {
        slots.update(id, None)
    } else {
        slots
    }
}

/// Engines addressed by the index `create` handed out; a destroyed engine
/// leaves an empty slot, so indices are never reused.
pub struct EngineTable<T> {
    slots: Vec<Option<T>>,
}

impl<T> View for EngineTable<T> {
    type V = Seq<Option<T>>;

    closed spec fn view(&self) -> Seq<Option<T>> {
        self.slots@
    }
}

impl<T> EngineTable<T> {
    /// What `get` finds under `id`: the engine in that slot, or nothing for
    /// an emptied slot or an index never handed out.
    pub open spec fn lookup(&self, id: int) -> Option<T> {
        if 0 <= id < self@.len() {
            self@[id]
        } else {
            None
        }
    }

    /// An empty table.
    pub fn new() -> (t: Self)
        ensures
            t@ == Seq::<Option<T>>::empty(),
    {
        EngineTable { slots: Vec::new() }
    }

    /// Stores `engine` in a new slot and returns its index.
    pub fn create(&mut self, engine: T) -> (id: usize)
        requires
            old(self)@.len() < usize::MAX,
        ensures
            id == old(self)@.len(),
            final(self)@ == old(self)@.push(Some(engine)),
    {
        let id: usize = self.slots.len();
        self.slots.push(Some(engine));
        id
    }

    /// Drops the engine at `id`, if there is one.
    pub fn destroy(&mut self, id: usize)
        ensures
            final(self)@ == after_destroy(old(self)@, id as int),
    {
        if id < self.slots.len() {
            self.slots.set(id, None);
        }
    }

    /// The engine at `id`, if there is one.
    pub fn get(&self, id: usize) -> (r: Option<&T>)
        ensures
            match r {
                Some(e) => self.lookup(id as int) == Some(*e),
                None => self.lookup(id as int) is None,
            },
    {
        if id < self.slots.len() {
            self.slots[id].as_ref()
        } else {
            None
        }
    }

    /// The engine at `id`, if there is one, for changing it in place.
    pub fn get_mut(&mut self, id: usize) -> (r: Option<&mut T>)
        ensures
            match r {
                Some(e) => old(self).lookup(id as int) == Some(*e) && final(self)@ == old(
                    self,
                )@.update(id as int, Some(*final(e))),
                None => old(self).lookup(id as int) is None && final(self)@ == old(self)@,
            },
    {
        if id < self.slots.len() {
            self.slots[id].as_mut()
        } else {
            None
        }
    }

    /// Number of slots handed out so far, including emptied ones.
    pub fn len(&self) -> (n: usize)
        ensures
            n == self@.len(),
    {
        self.slots.len()
    }
}


/// After `create(engine)` returns `id` (the table grew by that one slot),
/// `get(id)` finds `engine` and every other index finds what it found before.
pub proof fn law_create_then_find<T>(before: &EngineTable<T>, after: &EngineTable<T>, id: usize, engine: T)
    requires
        id == before@.len(),
        after@ == before@.push(Some(engine)),
    ensures
        after.lookup(id as int) == Some(engine),
        forall|j: int| j != id ==> #[trigger] after.lookup(j) == before.lookup(j),
{
}

/// After `destroy(id)`, `get(id)` finds nothing, every other index finds what
/// it found before, and the number of slots is unchanged, so the next
/// `create` returns an index that no earlier `create` returned.
pub proof fn law_destroy_then_find<T>(before: &EngineTable<T>, after: &EngineTable<T>, id: usize)
    requires
        after@ == after_destroy(before@, id as int),
    ensures
        after.lookup(id as int) is None,
        forall|j: int| j != id ==> #[trigger] after.lookup(j) == before.lookup(j),
        after@.len() == before@.len(),
{
}

} // verus!
