//! The callbacks a sensor hub hands its readings to. The list is the only way
//! to reach them, and it records every reading it hands out, so what a hub
//! delivers can be stated as what the list records.

use vstd::prelude::*;
use crate::sensors::{ReadingView, SensorReading};

verus! {

/// Callbacks in subscription order, with the readings handed to them so far.
pub struct SubscriberList<F: FnMut(&SensorReading)> {
    callbacks: Vec<F>,
    handed: Ghost<Seq<ReadingView>>,
}

impl<F: FnMut(&SensorReading)> SubscriberList<F> {
    /// The callbacks, in subscription order.
    pub closed spec fn values(&self) -> Seq<F> {
        self.callbacks@
    }

    /// The readings handed out so far, in order; each entry is one round in
    /// which every callback was called once, in subscription order, with it.
    pub closed spec fn handed(&self) -> Seq<ReadingView> {
        self.handed@
    }

    /// No callbacks, nothing handed out.
    pub fn new() -> (list: Self)
        ensures
            list.values() == Seq::<F>::empty(),
            list.handed() == Seq::<ReadingView>::empty(),
    {
        SubscriberList { callbacks: Vec::new(), handed: Ghost(Seq::empty()) }
    }

    /// Adds `f` after the callbacks already there.
    pub fn push(&mut self, f: F)
        ensures
            final(self).values() == old(self).values().push(f),
            final(self).handed() == old(self).handed(),
    {
        self.callbacks.push(f);
    }

    /// Calls every callback once with `r`, in subscription order, and records
    /// `r` as handed out.
    pub fn notify(&mut self, r: &SensorReading)
        requires
            forall|i: int, x: &SensorReading|
                0 <= i < old(self).values().len() ==> #[trigger] call_requires(
                    old(self).values()[i],
                    (x,),
                ),
        ensures
            final(self).values() == old(self).values(),
            final(self).handed() == old(self).handed().push(r@),
            forall|i: int|
                0 <= i < old(self).values().len() ==> call_ensures(
                    #[trigger] old(self).values()[i],
                    (r,),
                    (),
                ),
    {
        let ghost before = self.callbacks@;
        assert forall|j: int, x: &SensorReading|
            0 <= j < before.len() implies #[trigger] call_requires(before[j], (x,)) by {
            assert(before[j] == old(self).values()[j]);
        }
        let mut i: usize = 0;
        while i < self.callbacks.len()
            invariant
                self.callbacks@ == before,
                forall|j: int, x: &SensorReading|
                    0 <= j < before.len() ==> #[trigger] call_requires(before[j], (x,)),
                forall|j: int| 0 <= j < i ==> call_ensures(#[trigger] before[j], (r,), ()),
                i <= before.len(),
                self.handed@ == old(self).handed@,
            decreases before.len() - i,
        {
            let f = &mut self.callbacks[i];
            f(r);
            i = i + 1;
        }
        self.handed = Ghost(self.handed@.push(r@));
    }
}

} // verus!
