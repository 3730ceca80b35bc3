//! The listener's core: it owns a sequence detector and feeds it what the
//! capture loop hands in. Capturing itself, sleeping between sweeps and
//! running the commands are left to the caller.

use crate::command::{dispatch_views, Dispatch};
use crate::packet::{event_is, frame_event, inspect_frame, SynEvent};
use crate::sequence::{probed, taken, ticked, SequenceDetector};
use vstd::prelude::*;

verus! {

/// How long the expirer sleeps between two sweeps, in milliseconds.
pub const SWEEP_INTERVAL_MILLIS: u64 = 200;

/// A listener on one network interface.
pub struct Server<D: SequenceDetector> {
    interface_name: String,
    detector: Box<D>,
}

impl<D: SequenceDetector> Server<D> {
    /// The detector that this listener reports to.
    pub closed spec fn detector(&self) -> D {
        *self.detector
    }

    /// The name of the interface to capture on.
    pub closed spec fn interface(&self) -> Seq<char> {
        self.interface_name@
    }

    /// A listener for `interface` that reports to `detector`.
    pub fn new(interface: String, detector: Box<D>) -> (server: Box<Server<D>>)
        ensures
            server.interface() == interface@,
            server.detector() == *detector,
    {
        Box::new(Server { interface_name: interface, detector })
    }

    /// The name of the interface to capture on.
    pub fn interface_name(&self) -> (name: &str)
        ensures
            name@ == self.interface(),
    {
        self.interface_name.as_str()
    }

    /// The detector, to look into.
    pub fn inspect(&self) -> (detector: &D)
        ensures
            *detector == self.detector(),
    {
        &*self.detector
    }

    /// Takes one captured frame. A frame that is a connection attempt is
    /// reported to the detector and returned; any other frame is dropped and
    /// leaves the detector as it was.
    pub fn handle_frame(&mut self, frame: &[u8]) -> (event: Option<SynEvent>)
        requires
            old(self).detector().well_formed(),
        ensures
            final(self).detector().well_formed(),
            final(self).interface() == old(self).interface(),
            event_is(event, frame_event(frame@)),
            match frame_event(frame@) {
                Some(e) => probed(
                    &old(self).detector(),
                    e.client_address,
                    e.destination_port,
                    &final(self).detector(),
                ),
                None => final(self).detector() == old(self).detector(),
            },
    {
        let event = inspect_frame(frame);
        match &event {
            Some(e) => {
                self.detector.add_sequence(e.client_address.clone(), e.destination_port);
            },
            None => {},
        }
        event
    }

    /// One tick of the expirer. Returns how many clients were dropped.
    pub fn tick(&mut self) -> (removed: usize)
        requires
            old(self).detector().well_formed(),
        ensures
            final(self).interface() == old(self).interface(),
            ticked(&old(self).detector(), removed, &final(self).detector()),
    {
        self.detector.expire()
    }

    /// Hands over the commands that are due, oldest first.
    pub fn take_dispatches(&mut self) -> (due: Vec<Dispatch>)
        requires
            old(self).detector().well_formed(),
        ensures
            final(self).interface() == old(self).interface(),
            taken(&old(self).detector(), dispatch_views(due@), &final(self).detector()),
    {
        self.detector.take_dispatches()
    }
}

} // verus!
