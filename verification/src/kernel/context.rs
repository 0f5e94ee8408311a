//! The execution context handed to drivers during a phase.
use vstd::prelude::*;
use crate::types::capability::CapabilityToken;
use crate::types::id::VehicleID;
use crate::types::unit::Ticks;
use crate::sim::world::World;
use crate::kernel::event::KernelEvent;
use crate::kernel::intent::KernelIntent;

verus! {

/// Capability-gated execution context passed to subsystem drivers during tick phases.
pub struct KernelContext<'a> {
    pub world: &'a mut World,
    pub tick: Ticks,
    pub vehicle_order_buffer: &'a mut Vec<VehicleID>,
    pub intents: &'a mut Vec<(CapabilityToken, KernelIntent)>,
    pub events: &'a mut Vec<KernelEvent>,
}

impl<'a> KernelContext<'a> {
    /// Stage an intent for validation in the commit phase.
    pub fn stage_intent(&mut self, token: CapabilityToken, intent: KernelIntent)
        ensures
            final(self).intents@ == old(self).intents@.push((token, intent)),
            *final(self).world == *old(self).world,
            final(self).tick == old(self).tick,
            final(self).vehicle_order_buffer@ == old(self).vehicle_order_buffer@,
            final(self).events@ == old(self).events@,
    {
        self.intents.push((token, intent));
    }

    /// Emit an event directly to the egress queue.
    pub fn emit_event(&mut self, event: KernelEvent)
        ensures
            final(self).events@ == old(self).events@.push(event),
            *final(self).world == *old(self).world,
            final(self).tick == old(self).tick,
            final(self).vehicle_order_buffer@ == old(self).vehicle_order_buffer@,
            final(self).intents@ == old(self).intents@,
    {
        self.events.push(event);
    }
}

} // verus!
