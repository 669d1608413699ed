//! The table of registered block devices.
use vstd::prelude::*;

use crate::block::{BlockDevice, BlockError};
use crate::serial;

verus! {

/// Maximum number of block devices that can be registered.
pub const MAX_DEVICES: usize = 16;

/// Block devices by numeric ID in `0..MAX_DEVICES`.
pub struct BlockDeviceRegistry<D> {
    devices: Vec<Option<D>>,
}

impl<D> BlockDeviceRegistry<D> {
    /// The slots, in order of device ID.
    pub closed spec fn slots(&self) -> Seq<Option<D>> {
        self.devices@
    }

    pub open spec fn wf(&self) -> bool {
        self.slots().len() == MAX_DEVICES
    }

    /// The device with an ID, if there is one.
    pub open spec fn lookup(&self, id: usize) -> Option<D> {
        if id < MAX_DEVICES {
            self.slots()[id as int]
        } else {
            None
        }
    }

    /// Create a new empty registry.
    pub fn new() -> (r: Self)
        ensures
            r.wf(),
            r.slots() == Seq::new(MAX_DEVICES as nat, |i: int| None::<D>),
    {
        let mut devices: Vec<Option<D>> = Vec::new();
        let mut i: usize = 0;
        while i < MAX_DEVICES
            invariant
                i <= MAX_DEVICES,
                devices@ == Seq::new(i as nat, |k: int| None::<D>),
            decreases MAX_DEVICES - i,
        {
            devices.push(None);
            i = i + 1;
        }
        BlockDeviceRegistry { devices }
    }

    /// Register a block device under the first free ID.
    pub fn register(&mut self, device: D) -> (r: Result<usize, BlockError>)
        requires
            old(self).wf(),
        ensures
            final(self).wf(),
            match r {
                Ok(id) => {
                    &&& id < MAX_DEVICES
                    &&& old(self).slots()[id as int] is None
                    &&& forall|k: int| 0 <= k < id ==> old(self).slots()[k] is Some
                    &&& final(self).slots() == old(self).slots().update(id as int, Some(device))
                },
                Err(e) => {
                    &&& e == BlockError::TooManyDevices
                    &&& forall|k: int| 0 <= k < MAX_DEVICES ==> old(self).slots()[k] is Some
                    &&& final(self).slots() == old(self).slots()
                },
            },
    {
        let mut i: usize = 0;
        while i < MAX_DEVICES
            invariant
                i <= MAX_DEVICES,
                self.wf(),
                self.slots() == old(self).slots(),
                forall|k: int| 0 <= k < i ==> self.slots()[k] is Some,
            decreases MAX_DEVICES - i,
        {
            if self.devices[i].is_none() {
                self.devices.set(i, Some(device));
                return Ok(i);
            }
            i = i + 1;
        }
        Err(BlockError::TooManyDevices)
    }

    /// Look up a device by its ID.
    pub fn get(&self, id: usize) -> (r: Option<&D>)
        requires
            self.wf(),
        ensures
            match r {
                Some(d) => self.lookup(id) == Some(*d),
                None => self.lookup(id) is None,
            },
    {
        if id >= MAX_DEVICES {
            return None;
        }
        self.devices[id].as_ref()
    }

    /// Look up a device by its ID, to change it.
    pub fn get_mut(&mut self, id: usize) -> (r: Option<&mut D>)
        requires
            old(self).wf(),
        ensures
            final(self).wf(),
            match r {
                Some(d) => {
                    &&& old(self).lookup(id) == Some(*d)
                    &&& final(self).slots() == old(self).slots().update(id as int, Some(*final(d)))
                },
                None => old(self).lookup(id) is None && final(self).slots() == old(self).slots(),
            },
    {
        if id >= MAX_DEVICES {
            return None;
        }
        self.devices[id].as_mut()
    }

    /// Remove a device from the registry and hand it back.
    pub fn unregister(&mut self, id: usize) -> (r: Option<D>)
        requires
            old(self).wf(),
        ensures
            final(self).wf(),
            r == old(self).lookup(id),
            final(self).slots() == if id < MAX_DEVICES {
                old(self).slots().update(id as int, None)
            } else {
                old(self).slots()
            },
    {
        if id >= MAX_DEVICES {
            return None;
        }
        self.devices[id].take()
    }
}

/// The console once a device has been registered.
pub open spec fn with_device_text(out: Seq<u8>, id: usize, name: Seq<char>) -> Seq<u8> {
    out + serial::text("[BLOCK] Registered device id="@) + serial::hex_text(id as u64)
        + serial::text(" name="@) + serial::text(name) + serial::line_end()
}

/// Register a block device; the ID it got on success, which is noted on the console.
pub fn register_device<D: BlockDevice>(
    registry: &mut BlockDeviceRegistry<D>,
    device: D,
    out: &mut Vec<u8>,
) -> (r: Result<usize, BlockError>)
    requires
        old(registry).wf(),
    ensures
        final(registry).wf(),
        final(out)@ == match r {
            Ok(id) => with_device_text(old(out)@, id, device.label()),
            Err(_) => old(out)@,
        },
        match r {
            Ok(id) => {
                &&& id < MAX_DEVICES
                &&& old(registry).slots()[id as int] is None
                &&& forall|k: int| 0 <= k < id ==> old(registry).slots()[k] is Some
                &&& final(registry).slots() == old(registry).slots().update(
                    id as int,
                    Some(device),
                )
            },
            Err(e) => {
                &&& e == BlockError::TooManyDevices
                &&& forall|k: int| 0 <= k < MAX_DEVICES ==> old(registry).slots()[k] is Some
                &&& final(registry).slots() == old(registry).slots()
            },
        },
{
    match registry.register(device) {
        Ok(id) => {
            match registry.get(id) {
                Some(d) => {
                    serial::write_str(out, "[BLOCK] Registered device id=");
                    serial::write_hex(out, id as u64);
                    serial::write_str(out, " name=");
                    serial::write_str(out, d.name());
                    serial::write_nl(out);
                },
                None => {},
            }
            Ok(id)
        },
        Err(e) => Err(e),
    }
}

/// Look up a device by ID.
pub fn get_device<D>(registry: &BlockDeviceRegistry<D>, id: usize) -> (r: Option<&D>)
    requires
        registry.wf(),
    ensures
        match r {
            Some(d) => registry.lookup(id) == Some(*d),
            None => registry.lookup(id) is None,
        },
{
    registry.get(id)
}

/// Remove a device from the registry.
pub fn unregister_device<D>(registry: &mut BlockDeviceRegistry<D>, id: usize) -> (r: Option<D>)
    requires
        old(registry).wf(),
    ensures
        final(registry).wf(),
        r == old(registry).lookup(id),
        final(registry).slots() == if id < MAX_DEVICES {
            old(registry).slots().update(id as int, None)
        } else {
            old(registry).slots()
        },
{
    registry.unregister(id)
}

} // verus!
