//! The persistent-override store: devices pinned into the shaped-device
//! list, plus circuit and network adjustments the scheduler applies when it
//! regenerates its inputs. This module holds the in-memory store and its
//! edits; reading and writing the JSON file around it is I/O and lives with
//! the caller.

use vstd::prelude::*;
use crate::text::strings_equal;

verus! {

/// One shaped device, as the scheduler's device list carries it. Rates are
/// in thousandths of a Mbps.
#[derive(Debug)]
pub struct ShapedDevice {
    /// Circuit this device belongs to.
    pub circuit_id: String,
    /// Human-readable circuit name.
    pub circuit_name: String,
    /// Unique device identifier.
    pub device_id: String,
    /// Human-readable device name.
    pub device_name: String,
    /// Parent node in the network tree.
    pub parent_node: String,
    /// Comma-separated list of the device's addresses.
    pub ip_addresses: String,
    /// Guaranteed download rate in milli-Mbps.
    pub download_min: u64,
    /// Ceiling download rate in milli-Mbps.
    pub download_max: u64,
    /// Guaranteed upload rate in milli-Mbps.
    pub upload_min: u64,
    /// Ceiling upload rate in milli-Mbps.
    pub upload_max: u64,
}

/// Field-for-field equality of two shaped devices (strings by contents).
pub open spec fn spec_sd_eq(a: ShapedDevice, b: ShapedDevice) -> bool {
    &&& a.circuit_id@ == b.circuit_id@
    &&& a.circuit_name@ == b.circuit_name@
    &&& a.device_id@ == b.device_id@
    &&& a.device_name@ == b.device_name@
    &&& a.parent_node@ == b.parent_node@
    &&& a.ip_addresses@ == b.ip_addresses@
    &&& a.download_min == b.download_min
    &&& a.download_max == b.download_max
    &&& a.upload_min == b.upload_min
    &&& a.upload_max == b.upload_max
}

/// An adjustment the scheduler applies to a circuit or device when it
/// persists the shaped-device list. Rates are in milli-Mbps; an unset rate
/// is left as the source has it.
#[derive(Debug)]
pub enum CircuitAdjustment {
    /// Override a circuit's rates.
    CircuitAdjustSpeed {
        /// Circuit to adjust.
        circuit_id: String,
        /// New guaranteed download rate, if set.
        min_download_bandwidth: Option<u64>,
        /// New ceiling download rate, if set.
        max_download_bandwidth: Option<u64>,
        /// New guaranteed upload rate, if set.
        min_upload_bandwidth: Option<u64>,
        /// New ceiling upload rate, if set.
        max_upload_bandwidth: Option<u64>,
    },
    /// Override a single device's rates.
    DeviceAdjustSpeed {
        /// Device to adjust.
        device_id: String,
        /// New guaranteed download rate, if set.
        min_download_bandwidth: Option<u64>,
        /// New ceiling download rate, if set.
        max_download_bandwidth: Option<u64>,
        /// New guaranteed upload rate, if set.
        min_upload_bandwidth: Option<u64>,
        /// New ceiling upload rate, if set.
        max_upload_bandwidth: Option<u64>,
    },
    /// Drop a circuit from the shaped-device list.
    RemoveCircuit {
        /// Circuit to drop.
        circuit_id: String,
    },
    /// Drop a single device from the shaped-device list.
    RemoveDevice {
        /// Device to drop.
        device_id: String,
    },
    /// Move a circuit under another parent node.
    ReparentCircuit {
        /// Circuit to move.
        circuit_id: String,
        /// New parent node.
        parent_node: String,
    },
}

/// An adjustment that affects the network tree itself.
#[derive(Debug)]
pub enum NetworkAdjustment {
    /// Override a site's rates (whole Mbps).
    AdjustSiteSpeed {
        /// Site to adjust.
        site_name: String,
        /// New download capacity in Mbps, if set.
        download_bandwidth_mbps: Option<u32>,
        /// New upload capacity in Mbps, if set.
        upload_bandwidth_mbps: Option<u32>,
    },
}

/// The devices of `devs` whose `device_id` differs from `id`, in order.
pub open spec fn spec_keep_by_device_id(devs: Seq<ShapedDevice>, id: Seq<char>) -> Seq<
    ShapedDevice,
>
    decreases devs.len(),
{
    if devs.len() == 0 {
        Seq::<ShapedDevice>::empty()
    } else {
        (if devs[0].device_id@ != id {
            seq![devs[0]]
        } else {
            Seq::<ShapedDevice>::empty()
        }) + spec_keep_by_device_id(devs.drop_first(), id)
    }
}

/// The devices of `devs` whose `circuit_id` differs from `id`, in order.
pub open spec fn spec_keep_by_circuit_id(devs: Seq<ShapedDevice>, id: Seq<char>) -> Seq<
    ShapedDevice,
>
    decreases devs.len(),
{
    if devs.len() == 0 {
        Seq::<ShapedDevice>::empty()
    } else {
        (if devs[0].circuit_id@ != id {
            seq![devs[0]]
        } else {
            Seq::<ShapedDevice>::empty()
        }) + spec_keep_by_circuit_id(devs.drop_first(), id)
    }
}

/// The first device of `devs` carrying `device_id == id`, if any.
pub open spec fn spec_find_by_device_id(devs: Seq<ShapedDevice>, id: Seq<char>) -> Option<
    ShapedDevice,
>
    decreases devs.len(),
{
    if devs.len() == 0 {
        None
    } else if devs[0].device_id@ == id {
        Some(devs[0])
    } else {
        spec_find_by_device_id(devs.drop_first(), id)
    }
}

proof fn lemma_keep_by_device_id_snoc(devs: Seq<ShapedDevice>, x: ShapedDevice, id: Seq<char>)
    ensures
        spec_keep_by_device_id(devs.push(x), id) == spec_keep_by_device_id(devs, id) + (if x.device_id@
            != id {
            seq![x]
        } else {
            Seq::<ShapedDevice>::empty()
        }),
    decreases devs.len(),
{
    let s = devs.push(x);
    let tail = if x.device_id@ != id { seq![x] } else { Seq::<ShapedDevice>::empty() };
    if devs.len() == 0 {
        assert(s.drop_first() =~= Seq::<ShapedDevice>::empty());
        assert(s[0] == x);
        assert(spec_keep_by_device_id(Seq::<ShapedDevice>::empty(), id) == Seq::<
            ShapedDevice,
        >::empty());
        assert(spec_keep_by_device_id(s, id) =~= spec_keep_by_device_id(devs, id) + tail);
    } else {
        assert(s[0] == devs[0]);
        assert(s.drop_first() =~= devs.drop_first().push(x));
        lemma_keep_by_device_id_snoc(devs.drop_first(), x, id);
        assert(spec_keep_by_device_id(s, id) =~= spec_keep_by_device_id(devs, id) + tail);
    }
}

proof fn lemma_keep_by_circuit_id_snoc(devs: Seq<ShapedDevice>, x: ShapedDevice, id: Seq<char>)
    ensures
        spec_keep_by_circuit_id(devs.push(x), id) == spec_keep_by_circuit_id(devs, id) + (if x.circuit_id@
            != id {
            seq![x]
        } else {
            Seq::<ShapedDevice>::empty()
        }),
    decreases devs.len(),
{
    let s = devs.push(x);
    let tail = if x.circuit_id@ != id { seq![x] } else { Seq::<ShapedDevice>::empty() };
    if devs.len() == 0 {
        assert(s.drop_first() =~= Seq::<ShapedDevice>::empty());
        assert(s[0] == x);
        assert(spec_keep_by_circuit_id(Seq::<ShapedDevice>::empty(), id) == Seq::<
            ShapedDevice,
        >::empty());
        assert(spec_keep_by_circuit_id(s, id) =~= spec_keep_by_circuit_id(devs, id) + tail);
    } else {
        assert(s[0] == devs[0]);
        assert(s.drop_first() =~= devs.drop_first().push(x));
        lemma_keep_by_circuit_id_snoc(devs.drop_first(), x, id);
        assert(spec_keep_by_circuit_id(s, id) =~= spec_keep_by_circuit_id(devs, id) + tail);
    }
}

/// Keeping is a sub-sequence: the kept list is never longer than the input.
proof fn lemma_keep_by_device_id_len(devs: Seq<ShapedDevice>, id: Seq<char>)
    ensures
        spec_keep_by_device_id(devs, id).len() <= devs.len(),
    decreases devs.len(),
{
    if devs.len() > 0 {
        lemma_keep_by_device_id_len(devs.drop_first(), id);
    }
}

proof fn lemma_keep_by_circuit_id_len(devs: Seq<ShapedDevice>, id: Seq<char>)
    ensures
        spec_keep_by_circuit_id(devs, id).len() <= devs.len(),
    decreases devs.len(),
{
    if devs.len() > 0 {
        lemma_keep_by_circuit_id_len(devs.drop_first(), id);
    }
}

fn find_device_index(devs: &Vec<ShapedDevice>, id: &String) -> (r: Option<usize>)
    ensures
        match r {
            None => spec_find_by_device_id(devs@, id@) is None,
            Some(i) => i < devs@.len() && devs@[i as int].device_id@ == id@
                && spec_find_by_device_id(devs@, id@) == Some(devs@[i as int]),
        },
{
    let mut i: usize = 0;
    proof {
        assert(devs@.skip(0) =~= devs@);
    }
    while i < devs.len()
        invariant
            i <= devs@.len(),
            spec_find_by_device_id(devs@, id@) == spec_find_by_device_id(
                devs@.skip(i as int),
                id@,
            ),
        decreases devs@.len() - i,
    {
        if strings_equal(&devs[i].device_id, id) {
            proof {
                assert(devs@.skip(i as int)[0] == devs@[i as int]);
            }
            return Some(i);
        }
        proof {
            assert(devs@.skip(i as int).drop_first() =~= devs@.skip(i + 1));
        }
        i = i + 1;
    }
    proof {
        assert(devs@.skip(i as int).len() == 0);
    }
    None
}

/// The in-memory override store.
#[derive(Debug)]
pub struct OverrideFile {
    /// Devices that will be persisted into the shaped-device list by the
    /// scheduler: persistent "catch all" or API-created devices detached
    /// from the scheduler integration.
    persistent_devices: Vec<ShapedDevice>,
    /// Adjustments the scheduler applies to circuits/devices when
    /// persisting the shaped-device list.
    circuit_adjustments: Vec<CircuitAdjustment>,
    /// Adjustments that affect the network tree's structure and settings.
    network_adjustments: Vec<NetworkAdjustment>,
}

impl OverrideFile {
    /// The stored devices, as a sequence.
    pub closed spec fn spec_devices(&self) -> Seq<ShapedDevice> {
        self.persistent_devices@
    }

    /// The stored circuit adjustments, as a sequence.
    pub closed spec fn spec_circuit_adjustments(&self) -> Seq<CircuitAdjustment> {
        self.circuit_adjustments@
    }

    /// The stored network adjustments, as a sequence.
    pub closed spec fn spec_network_adjustments(&self) -> Seq<NetworkAdjustment> {
        self.network_adjustments@
    }

    /// An empty store.
    pub fn new() -> (r: OverrideFile)
        ensures
            r.spec_devices().len() == 0,
            r.spec_circuit_adjustments().len() == 0,
            r.spec_network_adjustments().len() == 0,
    {
        OverrideFile {
            persistent_devices: Vec::new(),
            circuit_adjustments: Vec::new(),
            network_adjustments: Vec::new(),
        }
    }

    /// Rebuild a store from its three lists (the shape the file holds).
    pub fn from_parts(
        persistent_devices: Vec<ShapedDevice>,
        circuit_adjustments: Vec<CircuitAdjustment>,
        network_adjustments: Vec<NetworkAdjustment>,
    ) -> (r: OverrideFile)
        ensures
            r.spec_devices() == persistent_devices@,
            r.spec_circuit_adjustments() == circuit_adjustments@,
            r.spec_network_adjustments() == network_adjustments@,
    {
        OverrideFile { persistent_devices, circuit_adjustments, network_adjustments }
    }

    /// Borrow the list of persistent devices without modifying the file.
    pub fn persistent_devices(&self) -> (r: &Vec<ShapedDevice>)
        ensures
            r@ == self.spec_devices(),
    {
        &self.persistent_devices
    }

    /// Borrow the list of circuit adjustments without modifying the file.
    pub fn circuit_adjustments(&self) -> (r: &Vec<CircuitAdjustment>)
        ensures
            r@ == self.spec_circuit_adjustments(),
    {
        &self.circuit_adjustments
    }

    /// Borrow the list of network adjustments without modifying the file.
    pub fn network_adjustments(&self) -> (r: &Vec<NetworkAdjustment>)
        ensures
            r@ == self.spec_network_adjustments(),
    {
        &self.network_adjustments
    }

    /// Add or replace a shaped device by `device_id`. Returns true if
    /// changed: when the first stored device with the same id equals the
    /// new one field for field, nothing happens; otherwise every device
    /// with that id is dropped and the new one appended.
    pub fn add_persistent_shaped_device_return_changed(&mut self, device: ShapedDevice) -> (r:
        bool)
        ensures
            ({
                let unchanged = spec_find_by_device_id(
                    old(self).spec_devices(),
                    device.device_id@,
                ) matches Some(d) && spec_sd_eq(d, device);
                &&& unchanged ==> r == false && final(self).spec_devices() == old(
                    self,
                ).spec_devices()
                &&& !unchanged ==> r == true && final(self).spec_devices()
                    == spec_keep_by_device_id(old(self).spec_devices(), device.device_id@).push(
                    device,
                )
            }),
            final(self).spec_circuit_adjustments() == old(self).spec_circuit_adjustments(),
            final(self).spec_network_adjustments() == old(self).spec_network_adjustments(),
    {
        let ghost devs0 = self.persistent_devices@;
        let n0 = self.persistent_devices.len();
        proof {
            assert(devs0.len() == n0);
        }
        match find_device_index(&self.persistent_devices, &device.device_id) {
            Some(i) => {
                let d = &self.persistent_devices[i];
                let same = strings_equal(&d.circuit_id, &device.circuit_id) && strings_equal(
                    &d.circuit_name,
                    &device.circuit_name,
                ) && strings_equal(&d.device_name, &device.device_name) && strings_equal(
                    &d.parent_node,
                    &device.parent_node,
                ) && strings_equal(&d.ip_addresses, &device.ip_addresses) && d.download_min
                    == device.download_min && d.download_max == device.download_max
                    && d.upload_min == device.upload_min && d.upload_max == device.upload_max;
                if same {
                    // No change needed
                    return false;
                }
            },
            None => {},
        }
        proof {
            assert(!(spec_find_by_device_id(devs0, device.device_id@) matches Some(d)
                && spec_sd_eq(d, device)));
        }
        // Drop every device with this id, then append the new one.
        let mut j: usize = 0;
        let mut k: usize = 0;
        proof {
            assert(devs0.take(0) =~= Seq::<ShapedDevice>::empty());
            assert(devs0.skip(0) =~= devs0);
            assert(spec_keep_by_device_id(Seq::<ShapedDevice>::empty(), device.device_id@) == Seq::<
                ShapedDevice,
            >::empty());
            assert(self.persistent_devices@ =~= spec_keep_by_device_id(
                devs0.take(0),
                device.device_id@,
            ) + devs0.skip(0));
        }
        while k < self.persistent_devices.len()
            invariant
                k <= j <= devs0.len(),
                devs0.len() <= usize::MAX,
                self.circuit_adjustments == old(self).circuit_adjustments,
                self.network_adjustments == old(self).network_adjustments,
                k == spec_keep_by_device_id(devs0.take(j as int), device.device_id@).len(),
                self.persistent_devices@ == spec_keep_by_device_id(
                    devs0.take(j as int),
                    device.device_id@,
                ) + devs0.skip(j as int),
                j - k == devs0.take(j as int).len() - spec_keep_by_device_id(
                    devs0.take(j as int),
                    device.device_id@,
                ).len(),
            decreases devs0.len() - j,
        {
            proof {
                assert(self.persistent_devices@[k as int] == devs0[j as int]);
                lemma_keep_by_device_id_snoc(
                    devs0.take(j as int),
                    devs0[j as int],
                    device.device_id@,
                );
                assert(devs0.take(j + 1) =~= devs0.take(j as int).push(devs0[j as int]));
            }
            let drop = strings_equal(
                &self.persistent_devices[k].device_id,
                &device.device_id,
            );
            if drop {
                self.persistent_devices.remove(k);
                proof {
                    assert(self.persistent_devices@ =~= spec_keep_by_device_id(
                        devs0.take(j + 1),
                        device.device_id@,
                    ) + devs0.skip(j + 1));
                }
            } else {
                k = k + 1;
                proof {
                    assert(self.persistent_devices@ =~= spec_keep_by_device_id(
                        devs0.take(j + 1),
                        device.device_id@,
                    ) + devs0.skip(j + 1));
                }
            }
            j = j + 1;
        }
        proof {
            assert(devs0.take(devs0.len() as int) =~= devs0);
            assert(devs0.skip(devs0.len() as int) =~= Seq::<ShapedDevice>::empty());
            assert(self.persistent_devices@ =~= spec_keep_by_device_id(devs0, device.device_id@));
        }
        self.persistent_devices.push(device);
        true
    }

    /// Remove all devices matching `circuit_id`. Returns number removed.
    pub fn remove_persistent_shaped_device_by_circuit_count(&mut self, circuit_id: &String) -> (r:
        usize)
        ensures
            final(self).spec_devices() == spec_keep_by_circuit_id(
                old(self).spec_devices(),
                circuit_id@,
            ),
            r == old(self).spec_devices().len() - final(self).spec_devices().len(),
            final(self).spec_circuit_adjustments() == old(self).spec_circuit_adjustments(),
            final(self).spec_network_adjustments() == old(self).spec_network_adjustments(),
    {
        let ghost devs0 = self.persistent_devices@;
        let before = self.persistent_devices.len();
        let mut j: usize = 0;
        let mut k: usize = 0;
        proof {
            assert(devs0.take(0) =~= Seq::<ShapedDevice>::empty());
            assert(devs0.skip(0) =~= devs0);
            assert(spec_keep_by_circuit_id(Seq::<ShapedDevice>::empty(), circuit_id@) == Seq::<
                ShapedDevice,
            >::empty());
            assert(self.persistent_devices@ =~= spec_keep_by_circuit_id(devs0.take(0), circuit_id@)
                + devs0.skip(0));
        }
        while k < self.persistent_devices.len()
            invariant
                k <= j <= devs0.len(),
                devs0.len() <= usize::MAX,
                self.circuit_adjustments == old(self).circuit_adjustments,
                self.network_adjustments == old(self).network_adjustments,
                k == spec_keep_by_circuit_id(devs0.take(j as int), circuit_id@).len(),
                self.persistent_devices@ == spec_keep_by_circuit_id(
                    devs0.take(j as int),
                    circuit_id@,
                ) + devs0.skip(j as int),
            decreases devs0.len() - j,
        {
            proof {
                assert(self.persistent_devices@[k as int] == devs0[j as int]);
                lemma_keep_by_circuit_id_snoc(devs0.take(j as int), devs0[j as int], circuit_id@);
                assert(devs0.take(j + 1) =~= devs0.take(j as int).push(devs0[j as int]));
            }
            let drop = strings_equal(&self.persistent_devices[k].circuit_id, circuit_id);
            if drop {
                self.persistent_devices.remove(k);
                proof {
                    assert(self.persistent_devices@ =~= spec_keep_by_circuit_id(
                        devs0.take(j + 1),
                        circuit_id@,
                    ) + devs0.skip(j + 1));
                }
            } else {
                k = k + 1;
                proof {
                    assert(self.persistent_devices@ =~= spec_keep_by_circuit_id(
                        devs0.take(j + 1),
                        circuit_id@,
                    ) + devs0.skip(j + 1));
                }
            }
            j = j + 1;
        }
        proof {
            assert(devs0.take(devs0.len() as int) =~= devs0);
            assert(devs0.skip(devs0.len() as int) =~= Seq::<ShapedDevice>::empty());
            assert(self.persistent_devices@ =~= spec_keep_by_circuit_id(devs0, circuit_id@));
            lemma_keep_by_circuit_id_len(devs0, circuit_id@);
        }
        before - self.persistent_devices.len()
    }

    /// Remove all devices matching `device_id`. Returns number removed.
    pub fn remove_persistent_shaped_device_by_device_count(&mut self, device_id: &String) -> (r:
        usize)
        ensures
            final(self).spec_devices() == spec_keep_by_device_id(
                old(self).spec_devices(),
                device_id@,
            ),
            r == old(self).spec_devices().len() - final(self).spec_devices().len(),
            final(self).spec_circuit_adjustments() == old(self).spec_circuit_adjustments(),
            final(self).spec_network_adjustments() == old(self).spec_network_adjustments(),
    {
        let ghost devs0 = self.persistent_devices@;
        let before = self.persistent_devices.len();
        let mut j: usize = 0;
        let mut k: usize = 0;
        proof {
            assert(devs0.take(0) =~= Seq::<ShapedDevice>::empty());
            assert(devs0.skip(0) =~= devs0);
            assert(spec_keep_by_device_id(Seq::<ShapedDevice>::empty(), device_id@) == Seq::<
                ShapedDevice,
            >::empty());
            assert(self.persistent_devices@ =~= spec_keep_by_device_id(devs0.take(0), device_id@)
                + devs0.skip(0));
        }
        while k < self.persistent_devices.len()
            invariant
                k <= j <= devs0.len(),
                devs0.len() <= usize::MAX,
                self.circuit_adjustments == old(self).circuit_adjustments,
                self.network_adjustments == old(self).network_adjustments,
                k == spec_keep_by_device_id(devs0.take(j as int), device_id@).len(),
                self.persistent_devices@ == spec_keep_by_device_id(
                    devs0.take(j as int),
                    device_id@,
                ) + devs0.skip(j as int),
            decreases devs0.len() - j,
        {
            proof {
                assert(self.persistent_devices@[k as int] == devs0[j as int]);
                lemma_keep_by_device_id_snoc(devs0.take(j as int), devs0[j as int], device_id@);
                assert(devs0.take(j + 1) =~= devs0.take(j as int).push(devs0[j as int]));
            }
            let drop = strings_equal(&self.persistent_devices[k].device_id, device_id);
            if drop {
                self.persistent_devices.remove(k);
                proof {
                    assert(self.persistent_devices@ =~= spec_keep_by_device_id(
                        devs0.take(j + 1),
                        device_id@,
                    ) + devs0.skip(j + 1));
                }
            } else {
                k = k + 1;
                proof {
                    assert(self.persistent_devices@ =~= spec_keep_by_device_id(
                        devs0.take(j + 1),
                        device_id@,
                    ) + devs0.skip(j + 1));
                }
            }
            j = j + 1;
        }
        proof {
            assert(devs0.take(devs0.len() as int) =~= devs0);
            assert(devs0.skip(devs0.len() as int) =~= Seq::<ShapedDevice>::empty());
            assert(self.persistent_devices@ =~= spec_keep_by_device_id(devs0, device_id@));
            lemma_keep_by_device_id_len(devs0, device_id@);
        }
        before - self.persistent_devices.len()
    }

    /// Add a circuit adjustment entry.
    pub fn add_circuit_adjustment(&mut self, adj: CircuitAdjustment)
        ensures
            final(self).spec_circuit_adjustments() == old(self).spec_circuit_adjustments().push(
                adj,
            ),
            final(self).spec_devices() == old(self).spec_devices(),
            final(self).spec_network_adjustments() == old(self).spec_network_adjustments(),
    {
        self.circuit_adjustments.push(adj);
    }

    /// Remove a circuit adjustment by index. Returns true if removed:
    /// exactly when the index is in range.
    pub fn remove_circuit_adjustment_by_index(&mut self, index: usize) -> (r: bool)
        ensures
            r == (index < old(self).spec_circuit_adjustments().len()),
            r ==> final(self).spec_circuit_adjustments() == old(
                self,
            ).spec_circuit_adjustments().remove(index as int),
            !r ==> final(self).spec_circuit_adjustments() == old(self).spec_circuit_adjustments(),
            final(self).spec_devices() == old(self).spec_devices(),
            final(self).spec_network_adjustments() == old(self).spec_network_adjustments(),
    {
        if index < self.circuit_adjustments.len() {
            self.circuit_adjustments.remove(index);
            return true;
        }
        false
    }

    /// Add a network adjustment entry.
    pub fn add_network_adjustment(&mut self, adj: NetworkAdjustment)
        ensures
            final(self).spec_network_adjustments() == old(self).spec_network_adjustments().push(
                adj,
            ),
            final(self).spec_devices() == old(self).spec_devices(),
            final(self).spec_circuit_adjustments() == old(self).spec_circuit_adjustments(),
    {
        self.network_adjustments.push(adj);
    }

    /// Remove a network adjustment by index. Returns true if removed:
    /// exactly when the index is in range.
    pub fn remove_network_adjustment_by_index(&mut self, index: usize) -> (r: bool)
        ensures
            r == (index < old(self).spec_network_adjustments().len()),
            r ==> final(self).spec_network_adjustments() == old(
                self,
            ).spec_network_adjustments().remove(index as int),
            !r ==> final(self).spec_network_adjustments() == old(self).spec_network_adjustments(),
            final(self).spec_devices() == old(self).spec_devices(),
            final(self).spec_circuit_adjustments() == old(self).spec_circuit_adjustments(),
    {
        if index < self.network_adjustments.len() {
            self.network_adjustments.remove(index);
            return true;
        }
        false
    }
}

} // verus!
