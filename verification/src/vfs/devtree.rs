//! The `/dev/` device tree: which nodes exist and whether their hardware
//! is present, refreshed by rate-limited re-probing.

use vstd::prelude::*;
use vstd::string::StringSliceAdditionalSpecFns;
use crate::text::{find_from, lemma_first_index_unique};
use super::{DevKind, DevNode, MAX_DEVICES, VolumeTable, dev_prefix, kind_of_index, node_path, pbytes};

verus! {

/// Number of always-present nodes (HID ports, null, zero).
pub const N_FIXED: usize = 18;
/// Number of storage nodes.
pub const N_STORAGE: usize = 6;

/// SD cards are re-probed when more than this many timebase ticks
/// (500 ms) have passed.
pub const SD_POLL_TICKS: u64 = 20_250_000;
/// The DVD drive: every second.
pub const DVD_POLL_TICKS: u64 = 40_500_000;
/// Memory cards: every 250 ms.
pub const MC_POLL_TICKS: u64 = 10_125_000;

/// A path stored NUL-terminated in 20 bytes: its first 19 bytes at most,
/// a NUL, and zeros.
pub open spec fn stored_path(b: Seq<u8>) -> Seq<u8> {
    let n = if b.len() < 19 { b.len() as int } else { 19 };
    b.subrange(0, n) + seq![0u8] + Seq::new((19 - n) as nat, |k: int| 0u8)
}

/// The prefix-table entry of tree node `i`: the HID ports, null and zero
/// first, then the storage devices.
pub open spec fn tree_entry(i: int) -> int {
    if i < N_FIXED { i + N_STORAGE } else { i - N_FIXED }
}

/// `nodes` is the tree at start-up with these storage presences.
pub open spec fn is_initial(nodes: Seq<DevNode>, storage_present: [bool; 6]) -> bool {
    &&& nodes.len() == MAX_DEVICES
    &&& forall|i: int| 0 <= i < MAX_DEVICES ==> {
        &&& (#[trigger] nodes[i]).path@ == stored_path(pbytes(tree_entry(i)))
        &&& nodes[i].kind == kind_of_index(tree_entry(i))
        &&& nodes[i].present == (if i < N_FIXED { true } else { storage_present[i - N_FIXED] })
    }
}

/// Node `n` answers to path `q`, comparing at most 19 bytes.
pub open spec fn node_matches(n: DevNode, q: Seq<u8>) -> bool {
    let k = if q.len() < 19 { q.len() as int } else { 19 };
    n.path@.subrange(0, k) == q.subrange(0, k) && n.path@[k] == 0
}

/// Presence of the first used node from `i` on that answers to `q`;
/// `false` when none does.
pub open spec fn present_from(nodes: Seq<DevNode>, q: Seq<u8>, i: int) -> bool
    decreases nodes.len() - i,
{
    if i < 0 || i >= nodes.len() {
        false
    } else if nodes[i].kind != DevKind::Empty && node_matches(nodes[i], q) {
        nodes[i].present
    } else {
        present_from(nodes, q, i + 1)
    }
}

/// The used nodes among the first `i`, in order.
pub open spec fn listed(nodes: Seq<DevNode>, i: int) -> Seq<DevNode>
    decreases i,
{
    if i <= 0 {
        Seq::empty()
    } else if nodes[i - 1].kind != DevKind::Empty {
        listed(nodes, i - 1).push(nodes[i - 1])
    } else {
        listed(nodes, i - 1)
    }
}

/// Which storage group a node kind is re-probed with.
#[derive(Clone, Copy, Debug, PartialEq, Eq, Structural)]
pub enum ProbeGroup {
    Sd,
    Dvd,
    MemCard,
    /// Not re-probed.
    Fixed,
}

pub open spec fn spec_group(k: DevKind) -> ProbeGroup {
    match k {
        DevKind::SdSp2 | DevKind::SdSlotA | DevKind::SdSlotB => ProbeGroup::Sd,
        DevKind::DvdDrive => ProbeGroup::Dvd,
        DevKind::MemCardA | DevKind::MemCardB => ProbeGroup::MemCard,
        _ => ProbeGroup::Fixed,
    }
}

/// The re-probe group of a node kind.
pub fn probe_group(k: DevKind) -> (r: ProbeGroup)
    ensures
        r == spec_group(k),
{
    match k {
        DevKind::SdSp2 | DevKind::SdSlotA | DevKind::SdSlotB => ProbeGroup::Sd,
        DevKind::DvdDrive => ProbeGroup::Dvd,
        DevKind::MemCardA | DevKind::MemCardB => ProbeGroup::MemCard,
        _ => ProbeGroup::Fixed,
    }
}

/// The hardware probe that tells whether a node's device is present.
#[derive(Clone, Copy, Debug, PartialEq, Eq, Structural)]
pub enum Probe {
    /// Initialise the SD card in the SD2SP2 adapter.
    SdSp2,
    /// Initialise the SD card in memory-card slot A.
    SdSlotA,
    /// Initialise the SD card in memory-card slot B.
    SdSlotB,
    /// Initialise the drive; present when the cover is closed.
    Dvd,
    /// Probe memory-card slot A.
    MemCardA,
    /// Probe memory-card slot B.
    MemCardB,
    /// No probe: always present.
    AlwaysPresent,
}

/// The probe of a node kind.
pub fn probe_device(k: DevKind) -> (r: Probe)
    ensures
        r == (match k {
            DevKind::SdSp2 => Probe::SdSp2,
            DevKind::SdSlotA => Probe::SdSlotA,
            DevKind::SdSlotB => Probe::SdSlotB,
            DevKind::DvdDrive => Probe::Dvd,
            DevKind::MemCardA => Probe::MemCardA,
            DevKind::MemCardB => Probe::MemCardB,
            _ => Probe::AlwaysPresent,
        }),
{
    match k {
        DevKind::SdSp2 => Probe::SdSp2,
        DevKind::SdSlotA => Probe::SdSlotA,
        DevKind::SdSlotB => Probe::SdSlotB,
        DevKind::DvdDrive => Probe::Dvd,
        DevKind::MemCardA => Probe::MemCardA,
        DevKind::MemCardB => Probe::MemCardB,
        _ => Probe::AlwaysPresent,
    }
}

/// When each storage group was last probed.
#[derive(Clone, Copy, Debug, PartialEq, Eq, Structural)]
pub struct PollClock {
    pub last_sd: u64,
    pub last_dvd: u64,
    pub last_mc: u64,
}

/// More than `interval` ticks have passed from `last` to `now`, counted
/// modulo 2^64.
pub open spec fn elapsed(now: u64, last: u64, interval: u64) -> bool {
    (if now >= last { now - last } else { now + 0x1_0000_0000_0000_0000 - last }) > interval
}

fn is_due(now: u64, last: u64, interval: u64) -> (r: bool)
    ensures
        r == elapsed(now, last, interval),
{
    now.wrapping_sub(last) > interval
}

impl PollClock {
    /// Nothing probed yet.
    pub fn new() -> (r: Self)
        ensures
            r == (PollClock { last_sd: 0, last_dvd: 0, last_mc: 0 }),
    {
        PollClock { last_sd: 0, last_dvd: 0, last_mc: 0 }
    }

    /// Which groups are due for a re-probe at time `now` (SD, DVD, memory
    /// card); each due group's clock is set to `now`.
    pub fn due(&mut self, now: u64) -> (r: (bool, bool, bool))
        ensures
            r.0 == elapsed(now, old(self).last_sd, SD_POLL_TICKS),
            r.1 == elapsed(now, old(self).last_dvd, DVD_POLL_TICKS),
            r.2 == elapsed(now, old(self).last_mc, MC_POLL_TICKS),
            final(self).last_sd == (if r.0 { now } else { old(self).last_sd }),
            final(self).last_dvd == (if r.1 { now } else { old(self).last_dvd }),
            final(self).last_mc == (if r.2 { now } else { old(self).last_mc }),
    {
        let sd = is_due(now, self.last_sd, SD_POLL_TICKS);
        if sd {
            self.last_sd = now;
        }
        let dvd = is_due(now, self.last_dvd, DVD_POLL_TICKS);
        if dvd {
            self.last_dvd = now;
        }
        let mc = is_due(now, self.last_mc, MC_POLL_TICKS);
        if mc {
            self.last_mc = now;
        }
        (sd, dvd, mc)
    }
}

/// The device tree.
pub struct DeviceTree {
    nodes: Vec<DevNode>,
}

impl View for DeviceTree {
    type V = Seq<DevNode>;

    closed spec fn view(&self) -> Seq<DevNode> {
        self.nodes@
    }
}

impl DeviceTree {
    pub closed spec fn wf(&self) -> bool {
        self.nodes@.len() == MAX_DEVICES
    }

    /// The full tree: the HID ports, `/dev/null` and `/dev/zero`, always
    /// present, then the six storage devices with the presence their
    /// probes found (`storage_present`, in the order SD2SP2, SD slot A, SD
    /// slot B, DVD, memory card A, memory card B).
    pub fn init(storage_present: [bool; 6]) -> (r: Self)
        ensures
            r.wf(),
            is_initial(r@, storage_present),
    {
        let mut nodes: Vec<DevNode> = Vec::new();
        let mut i: usize = 0;
        while i < MAX_DEVICES
            invariant
                i <= MAX_DEVICES,
                nodes@.len() == i,
                forall|j: int| 0 <= j < i ==> {
                    &&& (#[trigger] nodes@[j]).path@ == stored_path(pbytes(tree_entry(j)))
                    &&& nodes@[j].kind == kind_of_index(tree_entry(j))
                    &&& nodes@[j].present == (if j < N_FIXED { true } else { storage_present[j - N_FIXED] })
                },
            decreases MAX_DEVICES - i,
        {
            let e = if i < N_FIXED { i + N_STORAGE } else { i - N_FIXED };
            let empty = DevNode::empty();
            let mut node = empty.set_path(dev_prefix(e));
            proof {
                let b = pbytes(e as int);
                let n = if b.len() < 19 { b.len() as int } else { 19 };
                assert(empty.path@.subrange(n + 1, 20) =~= Seq::new((19 - n) as nat, |k: int| 0u8));
            }
            node.kind = if e == 0 {
                DevKind::SdSp2
            } else if e == 1 {
                DevKind::SdSlotA
            } else if e == 2 {
                DevKind::SdSlotB
            } else if e == 3 {
                DevKind::DvdDrive
            } else if e == 4 {
                DevKind::MemCardA
            } else if e == 5 {
                DevKind::MemCardB
            } else if e < 22 {
                DevKind::HidPort(((e - 6) / 4) as u8)
            } else if e == 22 {
                DevKind::Null
            } else {
                DevKind::Zero
            };
            node.present = if i < N_FIXED { true } else { storage_present[i - N_FIXED] };
            nodes.push(node);
            i = i + 1;
        }
        DeviceTree { nodes }
    }

    /// Node `i`.
    pub fn node(&self, i: usize) -> (r: DevNode)
        requires
            self.wf(),
            i < MAX_DEVICES,
        ensures
            r == self@[i as int],
    {
        self.nodes[i]
    }

    /// Whether the device at `dev_prefix` is present: the presence of the
    /// first used node answering to it, `false` when none does.
    pub fn dev_is_present(&self, dev_prefix: &str) -> (r: bool)
        requires
            self.wf(),
        ensures
            r == present_from(self@, dev_prefix.spec_bytes(), 0),
    {
        let mut i: usize = 0;
        while i < MAX_DEVICES
            invariant
                i <= MAX_DEVICES,
                self.wf(),
                present_from(self@, dev_prefix.spec_bytes(), 0) == present_from(self@, dev_prefix.spec_bytes(), i as int),
            decreases MAX_DEVICES - i,
        {
            let n = self.nodes[i];
            if !matches!(n.kind, DevKind::Empty) && n.path_matches(dev_prefix) {
                return n.present;
            }
            i = i + 1;
        }
        false
    }

    /// The used nodes, in tree order.
    pub fn list_devices(&self) -> (r: Vec<DevNode>)
        requires
            self.wf(),
        ensures
            r@ == listed(self@, MAX_DEVICES as int),
    {
        let mut out: Vec<DevNode> = Vec::new();
        let mut i: usize = 0;
        while i < MAX_DEVICES
            invariant
                i <= MAX_DEVICES,
                self.wf(),
                out@ == listed(self@, i as int),
            decreases MAX_DEVICES - i,
        {
            let n = self.nodes[i];
            if !matches!(n.kind, DevKind::Empty) {
                out.push(n);
            }
            i = i + 1;
        }
        out
    }

    /// Record the result of re-probing node `i`. When its device was
    /// present and is gone, the volumes mounted on it are marked removed.
    pub fn apply_probe(&mut self, vols: &mut VolumeTable, i: usize, present: bool)
        requires
            old(self).wf(),
            old(vols).wf(),
            i < MAX_DEVICES,
        ensures
            final(self).wf(),
            final(vols).wf(),
            final(self)@ == old(self)@.update(i as int, DevNode { present, ..old(self)@[i as int] }),
            (old(self)@[i as int].present && !present) ==> forall|k: int| 0 <= k < super::MAX_VOLUMES ==> #[trigger] final(vols)@[k] == (if super::slot_is(old(vols)@[k], node_path(old(self)@[i as int].path@))
                && old(vols)@[k].open_count == 0 {
                super::VolumeSlot { mounted: false, ..old(vols)@[k] }
            } else {
                old(vols)@[k]
            }),
            !(old(self)@[i as int].present && !present) ==> final(vols)@ == old(vols)@,
    {
        let mut n = self.nodes[i];
        let was = n.present;
        n.present = present;
        self.nodes.set(i, n);
        if was && !present {
            let all = n.path.as_slice();
            let end = find_from(all, 0, 0);
            proof {
                lemma_first_index_unique(n.path@, 0, end as int);
            }
            let (head, _) = all.split_at(end);
            assert(head@ == node_path(n.path@));
            vols.mark_volume_removed(head);
        }
    }
}

} // verus!
