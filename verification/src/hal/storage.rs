//! Storage devices: the block-device interface every storage backend
//! offers, and the inventory of detected devices.

use vstd::prelude::*;

verus! {

/// Error of a block-device operation.
#[derive(Clone, Copy, PartialEq, Eq, Debug, Structural)]
pub enum BlockError {
    NoDevice,
    IoError,
    Timeout,
    BadAddress,
    WriteProtected,
    ReadOnly,
}

/// A readable (and possibly writable) block storage device addressed by
/// zero-based logical sector numbers.
pub trait BlockDevice {
    /// Bytes per sector.
    spec fn spec_sector_size(&self) -> usize;

    /// Sectors on the device.
    spec fn spec_sector_count(&self) -> u64;

    /// Human-readable device name.
    fn name(&self) -> &'static str;

    fn sector_size(&self) -> (r: usize)
        ensures
            r == self.spec_sector_size(),
    ;

    fn sector_count(&self) -> (r: u64)
        ensures
            r == self.spec_sector_count(),
    ;

    /// Capacity in bytes: sectors times sector size (reduced to 64 bits).
    fn capacity_bytes(&self) -> (r: u64)
        ensures
            r == (self.spec_sector_count() * self.spec_sector_size()) % 0x1_0000_0000_0000_0000,
    {
        let n = self.sector_count();
        let s = self.sector_size() as u64;
        let r = n.wrapping_mul(s);
        assert(r == (n * s) % 0x1_0000_0000_0000_0000) by (nonlinear_arith)
            requires
                r == (if n * s > u64::MAX { (n * s) % 0x1_0000_0000_0000_0000 } else { n * s }),
        ;
        r
    }

    /// Read sector `lba` into the front of `buf`.
    fn read(&self, lba: u64, buf: &mut [u8]) -> (r: Result<(), BlockError>)
        ensures
            final(buf)@.len() == old(buf)@.len(),
    ;

    /// Write sector `lba` from the front of `buf`; read-only devices refuse.
    fn write(&self, lba: u64, buf: &[u8]) -> Result<(), BlockError>;

    /// Whether the device is read-only.
    fn is_read_only(&self) -> bool {
        false
    }
}

/// Category of a storage device.
#[derive(Clone, Copy, PartialEq, Eq, Debug, Structural)]
pub enum StorageKind {
    SdCardSlotA,
    SdCardSlotB,
    SdCardSp2,
    MemCardSlotA,
    MemCardSlotB,
    DvdDisc,
}

impl StorageKind {
    pub open spec fn spec_name(self) -> &'static str {
        match self {
            StorageKind::SdCardSlotA => "SD Card (Slot A)",
            StorageKind::SdCardSlotB => "SD Card (Slot B)",
            StorageKind::SdCardSp2 => "SD Card (SP2)",
            StorageKind::MemCardSlotA => "Memory Card (Slot A)",
            StorageKind::MemCardSlotB => "Memory Card (Slot B)",
            StorageKind::DvdDisc => "DVD Disc",
        }
    }

    /// Human-readable name.
    pub fn name(self) -> (r: &'static str)
        ensures
            r == self.spec_name(),
    {
        match self {
            StorageKind::SdCardSlotA => "SD Card (Slot A)",
            StorageKind::SdCardSlotB => "SD Card (Slot B)",
            StorageKind::SdCardSp2 => "SD Card (SP2)",
            StorageKind::MemCardSlotA => "Memory Card (Slot A)",
            StorageKind::MemCardSlotB => "Memory Card (Slot B)",
            StorageKind::DvdDisc => "DVD Disc",
        }
    }
}

/// What an expansion-bus device identifies as.
#[derive(Clone, Copy, PartialEq, Eq, Debug, Structural)]
pub enum DeviceType {
    /// Nothing answered.
    Absent,
    /// An SD card adapter.
    SdCard,
    /// A memory card, with its raw identification word.
    MemoryCard(u32),
}

/// A detected storage device.
#[derive(Clone, Copy, PartialEq, Eq, Debug, Structural)]
pub struct StorageInfo {
    pub kind: StorageKind,
    pub dev_type: DeviceType,
    pub sector_size: usize,
    pub sector_count: u64,
    pub read_only: bool,
}

/// What probing an expansion slot found.
#[derive(Clone, Copy, PartialEq, Eq, Debug, Structural)]
pub enum SlotProbe {
    /// No device answered, or it identified as nothing.
    Empty,
    /// A memory card with that identification; `Some(total bytes)` when its
    /// probe succeeded.
    MemCard(u32, Option<u32>),
    /// Any other device, tried as an SD card; `Some(sectors)` when the card
    /// initialised.
    Other(Option<u32>),
}

/// The inventory entry for an expansion slot.
pub open spec fn slot_entry(p: SlotProbe, sd_kind: StorageKind, mc_kind: StorageKind) -> Option<StorageInfo> {
    match p {
        SlotProbe::Empty => None,
        SlotProbe::MemCard(id, Some(total)) => Some(
            StorageInfo { kind: mc_kind, dev_type: DeviceType::MemoryCard(id), sector_size: 512, sector_count: (total / 512) as u64, read_only: false },
        ),
        SlotProbe::MemCard(_, None) => None,
        SlotProbe::Other(Some(secs)) => Some(
            StorageInfo { kind: sd_kind, dev_type: DeviceType::SdCard, sector_size: 512, sector_count: secs as u64, read_only: false },
        ),
        SlotProbe::Other(None) => None,
    }
}

/// The entries found, in probe order: slot A, slot B, the SP2 port, the
/// DVD drive.
pub open spec fn found(a: SlotProbe, b: SlotProbe, sp2: Option<u32>, dvd: bool) -> Seq<StorageInfo> {
    let ea = match slot_entry(a, StorageKind::SdCardSlotA, StorageKind::MemCardSlotA) {
        Some(e) => seq![e],
        None => Seq::empty(),
    };
    let eb = match slot_entry(b, StorageKind::SdCardSlotB, StorageKind::MemCardSlotB) {
        Some(e) => seq![e],
        None => Seq::empty(),
    };
    let es = match sp2 {
        Some(secs) => seq![
            StorageInfo { kind: StorageKind::SdCardSp2, dev_type: DeviceType::SdCard, sector_size: 512, sector_count: secs as u64, read_only: false },
        ],
        None => Seq::empty(),
    };
    let ed = if dvd {
        seq![StorageInfo { kind: StorageKind::DvdDisc, dev_type: DeviceType::Absent, sector_size: 2048, sector_count: 0, read_only: true }]
    } else {
        Seq::empty()
    };
    ea + eb + es + ed
}

/// The inventory entry for an expansion slot.
pub fn slot_info(p: SlotProbe, sd_kind: StorageKind, mc_kind: StorageKind) -> (r: Option<StorageInfo>)
    ensures
        r == slot_entry(p, sd_kind, mc_kind),
{
    match p {
        SlotProbe::Empty => None,
        SlotProbe::MemCard(id, Some(total)) => Some(
            StorageInfo { kind: mc_kind, dev_type: DeviceType::MemoryCard(id), sector_size: 512, sector_count: (total / 512) as u64, read_only: false },
        ),
        SlotProbe::MemCard(_, None) => None,
        SlotProbe::Other(Some(secs)) => Some(
            StorageInfo { kind: sd_kind, dev_type: DeviceType::SdCard, sector_size: 512, sector_count: secs as u64, read_only: false },
        ),
        SlotProbe::Other(None) => None,
    }
}

/// The device inventory from the probe results of slot A, slot B, the SP2
/// port (`Some(sectors)` when a card initialised) and the DVD drive (`true`
/// when the cover is closed and a disc identified itself), keeping at most
/// `cap` entries.
pub fn scan(a: SlotProbe, b: SlotProbe, sp2: Option<u32>, dvd: bool, cap: usize) -> (r: Vec<StorageInfo>)
    ensures
        r@ == found(a, b, sp2, dvd).take(if cap < found(a, b, sp2, dvd).len() { cap as int } else { found(a, b, sp2, dvd).len() as int }),
{
    let mut all: Vec<StorageInfo> = Vec::new();
    match slot_info(a, StorageKind::SdCardSlotA, StorageKind::MemCardSlotA) {
        Some(e) => all.push(e),
        None => {},
    }
    match slot_info(b, StorageKind::SdCardSlotB, StorageKind::MemCardSlotB) {
        Some(e) => all.push(e),
        None => {},
    }
    match sp2 {
        Some(secs) => all.push(
            StorageInfo { kind: StorageKind::SdCardSp2, dev_type: DeviceType::SdCard, sector_size: 512, sector_count: secs as u64, read_only: false },
        ),
        None => {},
    }
    if dvd {
        all.push(StorageInfo { kind: StorageKind::DvdDisc, dev_type: DeviceType::Absent, sector_size: 2048, sector_count: 0, read_only: true });
    }
    assert(all@ =~= found(a, b, sp2, dvd));
    let mut out: Vec<StorageInfo> = Vec::new();
    let mut i: usize = 0;
    while i < all.len() && i < cap
        invariant
            i <= all@.len(),
            i <= cap,
            all@ == found(a, b, sp2, dvd),
            out@ == all@.take(i as int),
        decreases all@.len() - i,
    {
        out.push(all[i]);
        assert(out@ =~= all@.take(i + 1));
        i = i + 1;
    }
    out
}

} // verus!
