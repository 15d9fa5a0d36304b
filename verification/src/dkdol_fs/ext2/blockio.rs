//! Filesystem blocks over 512-byte sectors.

use vstd::prelude::*;
use crate::gc_fs::{BlockDev, FsError, Result, sectors_bytes, zeros, read_run};

verus! {

/// Sectors per block.
pub open spec fn spb(bs: int) -> int {
    bs / 512
}

/// Block sizes the driver handles.
pub open spec fn valid_bs(bs: int) -> bool {
    bs == 1024 || bs == 2048 || bs == 4096
}

/// The bytes of block `b`.
pub open spec fn blk<D: BlockDev>(dev: &D, bs: int, b: int) -> Seq<u8> {
    sectors_bytes(dev, b * spb(bs), spb(bs) as nat)
}

/// The bytes a read of block `b` yields: block 0 reads as zeros (a hole).
pub open spec fn blk_or_zero<D: BlockDev>(dev: &D, bs: int, b: int) -> Seq<u8> {
    if b == 0 {
        zeros(bs)
    } else {
        blk(dev, bs, b)
    }
}

/// `new` is `old` with block `b` replaced by `data`.
pub open spec fn wrote_block<D: BlockDev>(old: &D, new: &D, bs: int, b: int, data: Seq<u8>) -> bool {
    forall|l: int| #[trigger]
        new.sector(l) == if b * spb(bs) <= l < b * spb(bs) + spb(bs) {
            data.subrange((l - b * spb(bs)) * 512, (l - b * spb(bs)) * 512 + 512)
        } else {
            old.sector(l)
        }
}

/// `new` differs from `old` at most in the sectors of block `b`.
pub open spec fn only_block<D: BlockDev>(old: &D, new: &D, bs: int, b: int) -> bool {
    forall|l: int| !(b * spb(bs) <= l < b * spb(bs) + spb(bs)) ==> #[trigger] new.sector(l) == old.sector(l)
}

/// Sector runs that agree sector by sector read the same.
pub proof fn lemma_sectors_frame<D: BlockDev>(a: &D, b: &D, lba: int, n: nat)
    requires
        forall|l: int| lba <= l < lba + n ==> #[trigger] a.sector(l) == b.sector(l),
    ensures
        sectors_bytes(a, lba, n) == sectors_bytes(b, lba, n),
    decreases n,
{
    if n > 0 {
        lemma_sectors_frame(a, b, lba, (n - 1) as nat);
        assert(a.sector(lba + n - 1) == b.sector(lba + n - 1));
    }
}

/// A run whose sectors hold consecutive 512-byte slices of `data` reads as
/// `data`'s prefix.
pub proof fn lemma_sectors_of<D: BlockDev>(dev: &D, lba: int, n: nat, data: Seq<u8>)
    requires
        dev.sector_len() == 512,
        n * 512 <= data.len(),
        forall|l: int| lba <= l < lba + n ==> #[trigger] dev.sector(l) == data.subrange((l - lba) * 512, (l - lba) * 512 + 512),
    ensures
        sectors_bytes(dev, lba, n) == data.subrange(0, (n * 512) as int),
    decreases n,
{
    if n > 0 {
        lemma_sectors_of(dev, lba, (n - 1) as nat, data);
        let k = (n - 1) as int;
        assert(dev.sector(lba + k) == data.subrange(k * 512, k * 512 + 512));
        assert(data.subrange(0, k * 512) + data.subrange(k * 512, k * 512 + 512) =~= data.subrange(0, (n * 512) as int));
    }
}

/// After a block write, that block reads back as written and no other block
/// changes.
pub proof fn lemma_write_block_effect<D: BlockDev>(old: &D, new: &D, bs: int, b: int, data: Seq<u8>, c: int)
    requires
        valid_bs(bs),
        old.sector_len() == 512,
        new.sector_len() == 512,
        data.len() == bs,
        wrote_block(old, new, bs, b, data),
    ensures
        c == b ==> blk(new, bs, c) == data,
        c != b ==> blk(new, bs, c) == blk(old, bs, c),
{
    let s = spb(bs);
    if c == b {
        assert forall|l: int| b * s <= l < b * s + s implies #[trigger] new.sector(l) == data.subrange(
            (l - b * s) * 512,
            (l - b * s) * 512 + 512,
        ) by {}
        assert(s * 512 == bs);
        lemma_sectors_of(new, b * s, s as nat, data);
        assert(data.subrange(0, bs) =~= data);
    } else {
        assert(b * s + s <= c * s || c * s + s <= b * s) by (nonlinear_arith)
            requires
                c != b,
                s > 0,
        ;
        assert forall|l: int| c * s <= l < c * s + s implies #[trigger] new.sector(l) == old.sector(l) by {}
        lemma_sectors_frame(new, old, c * s, s as nat);
    }
}

/// Read block `b` (block 0 reads as zeros without touching the device).
pub fn read_block<D: BlockDev>(dev: &D, bs: u32, b: u32) -> (r: Result<Vec<u8>>)
    requires
        dev.sector_len() == 512,
        valid_bs(bs as int),
    ensures
        r matches Ok(v) ==> v@ == blk_or_zero(dev, bs as int, b as int) && v@.len() == bs,
{
    let n = (bs / 512) as usize;
    let mut buf: Vec<u8> = vec![0u8; bs as usize];
    if b == 0 {
        assert(buf@ =~= zeros(bs as int));
        return Ok(buf);
    }
    proof {
        assert(b * n <= 0xFFFF_FFFF * 8) by (nonlinear_arith)
            requires
                b < 0x1_0000_0000,
                n <= 8,
        ;
    }
    let lba: u64 = b as u64 * n as u64;
    proof {
        assert(n * 512 == bs);
        assert(lba + n <= u64::MAX) by (nonlinear_arith)
            requires
                lba == b * n,
                b < 0x1_0000_0000,
                n <= 8,
        ;
    }
    read_run(dev, lba, n, &mut buf)?;
    proof {
        assert(buf@.subrange(n * 512, bs as int) =~= Seq::<u8>::empty());
        assert(buf@ =~= sectors_bytes(dev, lba as int, n as nat));
    }
    Ok(buf)
}

/// Write `data` (one block) to block `b`.
pub fn write_block<D: BlockDev>(dev: &mut D, bs: u32, b: u32, data: &[u8]) -> (r: Result<()>)
    requires
        old(dev).sector_len() == 512,
        valid_bs(bs as int),
        data@.len() == bs,
    ensures
        final(dev).sector_len() == 512,
        r is Ok ==> wrote_block(old(dev), final(dev), bs as int, b as int, data@),
        only_block(old(dev), final(dev), bs as int, b as int),
{
    let n = (bs / 512) as usize;
    proof {
        assert(b * n <= 0xFFFF_FFFF * 8) by (nonlinear_arith)
            requires
                b < 0x1_0000_0000,
                n <= 8,
        ;
    }
    let lba: u64 = b as u64 * n as u64;
    proof {
        assert(n * 512 == bs);
        assert(lba + n <= u64::MAX) by (nonlinear_arith)
            requires
                lba == b * n,
                b < 0x1_0000_0000,
                n <= 8,
        ;
    }
    let mut i: usize = 0;
    while i < n
        invariant
            n == spb(bs as int),
            n * 512 == bs,
            1 <= n <= 8,
            lba == b * n,
            lba + n <= u64::MAX,
            data@.len() == bs,
            i <= n,
            dev.sector_len() == 512,
            forall|l: int| #[trigger]
                dev.sector(l) == if lba <= l < lba + i {
                    data@.subrange((l - lba) * 512, (l - lba) * 512 + 512)
                } else {
                    old(dev).sector(l)
                },
        decreases n - i,
    {
        proof {
            assert((i + 1) * 512 <= n * 512) by (nonlinear_arith)
                requires
                    i + 1 <= n,
            ;
        }
        let piece = vstd::slice::slice_subrange(data, i * 512, i * 512 + 512);
        let ghost before = *dev;
        let res = dev.write_sector(lba + i as u64, piece);
        match res {
            Ok(()) => {
                proof {
                    assert(piece@.subrange(0, 512) =~= piece@);
                }
            },
            Err(e) => {
                proof {
                    assert forall|l: int| !(b * spb(bs as int) <= l < b * spb(bs as int) + spb(bs as int)) implies #[trigger] dev.sector(l) == old(dev).sector(l) by {
                        assert(dev.sector(l) == before.sector(l));
                    }
                }
                return Err(e);
            },
        }
        i = i + 1;
    }
    Ok(())
}

/// Highest block number the driver addresses through 64-bit pointers.
pub const MAX_BLOCK64: u64 = 0xFFFF_FFFF_FFFF;

/// Read block `b` given by a 64-bit pointer; pointers beyond the
/// addressable range are refused as malformed.
pub fn read_block64<D: BlockDev>(dev: &D, bs: u32, b: u64) -> (r: Result<Vec<u8>>)
    requires
        dev.sector_len() == 512,
        valid_bs(bs as int),
    ensures
        b > MAX_BLOCK64 ==> r == Err::<Vec<u8>, FsError>(FsError::BadFormat),
        r matches Ok(v) ==> v@ == blk(dev, bs as int, b as int) && v@.len() == bs,
{
    if b > MAX_BLOCK64 {
        return Err(FsError::BadFormat);
    }
    let n = (bs / 512) as usize;
    let mut buf: Vec<u8> = vec![0u8; bs as usize];
    proof {
        assert(b * n <= MAX_BLOCK64 * 8) by (nonlinear_arith)
            requires
                b <= MAX_BLOCK64,
                n <= 8,
        ;
    }
    let lba: u64 = b * n as u64;
    proof {
        assert(n * 512 == bs);
    }
    read_run(dev, lba, n, &mut buf)?;
    proof {
        assert(buf@.subrange(n * 512, bs as int) =~= Seq::<u8>::empty());
        assert(buf@ =~= sectors_bytes(dev, lba as int, n as nat));
    }
    Ok(buf)
}

} // verus!
