//! A byte range of a block device seen as a block device of its own, with
//! its own sector size: an `.iso` image stored inside another filesystem
//! is mounted through it (2048-byte sectors for ISO 9660 or a GameCube
//! disc, 512 for FAT images).

use vstd::prelude::*;
use vstd::arithmetic::div_mod::{lemma_fundamental_div_mod, lemma_fundamental_div_mod_converse};
use crate::gc_fs::{BlockDev, FsError, Result, dev_byte};

verus! {

/// Largest span of device sectors one image sector is read through.
pub const SPAN: usize = 4096;

/// An image of `SECTOR`-byte sectors, starting `offset` bytes into `dev`.
pub struct FileImage<const SECTOR: usize, D: BlockDev> {
    dev: D,
    offset: u64,
    size: u64,
}

impl<const SECTOR: usize, D: BlockDev> FileImage<SECTOR, D> {
    pub closed spec fn spec_dev(&self) -> D {
        self.dev
    }

    pub closed spec fn spec_offset(&self) -> u64 {
        self.offset
    }

    /// Declared size in bytes; 0 means the whole device.
    pub closed spec fn spec_size(&self) -> u64 {
        self.size
    }

    /// The image of `size` bytes (0: the rest of the device) from byte
    /// `offset` of `dev`.
    pub fn new(dev: D, offset: u64, size: u64) -> (r: Self)
        ensures
            r.spec_dev() == dev,
            r.spec_offset() == offset,
            r.spec_size() == size,
    {
        FileImage { dev, offset, size }
    }

    /// The whole of `dev` from byte 0.
    pub fn whole(dev: D) -> (r: Self)
        ensures
            r.spec_dev() == dev,
            r.spec_offset() == 0,
            r.spec_size() == 0,
    {
        FileImage { dev, offset: 0, size: 0 }
    }

    /// Image size in bytes: the declared size, or the device's size
    /// (modulo 2^64) when none was declared.
    pub open spec fn spec_image_size(&self) -> int {
        if self.spec_size() > 0 {
            self.spec_size() as int
        } else {
            (self.spec_dev().sector_len() * self.spec_dev().sector_total()) as int % 0x1_0000_0000_0000_0000
        }
    }

    pub fn image_size(&self) -> (r: u64)
        ensures
            r == self.spec_image_size(),
    {
        if self.size > 0 {
            self.size
        } else {
            let ss = self.dev.sector_size() as u64;
            let n = self.dev.sector_count();
            let r = ss.wrapping_mul(n);
            r
        }
    }
}

/// The device bytes of image sector `lba`.
pub open spec fn image_bytes<D: BlockDev>(dev: &D, offset: int, sector: int, lba: int) -> Seq<u8> {
    Seq::new(sector as nat, |k: int| dev_byte(dev, offset + lba * sector + k))
}

/// The bytes of device sectors `lba` to `lba + n - 1`, back to back.
proof fn lemma_span_byte<D: BlockDev>(dev: &D, lba: int, tmp: Seq<u8>, n: int, j: int)
    requires
        dev.sector_len() > 0,
        tmp.len() == n * dev.sector_len(),
        forall|i: int, k: int| 0 <= i < n && 0 <= k < dev.sector_len() ==> #[trigger] tmp[i * dev.sector_len() + k] == dev.sector(
            lba + i,
        )[k],
        0 <= j < tmp.len(),
        lba >= 0,
    ensures
        tmp[j] == dev_byte(dev, lba * dev.sector_len() + j),
{
    let ss = dev.sector_len() as int;
    lemma_fundamental_div_mod(j, ss);
    let i = j / ss;
    let k = j % ss;
    assert(0 <= i < n) by (nonlinear_arith)
        requires
            j == ss * i + k,
            0 <= k < ss,
            0 <= j < n * ss,
    ;
    assert(tmp[i * ss + k] == dev.sector(lba + i)[k]);
    assert(i * ss + k == j) by (nonlinear_arith)
        requires
            j == ss * i + k,
    ;
    assert(lba * ss + j == (lba + i) * ss + k) by (nonlinear_arith)
        requires
            j == i * ss + k,
    ;
    lemma_fundamental_div_mod_converse(lba * ss + j, ss, lba + i, k);
}


/// A byte outside the device sectors `first` to `first + n - 1` lies in a
/// sector outside them.
proof fn lemma_outside(pos: int, ss: int, first: int, n: int)
    requires
        ss > 0,
        pos < first * ss || pos >= first * ss + n * ss,
    ensures
        pos / ss < first || pos / ss >= first + n,
{
    lemma_fundamental_div_mod(pos, ss);
    let q = pos / ss;
    let r = pos % ss;
    if first <= q && q < first + n {
        assert(first * ss <= q * ss && q * ss + ss <= first * ss + n * ss) by (nonlinear_arith)
            requires
                first <= q,
                q < first + n,
                ss > 0,
        ;
        assert(pos == q * ss + r) by (nonlinear_arith)
            requires
                pos == ss * q + r,
        ;
    }
}

/// After the device sectors of image sector `lba` were written with `b`,
/// that image sector reads `b`'s first `sector` bytes and the others are
/// unchanged.
proof fn image_after_write<D: BlockDev>(
    dev: &D,
    old_dev: &D,
    ss: int,
    first: int,
    n: int,
    offset: int,
    sector: int,
    lba: int,
    l: int,
    b: Seq<u8>,
)
    requires
        ss > 0,
        n >= 0,
        dev.sector_len() == ss,
        old_dev.sector_len() == ss,
        n * ss == sector,
        sector <= b.len(),
        offset + lba * sector == first * ss,
        forall|m: int| #[trigger]
            dev.sector(m) == if first <= m < first + n {
                b.subrange((m - first) * ss, (m - first) * ss + ss)
            } else {
                old_dev.sector(m)
            },
    ensures
        image_bytes(dev, offset, sector, l) == if l == lba {
            b.subrange(0, sector)
        } else {
            image_bytes(old_dev, offset, sector, l)
        },
{
    if l == lba {
        assert forall|k: int| 0 <= k < sector implies #[trigger] image_bytes(dev, offset, sector, l)[k] == b[k] by {
            lemma_fundamental_div_mod(k, ss);
            let q = k / ss;
            let r = k % ss;
            assert(0 <= q < n) by (nonlinear_arith)
                requires
                    k == ss * q + r,
                    0 <= r < ss,
                    0 <= k < n * ss,
            ;
            assert(first * ss + k == ss * (first + q) + r) by (nonlinear_arith)
                requires
                    k == ss * q + r,
            ;
            lemma_fundamental_div_mod_converse(first * ss + k, ss, first + q, r);
            assert(q * ss + r == k) by (nonlinear_arith)
                requires
                    k == ss * q + r,
            ;
            assert(q * ss + ss <= b.len()) by (nonlinear_arith)
                requires
                    0 <= q < n,
                    ss > 0,
                    n * ss <= b.len(),
            ;
        }
        assert(image_bytes(dev, offset, sector, l) =~= b.subrange(0, sector));
    } else {
        assert forall|k: int| 0 <= k < sector implies #[trigger] image_bytes(dev, offset, sector, l)[k] == image_bytes(
            old_dev,
            offset,
            sector,
            l,
        )[k] by {
            let pos = offset + l * sector + k;
            assert(pos < first * ss || pos >= first * ss + n * ss) by (nonlinear_arith)
                requires
                    pos == offset + l * sector + k,
                    offset + lba * sector == first * ss,
                    n * ss == sector,
                    l != lba,
                    0 <= k < sector,
            ;
            lemma_outside(pos, ss, first, n);
        }
        assert(image_bytes(dev, offset, sector, l) =~= image_bytes(old_dev, offset, sector, l));
    }
}

/// A write that failed part-way changed no image sector but `lba`.
proof fn image_same_outside<D: BlockDev>(
    before: &D,
    now: &D,
    old_dev: &D,
    ss: int,
    first: int,
    i: int,
    n: int,
    offset: int,
    sector: int,
    lba: int,
    l: int,
    b: Seq<u8>,
)
    requires
        ss > 0,
        now.sector_len() == ss,
        before.sector_len() == ss,
        old_dev.sector_len() == ss,
        n * ss == sector,
        0 <= i < n,
        offset + lba * sector == first * ss,
        l != lba,
        forall|m: int| #[trigger]
            before.sector(m) == if first <= m < first + i {
                b.subrange((m - first) * ss, (m - first) * ss + ss)
            } else {
                old_dev.sector(m)
            },
        forall|m: int| m != first + i ==> #[trigger] now.sector(m) == before.sector(m),
    ensures
        image_bytes(now, offset, sector, l) == image_bytes(old_dev, offset, sector, l),
{
    assert forall|k: int| 0 <= k < sector implies #[trigger] image_bytes(now, offset, sector, l)[k] == image_bytes(
        old_dev,
        offset,
        sector,
        l,
    )[k] by {
        let pos = offset + l * sector + k;
        assert(pos < first * ss || pos >= first * ss + n * ss) by (nonlinear_arith)
            requires
                pos == offset + l * sector + k,
                offset + lba * sector == first * ss,
                n * ss == sector,
                l != lba,
                0 <= k < sector,
        ;
        lemma_outside(pos, ss, first, n);
        assert(now.sector(pos / ss) == before.sector(pos / ss));
    }
    assert(image_bytes(now, offset, sector, l) =~= image_bytes(old_dev, offset, sector, l));
}

impl<const SECTOR: usize, D: BlockDev> BlockDev for FileImage<SECTOR, D> {
    open spec fn sector_len(&self) -> nat {
        SECTOR as nat
    }

    open spec fn sector(&self, lba: int) -> Seq<u8> {
        image_bytes(&self.spec_dev(), self.spec_offset() as int, SECTOR as int, lba)
    }

    open spec fn sector_total(&self) -> nat {
        if SECTOR == 0 { 0 } else { (self.spec_image_size() / SECTOR as int) as nat }
    }

    fn sector_size(&self) -> (r: usize) {
        SECTOR
    }

    fn sector_count(&self) -> (r: u64) {
        if SECTOR == 0 {
            0
        } else {
            self.image_size() / SECTOR as u64
        }
    }

    /// Read image sector `lba`: the `SECTOR` bytes at `offset + lba *
    /// SECTOR` of the device, read through the device sectors that hold
    /// them. A buffer shorter than a sector is `BufferTooSmall`; a span of
    /// device sectors larger than 4096 bytes, or a device of 0-byte
    /// sectors, is `Unsupported`; an address past 2^64 is `InvalidArg`.
    fn read_sector(&self, lba: u64, buf: &mut [u8]) -> (r: Result<()>) {
        if buf.len() < SECTOR {
            return Err(FsError::BufferTooSmall);
        }
        let ss = self.dev.sector_size();
        if ss == 0 || SECTOR > SPAN {
            return Err(FsError::Unsupported);
        }
        let image_byte = match lba.checked_mul(SECTOR as u64) {
            Some(x) => match self.offset.checked_add(x) {
                Some(y) => y,
                None => {
                    return Err(FsError::InvalidArg);
                },
            },
            None => {
                return Err(FsError::InvalidArg);
            },
        };
        let dev_lba = image_byte / ss as u64;
        let dev_off = (image_byte % ss as u64) as usize;
        if ss > SPAN {
            return Err(FsError::Unsupported);
        }
        let n = (dev_off + SECTOR + ss - 1) / ss;
        if n > SPAN {
            return Err(FsError::Unsupported);
        }
        assert(n * ss <= SPAN * SPAN) by (nonlinear_arith)
            requires
                n <= SPAN,
                ss <= SPAN,
        ;
        if n * ss > SPAN {
            return Err(FsError::Unsupported);
        }
        if dev_lba > u64::MAX - n as u64 {
            return Err(FsError::InvalidArg);
        }
        let mut tmp: Vec<u8> = Vec::new();
        let mut i: usize = 0;
        while i < n
            invariant
                ss as nat == self.dev.sector_len(),
                ss > 0,
                n * ss <= SPAN,
                i <= n,
                dev_lba + n <= u64::MAX,
                tmp@.len() == i * ss,
                forall|a: int, k: int| 0 <= a < i && 0 <= k < ss ==> #[trigger] tmp@[a * ss + k] == self.dev.sector(
                    dev_lba + a,
                )[k],
            decreases n - i,
        {
            let mut chunk: Vec<u8> = Vec::new();
            let mut z: usize = 0;
            while z < ss
                invariant
                    z <= ss,
                    chunk@.len() == z,
                decreases ss - z,
            {
                chunk.push(0);
                z = z + 1;
            }
            self.dev.read_sector(dev_lba + i as u64, chunk.as_mut_slice())?;
            let ghost before = tmp@;
            let mut k: usize = 0;
            while k < ss
                invariant
                    ss as nat == self.dev.sector_len(),
                    k <= ss,
                    chunk@.len() == ss,
                    chunk@.subrange(0, ss as int) == self.dev.sector(dev_lba + i),
                    tmp@ == before + chunk@.subrange(0, k as int),
                decreases ss - k,
            {
                tmp.push(chunk[k]);
                k = k + 1;
                assert(tmp@ =~= before + chunk@.subrange(0, k as int));
            }
            proof {
                assert forall|a: int, kk: int| 0 <= a < i + 1 && 0 <= kk < ss implies #[trigger] tmp@[a * ss + kk]
                    == self.dev.sector(dev_lba + a)[kk] by {
                    if a < i {
                        assert(a * ss + kk < i * ss) by (nonlinear_arith)
                            requires
                                a < i,
                                kk < ss,
                        ;
                    } else {
                        assert(a * ss + kk == i * ss + kk) by (nonlinear_arith)
                            requires
                                a == i,
                        ;
                        assert(chunk@.subrange(0, ss as int)[kk] == chunk@[kk]);
                    }
                }
                assert(tmp@.len() == (i + 1) * ss) by (nonlinear_arith)
                    requires
                        tmp@.len() == i * ss + ss,
                ;
            }
            i = i + 1;
        }
        proof {
            let t = (dev_off + SECTOR + ss - 1) as int;
            lemma_fundamental_div_mod(t, ss as int);
            assert(dev_off + SECTOR <= n * ss) by (nonlinear_arith)
                requires
                    n as int == t / (ss as int),
                    t == ss * (t / (ss as int)) + t % (ss as int),
                    0 <= t % (ss as int) < ss,
                    t == dev_off + SECTOR + ss - 1,
                    ss > 0,
            ;
            lemma_fundamental_div_mod(image_byte as int, ss as int);
            assert(image_byte == dev_lba * ss + dev_off) by (nonlinear_arith)
                requires
                    image_byte == (ss as int) * ((image_byte as int) / (ss as int)) + (image_byte as int) % (ss as int),
                    dev_lba as int == (image_byte as int) / (ss as int),
                    dev_off as int == (image_byte as int) % (ss as int),
            ;
        }
        let ghost old_buf = buf@;
        let mut k: usize = 0;
        while k < SECTOR
            invariant
                ss as nat == self.dev.sector_len(),
                ss > 0,
                k <= SECTOR,
                SECTOR <= buf@.len(),
                buf@.len() == old_buf.len(),
                dev_off + SECTOR <= tmp@.len(),
                tmp@.len() == n * ss,
                n * ss <= SPAN,
                image_byte == dev_lba * ss + dev_off,
                forall|a: int, kk: int| 0 <= a < n && 0 <= kk < ss ==> #[trigger] tmp@[a * ss + kk] == self.dev.sector(
                    dev_lba + a,
                )[kk],
                forall|j: int| 0 <= j < k ==> buf@[j] == dev_byte(&self.dev, image_byte + j),
                forall|j: int| SECTOR <= j < buf@.len() ==> buf@[j] == old_buf[j],
                image_byte == self.offset + lba * SECTOR,
            decreases SECTOR - k,
        {
            proof {
                lemma_span_byte(&self.dev, dev_lba as int, tmp@, n as int, (dev_off + k) as int);
            }
            buf[k] = tmp[dev_off + k];
            k = k + 1;
        }
        proof {
            assert(buf@.subrange(0, SECTOR as int) =~= self.sector(lba as int));
            assert(buf@.subrange(SECTOR as int, buf@.len() as int) =~= old_buf.subrange(SECTOR as int, old_buf.len() as int));
        }
        Ok(())
    }

    /// Write image sector `lba` from the front of `buf` through the device
    /// sectors that hold it. The sector must start on a device sector and
    /// span whole device sectors (`Unsupported` otherwise); a short buffer
    /// is `BufferTooSmall`, an address past 2^64 `InvalidArg`.
    fn write_sector(&mut self, lba: u64, buf: &[u8]) -> (r: Result<()>) {
        if buf.len() < SECTOR {
            return Err(FsError::BufferTooSmall);
        }
        let ss = self.dev.sector_size();
        if ss == 0 {
            return Err(FsError::Unsupported);
        }
        let image_byte = match lba.checked_mul(SECTOR as u64) {
            Some(x) => match self.offset.checked_add(x) {
                Some(y) => y,
                None => {
                    return Err(FsError::InvalidArg);
                },
            },
            None => {
                return Err(FsError::InvalidArg);
            },
        };
        if image_byte % ss as u64 != 0 || SECTOR % ss != 0 {
            return Err(FsError::Unsupported);
        }
        let dev_lba = image_byte / ss as u64;
        let n = SECTOR / ss;
        if dev_lba > u64::MAX - n as u64 {
            return Err(FsError::InvalidArg);
        }
        proof {
            lemma_fundamental_div_mod(image_byte as int, ss as int);
            lemma_fundamental_div_mod(SECTOR as int, ss as int);
            assert(image_byte == dev_lba * ss) by (nonlinear_arith)
                requires
                    image_byte == (ss as int) * ((image_byte as int) / (ss as int)) + (image_byte as int) % (ss as int),
                    dev_lba as int == (image_byte as int) / (ss as int),
                    (image_byte as int) % (ss as int) == 0,
            ;
            assert(n * ss == SECTOR) by (nonlinear_arith)
                requires
                    SECTOR == (ss as int) * ((SECTOR as int) / (ss as int)) + (SECTOR as int) % (ss as int),
                    n as int == (SECTOR as int) / (ss as int),
                    (SECTOR as int) % (ss as int) == 0,
            ;
        }
        let ghost old_dev = self.dev;
        let mut i: usize = 0;
        while i < n
            invariant
                ss as nat == self.dev.sector_len(),
                ss as nat == old_dev.sector_len(),
                ss > 0,
                n * ss == SECTOR,
                SECTOR <= buf@.len(),
                i <= n,
                dev_lba + n <= u64::MAX,
                self.offset == old(self).offset,
                image_byte == self.offset + lba * SECTOR,
                image_byte == dev_lba * ss,
                old_dev == old(self).dev,
                forall|l: int| #[trigger]
                    self.dev.sector(l) == if dev_lba <= l < dev_lba + i {
                        buf@.subrange((l - dev_lba) * ss, (l - dev_lba) * ss + ss)
                    } else {
                        old_dev.sector(l)
                    },
            decreases n - i,
        {
            proof {
                assert((i + 1) * ss <= n * ss) by (nonlinear_arith)
                    requires
                        i + 1 <= n,
                ;
                assert(i * ss + ss == (i + 1) * ss) by (nonlinear_arith);
            }
            let piece = vstd::slice::slice_subrange(buf, i * ss, i * ss + ss);
            let ghost before = self.dev;
            match self.dev.write_sector(dev_lba + i as u64, piece) {
                Ok(()) => {
                    proof {
                        assert(piece@.subrange(0, ss as int) =~= piece@);
                        assert(piece@ =~= buf@.subrange((i as int) * ss, (i as int) * ss + ss));
                    }
                },
                Err(e) => {
                    proof {
                        assert forall|l: int| l != lba implies #[trigger] self.sector(l) == old(self).sector(l) by {
                            image_same_outside(&before, &self.dev, &old_dev, ss as int, dev_lba as int, i as int, n as int,
                                self.offset as int, SECTOR as int, lba as int, l, buf@);
                        }
                    }
                    return Err(e);
                },
            }
            i = i + 1;
        }
        proof {
            assert forall|l: int| #[trigger] self.sector(l) == if l == lba as int {
                buf@.subrange(0, SECTOR as int)
            } else {
                old(self).sector(l)
            } by {
                image_after_write(&self.dev, &old_dev, ss as int, dev_lba as int, n as int, self.offset as int,
                    SECTOR as int, lba as int, l, buf@);
            }
        }
        Ok(())
    }
}

} // verus!
