//! Firmware image parsing and the commands and replies of the bootloader
//! protocol.

use vstd::prelude::*;
use vstd::string::StringExecFns;

use crate::codec::{le16, le32, u16_from_le, u32_from_le, u32_to_le};
use crate::text::{decimal2, push_decimal2};

verus! {

/// Magic of an audio firmware image.
pub const FIRMWARE_MAGIC_AUDIO: u32 = 0xCA77F00Du32;

/// Magic of a second-stage bootloader image.
pub const FIRMWARE_MAGIC_2BL: u32 = 0xF00BACCAu32;

/// Magic of a bootloader command.
pub const BOOTLOADER_CMD_MAGIC: u32 = 0x06022009u32;

/// Magic of a bootloader status reply.
pub const BOOTLOADER_STATUS_MAGIC: u32 = 0x0A6FE000u32;

/// Size of a firmware image header.
pub const FIRMWARE_HEADER_SIZE: usize = 24usize;

/// Size of one page of a firmware upload.
pub const FIRMWARE_PAGE_SIZE: usize = 0x4000usize;

/// Kinect firmware image header (little-endian).
#[derive(Debug, Clone, Copy)]
pub struct FirmwareHeader {
    pub magic: u32,
    /// minor comes before major
    pub ver_minor: u16,
    pub ver_major: u16,
    pub ver_release: u16,
    pub ver_patch: u16,
    /// Load address
    pub base_addr: u32,
    /// Image size in bytes
    pub size: u32,
    /// Code entry point
    pub entry_addr: u32,
}

/// The 32-bit little-endian word at byte `i` of `b`.
pub open spec fn word_at(b: Seq<u8>, i: int) -> int {
    le32(b[i], b[i + 1], b[i + 2], b[i + 3])
}

/// The 16-bit little-endian word at byte `i` of `b`.
pub open spec fn half_at(b: Seq<u8>, i: int) -> int {
    le16(b[i], b[i + 1])
}

/// `h` holds the fields of the firmware header at the start of `b`.
pub open spec fn firmware_header_of(h: FirmwareHeader, b: Seq<u8>) -> bool {
    &&& h.magic == word_at(b, 0)
    &&& h.ver_minor == half_at(b, 4)
    &&& h.ver_major == half_at(b, 6)
    &&& h.ver_release == half_at(b, 8)
    &&& h.ver_patch == half_at(b, 10)
    &&& h.base_addr == word_at(b, 12)
    &&& h.size == word_at(b, 16)
    &&& h.entry_addr == word_at(b, 20)
}

/// The version as major, minor, release and patch numbers, each of at least
/// two digits, separated by dots.
pub open spec fn version_text(h: FirmwareHeader) -> Seq<char> {
    decimal2(h.ver_major as nat) + seq!['.'] + decimal2(h.ver_minor as nat) + seq!['.']
        + decimal2(h.ver_release as nat) + seq!['.'] + decimal2(h.ver_patch as nat)
}

impl FirmwareHeader {
    /// Parse a firmware header from raw bytes (at least 24 bytes).
    pub fn from_bytes(buf: &[u8]) -> (r: Option<Self>)
        ensures
            r is Some <==> buf@.len() >= 24,
            r matches Some(h) ==> firmware_header_of(h, buf@),
    {
        if buf.len() < 24 {
            return None;
        }
        Some(
            FirmwareHeader {
                magic: u32_from_le(buf[0], buf[1], buf[2], buf[3]),
                ver_minor: u16_from_le(buf[4], buf[5]),
                ver_major: u16_from_le(buf[6], buf[7]),
                ver_release: u16_from_le(buf[8], buf[9]),
                ver_patch: u16_from_le(buf[10], buf[11]),
                base_addr: u32_from_le(buf[12], buf[13], buf[14], buf[15]),
                size: u32_from_le(buf[16], buf[17], buf[18], buf[19]),
                entry_addr: u32_from_le(buf[20], buf[21], buf[22], buf[23]),
            },
        )
    }

    /// Version string like "01.02.03.04" (major, minor, release, patch).
    pub fn version_string(&self) -> (r: String)
        ensures
            r@ == version_text(*self),
    {
        proof {
            reveal_strlit(".");
        }
        let mut s = String::new();
        push_decimal2(&mut s, self.ver_major as u64);
        s.append(".");
        push_decimal2(&mut s, self.ver_minor as u64);
        s.append(".");
        push_decimal2(&mut s, self.ver_release as u64);
        s.append(".");
        push_decimal2(&mut s, self.ver_patch as u64);
        assert(s@ =~= version_text(*self));
        s
    }

    /// The header carries one of the two known magics.
    pub fn is_valid(&self) -> (r: bool)
        ensures
            r == (self.magic == FIRMWARE_MAGIC_AUDIO || self.magic == FIRMWARE_MAGIC_2BL),
    {
        self.magic == FIRMWARE_MAGIC_AUDIO || self.magic == FIRMWARE_MAGIC_2BL
    }
}

/// The little-endian bytes of a 32-bit word.
pub open spec fn word_bytes(v: u32) -> Seq<u8> {
    seq![(v % 256) as u8, ((v / 256) % 256) as u8, ((v / 65536) % 256) as u8, (v / 16777216) as u8]
}

/// The little-endian bytes of the words of `ws`, one after the other.
pub open spec fn words_bytes(ws: Seq<u32>) -> Seq<u8>
    decreases ws.len(),
{
    if ws.len() == 0 {
        seq![]
    } else {
        words_bytes(ws.drop_last()) + word_bytes(ws.last())
    }
}

/// Bootloader command sent to the audio/motor device.
#[derive(Debug, Clone, Copy)]
pub struct BootloaderCommand {
    /// 0x06022009
    pub magic: u32,
    /// Sequence number
    pub tag: u32,
    /// Payload bytes (for a page write) or buffer size (for a version query)
    pub bytes: u32,
    /// 0 = version query, 0x03 = write page, 0x04 = jump
    pub cmd: u32,
    /// Target address (for a page write) or register (for a version query)
    pub addr: u32,
    /// Reserved
    pub unk: u32,
}

impl BootloaderCommand {
    /// Build a "write page" command.
    pub fn write_page(tag: u32, bytes: u32, addr: u32) -> (r: Self)
        ensures
            r == (BootloaderCommand {
                magic: BOOTLOADER_CMD_MAGIC,
                tag,
                bytes,
                cmd: 0x03,
                addr,
                unk: 0,
            }),
    {
        BootloaderCommand { magic: BOOTLOADER_CMD_MAGIC, tag, bytes, cmd: 0x03, addr, unk: 0 }
    }

    /// Build a "jump to entry" command.
    pub fn jump(tag: u32, entry_addr: u32) -> (r: Self)
        ensures
            r == (BootloaderCommand {
                magic: BOOTLOADER_CMD_MAGIC,
                tag,
                bytes: 0,
                cmd: 0x04,
                addr: entry_addr,
                unk: 0,
            }),
    {
        BootloaderCommand {
            magic: BOOTLOADER_CMD_MAGIC,
            tag,
            bytes: 0,
            cmd: 0x04,
            addr: entry_addr,
            unk: 0,
        }
    }

    /// Build a "get version string" command.
    pub fn get_version(tag: u32) -> (r: Self)
        ensures
            r == (BootloaderCommand {
                magic: BOOTLOADER_CMD_MAGIC,
                tag,
                bytes: 0x60,
                cmd: 0,
                addr: 0x15,
                unk: 0,
            }),
    {
        BootloaderCommand {
            magic: BOOTLOADER_CMD_MAGIC,
            tag,
            bytes: 0x60,
            cmd: 0,
            addr: 0x15,
            unk: 0,
        }
    }

    /// The six words of the command, in wire order.
    pub open spec fn words(self) -> Seq<u32> {
        seq![self.magic, self.tag, self.bytes, self.cmd, self.addr, self.unk]
    }

    /// Serialize to 24 bytes (little-endian).
    pub fn to_bytes(&self) -> (r: [u8; 24])
        ensures
            r@ == words_bytes(self.words()),
    {
        let (a0, a1, a2, a3) = u32_to_le(self.magic);
        let (b0, b1, b2, b3) = u32_to_le(self.tag);
        let (c0, c1, c2, c3) = u32_to_le(self.bytes);
        let (d0, d1, d2, d3) = u32_to_le(self.cmd);
        let (e0, e1, e2, e3) = u32_to_le(self.addr);
        let (f0, f1, f2, f3) = u32_to_le(self.unk);
        let r = [
            a0,
            a1,
            a2,
            a3,
            b0,
            b1,
            b2,
            b3,
            c0,
            c1,
            c2,
            c3,
            d0,
            d1,
            d2,
            d3,
            e0,
            e1,
            e2,
            e3,
            f0,
            f1,
            f2,
            f3,
        ];
        let ghost w = self.words();
        proof {
            reveal_with_fuel(words_bytes, 7);
            assert(w.drop_last().drop_last().drop_last().drop_last().drop_last().drop_last()
                =~= Seq::<u32>::empty());
            assert(w.drop_last().drop_last().drop_last().drop_last().drop_last() =~= seq![self.magic]);
            assert(w.drop_last().drop_last().drop_last().drop_last() =~= seq![self.magic, self.tag]);
            assert(w.drop_last().drop_last().drop_last() =~= seq![self.magic, self.tag, self.bytes]);
            assert(w.drop_last().drop_last() =~= seq![self.magic, self.tag, self.bytes, self.cmd]);
            assert(w.drop_last() =~= seq![self.magic, self.tag, self.bytes, self.cmd, self.addr]);
        }
        assert(r@ =~= words_bytes(w));
        r
    }
}

/// Bootloader status reply.
#[derive(Debug, Clone, Copy)]
pub struct BootloaderStatus {
    /// Expected: 0x0A6FE000
    pub magic: u32,
    /// Should match command tag
    pub tag: u32,
    /// 0 = success
    pub status: u32,
}

impl BootloaderStatus {
    pub fn from_bytes(buf: &[u8]) -> (r: Option<Self>)
        ensures
            r is Some <==> buf@.len() >= 12,
            r matches Some(st) ==> {
                &&& st.magic == word_at(buf@, 0)
                &&& st.tag == word_at(buf@, 4)
                &&& st.status == word_at(buf@, 8)
            },
    {
        if buf.len() < 12 {
            return None;
        }
        Some(
            BootloaderStatus {
                magic: u32_from_le(buf[0], buf[1], buf[2], buf[3]),
                tag: u32_from_le(buf[4], buf[5], buf[6], buf[7]),
                status: u32_from_le(buf[8], buf[9], buf[10], buf[11]),
            },
        )
    }

    /// The reply carries the status magic and the tag of the command.
    pub fn is_valid(&self, expected_tag: u32) -> (r: bool)
        ensures
            r == (self.magic == BOOTLOADER_STATUS_MAGIC && self.tag == expected_tag),
    {
        self.magic == BOOTLOADER_STATUS_MAGIC && self.tag == expected_tag
    }
}

/// CEMD loader command.
#[derive(Debug, Clone, Copy)]
pub struct CemdLoaderCommand {
    pub magic: u32,
    pub tag: u32,
    pub arg1: u32,
    pub cmd: u32,
    pub arg2: u32,
    pub zeros: [u32; 8],
}

impl CemdLoaderCommand {
    pub fn start_upload(tag: u32) -> (r: Self)
        ensures
            r.magic == BOOTLOADER_CMD_MAGIC,
            r.tag == tag,
            r.arg1 == 0,
            r.cmd == 0x133,
            r.arg2 == 0x64014,
            r.zeros@ == Seq::new(8, |i: int| 0u32),
    {
        let r = CemdLoaderCommand {
            magic: BOOTLOADER_CMD_MAGIC,
            tag,
            arg1: 0,
            cmd: 0x133,
            arg2: 0x64014,
            zeros: [0u32, 0u32, 0u32, 0u32, 0u32, 0u32, 0u32, 0u32],
        };
        assert(r.zeros@ =~= Seq::new(8, |i: int| 0u32));
        r
    }

    pub fn data_block(tag: u32, bytes: u32, addr: u32) -> (r: Self)
        ensures
            r.magic == BOOTLOADER_CMD_MAGIC,
            r.tag == tag,
            r.arg1 == bytes,
            r.cmd == 0x134,
            r.arg2 == addr,
            r.zeros@ == Seq::new(8, |i: int| 0u32),
    {
        let r = CemdLoaderCommand {
            magic: BOOTLOADER_CMD_MAGIC,
            tag,
            arg1: bytes,
            cmd: 0x134,
            arg2: addr,
            zeros: [0u32, 0u32, 0u32, 0u32, 0u32, 0u32, 0u32, 0u32],
        };
        assert(r.zeros@ =~= Seq::new(8, |i: int| 0u32));
        r
    }

    pub fn finish(tag: u32) -> (r: Self)
        ensures
            r.magic == BOOTLOADER_CMD_MAGIC,
            r.tag == tag,
            r.arg1 == 0,
            r.cmd == 0x135,
            r.arg2 == 0x64000,
            r.zeros@ == Seq::new(8, |i: int| 0u32),
    {
        let r = CemdLoaderCommand {
            magic: BOOTLOADER_CMD_MAGIC,
            tag,
            arg1: 0,
            cmd: 0x135,
            arg2: 0x64000,
            zeros: [0u32, 0u32, 0u32, 0u32, 0u32, 0u32, 0u32, 0u32],
        };
        assert(r.zeros@ =~= Seq::new(8, |i: int| 0u32));
        r
    }

    /// The thirteen words of the command, in wire order.
    pub open spec fn words(self) -> Seq<u32> {
        seq![self.magic, self.tag, self.arg1, self.cmd, self.arg2] + self.zeros@
    }

    /// Serialize to 52 bytes (little-endian words).
    pub fn to_bytes(&self) -> (r: [u8; 52])
        ensures
            r@ == words_bytes(self.words()),
    {
        let ws: [u32; 13] = [
            self.magic,
            self.tag,
            self.arg1,
            self.cmd,
            self.arg2,
            self.zeros[0],
            self.zeros[1],
            self.zeros[2],
            self.zeros[3],
            self.zeros[4],
            self.zeros[5],
            self.zeros[6],
            self.zeros[7],
        ];
        assert(ws@ =~= self.words());
        let mut buf = [0u8; 52];
        let mut k: usize = 0;
        while k < 13
            invariant
                k <= 13,
                ws@ == self.words(),
                buf@.len() == 52,
                buf@.take(4 * k as int) == words_bytes(ws@.take(k as int)),
            decreases 13 - k,
        {
            let (b0, b1, b2, b3) = u32_to_le(ws[k]);
            let ghost before = buf@;
            buf[4 * k] = b0;
            buf[4 * k + 1] = b1;
            buf[4 * k + 2] = b2;
            buf[4 * k + 3] = b3;
            assert(ws@.take(k + 1).drop_last() =~= ws@.take(k as int));
            assert(buf@.take(4 * k as int) =~= before.take(4 * k as int));
            assert(buf@.take(4 * (k + 1) as int) =~= buf@.take(4 * k as int) + word_bytes(ws@[k as int]));
            k = k + 1;
        }
        assert(ws@.take(13) =~= ws@);
        assert(buf@.take(52) =~= buf@);
        buf
    }
}

/// Parse a firmware blob into its header and what follows the header. The
/// blob must carry a known magic and hold the whole image the header
/// announces.
pub fn parse_firmware(data: &[u8]) -> (r: Option<(FirmwareHeader, &[u8])>)
    ensures
        r is Some <==> (data@.len() >= 24 && (word_at(data@, 0) == FIRMWARE_MAGIC_AUDIO || word_at(
            data@,
            0,
        ) == FIRMWARE_MAGIC_2BL) && data@.len() >= 24 + word_at(data@, 16)),
        r matches Some((h, rest)) ==> firmware_header_of(h, data@) && rest@ == data@.skip(24),
{
    let hdr = match FirmwareHeader::from_bytes(data) {
        Some(h) => h,
        None => {
            return None;
        },
    };
    if !hdr.is_valid() {
        return None;
    }
    if data.len() - 24 < hdr.size as usize {
        return None;
    }
    let rest = &data[24..data.len()];
    assert(rest@ =~= data@.skip(24));
    Some((hdr, rest))
}

/// The pages of a firmware upload of `total` bytes of `data` to `base`:
/// consecutive slices of `FIRMWARE_PAGE_SIZE` bytes (the last one shorter),
/// each with the address it loads at.
pub open spec fn spec_page_splits(base: int, total: int, data: Seq<u8>) -> Seq<(int, Seq<u8>)>
    decreases total,
{
    if total <= 0 {
        seq![]
    } else {
        let last = (total - 1) / (FIRMWARE_PAGE_SIZE as int) * (FIRMWARE_PAGE_SIZE as int);
        spec_page_splits(base, last, data).push((base + last, data.subrange(last, total)))
    }
}

/// Compute the list of page transfers for a firmware upload: `(addr, data)`
/// for each 0x4000-byte page of the first `total_size` bytes of `data` (or
/// of all of `data`, when it is shorter). The addresses must stay within
/// 32 bits.
pub fn firmware_page_splits<'a>(base_addr: u32, total_size: u32, data: &'a [u8]) -> (r: Vec<
    (u32, &'a [u8]),
>)
    requires
        base_addr + (if total_size < data@.len() {
            total_size as int
        } else {
            data@.len() as int
        }) <= u32::MAX,
    ensures
        ({
            let total = if total_size < data@.len() {
                total_size as int
            } else {
                data@.len() as int
            };
            let pages = spec_page_splits(base_addr as int, total, data@);
            &&& r@.len() == pages.len()
            &&& forall|i: int|
                0 <= i < pages.len() ==> r@[i].0 == pages[i].0 && (#[trigger] r@[i]).1@
                    == pages[i].1
        }),
{
    let page_size: usize = FIRMWARE_PAGE_SIZE;
    let total: usize = if (total_size as usize) < data.len() {
        total_size as usize
    } else {
        data.len()
    };
    let mut addr = base_addr;
    let mut offset: usize = 0;
    let mut pages: Vec<(u32, &'a [u8])> = Vec::new();
    while offset < total
        invariant
            offset <= total,
            total <= data@.len(),
            offset == total || offset % page_size == 0,
            page_size == FIRMWARE_PAGE_SIZE,
            base_addr + total <= u32::MAX,
            addr == base_addr + offset,
            total == (if total_size < data@.len() {
                total_size as int
            } else {
                data@.len() as int
            }),
            pages@.len() == spec_page_splits(base_addr as int, offset as int, data@).len(),
            forall|i: int|
                0 <= i < pages@.len() ==> pages@[i].0 == spec_page_splits(
                    base_addr as int,
                    offset as int,
                    data@,
                )[i].0 && (#[trigger] pages@[i]).1@ == spec_page_splits(
                    base_addr as int,
                    offset as int,
                    data@,
                )[i].1,
        decreases total - offset,
    {
        let end = if total - offset > page_size {
            offset + page_size
        } else {
            total
        };
        let page = &data[offset..end];
        pages.push((addr, page));
        proof {
            let last = (end - 1) as int / (FIRMWARE_PAGE_SIZE as int) * (FIRMWARE_PAGE_SIZE as int);
            assert(last == offset) by {
                let q = offset as int / (FIRMWARE_PAGE_SIZE as int);
                vstd::arithmetic::div_mod::lemma_fundamental_div_mod(
                    offset as int,
                    FIRMWARE_PAGE_SIZE as int,
                );
                vstd::arithmetic::div_mod::lemma_fundamental_div_mod_converse(
                    (end - 1) as int,
                    FIRMWARE_PAGE_SIZE as int,
                    q,
                    (end - 1 - offset) as int,
                );
            }
            let sp = spec_page_splits(base_addr as int, end as int, data@);
            assert(sp == spec_page_splits(base_addr as int, offset as int, data@).push(
                (base_addr + offset, data@.subrange(offset as int, end as int)),
            ));
        }
        addr = addr + (end - offset) as u32;
        offset = end;
    }
    pages
}

} // verus!

verus! {

/// The bytes of the pages, one after the other.
pub open spec fn pages_data(pages: Seq<(int, Seq<u8>)>) -> Seq<u8>
    decreases pages.len(),
{
    if pages.len() == 0 {
        seq![]
    } else {
        pages_data(pages.drop_last()) + pages.last().1
    }
}

/// The pages of an upload cover the image: put one after the other they are
/// its first `total` bytes, each page loads where its bytes lie in the
/// image, and none is empty or longer than a page.
pub proof fn lemma_page_splits_cover(base: int, total: int, data: Seq<u8>)
    requires
        0 <= total <= data.len(),
    ensures
        pages_data(spec_page_splits(base, total, data)) == data.subrange(0, total),
        forall|i: int|
            0 <= i < spec_page_splits(base, total, data).len() ==> {
                let p = #[trigger] spec_page_splits(base, total, data)[i];
                &&& p.0 == base + i * (FIRMWARE_PAGE_SIZE as int)
                &&& 0 < p.1.len() <= FIRMWARE_PAGE_SIZE
            },
        spec_page_splits(base, total, data).len() == (total + FIRMWARE_PAGE_SIZE - 1) / (FIRMWARE_PAGE_SIZE as int),
    decreases total,
{
    let ps = FIRMWARE_PAGE_SIZE as int;
    if total <= 0 {
        assert(data.subrange(0, total) =~= Seq::<u8>::empty());
    } else {
        let last = (total - 1) / ps * ps;
        let k = (total - 1) / ps;
        assert(0 <= last < total && total - last <= ps) by {
            vstd::arithmetic::div_mod::lemma_fundamental_div_mod(total - 1, ps);
        }
        lemma_page_splits_cover(base, last, data);
        let prev = spec_page_splits(base, last, data);
        let pages = spec_page_splits(base, total, data);
        assert(pages.drop_last() =~= prev);
        assert(data.subrange(0, last) + data.subrange(last, total) =~= data.subrange(0, total));
        assert(prev.len() == k) by {
            assert((last + ps - 1) / ps == k) by {
                vstd::arithmetic::div_mod::lemma_fundamental_div_mod_converse_div(last + ps - 1, ps, k, ps - 1);
            }
        }
        assert((total + ps - 1) / ps == k + 1) by {
            vstd::arithmetic::div_mod::lemma_fundamental_div_mod(total - 1, ps);
            vstd::arithmetic::div_mod::lemma_fundamental_div_mod_converse_div(
                total + ps - 1,
                ps,
                k + 1,
                (total - 1) % ps,
            );
        }
        assert forall|i: int| 0 <= i < pages.len() implies {
            let p = #[trigger] pages[i];
            &&& p.0 == base + i * ps
            &&& 0 < p.1.len() <= ps
        } by {
            if i < prev.len() {
                assert(pages[i] == prev[i]);
            }
        }
    }
}

} // verus!
