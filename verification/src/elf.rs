//! Segment extraction from executable images.
//!
//! An executable-and-linkable image carries a program header table; each
//! loadable entry with nonzero file-backed size names a stretch of file
//! bytes and the physical address it must be flashed to. The extractor
//! returns those stretches as [`Segment`]s.
//!
//! An input that does not carry the format's magic and identification bytes
//! yields zero segments rather than an error; a recognized image whose
//! header fields point outside the buffer fails with `MalformedImage`.

use vstd::prelude::*;

use crate::{Segment, SegmentView, SyncError};

verus! {

/// A 16-bit field at offset `i`, little- or big-endian.
pub open spec fn spec_u16_at(b: Seq<u8>, i: int, big: bool) -> int
    recommends
        0 <= i,
        i + 2 <= b.len(),
{
    if big {
        (b[i] as int) * 0x100 + (b[i + 1] as int)
    } else {
        (b[i] as int) + (b[i + 1] as int) * 0x100
    }
}

/// A 32-bit field at offset `i`, little- or big-endian.
pub open spec fn spec_u32_at(b: Seq<u8>, i: int, big: bool) -> int
    recommends
        0 <= i,
        i + 4 <= b.len(),
{
    if big {
        ((b[i] as int) * 0x100_0000) + ((b[i + 1] as int) * 0x1_0000) + ((b[i + 2] as int) * 0x100)
            + (b[i + 3] as int)
    } else {
        (b[i] as int) + ((b[i + 1] as int) * 0x100) + ((b[i + 2] as int) * 0x1_0000) + ((b[i
            + 3] as int) * 0x100_0000)
    }
}

/// A 64-bit field at offset `i`, little- or big-endian.
pub open spec fn spec_u64_at(b: Seq<u8>, i: int, big: bool) -> int
    recommends
        0 <= i,
        i + 8 <= b.len(),
{
    if big {
        spec_u32_at(b, i, true) * 0x1_0000_0000 + spec_u32_at(b, i + 4, true)
    } else {
        spec_u32_at(b, i, false) + spec_u32_at(b, i + 4, false) * 0x1_0000_0000
    }
}

/// The buffer carries the format's magic, a known class and encoding, and a
/// complete header for that class.
pub open spec fn spec_is_elf(b: Seq<u8>) -> bool {
    &&& b.len() >= 52
    &&& b[0] == 0x7f
    &&& b[1] == 0x45
    &&& b[2] == 0x4c
    &&& b[3] == 0x46
    &&& (b[4] == 1 || b[4] == 2)
    &&& (b[5] == 1 || b[5] == 2)
    &&& (b[4] == 2 ==> b.len() >= 64)
}

/// 64-bit class.
pub open spec fn spec_is64(b: Seq<u8>) -> bool {
    b[4] == 2
}

/// Big-endian encoding.
pub open spec fn spec_is_big(b: Seq<u8>) -> bool {
    b[5] == 2
}

/// File offset of the program header table.
pub open spec fn spec_phoff(b: Seq<u8>) -> int {
    if spec_is64(b) {
        spec_u64_at(b, 32, spec_is_big(b))
    } else {
        spec_u32_at(b, 28, spec_is_big(b))
    }
}

/// Size in bytes of one program header entry.
pub open spec fn spec_phentsize(b: Seq<u8>) -> int {
    if spec_is64(b) {
        spec_u16_at(b, 54, spec_is_big(b))
    } else {
        spec_u16_at(b, 42, spec_is_big(b))
    }
}

/// Number of program header entries.
pub open spec fn spec_phnum(b: Seq<u8>) -> int {
    if spec_is64(b) {
        spec_u16_at(b, 56, spec_is_big(b))
    } else {
        spec_u16_at(b, 44, spec_is_big(b))
    }
}

/// The least entry size each class needs to hold the fields read here.
pub open spec fn spec_min_entry_size(b: Seq<u8>) -> int {
    if spec_is64(b) {
        56
    } else {
        32
    }
}

/// File offset of program header entry `i`.
pub open spec fn spec_ph_base(b: Seq<u8>, i: int) -> int {
    spec_phoff(b) + i * spec_phentsize(b)
}

/// Entry `i`'s segment type.
pub open spec fn spec_p_type(b: Seq<u8>, i: int) -> int {
    spec_u32_at(b, spec_ph_base(b, i), spec_is_big(b))
}

/// Entry `i`'s file offset of the segment bytes.
pub open spec fn spec_p_offset(b: Seq<u8>, i: int) -> int {
    if spec_is64(b) {
        spec_u64_at(b, spec_ph_base(b, i) + 8, spec_is_big(b))
    } else {
        spec_u32_at(b, spec_ph_base(b, i) + 4, spec_is_big(b))
    }
}

/// Entry `i`'s physical load address.
pub open spec fn spec_p_paddr(b: Seq<u8>, i: int) -> int {
    if spec_is64(b) {
        spec_u64_at(b, spec_ph_base(b, i) + 24, spec_is_big(b))
    } else {
        spec_u32_at(b, spec_ph_base(b, i) + 12, spec_is_big(b))
    }
}

/// Entry `i`'s file-backed size.
pub open spec fn spec_p_filesz(b: Seq<u8>, i: int) -> int {
    if spec_is64(b) {
        spec_u64_at(b, spec_ph_base(b, i) + 32, spec_is_big(b))
    } else {
        spec_u32_at(b, spec_ph_base(b, i) + 16, spec_is_big(b))
    }
}

/// Entry `i` must be flashed: loadable at runtime with nonzero file size.
pub open spec fn spec_loadable(b: Seq<u8>, i: int) -> bool {
    spec_p_type(b, i) == 1 && spec_p_filesz(b, i) > 0
}

/// Every header field read stays inside the buffer: the entry table fits,
/// each entry is large enough, and every loadable entry's bytes fit.
pub open spec fn spec_bounds_ok(b: Seq<u8>) -> bool {
    spec_phnum(b) == 0 || {
        &&& spec_phentsize(b) >= spec_min_entry_size(b)
        &&& spec_phoff(b) + spec_phnum(b) * spec_phentsize(b) <= b.len()
        &&& forall|i: int|
            0 <= i < spec_phnum(b) && spec_loadable(b, i) ==> spec_p_offset(b, i)
                + spec_p_filesz(b, i) <= b.len()
    }
}

/// The segment named by loadable entry `i`: its physical address reduced to
/// the 32-bit flash address space, and the exact file-image bytes.
pub open spec fn spec_segment_at(b: Seq<u8>, i: int) -> SegmentView {
    SegmentView {
        target_address: (spec_p_paddr(b, i) % 0x1_0000_0000) as u32,
        bytes: b.subrange(spec_p_offset(b, i), spec_p_offset(b, i) + spec_p_filesz(b, i)),
    }
}

/// The segments of the first `n` entries, in table order.
pub open spec fn spec_segments_up_to(b: Seq<u8>, n: int) -> Seq<SegmentView>
    decreases n,
{
    if n <= 0 {
        Seq::empty()
    } else {
        let pre = spec_segments_up_to(b, n - 1);
        if spec_loadable(b, n - 1) {
            pre.push(spec_segment_at(b, n - 1))
        } else {
            pre
        }
    }
}

/// Every extracted segment carries at least one byte: only entries with
/// nonzero file-backed size are emitted, and a segment's bytes span exactly
/// that size.
pub proof fn lemma_extracted_segments_nonempty(b: Seq<u8>, n: int)
    requires
        spec_bounds_ok(b),
        n <= spec_phnum(b),
    ensures
        forall|i: int|
            0 <= i < spec_segments_up_to(b, n).len() ==> (#[trigger] spec_segments_up_to(
                b,
                n,
            )[i]).bytes.len() > 0,
    decreases n,
{
    if n > 0 {
        lemma_extracted_segments_nonempty(b, n - 1);
        let pre = spec_segments_up_to(b, n - 1);
        let cur = spec_segments_up_to(b, n);
        if spec_loadable(b, n - 1) {
            assert(0 <= spec_p_offset(b, n - 1));
            assert(spec_p_offset(b, n - 1) + spec_p_filesz(b, n - 1) <= b.len());
            assert(spec_segment_at(b, n - 1).bytes.len() == spec_p_filesz(b, n - 1));
            assert forall|i: int| 0 <= i < cur.len() implies (#[trigger] cur[i]).bytes.len()
                > 0 by {
                if i < pre.len() {
                    assert(cur[i] == pre[i]);
                } else {
                    assert(cur[i] == spec_segment_at(b, n - 1));
                }
            }
        }
    }
}

/// Reads a 16-bit field.
fn read_u16(b: &[u8], i: usize, big: bool) -> (r: u16)
    requires
        i + 2 <= b@.len(),
    ensures
        r as int == spec_u16_at(b@, i as int, big),
{
    let _l = b.len();
    let b0 = *vstd::slice::slice_index_get(b, i);
    let b1 = *vstd::slice::slice_index_get(b, i + 1);
    if big {
        (b0 as u16) * 0x100 + (b1 as u16)
    } else {
        (b0 as u16) + (b1 as u16) * 0x100
    }
}

/// Reads a 32-bit field.
fn read_u32(b: &[u8], i: usize, big: bool) -> (r: u32)
    requires
        i + 4 <= b@.len(),
    ensures
        r as int == spec_u32_at(b@, i as int, big),
{
    let _l = b.len();
    let b0 = *vstd::slice::slice_index_get(b, i);
    let b1 = *vstd::slice::slice_index_get(b, i + 1);
    let b2 = *vstd::slice::slice_index_get(b, i + 2);
    let b3 = *vstd::slice::slice_index_get(b, i + 3);
    if big {
        (b0 as u32) * 0x100_0000 + (b1 as u32) * 0x1_0000 + (b2 as u32) * 0x100 + (b3 as u32)
    } else {
        (b0 as u32) + (b1 as u32) * 0x100 + (b2 as u32) * 0x1_0000 + (b3 as u32) * 0x100_0000
    }
}

/// Reads a 64-bit field.
fn read_u64(b: &[u8], i: usize, big: bool) -> (r: u64)
    requires
        i + 8 <= b@.len(),
    ensures
        r as int == spec_u64_at(b@, i as int, big),
{
    let _l = b.len();
    let lo_off = if big {
        i + 4
    } else {
        i
    };
    let hi_off = if big {
        i
    } else {
        i + 4
    };
    let lo = read_u32(b, lo_off, big);
    let hi = read_u32(b, hi_off, big);
    (lo as u64) + (hi as u64) * 0x1_0000_0000
}

/// Extracts the loadable segments of an executable image.
///
/// An unrecognized image yields zero segments; a recognized one yields its
/// loadable, file-backed segments in table order, or `MalformedImage` when a
/// header field points outside the buffer.
pub fn extract_segments(image: &[u8]) -> (r: Result<Vec<Segment>, SyncError>)
    ensures
        match r {
            Ok(v) => if spec_is_elf(image@) {
                &&& spec_bounds_ok(image@)
                &&& v@.map_values(|s: Segment| s@) == spec_segments_up_to(
                    image@,
                    spec_phnum(image@),
                )
            } else {
                v@.len() == 0
            },
            Err(e) => {
                &&& e == SyncError::MalformedImage
                &&& spec_is_elf(image@)
                &&& !spec_bounds_ok(image@)
            },
        },
{
    let n = image.len();
    if n < 52 {
        return Ok(Vec::new());
    }
    let m0 = *vstd::slice::slice_index_get(image, 0);
    let m1 = *vstd::slice::slice_index_get(image, 1);
    let m2 = *vstd::slice::slice_index_get(image, 2);
    let m3 = *vstd::slice::slice_index_get(image, 3);
    let class = *vstd::slice::slice_index_get(image, 4);
    let encoding = *vstd::slice::slice_index_get(image, 5);
    if m0 != 0x7f || m1 != 0x45 || m2 != 0x4c || m3 != 0x46 {
        return Ok(Vec::new());
    }
    if (class != 1 && class != 2) || (encoding != 1 && encoding != 2) {
        return Ok(Vec::new());
    }
    let is64 = class == 2;
    if is64 && n < 64 {
        return Ok(Vec::new());
    }
    let big = encoding == 2;
    let phoff: u64 = if is64 {
        read_u64(image, 32, big)
    } else {
        read_u32(image, 28, big) as u64
    };
    let phentsize: u16 = if is64 {
        read_u16(image, 54, big)
    } else {
        read_u16(image, 42, big)
    };
    let phnum: u16 = if is64 {
        read_u16(image, 56, big)
    } else {
        read_u16(image, 44, big)
    };
    let mut v: Vec<Segment> = Vec::new();
    if phnum == 0 {
        proof {
            assert(v@.map_values(|s: Segment| s@) =~= spec_segments_up_to(image@, 0));
        }
        return Ok(v);
    }
    let min_entry: u16 = if is64 {
        56
    } else {
        32
    };
    if phentsize < min_entry {
        return Err(SyncError::MalformedImage);
    }
    proof {
        assert((phnum as int) * (phentsize as int) <= 0xffff * 0xffff) by (nonlinear_arith)
            requires
                0 <= phnum <= 0xffff,
                0 <= phentsize <= 0xffff,
        ;
    }
    let table_len: u64 = (phnum as u64) * (phentsize as u64);
    if phoff > n as u64 || table_len > n as u64 - phoff {
        proof {
            assert(!spec_bounds_ok(image@));
        }
        return Err(SyncError::MalformedImage);
    }
    let mut i: u64 = 0;
    let nphnum: u64 = phnum as u64;
    while i < nphnum
        invariant
            spec_is_elf(image@),
            n == image@.len(),
            is64 == spec_is64(image@),
            big == spec_is_big(image@),
            phoff == spec_phoff(image@),
            phentsize == spec_phentsize(image@),
            nphnum == spec_phnum(image@),
            phentsize >= spec_min_entry_size(image@),
            phoff + nphnum * phentsize <= n,
            i <= nphnum,
            forall|t: int|
                0 <= t < i && spec_loadable(image@, t) ==> spec_p_offset(image@, t)
                    + spec_p_filesz(image@, t) <= n,
            v@.map_values(|s: Segment| s@) == spec_segments_up_to(image@, i as int),
        decreases nphnum - i,
    {
        proof {
            assert((i + 1) * (phentsize as int) <= nphnum * (phentsize as int)
                && i * (phentsize as int) + phentsize == (i + 1) * (phentsize as int)
                && 0 <= i * (phentsize as int)) by (nonlinear_arith)
                requires
                    0 <= i < nphnum,
                    phentsize > 0,
            ;
        }
        let base: u64 = phoff + i * (phentsize as u64);
        let base_us: usize = base as usize;
        let p_type = read_u32(image, base_us, big);
        let (p_offset, p_paddr, p_filesz): (u64, u64, u64) = if is64 {
            (
                read_u64(image, base_us + 8, big),
                read_u64(image, base_us + 24, big),
                read_u64(image, base_us + 32, big),
            )
        } else {
            (
                read_u32(image, base_us + 4, big) as u64,
                read_u32(image, base_us + 12, big) as u64,
                read_u32(image, base_us + 16, big) as u64,
            )
        };
        if p_type == 1 && p_filesz > 0 {
            if p_offset > n as u64 || p_filesz > n as u64 - p_offset {
                proof {
                    assert(base as int == spec_ph_base(image@, i as int));
                    assert(spec_loadable(image@, i as int));
                    assert(!(spec_p_offset(image@, i as int) + spec_p_filesz(image@, i as int)
                        <= image@.len()));
                    assert(!spec_bounds_ok(image@));
                }
                return Err(SyncError::MalformedImage);
            }
            let start: usize = p_offset as usize;
            let end: usize = (p_offset + p_filesz) as usize;
            let bytes = vstd::slice::slice_to_vec(vstd::slice::slice_subrange(image, start, end));
            let addr: u32 = (p_paddr % 0x1_0000_0000) as u32;
            let ghost old_v = v@;
            v.push(Segment { target_address: addr, bytes });
            proof {
                assert(v@.map_values(|s: Segment| s@) =~= old_v.map_values(
                    |s: Segment| s@,
                ).push(spec_segment_at(image@, i as int)));
            }
        }
        i += 1;
    }
    Ok(v)
}

} // verus!
