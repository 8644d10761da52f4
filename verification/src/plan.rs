//! Page-granular sync planning: padding, local checksums, chunked checksum
//! queries, and the differential write plan.

use vstd::prelude::*;

use crate::checksum::{crc16_xmodem, crc16_xmodem_of};

verus! {

/// The smallest multiple of `page` that is at least `len`.
pub open spec fn spec_padded_len(len: nat, page: nat) -> nat
    recommends
        page > 0,
{
    if len % page == 0 {
        len
    } else {
        (len + (page - len % page)) as nat
    }
}

/// The padded length is a multiple of the page size, is at least `len`,
/// and is the least such multiple.
pub proof fn lemma_padded_len_minimal(len: nat, page: nat)
    requires
        page > 0,
    ensures
        spec_padded_len(len, page) % page == 0,
        len <= spec_padded_len(len, page),
        spec_padded_len(len, page) < len + page,
        forall|m: nat| #[trigger] (m % page) == 0 && m >= len ==> m >= spec_padded_len(len, page),
{
    let p = spec_padded_len(len, page);
    assert(len % page < page) by {
        lemma_mod_bounds(len, page);
    }
    if len % page == 0 {
        assert(p % page == 0);
    } else {
        assert(p == len - len % page + page);
        assert((len - len % page) % (page as int) == 0 && p % page == 0) by {
            lemma_mod_sub_mod(len, page);
        }
    }
    assert forall|m: nat| #[trigger] (m % page) == 0 && m >= len implies m >= p by {
        lemma_multiple_at_least(len, m, page);
    }
}

proof fn lemma_mod_bounds(a: nat, p: nat)
    requires
        p > 0,
    ensures
        0 <= a % p < p,
{
}

/// Subtracting `a % p` from `a` gives a multiple of `p`, and adding one more
/// `p` keeps it a multiple.
proof fn lemma_mod_sub_mod(a: nat, p: nat)
    requires
        p > 0,
        a % p != 0,
    ensures
        (a - a % p) % (p as int) == 0,
        (a - a % p + p) % (p as int) == 0,
{
    let q = a / p;
    assert(a == q * p + a % p) by {
        vstd::arithmetic::div_mod::lemma_fundamental_div_mod(a as int, p as int);
    }
    assert(a - a % p == (q as int) * (p as int));
    assert(((q as int) * (p as int)) % (p as int) == 0) by {
        vstd::arithmetic::div_mod::lemma_mod_multiples_basic(q as int, p as int);
    }
    assert(a - a % p + p == (q as int + 1) * (p as int)) by {
        assert((q as int + 1) * (p as int) == (q as int) * (p as int) + p) by (nonlinear_arith);
    }
    assert(((q as int + 1) * (p as int)) % (p as int) == 0) by {
        vstd::arithmetic::div_mod::lemma_mod_multiples_basic(q as int + 1, p as int);
    }
}

/// A multiple of `p` that is at least `len` is at least the padded length.
proof fn lemma_multiple_at_least(len: nat, m: nat, p: nat)
    requires
        p > 0,
        m % p == 0,
        len <= m,
    ensures
        m >= spec_padded_len(len, p),
{
    if len % p != 0 {
        lemma_mod_bounds(len, p);
        assert(len % p <= len) by {
            vstd::arithmetic::div_mod::lemma_mod_decreases(len, p);
        }
        let lo = (len - len % p) as nat;
        lemma_mod_sub_mod(len, p);
        assert(spec_padded_len(len, p) == lo + p);
        assert(lo < len <= m);
        let qm = m / p;
        let ql = lo / p;
        assert(m == qm * p && lo == ql * p) by {
            vstd::arithmetic::div_mod::lemma_fundamental_div_mod(m as int, p as int);
            vstd::arithmetic::div_mod::lemma_fundamental_div_mod(lo as int, p as int);
            assert(m % p == 0 && lo % p == 0);
        }
        assert(qm > ql) by (nonlinear_arith)
            requires
                p > 0,
                ql * p < qm * p,
        ;
        assert(m >= (ql + 1) * p) by (nonlinear_arith)
            requires
                p > 0,
                qm >= ql + 1,
                m == qm * p,
        ;
        assert((ql + 1) * p == lo + p) by (nonlinear_arith)
            requires
                lo == ql * p,
        ;
    }
}

/// Computes the padded length for a segment, or `None` when it would not fit
/// in `usize`.
pub fn padded_len(len: usize, page: usize) -> (r: Option<usize>)
    requires
        page > 0,
    ensures
        match r {
            Some(v) => v == spec_padded_len(len as nat, page as nat),
            None => spec_padded_len(len as nat, page as nat) > usize::MAX,
        },
{
    let rem: usize = len % page;
    if rem == 0 {
        Some(len)
    } else {
        proof {
            lemma_mod_bounds(len as nat, page as nat);
        }
        let pad: usize = page - rem;
        if len <= usize::MAX - pad {
            Some(len + pad)
        } else {
            None
        }
    }
}

/// The padded bytes of a segment: the segment's own bytes followed by zeros
/// up to the next page boundary.
pub open spec fn spec_padded(bytes: Seq<u8>, page: nat) -> Seq<u8>
    recommends
        page > 0,
{
    bytes + Seq::new((spec_padded_len(bytes.len(), page) - bytes.len()) as nat, |i: int| 0u8)
}

/// Pads segment bytes with trailing zeros up to the next page boundary, or
/// `None` when the padded length would not fit in `usize`.
pub fn pad_to_page(bytes: &[u8], page: usize) -> (r: Option<Vec<u8>>)
    requires
        page > 0,
    ensures
        match r {
            Some(v) => {
                &&& v@ == spec_padded(bytes@, page as nat)
                &&& v@.len() == spec_padded_len(bytes@.len(), page as nat)
                &&& v@.subrange(0, bytes@.len() as int) == bytes@
                &&& forall|i: int| bytes@.len() <= i < v@.len() ==> v@[i] == 0u8
            },
            None => spec_padded_len(bytes@.len(), page as nat) > usize::MAX,
        },
{
    let n = bytes.len();
    match padded_len(n, page) {
        None => None,
        Some(total) => {
            let mut v: Vec<u8> = vstd::slice::slice_to_vec(bytes);
            v.resize(total, 0u8);
            proof {
                lemma_padded_len_minimal(n as nat, page as nat);
                assert(v@.subrange(0, n as int) =~= bytes@);
                assert(v@ =~= spec_padded(bytes@, page as nat));
            }
            Some(v)
        },
    }
}

/// The bytes of page `i` of a padded segment.
pub open spec fn spec_page(padded: Seq<u8>, page: nat, i: int) -> Seq<u8>
    recommends
        page > 0,
        padded.len() % page == 0,
        0 <= i < padded.len() / page,
{
    padded.subrange(i * page, (i + 1) * page)
}

/// The locally computed checksum table: one CRC-XMODEM per page.
pub open spec fn spec_local_sums(padded: Seq<u8>, page: nat) -> Seq<u16>
    recommends
        page > 0,
        padded.len() % page == 0,
{
    Seq::new(padded.len() / page, |i: int| crc16_xmodem_of(spec_page(padded, page, i)))
}

/// A page index `i` below the page count spans bytes `[i*page, (i+1)*page)`,
/// which lie inside the padded buffer.
proof fn lemma_page_in_bounds(len: nat, page: nat, i: nat)
    requires
        page > 0,
        len % page == 0,
        i < len / page,
    ensures
        (i + 1) * page <= len,
        i * page < len,
        i * page + page == (i + 1) * page,
{
    let n = len / page;
    assert(len == n * page) by {
        vstd::arithmetic::div_mod::lemma_fundamental_div_mod(len as int, page as int);
    }
    assert((i + 1) * page <= n * page && i * page < n * page && i * page + page == (i + 1)
        * page) by (nonlinear_arith)
        requires
            page > 0,
            i + 1 <= n,
    ;
}

/// Computes the per-page checksum table of a padded segment.
pub fn page_checksums(padded: &[u8], page: usize) -> (r: Vec<u16>)
    requires
        page > 0,
        padded@.len() % (page as nat) == 0,
    ensures
        r@ == spec_local_sums(padded@, page as nat),
{
    let len = padded.len();
    let n = len / page;
    let mut r: Vec<u16> = Vec::new();
    let mut i: usize = 0;
    while i < n
        invariant
            page > 0,
            len == padded@.len(),
            padded@.len() % (page as nat) == 0,
            n == padded@.len() / (page as nat),
            i <= n,
            r@.len() == i,
            forall|j: int|
                0 <= j < i ==> r@[j] == crc16_xmodem_of(
                    spec_page(padded@, page as nat, j),
                ),
        decreases n - i,
    {
        proof {
            lemma_page_in_bounds(padded@.len(), page as nat, i as nat);
        }
        let start = i * page;
        let pg = vstd::slice::slice_subrange(padded, start, start + page);
        let c = crc16_xmodem(pg);
        r.push(c);
        i += 1;
    }
    proof {
        assert(r@ =~= spec_local_sums(padded@, page as nat));
    }
    r
}

/// The indices of the pages whose local checksum differs from the device's,
/// among the first `n` pages, in increasing order.
pub open spec fn spec_write_plan(local: Seq<u16>, device: Seq<u16>, n: int) -> Seq<int>
    recommends
        n <= local.len(),
        n <= device.len(),
    decreases n,
{
    if n <= 0 {
        Seq::empty()
    } else {
        let pre = spec_write_plan(local, device, n - 1);
        if local[n - 1] != device[n - 1] {
            pre.push(n - 1)
        } else {
            pre
        }
    }
}

/// Every entry of the write plan is a page index below `n`, and the entries
/// are strictly increasing.
pub proof fn lemma_plan_bounds(local: Seq<u16>, device: Seq<u16>, n: int)
    ensures
        forall|j: int|
            0 <= j < spec_write_plan(local, device, n).len() ==> 0 <= #[trigger] spec_write_plan(
                local,
                device,
                n,
            )[j] < n,
        forall|j: int, k: int|
            0 <= j < k < spec_write_plan(local, device, n).len() ==> spec_write_plan(
                local,
                device,
                n,
            )[j] < spec_write_plan(local, device, n)[k],
    decreases n,
{
    if n > 0 {
        lemma_plan_bounds(local, device, n - 1);
        let pre = spec_write_plan(local, device, n - 1);
        let plan = spec_write_plan(local, device, n);
        if local[n - 1] != device[n - 1] {
            assert(plan == pre.push(n - 1));
            assert forall|j: int| 0 <= j < plan.len() implies 0 <= #[trigger] plan[j] < n by {
                if j < pre.len() {
                    assert(plan[j] == pre[j]);
                }
            }
            assert forall|j: int, k: int| 0 <= j < k < plan.len() implies plan[j] < plan[k] by {
                if k < pre.len() {
                    assert(plan[j] == pre[j] && plan[k] == pre[k]);
                } else {
                    assert(plan[k] == n - 1 && plan[j] == pre[j] && pre[j] < n - 1);
                }
            }
        }
    }
}

/// A page index is in the write plan exactly when its checksums differ.
pub proof fn lemma_plan_membership(local: Seq<u16>, device: Seq<u16>, n: int, i: int)
    requires
        0 <= i < n,
    ensures
        spec_write_plan(local, device, n).contains(i) <==> local[i] != device[i],
    decreases n,
{
    let plan = spec_write_plan(local, device, n);
    let pre = spec_write_plan(local, device, n - 1);
    lemma_plan_bounds(local, device, n - 1);
    if i == n - 1 {
        assert(!pre.contains(i));
        if local[i] != device[i] {
            assert(plan[plan.len() - 1] == i);
        }
    } else {
        lemma_plan_membership(local, device, n - 1, i);
        if local[i] != device[i] {
            assert(plan.contains(i)) by {
                let j = choose|j: int| 0 <= j < pre.len() && pre[j] == i;
                assert(plan[j] == i);
            }
        } else {
            if plan.contains(i) {
                let j = choose|j: int| 0 <= j < plan.len() && plan[j] == i;
                if local[n - 1] != device[n - 1] {
                    assert(j < pre.len());
                }
                assert(pre[j] == i);
            }
        }
    }
}

/// An unchanged device needs no writes: the plan over two equal checksum
/// tables is empty, so re-running a completed sync issues zero page writes.
pub proof fn lemma_plan_of_equal_tables_empty(table: Seq<u16>, n: int)
    ensures
        spec_write_plan(table, table, n).len() == 0,
    decreases n,
{
    if n > 0 {
        lemma_plan_of_equal_tables_empty(table, n - 1);
    }
}

/// If exactly one page `k` differs between the two tables, the plan is
/// exactly that one page.
pub proof fn lemma_plan_single_difference(local: Seq<u16>, device: Seq<u16>, n: int, k: int)
    requires
        0 <= k < n,
        local[k] != device[k],
        forall|i: int| 0 <= i < n && i != k ==> local[i] == device[i],
    ensures
        spec_write_plan(local, device, n) =~= seq![k],
    decreases n,
{
    if n - 1 > k {
        lemma_plan_single_difference(local, device, n - 1, k);
    } else {
        lemma_plan_of_equal_tables_empty_when_agree(local, device, n - 1);
    }
}

/// Tables that agree on the first `n` pages produce an empty plan there.
proof fn lemma_plan_of_equal_tables_empty_when_agree(local: Seq<u16>, device: Seq<u16>, n: int)
    requires
        forall|i: int| 0 <= i < n ==> local[i] == device[i],
    ensures
        spec_write_plan(local, device, n).len() == 0,
    decreases n,
{
    if n > 0 {
        lemma_plan_of_equal_tables_empty_when_agree(local, device, n - 1);
    }
}

/// Computes the differential write plan: the page indices to rewrite.
pub fn write_plan(local: &Vec<u16>, device: &Vec<u16>) -> (r: Vec<usize>)
    requires
        local@.len() == device@.len(),
    ensures
        r@.len() == spec_write_plan(local@, device@, local@.len() as int).len(),
        forall|j: int|
            0 <= j < r@.len() ==> r@[j] as int == spec_write_plan(
                local@,
                device@,
                local@.len() as int,
            )[j],
{
    let n = local.len();
    let mut r: Vec<usize> = Vec::new();
    let mut i: usize = 0;
    while i < n
        invariant
            local@.len() == device@.len(),
            n == local@.len(),
            i <= n,
            r@.len() == spec_write_plan(local@, device@, i as int).len(),
            forall|j: int|
                0 <= j < r@.len() ==> r@[j] as int == spec_write_plan(
                    local@,
                    device@,
                    i as int,
                )[j],
        decreases n - i,
    {
        if local[i] != device[i] {
            r.push(i);
        }
        i += 1;
    }
    r
}

/// One request for a stretch of device page checksums.
#[derive(Clone, Copy, PartialEq, Eq, Structural, Debug)]
pub struct ChecksumQuery {
    pub target_address: u32,
    pub num_pages: u32,
}

/// One whole-page write: `data` is exactly one page of padded segment bytes.
pub struct PageWrite {
    pub target_address: u32,
    pub data: Vec<u8>,
}

/// The chunked checksum-query plan, as (start address, page count) pairs:
/// greedy chunks of at most `maxp` pages, each starting where the previous
/// one ended.
pub open spec fn spec_chunks(addr: int, pages: int, maxp: int, page: int) -> Seq<(int, int)>
    decreases pages,
{
    if pages <= 0 || maxp <= 0 {
        Seq::empty()
    } else {
        let c = if pages < maxp {
            pages
        } else {
            maxp
        };
        seq![(addr, c)] + spec_chunks(addr + c * page, pages - c, maxp, page)
    }
}

/// The view of a built query list, for comparison with the chunk plan.
pub open spec fn spec_query_views(qs: Seq<ChecksumQuery>) -> Seq<(int, int)> {
    qs.map_values(|q: ChecksumQuery| (q.target_address as int, q.num_pages as int))
}

/// Every chunk asks for at least one page and at most `maxp` pages, so no
/// single query exceeds the device's message-size bound.
pub proof fn lemma_chunks_bounded(addr: int, pages: int, maxp: int, page: int)
    requires
        maxp > 0,
    ensures
        forall|j: int|
            0 <= j < spec_chunks(addr, pages, maxp, page).len() ==> 1 <= (
            #[trigger] spec_chunks(addr, pages, maxp, page)[j]).1 <= maxp,
    decreases pages,
{
    if pages > 0 {
        let c = if pages < maxp {
            pages
        } else {
            maxp
        };
        lemma_chunks_bounded(addr + c * page, pages - c, maxp, page);
        let chunks = spec_chunks(addr, pages, maxp, page);
        let rest = spec_chunks(addr + c * page, pages - c, maxp, page);
        assert forall|j: int| 0 <= j < chunks.len() implies 1 <= (#[trigger] chunks[j]).1
            <= maxp by {
            if j > 0 {
                assert(chunks[j] == rest[j - 1]);
            }
        }
    }
}

/// The chunk page counts sum to the total page count.
pub open spec fn spec_chunk_total(chunks: Seq<(int, int)>) -> int
    decreases chunks.len(),
{
    if chunks.len() == 0 {
        0
    } else {
        chunks[0].1 + spec_chunk_total(chunks.drop_first())
    }
}

/// The chunked plan covers exactly the requested pages.
pub proof fn lemma_chunks_total(addr: int, pages: int, maxp: int, page: int)
    requires
        maxp > 0,
        pages >= 0,
    ensures
        spec_chunk_total(spec_chunks(addr, pages, maxp, page)) == pages,
    decreases pages,
{
    if pages > 0 {
        let c = if pages < maxp {
            pages
        } else {
            maxp
        };
        lemma_chunks_total(addr + c * page, pages - c, maxp, page);
        let chunks = spec_chunks(addr, pages, maxp, page);
        assert(chunks.drop_first() =~= spec_chunks(addr + c * page, pages - c, maxp, page));
    }
}

/// The per-chunk slices of one table, concatenated in request order.
pub open spec fn spec_concat_slices(dev: Seq<u16>, chunks: Seq<(int, int)>) -> Seq<u16>
    decreases chunks.len(),
{
    if chunks.len() == 0 {
        Seq::empty()
    } else {
        dev.take(chunks[0].1) + spec_concat_slices(dev.skip(chunks[0].1), chunks.drop_first())
    }
}

/// Chunking is transparent: slicing one full checksum table by the chunk
/// plan and concatenating the slices in request order returns that table,
/// so the chunked fetch equals a single unchunked query's result.
pub proof fn lemma_chunked_fetch_equals_unchunked(dev: Seq<u16>, addr: int, maxp: int, page: int)
    requires
        maxp > 0,
    ensures
        spec_concat_slices(dev, spec_chunks(addr, dev.len() as int, maxp, page)) == dev,
    decreases dev.len(),
{
    let pages = dev.len() as int;
    if pages > 0 {
        let c = if pages < maxp {
            pages
        } else {
            maxp
        };
        let chunks = spec_chunks(addr, pages, maxp, page);
        assert(chunks.drop_first() =~= spec_chunks(addr + c * page, pages - c, maxp, page));
        assert(dev.skip(c).len() == pages - c);
        lemma_chunked_fetch_equals_unchunked(dev.skip(c), addr + c * page, maxp, page);
        assert(spec_concat_slices(dev, chunks) =~= dev.take(c) + spec_concat_slices(
            dev.skip(c),
            chunks.drop_first(),
        ));
        assert(dev.take(c) + dev.skip(c) =~= dev);
    }
}

/// Splits a checksum fetch into successive queries of at most `max_pages`
/// pages each, advancing the start address chunk by chunk.
pub fn chunk_queries(target_address: u32, num_pages: u32, max_pages: u32, page_size: u32) -> (r:
    Vec<ChecksumQuery>)
    requires
        max_pages > 0,
        page_size > 0,
        target_address + num_pages * page_size <= 0x1_0000_0000,
    ensures
        spec_query_views(r@) == spec_chunks(
            target_address as int,
            num_pages as int,
            max_pages as int,
            page_size as int,
        ),
{
    let ghost goal = spec_chunks(
        target_address as int,
        num_pages as int,
        max_pages as int,
        page_size as int,
    );
    let mut r: Vec<ChecksumQuery> = Vec::new();
    let mut cur: u32 = target_address;
    let mut rem: u32 = num_pages;
    proof {
        assert(spec_query_views(r@) + spec_chunks(
            cur as int,
            rem as int,
            max_pages as int,
            page_size as int,
        ) =~= goal);
    }
    while rem > 0
        invariant
            max_pages > 0,
            page_size > 0,
            cur + rem * page_size <= 0x1_0000_0000,
            spec_query_views(r@) + spec_chunks(
                cur as int,
                rem as int,
                max_pages as int,
                page_size as int,
            ) == goal,
        decreases rem,
    {
        let c = if rem < max_pages {
            rem
        } else {
            max_pages
        };
        let ghost old_views = spec_query_views(r@);
        let ghost old_cur = cur as int;
        let ghost old_rem = rem as int;
        proof {
            assert(c * page_size + (rem - c) * page_size == rem * page_size) by (nonlinear_arith);
            assert(c * page_size >= 0 && (rem - c) * page_size >= 0) by (nonlinear_arith)
                requires
                    0 <= c <= rem,
                    page_size > 0,
            ;
        }
        r.push(ChecksumQuery { target_address: cur, num_pages: c });
        rem = rem - c;
        if rem > 0 {
            proof {
                assert((rem as int) * (page_size as int) >= page_size) by (nonlinear_arith)
                    requires
                        rem >= 1,
                        page_size > 0,
                ;
            }
            cur = cur + c * page_size;
        }
        proof {
            let maxp = max_pages as int;
            let psz = page_size as int;
            assert(spec_query_views(r@) =~= old_views.push((old_cur, c as int)));
            assert(spec_chunks(old_cur, old_rem, maxp, psz) == seq![(old_cur, c as int)]
                + spec_chunks(old_cur + c * psz, old_rem - c, maxp, psz));
            if rem > 0 {
                assert(cur as int == old_cur + c * psz);
                assert(spec_query_views(r@) + spec_chunks(cur as int, rem as int, maxp, psz)
                    =~= old_views + spec_chunks(old_cur, old_rem, maxp, psz));
            } else {
                assert(spec_chunks(old_cur + c * psz, 0, maxp, psz) =~= Seq::<(int, int)>::empty());
                assert(spec_query_views(r@) + spec_chunks(cur as int, rem as int, maxp, psz)
                    =~= old_views + spec_chunks(old_cur, old_rem, maxp, psz));
            }
        }
    }
    proof {
        assert(spec_chunks(cur as int, 0, max_pages as int, page_size as int)
            =~= Seq::<(int, int)>::empty());
        assert(spec_query_views(r@) =~= spec_query_views(r@) + Seq::<(int, int)>::empty());
    }
    r
}

/// The pages covered by the first `k` queries of a chunk plan.
pub open spec fn spec_prefix_pages(qs: Seq<ChecksumQuery>, k: int) -> int
    decreases k,
{
    if k <= 0 {
        0
    } else {
        spec_prefix_pages(qs, k - 1) + qs[k - 1].num_pages
    }
}

proof fn lemma_prefix_pages_drop_first(qs: Seq<ChecksumQuery>, k: int)
    requires
        1 <= k <= qs.len(),
    ensures
        spec_prefix_pages(qs, k) == qs[0].num_pages + spec_prefix_pages(qs.drop_first(), k - 1),
    decreases k,
{
    if k > 1 {
        lemma_prefix_pages_drop_first(qs, k - 1);
        assert(qs.drop_first()[k - 2] == qs[k - 1]);
    } else {
        assert(spec_prefix_pages(qs, 0) == 0);
        assert(spec_prefix_pages(qs.drop_first(), 0) == 0);
    }
}

/// A chunked query plan covers exactly the requested number of pages.
pub proof fn lemma_prefix_pages_total(
    qs: Seq<ChecksumQuery>,
    addr: int,
    pages: int,
    maxp: int,
    page: int,
)
    requires
        maxp > 0,
        pages >= 0,
        spec_query_views(qs) == spec_chunks(addr, pages, maxp, page),
    ensures
        spec_prefix_pages(qs, qs.len() as int) == pages,
    decreases pages,
{
    if pages == 0 {
        assert(spec_query_views(qs).len() == 0);
        assert(qs.len() == 0);
    } else {
        let c = if pages < maxp {
            pages
        } else {
            maxp
        };
        let views = spec_query_views(qs);
        let rest = spec_chunks(addr + c * page, pages - c, maxp, page);
        assert(views == seq![(addr, c)] + rest);
        assert(views.len() == qs.len());
        assert(views[0] == (addr, c));
        assert(qs[0].num_pages as int == c);
        assert(spec_query_views(qs.drop_first()) =~= rest) by {
            assert forall|i: int| 0 <= i < qs.len() - 1 implies spec_query_views(
                qs.drop_first(),
            )[i] == rest[i] by {
                assert(qs.drop_first()[i] == qs[i + 1]);
                assert(views[i + 1] == rest[i]);
            }
        }
        lemma_prefix_pages_total(qs.drop_first(), addr + c * page, pages - c, maxp, page);
        lemma_prefix_pages_drop_first(qs, qs.len() as int);
    }
}

/// Builds the single page write for planned page index `k`.
pub fn page_write_at(target_address: u32, padded: &[u8], page_size: u32, k: usize) -> (r: PageWrite)
    requires
        page_size > 0,
        padded@.len() % (page_size as nat) == 0,
        target_address + padded@.len() <= 0x1_0000_0000,
        k < padded@.len() / (page_size as nat),
    ensures
        r.target_address == target_address + k * (page_size as int),
        r.data@ == spec_page(padded@, page_size as nat, k as int),
        r.data@.len() == page_size,
{
    let psz = page_size as usize;
    let _l = padded.len();
    proof {
        lemma_page_in_bounds(padded@.len(), page_size as nat, k as nat);
        assert(k <= k * psz) by (nonlinear_arith)
            requires
                psz >= 1,
                k >= 0,
        ;
    }
    let start = k * psz;
    let data = vstd::slice::slice_to_vec(vstd::slice::slice_subrange(padded, start, start + psz));
    let addr = target_address + (k as u32) * page_size;
    PageWrite { target_address: addr, data }
}

/// Materializes the page writes for a plan: for each planned page index, the
/// page's target address and its exact padded bytes.
pub fn writes_for_plan(
    target_address: u32,
    padded: &[u8],
    page_size: u32,
    plan: &Vec<usize>,
) -> (r: Vec<PageWrite>)
    requires
        page_size > 0,
        padded@.len() % (page_size as nat) == 0,
        target_address + padded@.len() <= 0x1_0000_0000,
        forall|j: int|
            0 <= j < plan@.len() ==> (#[trigger] plan@[j]) < padded@.len() / (page_size as nat),
    ensures
        r@.len() == plan@.len(),
        forall|j: int|
            0 <= j < r@.len() ==> {
                &&& (#[trigger] r@[j]).target_address == target_address + plan@[j] * (
                page_size as int)
                &&& r@[j].data@ == spec_page(padded@, page_size as nat, plan@[j] as int)
                &&& r@[j].data@.len() == page_size
            },
{
    let mut r: Vec<PageWrite> = Vec::new();
    let mut j: usize = 0;
    while j < plan.len()
        invariant
            page_size > 0,
            padded@.len() % (page_size as nat) == 0,
            target_address + padded@.len() <= 0x1_0000_0000,
            forall|t: int|
                0 <= t < plan@.len() ==> (#[trigger] plan@[t]) < padded@.len() / (
                page_size as nat),
            j <= plan@.len(),
            r@.len() == j,
            forall|t: int|
                0 <= t < j ==> {
                    &&& (#[trigger] r@[t]).target_address == target_address + plan@[t] * (
                    page_size as int)
                    &&& r@[t].data@ == spec_page(padded@, page_size as nat, plan@[t] as int)
                    &&& r@[t].data@.len() == page_size
                },
        decreases plan@.len() - j,
    {
        let w = page_write_at(target_address, padded, page_size, plan[j]);
        r.push(w);
        j += 1;
    }
    r
}

} // verus!

