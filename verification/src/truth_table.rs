use crate::cell::FIX_ONE;
use vstd::prelude::*;
use vstd::string::{StringExecFns, StringSliceAdditionalSpecFns};

verus! {

/// A contiguous run of samples during which one clock channel stays above
/// the detection threshold; `start` and `end` are both sample indexes of
/// the run, `end` the last one.
#[derive(Clone, Copy, Debug, PartialEq, Eq, Structural)]
pub struct ClockRegion {
    pub start: usize,
    pub end: usize,
}

/// One step of the region scan: sample `i - 1` either extends the open
/// run, opens one, or closes it.
pub open spec fn spec_region_scan(mask: Seq<bool>, upto: int) -> (Seq<ClockRegion>, Option<
    ClockRegion,
>)
    decreases upto,
{
    if upto <= 0 {
        (Seq::empty(), None::<ClockRegion>)
    } else {
        let (done, open) = spec_region_scan(mask, upto - 1);
        if mask[upto - 1] {
            match open {
                None => (done, Some(ClockRegion { start: (upto - 1) as usize, end: (upto - 1) as usize })),
                Some(region) => (done, Some(ClockRegion { start: region.start, end: (upto - 1) as usize })),
            }
        } else {
            match open {
                Some(region) => (done.push(region), None::<ClockRegion>),
                None => (done, None::<ClockRegion>),
            }
        }
    }
}

/// The maximal runs of `true` in a threshold mask, in order.
pub open spec fn spec_clock_regions(mask: Seq<bool>) -> Seq<ClockRegion> {
    let (done, open) = spec_region_scan(mask, mask.len() as int);
    match open {
        Some(region) => done.push(region),
        None => done,
    }
}

/// The runs of one channel's mask: `mask[i]` says whether the channel is
/// above the detection threshold at sample `i`. The caller computes the
/// mask from the floating-point series and its threshold.
fn scan_regions(mask: &Vec<bool>) -> (r: Vec<ClockRegion>)
    ensures
        r@ == spec_clock_regions(mask@),
{
    let mut done: Vec<ClockRegion> = Vec::new();
    let mut open: Option<ClockRegion> = None;
    let mut i: usize = 0;
    while i < mask.len()
        invariant
            0 <= i <= mask@.len(),
            (done@, open) == spec_region_scan(mask@, i as int),
        decreases mask@.len() - i,
    {
        if mask[i] {
            open = match open {
                None => Some(ClockRegion { start: i, end: i }),
                Some(region) => Some(ClockRegion { start: region.start, end: i }),
            };
        } else if let Some(region) = open {
            done.push(region);
            open = None;
        }
        i = i + 1;
    }
    if let Some(region) = open {
        done.push(region);
    }
    done
}

/// The clock-high runs of all four channels.
pub fn generate_clock_regions(masks: &[Vec<bool>; 4]) -> (r: [Vec<ClockRegion>; 4])
    ensures
        forall|i: int| 0 <= i < 4 ==> (#[trigger] r[i])@ == spec_clock_regions(masks[i]@),
{
    let r0 = scan_regions(&masks[0]);
    let r1 = scan_regions(&masks[1]);
    let r2 = scan_regions(&masks[2]);
    let r3 = scan_regions(&masks[3]);
    let r = [r0, r1, r2, r3];
    proof {
        assert(r[0]@ == spec_clock_regions(masks[0]@));
        assert(r[1]@ == spec_clock_regions(masks[1]@));
        assert(r[2]@ == spec_clock_regions(masks[2]@));
        assert(r[3]@ == spec_clock_regions(masks[3]@));
    }
    r
}

/// One cleaning step: channel `i` drops its first run when it starts
/// before channel `j`'s first run.
pub open spec fn spec_clean_pair(rs: Seq<Seq<ClockRegion>>, i: int, j: int) -> Seq<
    Seq<ClockRegion>,
> {
    let cur = rs[i];
    let other = rs[j];
    if cur.len() > 0 && other.len() > 0 && cur[0].start < other[0].start {
        rs.update(i, cur.drop_first())
    } else {
        rs
    }
}

/// Channel `i` cleaned against channels `k - 1` down to `0`.
pub open spec fn spec_clean_inner(rs: Seq<Seq<ClockRegion>>, i: int, k: int) -> Seq<
    Seq<ClockRegion>,
>
    decreases k,
{
    if k <= 0 {
        rs
    } else {
        spec_clean_inner(spec_clean_pair(rs, i, k - 1), i, k - 1)
    }
}

/// Channels `m - 1` down to `0`, each cleaned against all lower channels.
pub open spec fn spec_clean_outer(rs: Seq<Seq<ClockRegion>>, m: int) -> Seq<Seq<ClockRegion>>
    decreases m,
{
    if m <= 0 {
        rs
    } else {
        spec_clean_outer(spec_clean_inner(rs, m - 1, m - 1), m - 1)
    }
}

/// The four region lists as one sequence.
pub open spec fn spec_regions_view(a: [Vec<ClockRegion>; 4]) -> Seq<Seq<ClockRegion>> {
    seq![a[0]@, a[1]@, a[2]@, a[3]@]
}

/// Aligns the four channels' run lists: a channel whose first run starts
/// before that of a lower channel drops it, so that run `r` of every
/// channel belongs to the same clock cycle.
pub fn clean_clock_regions(clock_regions: &mut [Vec<ClockRegion>; 4])
    ensures
        spec_regions_view(*final(clock_regions)) == spec_clean_outer(
            spec_regions_view(*old(clock_regions)),
            4,
        ),
{
    let ghost orig = spec_regions_view(*old(clock_regions));
    let mut ii: usize = 0;
    while ii < 4
        invariant
            0 <= ii <= 4,
            spec_clean_outer(orig, 4) == spec_clean_outer(
                spec_regions_view(*clock_regions),
                4 - ii,
            ),
        decreases 4 - ii,
    {
        let i = 3 - ii;
        let ghost at_outer = spec_regions_view(*clock_regions);
        let mut jj: usize = 0;
        while jj < i
            invariant
                0 <= jj <= i,
                i == 3 - ii,
                0 <= ii < 4,
                spec_clean_inner(at_outer, i as int, i as int) == spec_clean_inner(
                    spec_regions_view(*clock_regions),
                    i as int,
                    i - jj,
                ),
            decreases i - jj,
        {
            let j = i - 1 - jj;
            let ghost before = spec_regions_view(*clock_regions);
            let remove_first: bool = clock_regions[i].len() > 0 && clock_regions[j].len() > 0
                && clock_regions[i][0].start < clock_regions[j][0].start;
            if remove_first {
                let removed = clock_regions[i].remove(0);
                proof {
                    assert(spec_regions_view(*clock_regions) =~= spec_clean_pair(
                        before,
                        i as int,
                        j as int,
                    )) by {
                        assert(before[i as int].remove(0) =~= before[i as int].drop_first());
                        assert(spec_regions_view(*clock_regions) =~= before.update(
                            i as int,
                            before[i as int].drop_first(),
                        ));
                    }
                }
            } else {
                proof {
                    assert(spec_regions_view(*clock_regions) == spec_clean_pair(
                        before,
                        i as int,
                        j as int,
                    ));
                }
            }
            jj = jj + 1;
        }
        ii = ii + 1;
    }
    proof {
        assert(spec_clean_outer(spec_regions_view(*clock_regions), 0) == spec_regions_view(
            *clock_regions,
        ));
    }
}


/// What the region scan yields: every run lies within the mask, reads
/// `true` throughout, and is maximal on both sides; and every `true`
/// sample belongs to some run.
pub proof fn lemma_clock_regions_are_maximal_runs(mask: Seq<bool>)
    requires
        mask.len() <= usize::MAX,
    ensures
        forall|k: int|
            0 <= k < spec_clock_regions(mask).len() ==> {
                let r = #[trigger] spec_clock_regions(mask)[k];
                &&& r.start <= r.end < mask.len()
                &&& (forall|t: int| r.start <= t <= r.end ==> mask[t])
                &&& (r.start == 0 || !mask[r.start - 1])
                &&& (r.end + 1 == mask.len() || !mask[r.end + 1])
            },
        forall|t: int|
            0 <= t < mask.len() && mask[t] ==> exists|k: int|
                0 <= k < spec_clock_regions(mask).len() && (#[trigger] spec_clock_regions(
                    mask,
                )[k]).start <= t <= spec_clock_regions(mask)[k].end,
{
    lemma_region_scan_props(mask, mask.len() as int);
    let (done, open) = spec_region_scan(mask, mask.len() as int);
    let regions = spec_clock_regions(mask);
    match open {
        Some(region) => {
            assert(regions == done.push(region));
            assert forall|t: int| 0 <= t < mask.len() && mask[t] implies exists|k: int|
                0 <= k < regions.len() && (#[trigger] regions[k]).start <= t
                    <= regions[k].end by {
                if region.start <= t <= region.end {
                    assert(regions[regions.len() - 1] == region);
                } else {
                    let k = choose|k: int|
                        0 <= k < done.len() && (#[trigger] done[k]).start <= t <= done[k].end;
                    assert(regions[k] == done[k]);
                }
            }
        },
        None => {
            assert(regions == done);
        },
    }
}

/// Invariant of the scan after `upto` samples: the closed runs are exact
/// maximal `true` runs whose closing sample was `false`; an open run is a
/// maximal run still touching the scan front; together they cover every
/// `true` sample seen so far.
proof fn lemma_region_scan_props(mask: Seq<bool>, upto: int)
    requires
        0 <= upto <= mask.len(),
        mask.len() <= usize::MAX,
    ensures
        ({
            let (done, open) = spec_region_scan(mask, upto);
            &&& forall|k: int|
                0 <= k < done.len() ==> {
                    let r = #[trigger] done[k];
                    &&& r.start <= r.end
                    &&& r.end + 1 < upto
                    &&& (forall|t: int| r.start <= t <= r.end ==> mask[t])
                    &&& (r.start == 0 || !mask[r.start - 1])
                    &&& !mask[r.end + 1]
                }
            &&& (open matches Some(r) ==> r.start <= r.end == upto - 1 && (forall|t: int|
                r.start <= t <= r.end ==> mask[t]) && (r.start == 0 || !mask[r.start - 1]))
            &&& (upto > 0 && mask[upto - 1] ==> open is Some)
            &&& forall|t: int|
                0 <= t < upto && mask[t] ==> (exists|k: int|
                    0 <= k < done.len() && (#[trigger] done[k]).start <= t <= done[k].end) || (
                open matches Some(r) && r.start <= t <= r.end)
        }),
    decreases upto,
{
    if upto > 0 {
        lemma_region_scan_props(mask, upto - 1);
        let (pdone, popen) = spec_region_scan(mask, upto - 1);
        let (done, open) = spec_region_scan(mask, upto);
        if mask[upto - 1] {
            assert(done == pdone);
            assert forall|t: int|
                0 <= t < upto && mask[t] implies (exists|k: int|
                0 <= k < done.len() && (#[trigger] done[k]).start <= t <= done[k].end) || (open
                matches Some(r) && r.start <= t <= r.end) by {
                if t < upto - 1 {
                    if !(exists|k: int|
                        0 <= k < pdone.len() && (#[trigger] pdone[k]).start <= t
                            <= pdone[k].end) {
                        assert(popen matches Some(r) && r.start <= t <= r.end);
                    }
                }
            }
        } else {
            match popen {
                Some(region) => {
                    assert(done == pdone.push(region));
                    assert forall|t: int|
                        0 <= t < upto && mask[t] implies (exists|k: int|
                        0 <= k < done.len() && (#[trigger] done[k]).start <= t <= done[k].end)
                        || (open matches Some(r) && r.start <= t <= r.end) by {
                        if t < upto - 1 {
                            if exists|k: int|
                                0 <= k < pdone.len() && (#[trigger] pdone[k]).start <= t
                                    <= pdone[k].end {
                                let k = choose|k: int|
                                    0 <= k < pdone.len() && (#[trigger] pdone[k]).start <= t
                                        <= pdone[k].end;
                                assert(done[k] == pdone[k]);
                            } else {
                                assert(region.start <= t <= region.end);
                                assert(done[done.len() - 1] == region);
                            }
                        }
                    }
                    assert forall|k: int| 0 <= k < done.len() implies {
                        let r = #[trigger] done[k];
                        &&& r.start <= r.end
                        &&& r.end + 1 < upto
                        &&& (forall|t: int| r.start <= t <= r.end ==> mask[t])
                        &&& (r.start == 0 || !mask[r.start - 1])
                        &&& !mask[r.end + 1]
                    } by {
                        if k < pdone.len() {
                            assert(done[k] == pdone[k]);
                        } else {
                            assert(done[k] == region);
                        }
                    }
                },
                None => {
                    assert(done == pdone);
                },
            }
        }
    }
}

/// How many samples in `[from, to)` carry the given symbol.
pub open spec fn spec_symbol_count(
    symbols: Seq<Option<char>>,
    sym: Option<char>,
    from: int,
    to: int,
) -> int
    decreases to - from,
{
    if to <= from {
        0
    } else {
        spec_symbol_count(symbols, sym, from, to - 1) + if symbols[to - 1] == sym {
            1int
        } else {
            0int
        }
    }
}

/// The majority symbol of a region and whether it carries the region:
/// the symbol with the most samples wins, letters before no reading, and
/// it must cover at least the threshold fraction of the region. A region
/// without samples yields no reading.
pub open spec fn spec_logical_value(
    symbols: Seq<Option<char>>,
    start: int,
    end: int,
    value_threshold: int,
) -> Option<char> {
    if end <= start {
        None
    } else {
        spec_logical_value_nonempty(symbols, start, end, value_threshold)
    }
}

pub open spec fn spec_logical_value_nonempty(
    symbols: Seq<Option<char>>,
    start: int,
    end: int,
    value_threshold: int,
) -> Option<char> {
    let ca = spec_symbol_count(symbols, Some('A'), start, end);
    let cb = spec_symbol_count(symbols, Some('B'), start, end);
    let cc = spec_symbol_count(symbols, Some('C'), start, end);
    let cd = spec_symbol_count(symbols, Some('D'), start, end);
    let cn = spec_symbol_count(symbols, None, start, end);
    let best: Option<char> = Some('A');
    let best_count = ca;
    let (best, best_count): (Option<char>, int) = if cb > best_count {
        (Some('B'), cb)
    } else {
        (best, best_count)
    };
    let (best, best_count): (Option<char>, int) = if cc > best_count {
        (Some('C'), cc)
    } else {
        (best, best_count)
    };
    let (best, best_count): (Option<char>, int) = if cd > best_count {
        (Some('D'), cd)
    } else {
        (best, best_count)
    };
    let (best, best_count): (Option<char>, int) = if cn > best_count {
        (None, cn)
    } else {
        (best, best_count)
    };
    if best_count * FIX_ONE >= value_threshold * (end - start) {
        best
    } else {
        None
    }
}

fn count_symbol(symbols: &[Option<char>], sym: Option<char>, start: usize, end: usize) -> (r:
    usize)
    requires
        start <= end <= symbols@.len(),
    ensures
        r == spec_symbol_count(symbols@, sym, start as int, end as int),
        r <= end - start,
{
    let mut count: usize = 0;
    let mut i: usize = start;
    while i < end
        invariant
            start <= i <= end <= symbols@.len(),
            count == spec_symbol_count(symbols@, sym, start as int, i as int),
            count <= i - start,
        decreases end - i,
    {
        let here: bool = match (symbols[i], sym) {
            (Some(a), Some(b)) => a == b,
            (None, None) => true,
            _ => false,
        };
        if here {
            count = count + 1;
        }
        i = i + 1;
    }
    count
}

/// The digital reading of one cell over one clock-high region: the
/// majority of the per-sample readings the caller classified, `None`
/// when no reading covers the threshold fraction of the region or the
/// region holds no samples. The region's final sample is left out, as the
/// region detector recorded it as the last sample still above threshold,
/// so a single-sample region reads nothing.
pub fn generate_logical_value(
    symbols: &[Option<char>],
    clock_region: &ClockRegion,
    value_threshold: i64,
) -> (r: Option<char>)
    requires
        clock_region.start <= clock_region.end <= symbols@.len(),
        0 <= value_threshold <= FIX_ONE,
    ensures
        r == spec_logical_value(
            symbols@,
            clock_region.start as int,
            clock_region.end as int,
            value_threshold as int,
        ),
{
    let start = clock_region.start;
    let end = clock_region.end;
    if end <= start {
        return None;
    }
    let ca = count_symbol(symbols, Some('A'), start, end);
    let cb = count_symbol(symbols, Some('B'), start, end);
    let cc = count_symbol(symbols, Some('C'), start, end);
    let cd = count_symbol(symbols, Some('D'), start, end);
    let cn = count_symbol(symbols, None, start, end);
    let mut best: Option<char> = Some('A');
    let mut best_count: usize = ca;
    if cb > best_count {
        best = Some('B');
        best_count = cb;
    }
    if cc > best_count {
        best = Some('C');
        best_count = cc;
    }
    if cd > best_count {
        best = Some('D');
        best_count = cd;
    }
    if cn > best_count {
        best = None;
        best_count = cn;
    }
    proof {
        assert(forall|a: int, b: int|
            0 <= a < 0x10000000000000000 && 0 <= b <= 0x10000000000000000 ==> #[trigger] (a * b)
                < 0x100000000000000000000000000000000) by (nonlinear_arith);
    }
    let passes: bool = (best_count as u128) * (FIX_ONE as u128) >= (value_threshold as u128) * ((
    end - start) as u128);
    proof {
        assert((best_count as u128) * (FIX_ONE as u128) == best_count * FIX_ONE);
        assert((value_threshold as u128) * ((end - start) as u128) == value_threshold * (end as int
            - start as int));
    }
    if passes {
        best
    } else {
        None
    }
}

/// The extracted digital behavior: one column per analyzed cell, its
/// label and its reading per clock cycle.
pub struct TruthTable {
    pub entries: Vec<(String, Vec<Option<char>>)>,
}

impl TruthTable {
    /// The table as tab-separated text: a header of labels, then one row
    /// per clock cycle, absent readings shown as `NaN`.
    pub fn to_text(&self) -> (r: String)
        requires
            self.entries@.len() > 0,
    {
        let mut max_len: usize = 0;
        let mut i: usize = 0;
        while i < self.entries.len()
            invariant
                0 <= i <= self.entries@.len(),
            decreases self.entries@.len() - i,
        {
            if self.entries[i].1.len() > max_len {
                max_len = self.entries[i].1.len();
            }
            i = i + 1;
        }
        let mut out = String::new();
        let mut i: usize = 0;
        while i < self.entries.len()
            invariant
                0 <= i <= self.entries@.len(),
            decreases self.entries@.len() - i,
        {
            out.append(self.entries[i].0.as_str());
            out.append("\t");
            i = i + 1;
        }
        let mut row: usize = 0;
        while row < max_len
            invariant
                0 <= row <= max_len,
            decreases max_len - row,
        {
            out.append("\n");
            let mut i: usize = 0;
            while i < self.entries.len()
                invariant
                    0 <= i <= self.entries@.len(),
                decreases self.entries@.len() - i,
            {
                let value: Option<char> = if row < self.entries[i].1.len() {
                    self.entries[i].1[row]
                } else {
                    None
                };
                match value {
                    None => {
                        out.append("NaN");
                    },
                    Some(c) => {
                        if c == 'A' {
                            out.append("A");
                        } else if c == 'B' {
                            out.append("B");
                        } else if c == 'C' {
                            out.append("C");
                        } else if c == 'D' {
                            out.append("D");
                        } else {
                            out.append("?");
                        }
                    },
                }
                out.append("\t");
                i = i + 1;
            }
            row = row + 1;
        }
        out
    }
}

/// Reads a `label:delay` pair from the command line: the text before the
/// colon names a cell by index or label, the text after it is the
/// whole-number clock delay.
pub fn validate_cell_delay(s: &str) -> (r: Result<(String, usize), String>)
    ensures
        r is Ok <==> {
            let bytes = s.spec_bytes();
            &&& crate::text::spec_count_byte(bytes, 58) == 1
            &&& crate::text::spec_is_usize_text(
                bytes.skip(crate::text::spec_find_byte(bytes, 58) + 1),
            )
        },
        r matches Ok((label, delay)) ==> {
            let bytes = s.spec_bytes();
            let p = crate::text::spec_find_byte(bytes, 58);
            &&& vstd::utf8::encode_utf8(label@) == bytes.take(p)
            &&& delay == crate::text::spec_usize_text_value(bytes.skip(p + 1))
        },
{
    let bytes = s.as_bytes();
    let n = bytes.len();
    let mut colon_count: usize = 0;
    let mut first_colon: usize = n;
    let mut i: usize = 0;
    while i < n
        invariant
            0 <= i <= n,
            n == bytes@.len(),
            bytes@ == s.spec_bytes(),
            colon_count == crate::text::spec_count_byte(bytes@.take(i as int), 58),
            colon_count <= i,
            colon_count > 0 ==> 0 <= first_colon < i && bytes@[first_colon as int] == 58
                && crate::text::spec_count_byte(bytes@.take(first_colon as int), 58) == 0,
            colon_count == 0 ==> first_colon == n,
        decreases n - i,
    {
        proof {
            assert(bytes@.take(i + 1).drop_last() =~= bytes@.take(i as int));
        }
        if bytes[i] == 58 {
            if colon_count == 0 {
                first_colon = i;
            }
            colon_count = colon_count + 1;
        }
        i = i + 1;
    }
    proof {
        assert(bytes@.take(n as int) =~= bytes@);
        if colon_count == 1 {
            crate::text::lemma_find_characterization(bytes@, 58, first_colon as int);
        }
    }
    if colon_count != 1 {
        return Err("Format must be '<CellIndex|CellLabel>:<ClockDelay>'".to_string());
    }
    let tail = vstd::slice::slice_subrange(bytes, first_colon + 1, n);
    proof {
        assert(tail@ =~= bytes@.skip(first_colon + 1));
    }
    let delay = match crate::text::parse_usize(tail) {
        Some(v) => v,
        None => {
            let mut msg = String::new();
            msg.append("Clock delay in '");
            msg.append(s);
            msg.append("' is not a valid positive integer");
            return Err(msg);
        },
    };
    proof {
        vstd::utf8::encode_utf8_valid_utf8(s@);
        assert(vstd::utf8::valid_utf8(s.spec_bytes()));
        vstd::utf8::is_char_boundary_iff_not_is_continuation_byte(
            s.spec_bytes(),
            first_colon as int,
        );
        assert(!vstd::utf8::is_continuation_byte(58));
    }
    let (head, _rest) = s.split_at(first_colon);
    let label = head.to_owned();
    proof {
        assert(vstd::utf8::encode_utf8(label@) == bytes@.take(first_colon as int)) by {
            assert(head.spec_bytes() =~= bytes@.take(first_colon as int));
        }
    }
    Ok((label, delay))
}

} // verus!
