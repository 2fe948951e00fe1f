use vstd::prelude::*;

verus! {

/// Fixed-point scale used for probabilities and polarizations: one unit is
/// one millionth, so `FIX_ONE` stands for the real value 1.0 and the sum
/// tolerance of one unit stands for 1e-6.
pub const FIX_ONE: i64 = 1_000_000;

/// Largest magnitude a single distribution entry may have. Entries are
/// occupation probabilities, so anything near this bound is already
/// meaningless; the bound only keeps the fixed-point arithmetic inside `i64`.
pub const ENTRY_BOUND: i64 = 4_000_000_000;

/// Kind of an automaton cell: solved unknowns (`Normal`, `Output`), cells
/// driven by the stimulus (`Input`), and cells holding a constant (`Fixed`).
#[derive(Clone, Copy, Debug, PartialEq, Eq, Structural, Hash)]
pub enum CellType {
    Normal,
    Input,
    Output,
    Fixed,
}

/// Stable key of a cell inside a design: layer number and cell number
/// within that layer; ordered by layer first.
#[derive(Clone, Copy, Debug, PartialEq, Eq, Structural, Hash, PartialOrd, Ord)]
pub struct QCACellIndex {
    pub layer: usize,
    pub cell: usize,
}



/// Whether a byte string has the form `layer-cell`, both parts plain
/// numbers: exactly one dash, and a number on each side.
pub open spec fn spec_is_cell_index_text(bytes: Seq<u8>) -> bool {
    let p = crate::text::spec_find_byte(bytes, 45);
    &&& crate::text::spec_count_byte(bytes, 45) == 1
    &&& crate::text::spec_is_usize_text(bytes.take(p))
    &&& crate::text::spec_is_usize_text(bytes.skip(p + 1))
}

impl QCACellIndex {
    pub fn new(layer: usize, cell: usize) -> (r: Self)
        ensures
            r.layer == layer,
            r.cell == cell,
    {
        QCACellIndex { layer, cell }
    }

    /// The text form `layer-cell`.
    pub fn to_text(&self) -> (r: String)
        ensures
            r@ == crate::text::spec_dec(self.layer as int) + seq!['-'] + crate::text::spec_dec(
                self.cell as int,
            ),
    {
        let mut s = String::new();
        crate::text::append_dec(&mut s, self.layer);
        proof {
            reveal_strlit("-");
        }
        s.append("-");
        crate::text::append_dec(&mut s, self.cell);
        proof {
            assert(s@ =~= crate::text::spec_dec(self.layer as int) + seq!['-']
                + crate::text::spec_dec(self.cell as int));
        }
        s
    }

    /// Reads the `layer-cell` form back. The text must hold exactly one
    /// dash with a plain number on each side; anything else is rejected
    /// with a message naming the part at fault.
    pub fn parse_text(s: &str) -> (r: Result<QCACellIndex, String>)
        ensures
            r is Ok <==> spec_is_cell_index_text(s@.map_values(|c: char| c as u8))
                && vstd::string::is_ascii(s),
            r matches Ok(ix) ==> {
                let bytes = s@.map_values(|c: char| c as u8);
                let p = crate::text::spec_find_byte(bytes, 45);
                &&& ix.layer == crate::text::spec_usize_text_value(bytes.take(p))
                &&& ix.cell == crate::text::spec_usize_text_value(bytes.skip(p + 1))
            },
    {
        if !s.is_ascii() {
            // A multi-byte character can never form `layer-cell`.
            let mut msg = String::new();
            msg.append("Invalid format '");
            msg.append(s);
            msg.append("'. Expected 'layer-cell'");
            return Err(msg);
        }
        let bytes = s.as_bytes();
        proof {
            vstd::string::is_ascii_spec_bytes(s);
            assert(bytes@ =~= s@.map_values(|c: char| c as u8));
        }
        let n = bytes.len();
        let mut dash_count: usize = 0;
        let mut first_dash: usize = n;
        let mut i: usize = 0;
        while i < n
            invariant
                0 <= i <= n,
                n == bytes@.len(),
                dash_count == crate::text::spec_count_byte(bytes@.take(i as int), 45),
                dash_count <= i,
                dash_count > 0 ==> 0 <= first_dash < i && bytes@[first_dash as int] == 45
                    && crate::text::spec_count_byte(bytes@.take(first_dash as int), 45) == 0,
                dash_count == 0 ==> first_dash == n,
            decreases n - i,
        {
            proof {
                assert(bytes@.take(i + 1).drop_last() =~= bytes@.take(i as int));
            }
            if bytes[i] == 45 {
                if dash_count == 0 {
                    first_dash = i;
                }
                dash_count = dash_count + 1;
            }
            i = i + 1;
        }
        proof {
            assert(bytes@.take(n as int) =~= bytes@);
            if dash_count == 1 {
                crate::text::lemma_find_characterization(bytes@, 45, first_dash as int);
            }
        }
        if dash_count != 1 {
            let mut msg = String::new();
            msg.append("Invalid format '");
            msg.append(s);
            msg.append("'. Expected 'layer-cell'");
            return Err(msg);
        }
        let head = vstd::slice::slice_subrange(bytes, 0, first_dash);
        let tail = vstd::slice::slice_subrange(bytes, first_dash + 1, n);
        proof {
            assert(head@ =~= bytes@.take(first_dash as int));
            assert(tail@ =~= bytes@.skip(first_dash + 1));
        }
        let layer = match crate::text::parse_usize(head) {
            Some(v) => v,
            None => {
                let mut msg = String::new();
                msg.append("Invalid layer in '");
                msg.append(s);
                msg.append("'. Must be a positive integer");
                return Err(msg);
            },
        };
        let cell = match crate::text::parse_usize(tail) {
            Some(v) => v,
            None => {
                let mut msg = String::new();
                msg.append("Invalid cell in '");
                msg.append(s);
                msg.append("'. Must be a positive integer");
                return Err(msg);
            },
        };
        Ok(QCACellIndex { layer, cell })
    }
}










/// One automaton cell, reduced to the plain values the discrete logic
/// reads. Position and rotation only feed the electrostatic integrals and
/// stay with the numeric solvers.
pub struct QCACell {
    pub typ: CellType,
    /// Clock phase shift in whole degrees.
    pub clock_phase_shift: i64,
    /// Dot occupation probabilities in millionths; sums to 2.0.
    pub dot_probability_distribution: Vec<i64>,
    /// Optional display name.
    pub label: Option<String>,
}

/// The clock channel a cell listens to: its phase shift reduced to a
/// quarter turn, one channel per 90 degrees.
pub fn clock_phase_index(clock_phase_shift: i64) -> (r: usize)
    requires
        clock_phase_shift > i64::MIN,
    ensures
        r == ((clock_phase_shift as int) % 360) / 90,
        r < 4,
{
    if clock_phase_shift >= 0 {
        let m = (clock_phase_shift as u64) % 360;
        (m / 90) as usize
    } else {
        let neg = (-clock_phase_shift) as u64;
        let k = neg % 360;
        proof {
            let x = clock_phase_shift as int;
            vstd::arithmetic::div_mod::lemma_fundamental_div_mod(-x, 360);
            if k == 0 {
                assert(x == 360 * -((-x) / 360) + 0);
                vstd::arithmetic::div_mod::lemma_mod_multiples_vanish(-((-x) / 360), 0, 360);
            } else {
                assert(x == 360 * (-((-x) / 360) - 1) + (360 - k));
                vstd::arithmetic::div_mod::lemma_mod_multiples_vanish(
                    -((-x) / 360) - 1,
                    360 - k,
                    360,
                );
                vstd::arithmetic::div_mod::lemma_small_mod((360 - k) as nat, 360);
            }
        }
        if k == 0 {
            0
        } else {
            (((360 - k) as u64) / 90) as usize
        }
    }
}

/// Sum of a sequence of integers.
pub open spec fn sum_int(s: Seq<int>) -> int
    decreases s.len(),
{
    if s.len() == 0 {
        0
    } else {
        sum_int(s.drop_last()) + s.last()
    }
}

/// Integer view of a fixed-point vector.
pub open spec fn to_ints(s: Seq<i64>) -> Seq<int> {
    s.map_values(|x: i64| x as int)
}

/// Truncating division (the quotient is rounded toward zero), for a positive
/// divisor.
pub open spec fn tdiv(a: int, b: int) -> int
    recommends
        b > 0,
{
    if a >= 0 {
        a / b
    } else {
        -((-a) / b)
    }
}

/// Every entry small enough for the fixed-point arithmetic.
pub open spec fn entries_bounded(d: Seq<i64>) -> bool {
    forall|i: int| 0 <= i < d.len() ==> -ENTRY_BOUND <= #[trigger] d[i] <= ENTRY_BOUND
}


/// A dot probability distribution is accepted when its sum is 2.0 up to the
/// fixed-point tolerance and it covers 4 or 8 dots.
pub open spec fn distribution_sum_ok(d: Seq<int>) -> bool {
    -1 <= sum_int(d) - 2 * FIX_ONE <= 1
}

pub open spec fn distribution_len_ok(d: Seq<int>) -> bool {
    d.len() == 4 || d.len() == 8
}

/// Polarization of a valid distribution: the normalized charge difference
/// along each logical axis, one value for 4 dots and two for 8.
pub open spec fn spec_polarization_of(d: Seq<int>) -> Seq<int>
    recommends
        distribution_len_ok(d),
        distribution_sum_ok(d),
{
    let s = sum_int(d);
    if d.len() == 4 {
        seq![tdiv(((d[0] + d[2]) - (d[1] + d[3])) * FIX_ONE, s)]
    } else {
        seq![
            tdiv(((d[0] + d[4]) - (d[2] + d[6])) * FIX_ONE, s),
            tdiv(((d[1] + d[5]) - (d[3] + d[7])) * FIX_ONE, s),
        ]
    }
}

/// Sum of absolute values.
pub open spec fn sum_abs(p: Seq<int>) -> int
    decreases p.len(),
{
    if p.len() == 0 {
        0
    } else {
        sum_abs(p.drop_last()) + abs(p.last())
    }
}

pub open spec fn abs(x: int) -> int {
    if x >= 0 {
        x
    } else {
        -x
    }
}

pub open spec fn max0(x: int) -> int {
    if x > 0 {
        x
    } else {
        0
    }
}

/// Distribution encoding a polarization: each axis value is split into its
/// positive and negative part and the remaining weight is spread evenly
/// over the half's slots. The division remainder joins the half's last
/// slot, so the encoded distribution always sums to exactly 2.0.
pub open spec fn spec_distribution_of(p: Seq<int>) -> Seq<int>
    recommends
        p.len() == 1 || p.len() == 2,
        0 <= sum_abs(p) <= FIX_ONE,
{
    if p.len() == 1 {
        let spread = FIX_ONE - sum_abs(p);
        let offset = spread / 2;
        let p1 = max0(p[0]) + offset;
        let n1 = max0(-p[0]) + offset + spread % 2;
        seq![p1, n1, p1, n1]
    } else {
        let spread = FIX_ONE - sum_abs(p);
        let offset = spread / 4;
        let p1 = max0(p[0]) + offset;
        let n1 = max0(-p[0]) + offset;
        let p2 = max0(p[1]) + offset;
        let n2 = max0(-p[1]) + offset + spread % 4;
        seq![p1, p2, n1, n2, p1, p2, n1, n2]
    }
}

/// Why a distribution or polarization vector is rejected.
#[derive(Clone, Copy, Debug, PartialEq, Eq, Structural)]
pub enum DistributionError {
    /// The distribution does not sum to 2.0 within the tolerance.
    InvalidSum,
    /// The absolute values of a polarization sum to more than 1.0.
    InvalidAbsSum,
    /// The vector covers an unsupported number of dots or axes.
    InvalidLength,
}

/// Truncating fixed-point division of `a * FIX_ONE` by the positive `s`.
fn div_scaled(a: i64, s: i64) -> (r: i64)
    requires
        -ENTRY_BOUND * 8 <= a <= ENTRY_BOUND * 8,
        2 * FIX_ONE - 1 <= s <= 2 * FIX_ONE + 1,
    ensures
        r == tdiv(a * FIX_ONE, s as int),
{
    proof {
        assert(forall|x: int|
            0 <= x <= 8 * ENTRY_BOUND ==> #[trigger] (x * FIX_ONE) <= 8 * ENTRY_BOUND * FIX_ONE)
            by (nonlinear_arith);
        assert(forall|x: int, y: int| 0 <= x && 2 * FIX_ONE - 1 <= y ==> 0 <= #[trigger] (x / y)
            <= x) by (nonlinear_arith);
    }
    let su = s as u64;
    if a >= 0 {
        let au = a as u64;
        assert(au * (FIX_ONE as u64) == a * FIX_ONE);
        let num = au * (FIX_ONE as u64);
        let q = num / su;
        q as i64
    } else {
        let m = -a;
        let mu = m as u64;
        assert(mu * (FIX_ONE as u64) == m * FIX_ONE);
        let num = mu * (FIX_ONE as u64);
        let q = num / su;
        -(q as i64)
    }
}

/// Sum of the entries of a fixed-point vector, with a loop invariant tying
/// the running total to `sum_int`.
fn sum_entries(d: &[i64]) -> (r: i64)
    requires
        entries_bounded(d@),
        d@.len() <= 8,
    ensures
        r == sum_int(to_ints(d@)),
        -8 * ENTRY_BOUND <= r <= 8 * ENTRY_BOUND,
{
    let mut total: i64 = 0;
    let mut i: usize = 0;
    while i < d.len()
        invariant
            0 <= i <= d@.len(),
            d@.len() <= 8,
            entries_bounded(d@),
            total == sum_int(to_ints(d@).take(i as int)),
            -(i as int) * ENTRY_BOUND <= total <= (i as int) * ENTRY_BOUND,
        decreases d@.len() - i,
    {
        proof {
            assert(to_ints(d@).take(i + 1).drop_last() =~= to_ints(d@).take(i as int));
            assert(to_ints(d@).take(i + 1).last() == d@[i as int] as int);
            assert((i + 1) as int * ENTRY_BOUND == (i as int) * ENTRY_BOUND + ENTRY_BOUND)
                by (nonlinear_arith);
        }
        total = total + d[i];
        i = i + 1;
    }
    proof {
        assert(to_ints(d@).take(d@.len() as int) =~= to_ints(d@));
    }
    total
}

/// Converts a dot probability distribution to its polarization, rejecting
/// vectors whose sum strays from 2.0 by more than the tolerance, and then
/// vectors of unsupported length, exactly in that order.
pub fn dot_probability_distribution_to_polarization_checked(d: &[i64]) -> (r: Result<
    Vec<i64>,
    DistributionError,
>)
    requires
        entries_bounded(d@),
    ensures
        r is Err ==> (if !(d@.len() <= 8 && distribution_sum_ok(to_ints(d@))) {
            r == Result::<Vec<i64>, DistributionError>::Err(DistributionError::InvalidSum)
        } else {
            r == Result::<Vec<i64>, DistributionError>::Err(DistributionError::InvalidLength)
        }),
        r is Err <==> !(d@.len() <= 8 && distribution_sum_ok(to_ints(d@)) && distribution_len_ok(
            to_ints(d@),
        )),
        r matches Ok(p) ==> to_ints(p@) == spec_polarization_of(to_ints(d@)),
{
    if d.len() > 8 {
        // A vector this long can never have an accepted length; the sum check
        // fires first in every rejection, as it does on length 4 and 8.
        return Err(DistributionError::InvalidSum);
    }
    let sum = sum_entries(d);
    let dev = sum - 2 * FIX_ONE;
    if dev > 1 || dev < -1 {
        return Err(DistributionError::InvalidSum);
    }
    if d.len() == 4 {
        let diff = (d[0] + d[2]) - (d[1] + d[3]);
        let p = div_scaled(diff, sum);
        Ok(vec![p])
    } else if d.len() == 8 {
        let diff_a = (d[0] + d[4]) - (d[2] + d[6]);
        let diff_b = (d[1] + d[5]) - (d[3] + d[7]);
        let pa = div_scaled(diff_a, sum);
        let pb = div_scaled(diff_b, sum);
        let r = vec![pa, pb];
        proof {
            assert(to_ints(r@) =~= spec_polarization_of(to_ints(d@)));
        }
        Ok(r)
    } else {
        Err(DistributionError::InvalidLength)
    }
}

/// Polarization of a valid distribution. The domain matches what the design
/// guarantees of every stored distribution; anything outside it is an
/// internally inconsistent design.
pub fn dot_probability_distribution_to_polarization(d: &[i64]) -> (r: Vec<i64>)
    requires
        entries_bounded(d@),
        distribution_sum_ok(to_ints(d@)),
        distribution_len_ok(to_ints(d@)),
    ensures
        to_ints(r@) == spec_polarization_of(to_ints(d@)),
{
    match dot_probability_distribution_to_polarization_checked(d) {
        Ok(p) => p,
        Err(_) => {
            proof {
                assert(false);
            }
            Vec::new()
        },
    }
}

/// Sum of absolute values of the entries, tied to `sum_abs`.
fn sum_abs_entries(p: &[i64]) -> (r: i64)
    requires
        entries_bounded(p@),
        p@.len() <= 8,
    ensures
        r == sum_abs(to_ints(p@)),
        r >= 0,
{
    let mut total: i64 = 0;
    let mut i: usize = 0;
    while i < p.len()
        invariant
            0 <= i <= p@.len(),
            p@.len() <= 8,
            entries_bounded(p@),
            total == sum_abs(to_ints(p@).take(i as int)),
            0 <= total <= (i as int) * ENTRY_BOUND,
        decreases p@.len() - i,
    {
        proof {
            assert(to_ints(p@).take(i + 1).drop_last() =~= to_ints(p@).take(i as int));
            assert(to_ints(p@).take(i + 1).last() == p@[i as int] as int);
            assert((i + 1) as int * ENTRY_BOUND == (i as int) * ENTRY_BOUND + ENTRY_BOUND)
                by (nonlinear_arith);
        }
        let v = p[i];
        if v >= 0 {
            total = total + v;
        } else {
            total = total - v;
        }
        i = i + 1;
    }
    proof {
        assert(to_ints(p@).take(p@.len() as int) =~= to_ints(p@));
    }
    total
}

fn max0_exec(x: i64) -> (r: i64)
    requires
        i64::MIN < x,
    ensures
        r == max0(x as int),
{
    if x > 0 {
        x
    } else {
        0
    }
}

/// Converts a polarization back to a dot probability distribution, rejecting
/// vectors whose absolute values sum to more than 1.0, and then vectors of
/// unsupported length, exactly in that order.
pub fn polarization_to_dot_probability_distribution_checked(p: &[i64]) -> (r: Result<
    Vec<i64>,
    DistributionError,
>)
    requires
        entries_bounded(p@),
    ensures
        r is Err ==> (if !(p@.len() <= 8 && sum_abs(to_ints(p@)) <= FIX_ONE) {
            r == Result::<Vec<i64>, DistributionError>::Err(DistributionError::InvalidAbsSum)
        } else {
            r == Result::<Vec<i64>, DistributionError>::Err(DistributionError::InvalidLength)
        }),
        r is Err <==> !(p@.len() <= 8 && sum_abs(to_ints(p@)) <= FIX_ONE && (p@.len() == 1
            || p@.len() == 2)),
        r matches Ok(d) ==> to_ints(d@) == spec_distribution_of(to_ints(p@)),
{
    if p.len() > 8 {
        // Over-long vectors always trip the magnitude check first, as on
        // supported lengths.
        return Err(DistributionError::InvalidAbsSum);
    }
    let total = sum_abs_entries(p);
    if total > FIX_ONE {
        return Err(DistributionError::InvalidAbsSum);
    }
    if p.len() == 1 {
        let spread = (FIX_ONE - total) as u64;
        let offset = (spread / 2) as i64;
        let p1 = max0_exec(p[0]) + offset;
        let n1 = max0_exec(-p[0]) + offset + (spread % 2) as i64;
        let r = vec![p1, n1, p1, n1];
        proof {
            let s = to_ints(p@);
            assert(s.drop_last() =~= Seq::<int>::empty());
            assert(sum_abs(Seq::<int>::empty()) == 0);
            assert(s.last() == p@[0] as int);
            assert(sum_abs(s) == abs(p@[0] as int));
            assert(to_ints(r@) =~= spec_distribution_of(s));
        }
        Ok(r)
    } else if p.len() == 2 {
        let spread = (FIX_ONE - total) as u64;
        let offset = (spread / 4) as i64;
        let p1 = max0_exec(p[0]) + offset;
        let n1 = max0_exec(-p[0]) + offset;
        let p2 = max0_exec(p[1]) + offset;
        let n2 = max0_exec(-p[1]) + offset + (spread % 4) as i64;
        let r = vec![p1, p2, n1, n2, p1, p2, n1, n2];
        proof {
            assert(to_ints(r@) =~= spec_distribution_of(to_ints(p@)));
        }
        Ok(r)
    } else {
        Err(DistributionError::InvalidLength)
    }
}

/// Distribution encoding a polarization, on the domain the stimulus and the
/// solvers guarantee.
pub fn polarization_to_dot_probability_distribution(p: &[i64]) -> (r: Vec<i64>)
    requires
        entries_bounded(p@),
        sum_abs(to_ints(p@)) <= FIX_ONE,
        p@.len() == 1 || p@.len() == 2,
    ensures
        to_ints(r@) == spec_distribution_of(to_ints(p@)),
{
    match polarization_to_dot_probability_distribution_checked(p) {
        Ok(d) => d,
        Err(_) => {
            proof {
                assert(false);
            }
            Vec::new()
        },
    }
}


/// The encoding maintains the distribution invariant: the encoded
/// distribution covers four dots per axis, repeats its two halves, holds
/// no negative weight, and sums to exactly 2.0.
pub proof fn lemma_distribution_encoding_sums_to_two(p: Seq<int>)
    requires
        p.len() == 1 || p.len() == 2,
        sum_abs(p) <= FIX_ONE,
    ensures
        sum_int(spec_distribution_of(p)) == 2 * FIX_ONE,
        spec_distribution_of(p).len() == 4 * p.len(),
        forall|i: int|
            0 <= i < 2 * p.len() ==> #[trigger] spec_distribution_of(p)[i]
                == spec_distribution_of(p)[i + 2 * p.len()],
        forall|i: int| 0 <= i < 4 * p.len() ==> #[trigger] spec_distribution_of(p)[i] >= 0,
{
    let s = sum_abs(p);
    let d = spec_distribution_of(p);
    if p.len() == 1 {
        lemma_sum_abs1(p);
        let spread = FIX_ONE - s;
        let offset = spread / 2;
        let rem = spread % 2;
        vstd::arithmetic::div_mod::lemma_fundamental_div_mod(spread, 2);
        vstd::arithmetic::div_mod::lemma_mod_bound(spread, 2);
        assert(2 * offset + rem == spread);
        assert(offset >= 0) by {
            vstd::arithmetic::div_mod::lemma_div_pos_is_pos(spread, 2);
        }
        lemma_sum4(d);
        assert(max0(p[0]) + max0(-p[0]) == abs(p[0]));
        assert(sum_int(d) == 2 * (abs(p[0]) + 2 * offset + rem));
    } else {
        lemma_sum_abs2(p);
        let spread = FIX_ONE - s;
        let offset = spread / 4;
        let rem = spread % 4;
        vstd::arithmetic::div_mod::lemma_fundamental_div_mod(spread, 4);
        vstd::arithmetic::div_mod::lemma_mod_bound(spread, 4);
        assert(4 * offset + rem == spread);
        assert(offset >= 0) by {
            vstd::arithmetic::div_mod::lemma_div_pos_is_pos(spread, 4);
        }
        lemma_sum8(d);
        assert(max0(p[0]) + max0(-p[0]) == abs(p[0]));
        assert(max0(p[1]) + max0(-p[1]) == abs(p[1]));
        assert(sum_int(d) == 2 * (abs(p[0]) + abs(p[1]) + 4 * offset + rem));
    }
}

/// Decoding an encoded polarization recovers it exactly, whenever the
/// remaining weight splits evenly over the half's slots. With an uneven
/// spread the one- or two-unit division remainder sits in the half's last
/// slot and shifts that axis's reading by as many millionths; such a
/// polarization (0.333333 on one axis, say) has no exact encoding, since
/// an exact sum and an exact difference cannot both be kept in whole
/// millionths.
pub proof fn lemma_polarization_distribution_round_trip(p: Seq<int>)
    requires
        p.len() == 1 || p.len() == 2,
        sum_abs(p) <= FIX_ONE,
        p.len() == 1 ==> (FIX_ONE - sum_abs(p)) % 2 == 0,
        p.len() == 2 ==> (FIX_ONE - sum_abs(p)) % 4 == 0,
    ensures
        spec_polarization_of(spec_distribution_of(p)) == p,
{
    lemma_distribution_encoding_sums_to_two(p);
    let d = spec_distribution_of(p);
    let s = sum_abs(p);
    let spread = FIX_ONE - s;
    if p.len() == 1 {
        lemma_sum_abs1(p);
        vstd::arithmetic::div_mod::lemma_fundamental_div_mod(spread, 2);
        lemma_sum4(d);
        let x = p[0];
        assert(max0(x) - max0(-x) == x);
        assert((d[0] + d[2]) - (d[1] + d[3]) == 2 * x);
        assert(2 * x * FIX_ONE == x * (2 * FIX_ONE)) by (nonlinear_arith);
        lemma_tdiv_exact(x, 2 * FIX_ONE);
        assert(spec_polarization_of(d) =~= p);
    } else {
        lemma_sum_abs2(p);
        vstd::arithmetic::div_mod::lemma_fundamental_div_mod(spread, 4);
        lemma_sum8(d);
        let x = p[0];
        let y = p[1];
        assert(max0(x) - max0(-x) == x);
        assert(max0(y) - max0(-y) == y);
        assert((d[0] + d[4]) - (d[2] + d[6]) == 2 * x);
        assert((d[1] + d[5]) - (d[3] + d[7]) == 2 * y);
        assert(2 * x * FIX_ONE == x * (2 * FIX_ONE)) by (nonlinear_arith);
        assert(2 * y * FIX_ONE == y * (2 * FIX_ONE)) by (nonlinear_arith);
        lemma_tdiv_exact(x, 2 * FIX_ONE);
        lemma_tdiv_exact(y, 2 * FIX_ONE);
        assert(spec_polarization_of(d) =~= p);
    }
}

proof fn lemma_sum4(d: Seq<int>)
    requires
        d.len() == 4,
    ensures
        sum_int(d) == d[0] + d[1] + d[2] + d[3],
{
    let d3 = d.drop_last();
    let d2 = d3.drop_last();
    let d1 = d2.drop_last();
    let d0 = d1.drop_last();
    assert(d0 =~= Seq::<int>::empty());
    assert(sum_int(d0) == 0);
    assert(sum_int(d1) == d[0]);
    assert(sum_int(d2) == d[0] + d[1]);
    assert(sum_int(d3) == d[0] + d[1] + d[2]);
}

proof fn lemma_sum8(d: Seq<int>)
    requires
        d.len() == 8,
    ensures
        sum_int(d) == d[0] + d[1] + d[2] + d[3] + d[4] + d[5] + d[6] + d[7],
{
    let d7 = d.drop_last();
    let d6 = d7.drop_last();
    let d5 = d6.drop_last();
    let d4 = d5.drop_last();
    assert(d4 =~= d.take(4));
    lemma_sum4(d.take(4));
    assert(sum_int(d5) == d[0] + d[1] + d[2] + d[3] + d[4]);
    assert(sum_int(d6) == d[0] + d[1] + d[2] + d[3] + d[4] + d[5]);
    assert(sum_int(d7) == d[0] + d[1] + d[2] + d[3] + d[4] + d[5] + d[6]);
}

proof fn lemma_sum_abs1(p: Seq<int>)
    requires
        p.len() == 1,
    ensures
        sum_abs(p) == abs(p[0]),
{
    assert(p.drop_last() =~= Seq::<int>::empty());
    assert(sum_abs(Seq::<int>::empty()) == 0);
}

proof fn lemma_sum_abs2(p: Seq<int>)
    requires
        p.len() == 2,
    ensures
        sum_abs(p) == abs(p[0]) + abs(p[1]),
{
    let p1 = p.drop_last();
    assert(p1.drop_last() =~= Seq::<int>::empty());
    assert(sum_abs(Seq::<int>::empty()) == 0);
    assert(sum_abs(p1) == abs(p[0]));
}

/// Exact multiples divide without remainder; truncating division agrees on
/// them whatever the sign.
proof fn lemma_tdiv_exact(k: int, b: int)
    requires
        b > 0,
    ensures
        tdiv(k * b, b) == k,
{
    if k >= 0 {
        vstd::arithmetic::div_mod::lemma_div_multiples_vanish(k, b);
        assert(k * b == b * k) by (nonlinear_arith);
    } else {
        vstd::arithmetic::div_mod::lemma_div_multiples_vanish(-k, b);
        assert(-(k * b) == b * -k) by (nonlinear_arith);
    }
}

/// Turning a distribution into its polarization and back reproduces the
/// distribution exactly, for every distribution of the shape the encoding
/// itself produces: nonnegative entries, the two halves equal, the sum
/// exactly 2.0 and, over 8 dots, both axes sharing one spread weight.
pub proof fn lemma_distribution_polarization_round_trip(d: Seq<int>)
    requires
        distribution_len_ok(d),
        sum_int(d) == 2 * FIX_ONE,
        forall|i: int| 0 <= i < d.len() ==> #[trigger] d[i] >= 0,
        d.len() == 4 ==> d[0] == d[2] && d[1] == d[3],
        d.len() == 8 ==> (forall|i: int| 0 <= i < 4 ==> #[trigger] d[i] == d[i + 4]) && (if d[0]
            <= d[2] {
            d[0]
        } else {
            d[2]
        }) == (if d[1] <= d[3] {
            d[1]
        } else {
            d[3]
        }),
    ensures
        spec_distribution_of(spec_polarization_of(d)) == d,
{
    if d.len() == 4 {
        let a = d[0];
        let b = d[1];
        lemma_sum4(d);
        let diff = (d[0] + d[2]) - (d[1] + d[3]);
        assert(diff == (a - b) * 2) by (nonlinear_arith)
            requires
                diff == 2 * a - 2 * b,
        ;
        assert((a - b) * 2 * FIX_ONE == (a - b) * (2 * FIX_ONE)) by (nonlinear_arith);
        lemma_tdiv_exact(a - b, 2 * FIX_ONE);
        let p = spec_polarization_of(d);
        assert(p =~= seq![a - b]);
        lemma_sum_abs1(p);
        assert(FIX_ONE - abs(a - b) == 2 * (if a <= b {
            a
        } else {
            b
        }));
        lemma_tdiv_exact(
            if a <= b {
                a
            } else {
                b
            },
            2,
        );
        assert(spec_distribution_of(p) =~= d);
    } else {
        let p0 = d[0];
        let q0 = d[1];
        let r0 = d[2];
        let s0 = d[3];
        lemma_sum8(d);
        let diff_a = (d[0] + d[4]) - (d[2] + d[6]);
        let diff_b = (d[1] + d[5]) - (d[3] + d[7]);
        assert(diff_a == (p0 - r0) * 2) by (nonlinear_arith)
            requires
                diff_a == 2 * p0 - 2 * r0,
        ;
        assert(diff_b == (q0 - s0) * 2) by (nonlinear_arith)
            requires
                diff_b == 2 * q0 - 2 * s0,
        ;
        assert((p0 - r0) * 2 * FIX_ONE == (p0 - r0) * (2 * FIX_ONE)) by (nonlinear_arith);
        assert((q0 - s0) * 2 * FIX_ONE == (q0 - s0) * (2 * FIX_ONE)) by (nonlinear_arith);
        lemma_tdiv_exact(p0 - r0, 2 * FIX_ONE);
        lemma_tdiv_exact(q0 - s0, 2 * FIX_ONE);
        let p = spec_polarization_of(d);
        assert(p =~= seq![p0 - r0, q0 - s0]);
        lemma_sum_abs2(p);
        let m = if p0 <= r0 {
            p0
        } else {
            r0
        };
        assert(FIX_ONE - (abs(p0 - r0) + abs(q0 - s0)) == 4 * m);
        lemma_tdiv_exact(m, 4);
        assert(spec_distribution_of(p) =~= d);
    }
}

} // verus!
