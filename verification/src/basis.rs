use vstd::prelude::*;

verus! {

/// The two-particle occupation basis of an `n`-dot cell: `n * n` states
/// over `2 * n` single-particle slots, the first `n` for the spin-up
/// electron, the last `n` for the spin-down one. State `r` puts the
/// spin-up electron on dot `n - 1 - r / n` and the spin-down electron on
/// dot `n - 1 - r % n`; each basis row is one-hot in each half.
pub open spec fn spec_basis_entry(n: int, r: int, c: int) -> bool {
    if c < n {
        c == n - 1 - r / n
    } else {
        c == 2 * n - 1 - r % n
    }
}

/// The occupation matrix of the basis: row `r`, column `c` is 1 when
/// basis state `r` occupies slot `c`.
pub fn generate_basis_matrix(dot_count: usize) -> (m: Vec<Vec<u8>>)
    requires
        0 < dot_count,
        dot_count * dot_count <= usize::MAX,
        2 * dot_count <= usize::MAX,
    ensures
        m@.len() == dot_count * dot_count,
        forall|r: int|
            0 <= r < m@.len() ==> (#[trigger] m@[r])@.len() == 2 * dot_count,
        forall|r: int, c: int|
            0 <= r < m@.len() && 0 <= c < 2 * dot_count ==> ((#[trigger] m@[r]@[c]) == 1
                <==> spec_basis_entry(dot_count as int, r, c)),
        forall|r: int, c: int|
            0 <= r < m@.len() && 0 <= c < 2 * dot_count ==> m@[r]@[c] == 1 || m@[r]@[c] == 0,
{
    let n = dot_count;
    let rows = n * n;
    let mut m: Vec<Vec<u8>> = Vec::new();
    let mut r: usize = 0;
    while r < rows
        invariant
            0 <= r <= rows,
            rows == n * n,
            0 < n,
            2 * n <= usize::MAX,
            m@.len() == r,
            forall|r0: int|
                0 <= r0 < r ==> (#[trigger] m@[r0])@.len() == 2 * n,
            forall|r0: int, c: int|
                0 <= r0 < r && 0 <= c < 2 * n ==> ((#[trigger] m@[r0]@[c]) == 1
                    <==> spec_basis_entry(n as int, r0, c)),
            forall|r0: int, c: int|
                0 <= r0 < r && 0 <= c < 2 * n ==> m@[r0]@[c] == 1 || m@[r0]@[c] == 0,
        decreases rows - r,
    {
        proof {
            assert(r / n < n) by (nonlinear_arith)
                requires
                    0 < n,
                    r < n * n,
            ;
            assert(0 <= r % n < n) by (nonlinear_arith)
                requires
                    0 < n,
            ;
        }
        let up_dot = n - 1 - r / n;
        let down_slot = 2 * n - 1 - r % n;
        let mut row: Vec<u8> = Vec::new();
        let mut c: usize = 0;
        while c < 2 * n
            invariant
                0 <= c <= 2 * n,
                2 * n <= usize::MAX,
                row@.len() == c,
                up_dot == n - 1 - r / n,
                down_slot == 2 * n - 1 - r % n,
                0 <= r / n < n <= usize::MAX,
                0 <= r % n < n,
                forall|c0: int|
                    0 <= c0 < c ==> ((#[trigger] row@[c0]) == 1 <==> spec_basis_entry(
                        n as int,
                        r as int,
                        c0,
                    )),
                forall|c0: int| 0 <= c0 < c ==> row@[c0] == 1 || row@[c0] == 0,
            decreases 2 * n - c,
        {
            let bit: u8 = if c < n {
                if c == up_dot {
                    1
                } else {
                    0
                }
            } else {
                if c == down_slot {
                    1
                } else {
                    0
                }
            };
            row.push(bit);
            c = c + 1;
        }
        m.push(row);
        r = r + 1;
    }
    m
}

/// Whether basis state `row` has an electron of the given spin on the
/// given dot: the counting observable behind the charge distribution.
/// Spin `1` reads the spin-up half, any other value the spin-down half.
pub fn count_operator(dot_count: usize, dot_index: usize, spin: i32, basis_vector: &[u8]) -> (r:
    u8)
    requires
        basis_vector@.len() == 2 * dot_count,
        dot_index < dot_count,
    ensures
        r == 1 || r == 0,
        r == 1 <==> basis_vector@[dot_index + (if spin == 1 {
            0int
        } else {
            dot_count as int
        })] == 1,
{
    let len = basis_vector.len();
    let i: usize = if spin == 1 {
        dot_index
    } else {
        dot_index + dot_count
    };
    if basis_vector[i] == 1 {
        1
    } else {
        0
    }
}

/// Whether basis state `row` doubly occupies the given dot: one electron
/// of each spin on it. Feeds the same-dot repulsion penalty.
pub fn capture_operator(dot_count: usize, dot_index: usize, basis_vector: &[u8]) -> (r: u8)
    requires
        basis_vector@.len() == 2 * dot_count,
        dot_index < dot_count,
    ensures
        r == 1 || r == 0,
        r == 1 <==> (basis_vector@[dot_index as int] == 1 && basis_vector@[dot_index + dot_count]
            == 1),
{
    let len = basis_vector.len();
    if basis_vector[dot_index] == 1 && basis_vector[dot_index + dot_count] == 1 {
        1
    } else {
        0
    }
}

/// Whether basis state `row` holds an electron of the given spin on one
/// dot and its opposite-spin partner on the other: the pair the intra-cell
/// Coulomb term weighs. The two dots must differ; equal indexes are an
/// internally inconsistent design.
pub fn coulumb_operator(
    dot_count: usize,
    dot_i: usize,
    dot_j: usize,
    spin: i32,
    basis_vector: &[u8],
) -> (r: u8)
    requires
        basis_vector@.len() == 2 * dot_count,
        dot_i < dot_count,
        dot_j < dot_count,
        dot_i != dot_j,
    ensures
        r == 1 || r == 0,
        r == 1 <==> (basis_vector@[dot_i + (if spin == 1 {
            0int
        } else {
            dot_count as int
        })] == 1 && basis_vector@[dot_j + (if spin == 1 {
            dot_count as int
        } else {
            0int
        })] == 1),
{
    let n_spin: i32 = if spin == 1 {
        0
    } else {
        1
    };
    let a = count_operator(dot_count, dot_i, spin, basis_vector);
    let b = count_operator(dot_count, dot_j, n_spin, basis_vector);
    if a == 1 && b == 1 {
        1
    } else {
        0
    }
}

/// The basis state reached by tunneling one electron of the given spin
/// between two dots: the input state with the two slots of that spin
/// swapped. A swap that changes nothing returns the `n * n` zero vector,
/// which matches no basis state, so the tunneling term skips it.
pub fn tunneling_operator(
    dot_count: usize,
    dot_i: usize,
    dot_j: usize,
    spin: i32,
    basis_vector: &[u8],
) -> (r: Vec<u8>)
    requires
        basis_vector@.len() == 2 * dot_count,
        dot_i < dot_count,
        dot_j < dot_count,
        dot_count * dot_count <= usize::MAX,
    ensures
        ({
            let a = dot_i + (if spin == 1 {
                0int
            } else {
                dot_count as int
            });
            let b = dot_j + (if spin == 1 {
                0int
            } else {
                dot_count as int
            });
            if basis_vector@[a] == basis_vector@[b] {
                r@ == Seq::new((dot_count * dot_count) as nat, |k: int| 0u8)
            } else {
                r@ == basis_vector@.update(a, basis_vector@[b]).update(b, basis_vector@[a])
            }
        }),
{
    let full = basis_vector.len();
    let (a, b): (usize, usize) = if spin == 1 {
        (dot_i, dot_j)
    } else {
        (dot_i + dot_count, dot_j + dot_count)
    };
    let va = basis_vector[a];
    let vb = basis_vector[b];
    if va == vb {
        let rows = dot_count * dot_count;
        let mut zeros: Vec<u8> = Vec::new();
        let mut k: usize = 0;
        while k < rows
            invariant
                0 <= k <= rows,
                zeros@.len() == k,
                forall|k0: int| 0 <= k0 < k ==> #[trigger] zeros@[k0] == 0u8,
            decreases rows - k,
        {
            zeros.push(0);
            k = k + 1;
        }
        proof {
            assert(zeros@ =~= Seq::new((dot_count * dot_count) as nat, |k: int| 0u8));
            assert(basis_vector@.update(a as int, vb).update(b as int, va) == basis_vector@) by {
                assert(basis_vector@.update(a as int, vb).update(b as int, va) =~= basis_vector@);
            }
        }
        zeros
    } else {
        let mut swapped: Vec<u8> = Vec::new();
        let mut k: usize = 0;
        let len = basis_vector.len();
        while k < len
            invariant
                0 <= k <= len,
                len == basis_vector@.len(),
                a < len,
                b < len,
                va == basis_vector@[a as int],
                vb == basis_vector@[b as int],
                swapped@.len() == k,
                forall|k0: int|
                    0 <= k0 < k ==> #[trigger] swapped@[k0] == (if k0 == a {
                        basis_vector@[b as int]
                    } else if k0 == b {
                        basis_vector@[a as int]
                    } else {
                        basis_vector@[k0]
                    }),
            decreases len - k,
        {
            let v: u8 = if k == a {
                vb
            } else if k == b {
                va
            } else {
                basis_vector[k]
            };
            swapped.push(v);
            k = k + 1;
        }
        proof {
            assert(swapped@ =~= basis_vector@.update(a as int, vb).update(b as int, va));
        }
        swapped
    }
}

} // verus!
