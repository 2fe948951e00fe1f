use vstd::prelude::*;

verus! {

/// Dot layout of a cell family, reduced to what the discrete logic reads:
/// how many dots a cell has and which dot pairs tunneling may connect.
/// The dot coordinates only feed the electrostatic integrals and stay with
/// the numeric solvers.
pub struct QCACellArchitecture {
    /// Number of dots per cell; always a multiple of 4.
    pub dot_count: u8,
    /// Pairs of dots connected by a tunnel junction, one entry per dot:
    /// its two ring neighbors.
    pub dot_tunnels: Vec<(u8, u8)>,
}

impl QCACellArchitecture {
    /// Whether the tunneling graph is the ring the dot layout implies.
    pub open spec fn wf(self) -> bool {
        &&& self.dot_count > 0
        &&& self.dot_tunnels@.len() == self.dot_count
        &&& forall|i: int|
            0 <= i < self.dot_tunnels@.len() ==> #[trigger] self.dot_tunnels@[i] == (((i + self.dot_count
                - 1) % self.dot_count as int) as u8, ((i + 1) % self.dot_count as int) as u8)
    }

    /// Builds the ring of dots: dot `i` tunnels to its two neighbors on the
    /// ring, modulo the dot count.
    pub fn new(dot_count: u8) -> (r: Self)
        requires
            dot_count > 0,
        ensures
            r.dot_count == dot_count,
            r.wf(),
    {
        let n = dot_count as usize;
        let mut dot_tunnels: Vec<(u8, u8)> = Vec::new();
        let mut i: usize = 0;
        while i < n
            invariant
                0 <= i <= n,
                0 < n == dot_count <= 255,
                dot_tunnels@.len() == i,
                forall|k: int|
                    0 <= k < i ==> #[trigger] dot_tunnels@[k] == (((k + dot_count - 1) % dot_count as int) as u8, (
                    (k + 1) % dot_count as int) as u8),
            decreases n - i,
        {
            let prev = ((i + n) - 1) % n;
            let next = (i + 1) % n;
            proof {
                assert((i + n - 1) % (n as int) == (i + dot_count - 1) % (dot_count as int));
            }
            dot_tunnels.push((prev as u8, next as u8));
            i = i + 1;
        }
        QCACellArchitecture { dot_count, dot_tunnels }
    }
}

} // verus!
