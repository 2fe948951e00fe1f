//! Core of a quantum-dot cellular automaton (QCA) logic simulator.
//!
//! A circuit of cells, arranged in layers over a shared dot architecture,
//! is driven sample by sample through a synthesized clock and input
//! schedule; a pluggable physical solver relaxes every cell to a
//! self-consistent state per sample, and the observable polarizations are
//! collected into a result series.
//!
//! This crate holds the discrete heart of that engine, verified: the
//! fixed-point probability/polarization encoding, the stimulus
//! combinatorics, the quantum occupation basis, the run bookkeeping with
//! its cancellation discipline, the result payload codec, and the
//! truth-table region logic. The floating-point physics (kink energies,
//! Hamiltonians, eigen-decomposition) and all I/O stay with the
//! surrounding application, which drives the verified engine through
//! plain values.

pub mod architecture;
pub mod basis;
pub mod cell;
pub mod clock_generator;
pub mod container;
pub mod data;
pub mod driver;
pub mod generator;
pub mod input_generator;
pub mod layer;
pub mod text;
pub mod truth_table;

use vstd::prelude::*;

verus! {

/// Version string of this library, reported in simulation metadata.
pub fn get_qca_core_version() -> (r: String)
    ensures
        r@ == "0.1.0"@,
{
    let s: String = "0.1.0".to_string();
    s
}

} // verus!
