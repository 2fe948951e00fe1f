use crate::cell::QCACellIndex;
use vstd::prelude::*;

verus! {

/// Metadata of one simulation run, stored beside the numeric series.
/// Times are Unix milliseconds.
pub struct QCASimulationMetadata {
    /// Version of the library that produced the run.
    pub qca_core_version: String,
    /// Wall-clock instant the run started at.
    pub start_time: i64,
    /// Wall-clock duration of the run.
    pub duration: i64,
    /// Number of samples actually produced; on cancellation fewer than
    /// planned.
    pub num_samples: usize,
    /// The cells whose state the run records, in recording order.
    pub stored_cells: Vec<QCACellIndex>,
}

/// The recorded polarization series of one cell, as IEEE-754 double bit
/// patterns: `values_per_cell` values per sample, flattened sample by
/// sample.
pub struct QCACellData {
    pub index: QCACellIndex,
    pub data: Vec<u64>,
}

/// Everything one simulation run produces: the four clock channel series,
/// one series per recorded cell, and the run metadata.
pub struct QCASimulationData {
    pub metadata: QCASimulationMetadata,
    pub clock_data: [Vec<u64>; 4],
    pub cells_data: Vec<QCACellData>,
}

/// Relies on chrono's `Local::now`: the current wall-clock instant as Unix
/// milliseconds. The value depends on the clock, so nothing is assumed of
/// it.
#[verifier::external_body]
fn current_time_millis() -> i64 {
    chrono::Local::now().timestamp_millis()
}

/// The difference of two instants, clamped to the `i64` range instead of
/// overflowing.
fn saturating_difference(a: i64, b: i64) -> (r: i64)
    ensures
        r == if a - b < i64::MIN {
            i64::MIN as int
        } else if a - b > i64::MAX {
            i64::MAX as int
        } else {
            a - b
        },
{
    let d = (a as i128) - (b as i128);
    if d > i64::MAX as i128 {
        i64::MAX
    } else if d < i64::MIN as i128 {
        i64::MIN
    } else {
        d as i64
    }
}

impl QCACellData {
    /// An empty series for one cell, with room for the planned samples.
    pub fn new(index: QCACellIndex, data_capacity: usize) -> (r: QCACellData)
        ensures
            r.index == index,
            r.data@.len() == 0,
    {
        QCACellData { index, data: Vec::with_capacity(data_capacity) }
    }
}

impl QCASimulationMetadata {
    /// Fresh metadata: this library's version, the current instant, and no
    /// samples yet.
    pub fn new() -> (r: QCASimulationMetadata)
        ensures
            r.qca_core_version@ == "0.1.0"@,
            r.duration == 0,
            r.num_samples == 0,
            r.stored_cells@.len() == 0,
    {
        QCASimulationMetadata {
            qca_core_version: crate::get_qca_core_version(),
            start_time: current_time_millis(),
            duration: 0,
            num_samples: 0,
            stored_cells: Vec::new(),
        }
    }

    /// Sets the duration to the time elapsed since `start_time`, saturating
    /// on the (never reached) edges of the millisecond range.
    pub fn close_duration(&mut self)
        ensures
            final(self).qca_core_version == old(self).qca_core_version,
            final(self).start_time == old(self).start_time,
            final(self).num_samples == old(self).num_samples,
            final(self).stored_cells == old(self).stored_cells,
    {
        let now = current_time_millis();
        self.duration = saturating_difference(now, self.start_time);
    }
}

impl QCASimulationData {
    /// An empty result: fresh metadata, four empty clock series, no cells.
    pub fn new() -> (r: QCASimulationData)
        ensures
            r.metadata.num_samples == 0,
            r.metadata.duration == 0,
            r.metadata.stored_cells@.len() == 0,
            r.metadata.qca_core_version@ == "0.1.0"@,
            forall|i: int| 0 <= i < 4 ==> #[trigger] r.clock_data[i]@.len() == 0,
            r.cells_data@.len() == 0,
    {
        QCASimulationData {
            metadata: QCASimulationMetadata::new(),
            clock_data: [Vec::new(), Vec::new(), Vec::new(), Vec::new()],
            cells_data: Vec::new(),
        }
    }
}

} // verus!
