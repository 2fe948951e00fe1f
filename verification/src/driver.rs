use crate::cell::QCACellIndex;
use crate::data::{QCACellData, QCASimulationData};
use crate::input_generator::{spec_total_samples, CellInputConfig, CellInputGenerator};
use crate::generator::Generator;
use vstd::prelude::*;

verus! {

/// Progress of a running simulation, reported best effort over a channel.
#[derive(Debug)]
pub enum SimulationProgress {
    Initializing,
    Running { current_sample: usize, total_samples: usize },
    Deinitializng,
}

/// A request to stop the run at the next sample boundary; the samples
/// completed so far are kept.
#[derive(Debug)]
pub struct SimulationCancelRequest {}

#[verifier::external_type_specification]
#[verifier::external_body]
#[verifier::reject_recursive_types(T)]
pub struct ExSender<T>(std::sync::mpsc::Sender<T>);

#[verifier::external_type_specification]
#[verifier::external_body]
#[verifier::reject_recursive_types(T)]
pub struct ExOneshotReceiver<T>(tokio::sync::oneshot::Receiver<T>);

#[verifier::external_type_specification]
#[verifier::external_body]
pub struct ExOneshotRecvError(tokio::sync::oneshot::error::RecvError);

/// Relies on std's `mpsc::Sender::send`: delivers the event best effort.
/// An absent or disconnected receiver only drops the event; it never blocks
/// or fails the run.
#[verifier::external_body]
pub(crate) fn send_progress(
    progress: SimulationProgress,
    tx: &Option<std::sync::mpsc::Sender<SimulationProgress>>,
) {
    if let Some(tx) = &tx {
        let _ = tx.send(progress);
    }
}

/// Relies on tokio's `oneshot::Receiver::try_recv`: reports whether the
/// cancellation request has arrived, without blocking. With a receiver
/// present the answer depends on the sending thread, so nothing more is
/// assumed of it; without one there is nothing to receive.
#[verifier::external_body]
fn check_cancelled(
    rx: &mut Option<tokio::sync::oneshot::Receiver<SimulationCancelRequest>>,
) -> (r: bool)
    ensures
        (*old(rx)) is None ==> !r,
{
    match rx {
        Some(ref mut rrx) => rrx.try_recv().is_ok(),
        None => false,
    }
}

/// One decision of the per-sample relaxation loop: sweep again only while
/// some cell still moved and the iteration cap is not reached. With a cap
/// of zero no sweep runs and the sample records the initial state.
pub fn should_continue_relaxation(stable: bool, iterations_done: usize, max_iterations: usize) -> (r:
    bool)
    ensures
        r <==> (!stable && iterations_done < max_iterations),
{
    !stable && iterations_done < max_iterations
}

/// Number of samples a run over the given circuit will produce, derived
/// from the same combinatorics that drive the input generator.
pub fn get_num_samples(
    num_inputs: usize,
    polarization_n: usize,
    samples_per_input: usize,
    extra_periods: usize,
) -> (r: usize)
    requires
        extra_periods * polarization_n <= usize::MAX,
        crate::input_generator::spec_input_combinations(
            CellInputConfig {
                num_samples_per_combination: samples_per_input,
                num_inputs: num_inputs,
                num_polarization: polarization_n,
                extra_clock_periods: (extra_periods * polarization_n) as usize,
            },
        ) <= usize::MAX,
        spec_total_samples(
            CellInputConfig {
                num_samples_per_combination: samples_per_input,
                num_inputs: num_inputs,
                num_polarization: polarization_n,
                extra_clock_periods: (extra_periods * polarization_n) as usize,
            },
        ) <= usize::MAX,
        num_inputs * polarization_n <= usize::MAX,
        polarization_n < usize::MAX,
    ensures
        r == spec_total_samples(
            CellInputConfig {
                num_samples_per_combination: samples_per_input,
                num_inputs: num_inputs,
                num_polarization: polarization_n,
                extra_clock_periods: (extra_periods * polarization_n) as usize,
            },
        ),
{
    let config = CellInputConfig {
        num_samples_per_combination: samples_per_input,
        num_inputs,
        num_polarization: polarization_n,
        extra_clock_periods: extra_periods * polarization_n,
    };
    let generator = CellInputGenerator::new(config);
    generator.num_samples()
}

/// The bookkeeping of one simulation run: which samples are done, and the
/// recorded series. The caller owns the physics; this type owns the
/// discipline: every completed sample appends exactly one clock value per
/// channel and exactly `values_per_cell` values per recorded cell, and a
/// cancelled run keeps exactly the samples completed before it.
pub struct SimulationRun {
    data: QCASimulationData,
    total_samples: usize,
    values_per_cell: usize,
    samples_done: usize,
}

impl SimulationRun {
    /// Internal consistency: one series per recorded cell, every series as
    /// long as the samples completed, and the completed count within plan.
    pub closed spec fn wf(self) -> bool {
        &&& self.data.cells_data@.len() == self.data.metadata.stored_cells@.len()
        &&& forall|j: int|
            0 <= j < self.data.cells_data@.len() ==> (#[trigger] self.data.cells_data@[j]).index
                == self.data.metadata.stored_cells@[j]
        &&& forall|j: int|
            0 <= j < self.data.cells_data@.len() ==> (#[trigger] self.data.cells_data@[j]).data@.len()
                == self.samples_done * self.values_per_cell
        &&& forall|i: int| 0 <= i < 4 ==> (#[trigger] self.data.clock_data[i])@.len() == self.samples_done
        &&& self.samples_done <= self.total_samples
        &&& self.total_samples * self.values_per_cell <= usize::MAX
        &&& self.data.metadata.num_samples == self.samples_done
    }

    /// Samples completed so far.
    pub closed spec fn spec_samples_done(self) -> int {
        self.samples_done as int
    }

    /// Samples the run was planned for.
    pub closed spec fn spec_total_samples(self) -> int {
        self.total_samples as int
    }

    /// Values each recorded cell contributes per sample.
    pub closed spec fn spec_values_per_cell(self) -> int {
        self.values_per_cell as int
    }

    /// The recorded cells, in recording order.
    pub closed spec fn spec_stored_cells(self) -> Seq<QCACellIndex> {
        self.data.metadata.stored_cells@
    }

    /// The series of clock channel `i` so far.
    pub closed spec fn spec_clock_series(self, i: int) -> Seq<u64> {
        self.data.clock_data[i]@
    }

    /// The series of recorded cell `j` so far.
    pub closed spec fn spec_cell_series(self, j: int) -> Seq<u64> {
        self.data.cells_data@[j].data@
    }

    /// Starts a run: reports `Initializing`, stamps fresh metadata and lays
    /// out one empty series per recorded cell.
    pub fn new(
        stored_cells: Vec<QCACellIndex>,
        total_samples: usize,
        values_per_cell: usize,
        progress_tx: &Option<std::sync::mpsc::Sender<SimulationProgress>>,
    ) -> (r: Self)
        requires
            total_samples * values_per_cell <= usize::MAX,
        ensures
            r.wf(),
            r.spec_samples_done() == 0,
            r.spec_total_samples() == total_samples,
            r.spec_values_per_cell() == values_per_cell,
            r.spec_stored_cells() == stored_cells@,
            forall|i: int| 0 <= i < 4 ==> #[trigger] r.spec_clock_series(i).len() == 0,
            forall|j: int| 0 <= j < stored_cells@.len() ==> #[trigger] r.spec_cell_series(j).len() == 0,
    {
        send_progress(SimulationProgress::Initializing, progress_tx);
        let mut data = QCASimulationData::new();
        let capacity = total_samples * values_per_cell;
        let mut j: usize = 0;
        while j < stored_cells.len()
            invariant
                0 <= j <= stored_cells@.len(),
                data.metadata.stored_cells@ == stored_cells@.take(j as int),
                data.cells_data@.len() == j,
                forall|k: int|
                    0 <= k < j ==> (#[trigger] data.cells_data@[k]).index == stored_cells@[k]
                        && data.cells_data@[k].data@.len() == 0,
                forall|i: int| 0 <= i < 4 ==> (#[trigger] data.clock_data[i])@.len() == 0,
                data.metadata.num_samples == 0,
            decreases stored_cells@.len() - j,
        {
            let index = stored_cells[j];
            data.cells_data.push(QCACellData::new(index, capacity));
            data.metadata.stored_cells.push(index);
            proof {
                assert(data.metadata.stored_cells@ =~= stored_cells@.take(j + 1));
            }
            j = j + 1;
        }
        proof {
            assert(stored_cells@.take(stored_cells@.len() as int) =~= stored_cells@);
        }
        let result = SimulationRun { data, total_samples, values_per_cell, samples_done: 0 };
        proof {
            assert(result.wf()) by {
                assert(forall|k: int|
                    0 <= k < result.data.cells_data@.len()
                        ==> (#[trigger] result.data.cells_data@[k]).data@.len() == 0);
                assert(result.samples_done * result.values_per_cell == 0) by (nonlinear_arith)
                    requires
                        result.samples_done == 0,
                ;
            }
        }
        result
    }

    /// Decides whether the next sample runs: `false` once all samples are
    /// done or once cancellation was requested, `true` otherwise, reporting
    /// `Running` progress. Cancellation is polled here, once per sample
    /// boundary.
    pub fn begin_sample(
        &self,
        cancel_rx: &mut Option<tokio::sync::oneshot::Receiver<SimulationCancelRequest>>,
        progress_tx: &Option<std::sync::mpsc::Sender<SimulationProgress>>,
    ) -> (r: bool)
        ensures
            r ==> self.spec_samples_done() < self.spec_total_samples(),
            self.spec_samples_done() >= self.spec_total_samples() ==> !r,
            (*old(cancel_rx)) is None && self.spec_samples_done() < self.spec_total_samples() ==> r,
    {
        if self.samples_done >= self.total_samples {
            return false;
        }
        if check_cancelled(cancel_rx) {
            return false;
        }
        send_progress(
            SimulationProgress::Running {
                current_sample: self.samples_done,
                total_samples: self.total_samples,
            },
            progress_tx,
        );
        true
    }

    /// Records one completed sample: one value per clock channel and
    /// `values_per_cell` values per recorded cell, in recording order.
    pub fn record_sample(&mut self, clock_states: &[u64; 4], cell_values: &Vec<Vec<u64>>)
        requires
            old(self).wf(),
            old(self).spec_samples_done() < old(self).spec_total_samples(),
            cell_values@.len() == old(self).spec_stored_cells().len(),
            forall|j: int|
                0 <= j < cell_values@.len() ==> (#[trigger] cell_values@[j])@.len() == old(
                    self,
                ).spec_values_per_cell(),
        ensures
            final(self).wf(),
            final(self).spec_samples_done() == old(self).spec_samples_done() + 1,
            final(self).spec_total_samples() == old(self).spec_total_samples(),
            final(self).spec_values_per_cell() == old(self).spec_values_per_cell(),
            final(self).spec_stored_cells() == old(self).spec_stored_cells(),
            forall|i: int|
                0 <= i < 4 ==> #[trigger] final(self).spec_clock_series(i) == old(
                    self,
                ).spec_clock_series(i).push(clock_states@[i]),
            forall|j: int|
                0 <= j < cell_values@.len() ==> #[trigger] final(self).spec_cell_series(j) == old(
                    self,
                ).spec_cell_series(j) + cell_values@[j]@,
    {
        proof {
            let sd = old(self).samples_done as int;
            let ts = old(self).total_samples as int;
            let vpc = old(self).values_per_cell as int;
            assert((sd + 1) * vpc <= ts * vpc) by (nonlinear_arith)
                requires
                    sd + 1 <= ts,
                    vpc >= 0,
            ;
        }
        let ghost old_run = *self;
        let mut i: usize = 0;
        while i < 4
            invariant
                0 <= i <= 4,
                *self == (SimulationRun {
                    data: QCASimulationData { clock_data: self.data.clock_data, ..old_run.data },
                    ..old_run
                }),
                forall|i0: int|
                    0 <= i0 < i ==> (#[trigger] self.data.clock_data[i0])@
                        == old_run.data.clock_data[i0]@.push(clock_states@[i0]),
                forall|i0: int|
                    i <= i0 < 4 ==> (#[trigger] self.data.clock_data[i0])@
                        == old_run.data.clock_data[i0]@,
            decreases 4 - i,
        {
            self.data.clock_data[i].push(clock_states[i]);
            i = i + 1;
        }
        let ghost mid_run = *self;
        let mut j: usize = 0;
        while j < cell_values.len()
            invariant
                0 <= j <= cell_values@.len(),
                cell_values@.len() == mid_run.data.cells_data@.len(),
                forall|j0: int|
                    0 <= j0 < cell_values@.len() ==> (#[trigger] cell_values@[j0])@.len()
                        == old_run.values_per_cell,
                *self == (SimulationRun {
                    data: QCASimulationData { cells_data: self.data.cells_data, ..mid_run.data },
                    ..mid_run
                }),
                self.data.cells_data@.len() == mid_run.data.cells_data@.len(),
                forall|j0: int|
                    0 <= j0 < j ==> (#[trigger] self.data.cells_data@[j0]).data@
                        == mid_run.data.cells_data@[j0].data@ + cell_values@[j0]@
                        && self.data.cells_data@[j0].index == mid_run.data.cells_data@[j0].index,
                forall|j0: int|
                    j <= j0 < cell_values@.len() ==> #[trigger] self.data.cells_data@[j0]
                        == mid_run.data.cells_data@[j0],
            decreases cell_values@.len() - j,
        {
            let values = &cell_values[j];
            let ghost pre = self.data.cells_data@[j as int].data@;
            let mut k: usize = 0;
            while k < values.len()
                invariant
                    0 <= k <= values@.len(),
                    0 <= j < cell_values@.len(),
                    cell_values@.len() == self.data.cells_data@.len(),
                    values == cell_values@[j as int],
                    *self == (SimulationRun {
                        data: QCASimulationData { cells_data: self.data.cells_data, ..mid_run.data },
                        ..mid_run
                    }),
                    self.data.cells_data@[j as int].index
                        == mid_run.data.cells_data@[j as int].index,
                    self.data.cells_data@[j as int].data@ == pre + values@.take(k as int),
                    pre == mid_run.data.cells_data@[j as int].data@,
                    forall|j0: int|
                        0 <= j0 < j ==> (#[trigger] self.data.cells_data@[j0]).data@
                            == mid_run.data.cells_data@[j0].data@ + cell_values@[j0]@
                            && self.data.cells_data@[j0].index
                            == mid_run.data.cells_data@[j0].index,
                    forall|j0: int|
                        j < j0 < cell_values@.len() ==> #[trigger] self.data.cells_data@[j0]
                            == mid_run.data.cells_data@[j0],
                decreases values@.len() - k,
            {
                let v = values[k];
                self.data.cells_data[j].data.push(v);
                proof {
                    assert(pre + values@.take(k + 1) =~= (pre + values@.take(k as int)).push(v));
                }
                k = k + 1;
            }
            proof {
                assert(values@.take(values@.len() as int) =~= values@);
            }
            j = j + 1;
        }
        proof {
            let sd = old(self).samples_done as int;
            let vpc = old(self).values_per_cell as int;
            assert(sd * vpc + vpc == (sd + 1) * vpc) by (nonlinear_arith);
        }
        self.samples_done = self.samples_done + 1;
        self.data.metadata.num_samples = self.samples_done;
    }

    /// Ends the run: reports `Deinitializng`, stamps the duration and hands
    /// the result out. Every clock series holds exactly one value per
    /// completed sample, and every cell series exactly `values_per_cell`
    /// of them -- a run cancelled after `k` samples yields series of
    /// exactly `k` samples.
    pub fn finish(
        self,
        progress_tx: &Option<std::sync::mpsc::Sender<SimulationProgress>>,
    ) -> (r: QCASimulationData)
        requires
            self.wf(),
        ensures
            r.metadata.num_samples == self.spec_samples_done(),
            r.metadata.stored_cells@ == self.spec_stored_cells(),
            r.cells_data@.len() == self.spec_stored_cells().len(),
            forall|i: int|
                0 <= i < 4 ==> (#[trigger] r.clock_data[i])@ == self.spec_clock_series(i)
                    && r.clock_data[i]@.len() == self.spec_samples_done(),
            forall|j: int|
                0 <= j < r.cells_data@.len() ==> (#[trigger] r.cells_data@[j]).data@
                    == self.spec_cell_series(j) && r.cells_data@[j].data@.len()
                    == self.spec_samples_done() * self.spec_values_per_cell()
                    && r.cells_data@[j].index == self.spec_stored_cells()[j],
    {
        send_progress(SimulationProgress::Deinitializng, progress_tx);
        let SimulationRun { mut data, .. } = self;
        data.metadata.close_duration();
        data
    }
}

} // verus!
