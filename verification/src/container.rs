use crate::data::QCASimulationData;
use vstd::prelude::*;

verus! {

/// The eight little-endian bytes of one stored value: the numeric series
/// of a run travel as flat arrays of IEEE-754 double bit patterns.
pub open spec fn spec_u64_le_bytes(x: u64) -> Seq<u8> {
    seq![
        (x & 0xff) as u8,
        ((x >> 8) & 0xff) as u8,
        ((x >> 16) & 0xff) as u8,
        ((x >> 24) & 0xff) as u8,
        ((x >> 32) & 0xff) as u8,
        ((x >> 40) & 0xff) as u8,
        ((x >> 48) & 0xff) as u8,
        ((x >> 56) & 0xff) as u8,
    ]
}

/// One series, flattened value by value.
pub open spec fn spec_series_bytes(s: Seq<u64>) -> Seq<u8>
    decreases s.len(),
{
    if s.len() == 0 {
        Seq::empty()
    } else {
        spec_u64_le_bytes(s[0]) + spec_series_bytes(s.drop_first())
    }
}

/// The byte image of a whole result: the four clock series in channel
/// order, then one series per recorded cell in recording order.
pub open spec fn spec_cells_bytes(cells: Seq<Seq<u64>>) -> Seq<u8>
    decreases cells.len(),
{
    if cells.len() == 0 {
        Seq::empty()
    } else {
        spec_series_bytes(cells[0]) + spec_cells_bytes(cells.drop_first())
    }
}

/// The recorded cell series of a result, in recording order.
pub open spec fn spec_cell_series_of(sim: QCASimulationData) -> Seq<Seq<u64>> {
    sim.cells_data@.map_values(|cd: crate::data::QCACellData| cd.data@)
}

/// The full payload image of a result.
pub open spec fn spec_sim_data_raw(sim: QCASimulationData) -> Seq<u8> {
    spec_series_bytes(sim.clock_data[0]@) + spec_series_bytes(sim.clock_data[1]@)
        + spec_series_bytes(sim.clock_data[2]@) + spec_series_bytes(sim.clock_data[3]@)
        + spec_cells_bytes(spec_cell_series_of(sim))
}

proof fn lemma_series_bytes_push(s: Seq<u64>, x: u64)
    ensures
        spec_series_bytes(s.push(x)) == spec_series_bytes(s) + spec_u64_le_bytes(x),
    decreases s.len(),
{
    if s.len() == 0 {
        assert(s.push(x).drop_first() =~= s);
        assert(s.push(x)[0] == x);
        assert(spec_series_bytes(s) == Seq::<u8>::empty());
        assert(spec_series_bytes(s.push(x)) =~= spec_series_bytes(s) + spec_u64_le_bytes(x));
    } else {
        assert(s.push(x).drop_first() =~= s.drop_first().push(x));
        lemma_series_bytes_push(s.drop_first(), x);
        assert(spec_series_bytes(s.push(x)) =~= spec_series_bytes(s) + spec_u64_le_bytes(x));
    }
}

proof fn lemma_series_bytes_len(s: Seq<u64>)
    ensures
        spec_series_bytes(s).len() == 8 * s.len(),
    decreases s.len(),
{
    if s.len() > 0 {
        lemma_series_bytes_len(s.drop_first());
    }
}

/// Appends the little-endian bytes of one value.
fn push_u64_le(out: &mut Vec<u8>, x: u64)
    ensures
        final(out)@ == old(out)@ + spec_u64_le_bytes(x),
{
    out.push((x & 0xff) as u8);
    out.push(((x >> 8) & 0xff) as u8);
    out.push(((x >> 16) & 0xff) as u8);
    out.push(((x >> 24) & 0xff) as u8);
    out.push(((x >> 32) & 0xff) as u8);
    out.push(((x >> 40) & 0xff) as u8);
    out.push(((x >> 48) & 0xff) as u8);
    out.push(((x >> 56) & 0xff) as u8);
    proof {
        assert(final(out)@ =~= old(out)@ + spec_u64_le_bytes(x));
    }
}

/// Appends one whole series.
fn push_series(out: &mut Vec<u8>, s: &Vec<u64>)
    ensures
        final(out)@ == old(out)@ + spec_series_bytes(s@),
{
    let mut k: usize = 0;
    proof {
        assert(s@.take(0) =~= Seq::<u64>::empty());
        assert(out@ =~= out@ + spec_series_bytes(s@.take(0)));
    }
    while k < s.len()
        invariant
            0 <= k <= s@.len(),
            out@ == old(out)@ + spec_series_bytes(s@.take(k as int)),
        decreases s@.len() - k,
    {
        push_u64_le(out, s[k]);
        proof {
            assert(s@.take(k + 1) =~= s@.take(k as int).push(s@[k as int]));
            lemma_series_bytes_push(s@.take(k as int), s@[k as int]);
            assert(out@ =~= old(out)@ + spec_series_bytes(s@.take(k + 1)));
        }
        k = k + 1;
    }
    proof {
        assert(s@.take(s@.len() as int) =~= s@);
    }
}

/// The flat numeric payload of a result: the four clock channel series,
/// then every recorded cell's series, each value as eight little-endian
/// bytes.
pub fn get_sim_data_raw(sim_data: &QCASimulationData) -> (r: Vec<u8>)
    ensures
        r@ == spec_sim_data_raw(*sim_data),
{
    let mut output: Vec<u8> = Vec::new();
    push_series(&mut output, &sim_data.clock_data[0]);
    push_series(&mut output, &sim_data.clock_data[1]);
    push_series(&mut output, &sim_data.clock_data[2]);
    push_series(&mut output, &sim_data.clock_data[3]);
    let mut j: usize = 0;
    let ghost all_cells = spec_cell_series_of(*sim_data);
    let ghost head = output@;
    while j < sim_data.cells_data.len()
        invariant
            0 <= j <= sim_data.cells_data@.len(),
            all_cells == spec_cell_series_of(*sim_data),
            all_cells.len() == sim_data.cells_data@.len(),
            forall|k: int|
                0 <= k < all_cells.len() ==> #[trigger] all_cells[k]
                    == sim_data.cells_data@[k].data@,
            output@ == head + spec_cells_bytes(all_cells.take(j as int)),
            head == spec_series_bytes(sim_data.clock_data[0]@) + spec_series_bytes(
                sim_data.clock_data[1]@,
            ) + spec_series_bytes(sim_data.clock_data[2]@) + spec_series_bytes(
                sim_data.clock_data[3]@,
            ),
        decreases sim_data.cells_data@.len() - j,
    {
        push_series(&mut output, &sim_data.cells_data[j].data);
        proof {
            lemma_cells_bytes_push(all_cells.take(j as int), all_cells[j as int]);
            assert(all_cells.take(j + 1) =~= all_cells.take(j as int).push(all_cells[j as int]));
            assert(output@ =~= head + spec_cells_bytes(all_cells.take(j + 1)));
        }
        j = j + 1;
    }
    proof {
        assert(all_cells.take(all_cells.len() as int) =~= all_cells);
        assert(output@ =~= spec_sim_data_raw(*sim_data));
    }
    output
}

proof fn lemma_cells_bytes_push(cells: Seq<Seq<u64>>, s: Seq<u64>)
    ensures
        spec_cells_bytes(cells.push(s)) == spec_cells_bytes(cells) + spec_series_bytes(s),
    decreases cells.len(),
{
    if cells.len() == 0 {
        assert(cells.push(s).drop_first() =~= cells);
        assert(cells.push(s)[0] == s);
        assert(spec_cells_bytes(cells) == Seq::<u8>::empty());
        assert(spec_cells_bytes(cells.push(s)) =~= spec_cells_bytes(cells) + spec_series_bytes(s));
    } else {
        assert(cells.push(s).drop_first() =~= cells.drop_first().push(s));
        lemma_cells_bytes_push(cells.drop_first(), s);
        assert(spec_cells_bytes(cells.push(s)) =~= spec_cells_bytes(cells) + spec_series_bytes(s));
    }
}

/// Reads one value back from its eight little-endian bytes.
fn read_u64_le(data: &[u8], off: usize) -> (r: u64)
    requires
        off + 8 <= data@.len(),
    ensures
        spec_u64_le_bytes(r) == data@.subrange(off as int, off + 8),
{
    let b0 = data[off] as u64;
    let b1 = data[off + 1] as u64;
    let b2 = data[off + 2] as u64;
    let b3 = data[off + 3] as u64;
    let b4 = data[off + 4] as u64;
    let b5 = data[off + 5] as u64;
    let b6 = data[off + 6] as u64;
    let b7 = data[off + 7] as u64;
    let r = b0 | (b1 << 8) | (b2 << 16) | (b3 << 24) | (b4 << 32) | (b5 << 40) | (b6 << 48) | (b7
        << 56);
    proof {
        assert((r & 0xff) == b0 && ((r >> 8) & 0xff) == b1 && ((r >> 16) & 0xff) == b2 && ((r >> 24)
            & 0xff) == b3 && ((r >> 32) & 0xff) == b4 && ((r >> 40) & 0xff) == b5 && ((r >> 48)
            & 0xff) == b6 && ((r >> 56) & 0xff) == b7) by (bit_vector)
            requires
                r == b0 | (b1 << 8) | (b2 << 16) | (b3 << 24) | (b4 << 32) | (b5 << 40) | (b6
                    << 48) | (b7 << 56),
                b0 < 256 && b1 < 256 && b2 < 256 && b3 < 256,
                b4 < 256 && b5 < 256 && b6 < 256 && b7 < 256,
        ;
        assert(spec_u64_le_bytes(r) =~= data@.subrange(off as int, off + 8));
    }
    r
}

/// Reads a series of `count` values starting at byte `off`.
fn read_series(data: &[u8], off: usize, count: usize) -> (r: Vec<u64>)
    requires
        off + 8 * count <= data@.len(),
    ensures
        r@.len() == count,
        spec_series_bytes(r@) == data@.subrange(off as int, off + 8 * count),
{
    let dlen = data.len();
    let mut r: Vec<u64> = Vec::new();
    let mut t: usize = 0;
    proof {
        assert(spec_series_bytes(r@) =~= data@.subrange(off as int, off as int));
    }
    while t < count
        invariant
            0 <= t <= count,
            off + 8 * count <= data@.len(),
            dlen == data@.len(),
            r@.len() == t,
            spec_series_bytes(r@) == data@.subrange(off as int, off + 8 * t),
        decreases count - t,
    {
        let v = read_u64_le(data, off + 8 * t);
        proof {
            lemma_series_bytes_push(r@, v);
            assert(data@.subrange(off as int, off + 8 * (t + 1)) =~= data@.subrange(
                off as int,
                off + 8 * t,
            ) + data@.subrange(off + 8 * t, off + 8 * t + 8));
        }
        r.push(v);
        t = t + 1;
    }
    r
}

/// Fills the numeric series of a result from its flat payload: the four
/// clock series of `num_samples` values each, then `values_per_cell *
/// num_samples` values for each stored cell, in metadata order. A payload
/// too short for the metadata is rejected.
pub fn read_sim_stream(simulation_data: &mut QCASimulationData, values_per_cell: usize, data: &Vec<
    u8,
>) -> (r: Result<(), String>)
    requires
        old(simulation_data).metadata.num_samples * values_per_cell <= usize::MAX,
        old(simulation_data).metadata.num_samples * values_per_cell * old(
            simulation_data,
        ).metadata.stored_cells@.len() <= usize::MAX,
        8 * (4 * old(simulation_data).metadata.num_samples + old(
            simulation_data,
        ).metadata.num_samples * values_per_cell * old(simulation_data).metadata.stored_cells@.len())
            <= usize::MAX,
    ensures
        final(simulation_data).metadata == old(simulation_data).metadata,
        r is Err <==> data@.len() < 8 * (4 * old(simulation_data).metadata.num_samples + old(
            simulation_data,
        ).metadata.num_samples * values_per_cell * old(
            simulation_data,
        ).metadata.stored_cells@.len()),
        r is Ok ==> {
            let ns = old(simulation_data).metadata.num_samples as int;
            let vpc = values_per_cell as int;
            let stored = old(simulation_data).metadata.stored_cells@;
            &&& forall|i: int|
                0 <= i < 4 ==> (#[trigger] final(simulation_data).clock_data[i])@.len() == ns
                    && spec_series_bytes(final(simulation_data).clock_data[i]@) == data@.subrange(
                    8 * ns * i,
                    8 * ns * (i + 1),
                )
            &&& final(simulation_data).cells_data@.len() == stored.len()
            &&& forall|j: int|
                0 <= j < stored.len() ==> (#[trigger] final(simulation_data).cells_data@[j]).index
                    == stored[j] && final(simulation_data).cells_data@[j].data@.len() == ns * vpc
                    && spec_series_bytes(final(simulation_data).cells_data@[j].data@)
                    == data@.subrange(
                    32 * ns + 8 * (ns * vpc) * j,
                    32 * ns + 8 * (ns * vpc) * (j + 1),
                )
        },
{
    let ns = simulation_data.metadata.num_samples;
    let n_cells = simulation_data.metadata.stored_cells.len();
    let per_cell = ns * values_per_cell;
    let needed = 8 * (4 * ns + per_cell * n_cells);
    if data.len() < needed {
        return Err("Simulation payload is shorter than its metadata promises".to_string());
    }
    proof {
        lemma_mul_le_parts(ns as int, values_per_cell as int, n_cells as int);
    }
    let c0 = read_series(data.as_slice(), 0, ns);
    let c1 = read_series(data.as_slice(), 8 * ns, ns);
    let c2 = read_series(data.as_slice(), 16 * ns, ns);
    let c3 = read_series(data.as_slice(), 24 * ns, ns);
    simulation_data.clock_data = [c0, c1, c2, c3];
    let mut cells: Vec<crate::data::QCACellData> = Vec::new();
    let mut j: usize = 0;
    let ghost stored = simulation_data.metadata.stored_cells@;
    while j < n_cells
        invariant
            0 <= j <= n_cells,
            n_cells == stored.len(),
            stored == simulation_data.metadata.stored_cells@,
            per_cell == simulation_data.metadata.num_samples * values_per_cell,
            ns == simulation_data.metadata.num_samples,
            8 * (4 * ns + per_cell * n_cells) <= data@.len(),
            data@.len() <= usize::MAX,
            per_cell * n_cells <= usize::MAX,
            cells@.len() == j,
            forall|j0: int|
                0 <= j0 < j ==> (#[trigger] cells@[j0]).index == stored[j0]
                    && cells@[j0].data@.len() == per_cell && spec_series_bytes(cells@[j0].data@)
                    == data@.subrange(
                    32 * ns + 8 * per_cell * j0,
                    32 * ns + 8 * per_cell * (j0 + 1),
                ),
        decreases n_cells - j,
    {
        proof {
            lemma_cell_offset_bounds(ns as int, per_cell as int, j as int, n_cells as int);
        }
        let off = 32 * ns + 8 * per_cell * j;
        let series = read_series(data.as_slice(), off, per_cell);
        let index = simulation_data.metadata.stored_cells[j];
        cells.push(crate::data::QCACellData { index, data: series });
        j = j + 1;
    }
    simulation_data.cells_data = cells;
    proof {
        let nsi = ns as int;
        assert(simulation_data.clock_data[0]@ == c0@);
        assert(simulation_data.clock_data[1]@ == c1@);
        assert(simulation_data.clock_data[2]@ == c2@);
        assert(simulation_data.clock_data[3]@ == c3@);
        assert(8 * nsi * 0 == 0 && 8 * nsi * 1 == 8 * nsi && 8 * nsi * 2 == 16 * nsi && 8 * nsi * 3
            == 24 * nsi && 8 * nsi * 4 == 32 * nsi);
    }
    Ok(())
}

proof fn lemma_mul_le_parts(ns: int, vpc: int, n_cells: int)
    requires
        ns >= 0,
        vpc >= 0,
        n_cells >= 0,
    ensures
        n_cells > 0 ==> ns * vpc <= ns * vpc * n_cells,
        ns * vpc >= 0,
        ns * vpc * n_cells >= 0,
{
    assert(ns * vpc >= 0) by (nonlinear_arith)
        requires
            ns >= 0,
            vpc >= 0,
    ;
    assert(ns * vpc * n_cells >= 0) by (nonlinear_arith)
        requires
            ns * vpc >= 0,
            n_cells >= 0,
    ;
    assert(n_cells > 0 ==> ns * vpc <= ns * vpc * n_cells) by (nonlinear_arith)
        requires
            ns * vpc >= 0,
    ;
}

proof fn lemma_cell_offset_bounds(ns: int, per_cell: int, j: int, n_cells: int)
    requires
        ns >= 0,
        per_cell >= 0,
        0 <= j < n_cells,
    ensures
        8 * per_cell * j + 8 * per_cell <= 8 * (per_cell * n_cells),
        8 * per_cell * j >= 0,
        per_cell * n_cells >= 0,
        8 * per_cell * (j + 1) == 8 * per_cell * j + 8 * per_cell,
        32 * ns + 8 * per_cell * j + 8 * per_cell <= 8 * (4 * ns + per_cell * n_cells),
{
    assert(per_cell * n_cells >= 0) by (nonlinear_arith)
        requires
            per_cell >= 0,
            n_cells > 0,
    ;
    assert(8 * per_cell * j + 8 * per_cell == 8 * per_cell * (j + 1)) by (nonlinear_arith);
    assert(8 * per_cell * (j + 1) <= 8 * (per_cell * n_cells)) by (nonlinear_arith)
        requires
            per_cell >= 0,
            j + 1 <= n_cells,
    ;
    assert(8 * per_cell * j >= 0) by (nonlinear_arith)
        requires
            per_cell >= 0,
            j >= 0,
    ;
}

proof fn lemma_cells_bytes_len_uniform(cells: Seq<Seq<u64>>, len: int)
    requires
        len >= 0,
        forall|k: int| 0 <= k < cells.len() ==> (#[trigger] cells[k]).len() == len,
    ensures
        spec_cells_bytes(cells).len() == 8 * len * cells.len(),
    decreases cells.len(),
{
    if cells.len() == 0 {
        assert(8 * len * 0 == 0) by (nonlinear_arith);
    } else {
        let rest = cells.drop_first();
        assert(forall|k: int| 0 <= k < rest.len() ==> (#[trigger] rest[k]).len() == len);
        lemma_cells_bytes_len_uniform(rest, len);
        lemma_series_bytes_len(cells[0]);
        assert(8 * len * cells.len() == 8 * len + 8 * len * rest.len()) by (nonlinear_arith)
            requires
                cells.len() == rest.len() + 1,
        ;
    }
}

proof fn lemma_cells_bytes_chunk(cells: Seq<Seq<u64>>, len: int, j: int)
    requires
        len >= 0,
        forall|k: int| 0 <= k < cells.len() ==> (#[trigger] cells[k]).len() == len,
        0 <= j < cells.len(),
    ensures
        spec_cells_bytes(cells).subrange(8 * len * j, 8 * len * (j + 1)) == spec_series_bytes(
            cells[j],
        ),
    decreases j,
{
    lemma_cells_bytes_len_uniform(cells, len);
    let rest = cells.drop_first();
    assert(forall|k: int| 0 <= k < rest.len() ==> (#[trigger] rest[k]).len() == len);
    lemma_cells_bytes_len_uniform(rest, len);
    lemma_series_bytes_len(cells[0]);
    if j == 0 {
        assert(8 * len * 0 == 0 && 8 * len * 1 == 8 * len) by (nonlinear_arith);
        assert(spec_cells_bytes(cells).subrange(0, 8 * len) =~= spec_series_bytes(cells[0]));
    } else {
        lemma_cells_bytes_chunk(rest, len, j - 1);
        assert(rest[j - 1] == cells[j]);
        assert(8 * len * j == 8 * len * (j - 1) + 8 * len && 8 * len * (j + 1) == 8 * len * j + 8
            * len) by (nonlinear_arith);
        assert(8 * len * (j - 1) >= 0) by (nonlinear_arith)
            requires
                len >= 0,
                j >= 1,
        ;
        assert(8 * len * (j + 1) <= 8 * len * cells.len()) by (nonlinear_arith)
            requires
                len >= 0,
                j + 1 <= cells.len(),
        ;
        assert(8 * len * rest.len() == 8 * len * cells.len() - 8 * len) by (nonlinear_arith)
            requires
                rest.len() == cells.len() - 1,
        ;
        assert(spec_cells_bytes(cells).subrange(8 * len * j, 8 * len * (j + 1))
            =~= spec_cells_bytes(rest).subrange(8 * len * (j - 1), 8 * len * ((j - 1) + 1)));
    }
}

/// Two series with the same length and the same byte image are the same
/// series: the payload encoding loses nothing, so writing a result and
/// reading it back reproduces every value bit for bit.
pub proof fn lemma_series_bytes_injective(a: Seq<u64>, b: Seq<u64>)
    requires
        a.len() == b.len(),
        spec_series_bytes(a) == spec_series_bytes(b),
    ensures
        a == b,
    decreases a.len(),
{
    if a.len() > 0 {
        lemma_series_bytes_len(a.drop_first());
        lemma_series_bytes_len(b.drop_first());
        let ab = spec_series_bytes(a);
        let bb = spec_series_bytes(b);
        assert(spec_u64_le_bytes(a[0]) =~= ab.subrange(0, 8));
        assert(spec_u64_le_bytes(b[0]) =~= bb.subrange(0, 8));
        let x = a[0];
        let y = b[0];
        assert(spec_u64_le_bytes(x) == spec_u64_le_bytes(y));
        assert forall|k: int| 0 <= k < 8 implies spec_u64_le_bytes(x)[k] == spec_u64_le_bytes(
            y,
        )[k] by {
        }
        assert(x == y) by (bit_vector)
            requires
                ((x & 0xff) as u8) == ((y & 0xff) as u8),
                (((x >> 8) & 0xff) as u8) == (((y >> 8) & 0xff) as u8),
                (((x >> 16) & 0xff) as u8) == (((y >> 16) & 0xff) as u8),
                (((x >> 24) & 0xff) as u8) == (((y >> 24) & 0xff) as u8),
                (((x >> 32) & 0xff) as u8) == (((y >> 32) & 0xff) as u8),
                (((x >> 40) & 0xff) as u8) == (((y >> 40) & 0xff) as u8),
                (((x >> 48) & 0xff) as u8) == (((y >> 48) & 0xff) as u8),
                (((x >> 56) & 0xff) as u8) == (((y >> 56) & 0xff) as u8),
        ;
        assert(spec_series_bytes(a.drop_first()) =~= ab.subrange(8, ab.len() as int));
        assert(spec_series_bytes(b.drop_first()) =~= bb.subrange(8, bb.len() as int));
        lemma_series_bytes_injective(a.drop_first(), b.drop_first());
        assert forall|k: int| 0 <= k < a.len() implies a[k] == b[k] by {
            if k > 0 {
                assert(a[k] == a.drop_first()[k - 1]);
                assert(b[k] == b.drop_first()[k - 1]);
            }
        }
        assert(a =~= b);
    } else {
        assert(a =~= b);
    }
}

/// Round trip of the numeric payload: a result written as its flat byte
/// image and read back under the same metadata reproduces every clock
/// series and every cell series bit for bit.
pub proof fn lemma_container_round_trip(
    written: QCASimulationData,
    parsed: QCASimulationData,
    ns: int,
    vpc: int,
)
    requires
        ns >= 0,
        vpc >= 0,
        forall|i: int| 0 <= i < 4 ==> (#[trigger] written.clock_data[i])@.len() == ns,
        forall|i: int| 0 <= i < 4 ==> (#[trigger] parsed.clock_data[i])@.len() == ns,
        parsed.cells_data@.len() == written.cells_data@.len(),
        forall|j: int|
            0 <= j < written.cells_data@.len() ==> (#[trigger] written.cells_data@[j]).data@.len()
                == ns * vpc,
        forall|j: int|
            0 <= j < parsed.cells_data@.len() ==> (#[trigger] parsed.cells_data@[j]).data@.len()
                == ns * vpc,
        forall|i: int|
            0 <= i < 4 ==> spec_series_bytes((#[trigger] parsed.clock_data[i])@)
                == spec_sim_data_raw(written).subrange(8 * ns * i, 8 * ns * (i + 1)),
        forall|j: int|
            0 <= j < parsed.cells_data@.len() ==> spec_series_bytes(
                (#[trigger] parsed.cells_data@[j]).data@,
            ) == spec_sim_data_raw(written).subrange(
                32 * ns + 8 * (ns * vpc) * j,
                32 * ns + 8 * (ns * vpc) * (j + 1),
            ),
    ensures
        forall|i: int|
            0 <= i < 4 ==> (#[trigger] parsed.clock_data[i])@ == written.clock_data[i]@,
        forall|j: int|
            0 <= j < parsed.cells_data@.len() ==> (#[trigger] parsed.cells_data@[j]).data@
                == written.cells_data@[j].data@,
{
    let raw = spec_sim_data_raw(written);
    let a0 = spec_series_bytes(written.clock_data[0]@);
    let a1 = spec_series_bytes(written.clock_data[1]@);
    let a2 = spec_series_bytes(written.clock_data[2]@);
    let a3 = spec_series_bytes(written.clock_data[3]@);
    let all_cells = spec_cell_series_of(written);
    let cb = spec_cells_bytes(all_cells);
    lemma_series_bytes_len(written.clock_data[0]@);
    lemma_series_bytes_len(written.clock_data[1]@);
    lemma_series_bytes_len(written.clock_data[2]@);
    lemma_series_bytes_len(written.clock_data[3]@);
    assert(forall|k: int|
        0 <= k < all_cells.len() ==> (#[trigger] all_cells[k]).len() == ns * vpc);
    lemma_cells_bytes_len_uniform(all_cells, ns * vpc);
    assert(raw.subrange(8 * ns * 0, 8 * ns * 1) =~= a0);
    assert(raw.subrange(8 * ns * 1, 8 * ns * 2) =~= a1);
    assert(raw.subrange(8 * ns * 2, 8 * ns * 3) =~= a2);
    assert(raw.subrange(8 * ns * 3, 8 * ns * 4) =~= a3);
    assert forall|i: int| 0 <= i < 4 implies (#[trigger] parsed.clock_data[i])@
        == written.clock_data[i]@ by {
        if i == 0 {
            lemma_series_bytes_injective(parsed.clock_data[0]@, written.clock_data[0]@);
        } else if i == 1 {
            lemma_series_bytes_injective(parsed.clock_data[1]@, written.clock_data[1]@);
        } else if i == 2 {
            lemma_series_bytes_injective(parsed.clock_data[2]@, written.clock_data[2]@);
        } else {
            lemma_series_bytes_injective(parsed.clock_data[3]@, written.clock_data[3]@);
        }
    }
    assert forall|j: int| 0 <= j < parsed.cells_data@.len() implies (
    #[trigger] parsed.cells_data@[j]).data@ == written.cells_data@[j].data@ by {
        let m = ns * vpc;
        lemma_cells_bytes_chunk(all_cells, m, j);
        assert(all_cells[j] == written.cells_data@[j].data@);
        assert(m >= 0) by (nonlinear_arith)
            requires
                ns >= 0,
                vpc >= 0,
                m == ns * vpc,
        ;
        assert(8 * m * j >= 0) by (nonlinear_arith)
            requires
                m >= 0,
                j >= 0,
        ;
        assert(8 * m * (j + 1) <= 8 * m * all_cells.len()) by (nonlinear_arith)
            requires
                m >= 0,
                j + 1 <= all_cells.len(),
        ;
        assert(8 * m * (j + 1) == 8 * m * j + 8 * m) by (nonlinear_arith);
        assert(raw.subrange(32 * ns + 8 * m * j, 32 * ns + 8 * m * (j + 1)) =~= cb.subrange(
            8 * m * j,
            8 * m * (j + 1),
        ));
        lemma_series_bytes_injective(parsed.cells_data@[j].data@, written.cells_data@[j].data@);
    }
}

} // verus!
