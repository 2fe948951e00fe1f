use crate::cell::{CellType, QCACell, QCACellIndex};
use vstd::prelude::*;

verus! {

/// One layer of the circuit: an ordered list of cells sharing a dot
/// architecture. The vertical position only feeds the distance integrals
/// and stays with the numeric solvers.
pub struct QCALayer {
    pub name: String,
    pub cell_architecture_id: String,
    pub cells: Vec<QCACell>,
}

impl QCALayer {
    /// An empty layer referencing an architecture.
    pub fn new(name: String, cell_architecture_id: String) -> (r: Self)
        ensures
            r.name == name,
            r.cell_architecture_id == cell_architecture_id,
            r.cells@.len() == 0,
    {
        QCALayer { name, cell_architecture_id, cells: Vec::new() }
    }
}

/// Whether cells of this type are recorded in the simulation output.
pub open spec fn spec_is_recorded(t: CellType) -> bool {
    t == CellType::Input || t == CellType::Output
}

/// The recorded cells of the prefix `upto` of one layer, in cell order.
pub open spec fn spec_layer_recorded(cells: Seq<CellType>, layer: int, upto: int) -> Seq<
    QCACellIndex,
>
    decreases upto,
{
    if upto <= 0 {
        Seq::empty()
    } else {
        let rest = spec_layer_recorded(cells, layer, upto - 1);
        if spec_is_recorded(cells[upto - 1]) {
            rest.push(QCACellIndex { layer: layer as usize, cell: (upto - 1) as usize })
        } else {
            rest
        }
    }
}

/// The cell types of one layer.
pub open spec fn spec_layer_types(layer: QCALayer) -> Seq<CellType> {
    layer.cells@.map_values(|c: QCACell| c.typ)
}

/// The recorded cells of the first `upto` layers, layer by layer.
pub open spec fn spec_recorded_cells(layers: Seq<QCALayer>, upto: int) -> Seq<QCACellIndex>
    decreases upto,
{
    if upto <= 0 {
        Seq::empty()
    } else {
        spec_recorded_cells(layers, upto - 1) + spec_layer_recorded(
            spec_layer_types(layers[upto - 1]),
            upto - 1,
            spec_layer_types(layers[upto - 1]).len() as int,
        )
    }
}

/// Number of `Input` cells in the prefix `upto` of a type sequence.
pub open spec fn spec_layer_input_count(cells: Seq<CellType>, upto: int) -> int
    decreases upto,
{
    if upto <= 0 {
        0
    } else {
        spec_layer_input_count(cells, upto - 1) + if cells[upto - 1] == CellType::Input {
            1int
        } else {
            0int
        }
    }
}

/// Number of `Input` cells in the first `upto` layers.
pub open spec fn spec_input_count(layers: Seq<QCALayer>, upto: int) -> int
    decreases upto,
{
    if upto <= 0 {
        0
    } else {
        spec_input_count(layers, upto - 1) + spec_layer_input_count(
            spec_layer_types(layers[upto - 1]),
            spec_layer_types(layers[upto - 1]).len() as int,
        )
    }
}

/// The indexes of every `Input` and `Output` cell, in layer order and cell
/// order within each layer: the cells whose state the simulation records.
pub fn recorded_cell_indexes(layers: &Vec<QCALayer>) -> (r: Vec<QCACellIndex>)
    ensures
        r@ == spec_recorded_cells(layers@, layers@.len() as int),
{
    let mut r: Vec<QCACellIndex> = Vec::new();
    let mut i: usize = 0;
    while i < layers.len()
        invariant
            0 <= i <= layers@.len(),
            r@ == spec_recorded_cells(layers@, i as int),
        decreases layers@.len() - i,
    {
        let layer = &layers[i];
        let mut j: usize = 0;
        while j < layer.cells.len()
            invariant
                0 <= j <= layer.cells@.len(),
                0 <= i < layers@.len(),
                layer == layers@[i as int],
                r@ == spec_recorded_cells(layers@, i as int) + spec_layer_recorded(
                    spec_layer_types(*layer),
                    i as int,
                    j as int,
                ),
            decreases layer.cells@.len() - j,
        {
            let t = layer.cells[j].typ;
            proof {
                assert(spec_layer_types(*layer)[j as int] == layer.cells@[j as int].typ);
            }
            if matches!(t, CellType::Input | CellType::Output) {
                r.push(QCACellIndex { layer: i, cell: j });
            }
            j = j + 1;
        }
        proof {
            assert(spec_layer_types(*layer).len() == layer.cells@.len());
        }
        i = i + 1;
    }
    r
}

/// What the recorded-cell listing holds: every entry points at an
/// existing `Input` or `Output` cell, and every such cell of the circuit
/// appears in it.
pub proof fn lemma_recorded_cells_characterization(layers: Seq<QCALayer>)
    requires
        layers.len() <= usize::MAX,
        forall|i: int| 0 <= i < layers.len() ==> (#[trigger] layers[i]).cells@.len() <= usize::MAX,
    ensures
        forall|k: int|
            0 <= k < spec_recorded_cells(layers, layers.len() as int).len() ==> {
                let ix = #[trigger] spec_recorded_cells(layers, layers.len() as int)[k];
                &&& ix.layer < layers.len()
                &&& ix.cell < layers[ix.layer as int].cells@.len()
                &&& spec_is_recorded(layers[ix.layer as int].cells@[ix.cell as int].typ)
            },
        forall|i: int, j: int|
            0 <= i < layers.len() && 0 <= j < layers[i].cells@.len() && spec_is_recorded(
                layers[i].cells@[j].typ,
            ) ==> spec_recorded_cells(layers, layers.len() as int).contains(
                QCACellIndex { layer: i as usize, cell: j as usize },
            ),
{
    lemma_recorded_cells_props(layers, layers.len() as int);
}

proof fn lemma_layer_recorded_props(cells: Seq<CellType>, layer: int, upto: int)
    requires
        0 <= upto <= cells.len(),
        0 <= layer <= usize::MAX,
        upto <= usize::MAX,
    ensures
        forall|k: int|
            0 <= k < spec_layer_recorded(cells, layer, upto).len() ==> {
                let ix = #[trigger] spec_layer_recorded(cells, layer, upto)[k];
                &&& ix.layer == layer
                &&& ix.cell < upto
                &&& spec_is_recorded(cells[ix.cell as int])
            },
        forall|j: int|
            0 <= j < upto && spec_is_recorded(cells[j]) ==> spec_layer_recorded(
                cells,
                layer,
                upto,
            ).contains(QCACellIndex { layer: layer as usize, cell: j as usize }),
    decreases upto,
{
    if upto > 0 {
        lemma_layer_recorded_props(cells, layer, upto - 1);
        let prev = spec_layer_recorded(cells, layer, upto - 1);
        let cur = spec_layer_recorded(cells, layer, upto);
        assert forall|j: int|
            0 <= j < upto && spec_is_recorded(cells[j]) implies cur.contains(
            QCACellIndex { layer: layer as usize, cell: j as usize },
        ) by {
            let ix = QCACellIndex { layer: layer as usize, cell: j as usize };
            if j < upto - 1 || (j == upto - 1 && !spec_is_recorded(cells[upto - 1])) {
                assert(prev.contains(ix));
                let k = choose|k: int| 0 <= k < prev.len() && prev[k] == ix;
                if spec_is_recorded(cells[upto - 1]) {
                    assert(cur[k] == ix);
                } else {
                    assert(cur[k] == ix);
                }
            } else {
                assert(cur.last() == ix);
            }
        }
    }
}

proof fn lemma_recorded_cells_props(layers: Seq<QCALayer>, upto: int)
    requires
        0 <= upto <= layers.len() <= usize::MAX,
        forall|i: int| 0 <= i < layers.len() ==> (#[trigger] layers[i]).cells@.len() <= usize::MAX,
    ensures
        forall|k: int|
            0 <= k < spec_recorded_cells(layers, upto).len() ==> {
                let ix = #[trigger] spec_recorded_cells(layers, upto)[k];
                &&& ix.layer < upto
                &&& ix.cell < layers[ix.layer as int].cells@.len()
                &&& spec_is_recorded(layers[ix.layer as int].cells@[ix.cell as int].typ)
            },
        forall|i: int, j: int|
            0 <= i < upto && 0 <= j < layers[i].cells@.len() && spec_is_recorded(
                layers[i].cells@[j].typ,
            ) ==> spec_recorded_cells(layers, upto).contains(
                QCACellIndex { layer: i as usize, cell: j as usize },
            ),
    decreases upto,
{
    if upto > 0 {
        lemma_recorded_cells_props(layers, upto - 1);
        let types = spec_layer_types(layers[upto - 1]);
        lemma_layer_recorded_props(types, upto - 1, types.len() as int);
        let prev = spec_recorded_cells(layers, upto - 1);
        let tail = spec_layer_recorded(types, upto - 1, types.len() as int);
        let cur = spec_recorded_cells(layers, upto);
        assert(cur == prev + tail);
        assert forall|k: int|
            0 <= k < cur.len() implies {
            let ix = #[trigger] cur[k];
            &&& ix.layer < upto
            &&& ix.cell < layers[ix.layer as int].cells@.len()
            &&& spec_is_recorded(layers[ix.layer as int].cells@[ix.cell as int].typ)
        } by {
            if k < prev.len() {
                assert(cur[k] == prev[k]);
            } else {
                assert(cur[k] == tail[k - prev.len()]);
                let ix = tail[k - prev.len()];
                assert(types[ix.cell as int] == layers[upto - 1].cells@[ix.cell as int].typ);
            }
        }
        assert forall|i: int, j: int|
            0 <= i < upto && 0 <= j < layers[i].cells@.len() && spec_is_recorded(
                layers[i].cells@[j].typ,
            ) implies cur.contains(QCACellIndex { layer: i as usize, cell: j as usize }) by {
            let ix = QCACellIndex { layer: i as usize, cell: j as usize };
            if i < upto - 1 {
                assert(prev.contains(ix));
                let k = choose|k: int| 0 <= k < prev.len() && prev[k] == ix;
                assert(cur[k] == ix);
            } else {
                assert(types[j] == layers[i].cells@[j].typ);
                assert(tail.contains(ix));
                let k = choose|k: int| 0 <= k < tail.len() && tail[k] == ix;
                assert(cur[prev.len() + k] == ix);
            }
        }
    }
}

/// The per-layer input count grows by at most one per cell and never drops.
proof fn lemma_layer_input_count_mono(cells: Seq<CellType>, a: int, b: int)
    requires
        0 <= a <= b,
    ensures
        spec_layer_input_count(cells, a) <= spec_layer_input_count(cells, b),
        spec_layer_input_count(cells, b) >= 0,
    decreases b,
{
    if b > 0 {
        if a == b {
            lemma_layer_input_count_mono(cells, 0, b - 1);
        } else {
            lemma_layer_input_count_mono(cells, a, b - 1);
        }
    }
}

/// The input count over layers never drops as more layers are taken in.
proof fn lemma_input_count_mono(layers: Seq<QCALayer>, a: int, b: int)
    requires
        0 <= a <= b,
    ensures
        spec_input_count(layers, a) <= spec_input_count(layers, b),
        spec_input_count(layers, b) >= 0,
    decreases b,
{
    if b > 0 {
        let tail = spec_layer_types(layers[b - 1]);
        lemma_layer_input_count_mono(tail, 0, tail.len() as int);
        if a == b {
            lemma_input_count_mono(layers, 0, b - 1);
        } else {
            lemma_input_count_mono(layers, a, b - 1);
        }
    }
}

/// Total number of `Input` cells over all layers; each is fed one slot of
/// the input stimulus vector, in this same order.
pub fn get_num_inputs(layers: &Vec<QCALayer>) -> (r: usize)
    requires
        spec_input_count(layers@, layers@.len() as int) <= usize::MAX,
    ensures
        r == spec_input_count(layers@, layers@.len() as int),
{
    let mut count: usize = 0;
    let mut i: usize = 0;
    while i < layers.len()
        invariant
            0 <= i <= layers@.len(),
            count == spec_input_count(layers@, i as int),
            spec_input_count(layers@, layers@.len() as int) <= usize::MAX,
        decreases layers@.len() - i,
    {
        let layer = &layers[i];
        let ghost types = spec_layer_types(*layer);
        let mut j: usize = 0;
        while j < layer.cells.len()
            invariant
                0 <= j <= layer.cells@.len(),
                0 <= i < layers@.len(),
                layer == layers@[i as int],
                types == spec_layer_types(*layer),
                types.len() == layer.cells@.len(),
                count == spec_input_count(layers@, i as int) + spec_layer_input_count(
                    types,
                    j as int,
                ),
                spec_input_count(layers@, layers@.len() as int) <= usize::MAX,
            decreases layer.cells@.len() - j,
        {
            proof {
                assert(types[j as int] == layer.cells@[j as int].typ);
                lemma_layer_input_count_mono(types, j + 1, types.len() as int);
                lemma_input_count_mono(layers@, i + 1, layers@.len() as int);
                assert(spec_input_count(layers@, i + 1) == spec_input_count(layers@, i as int)
                    + spec_layer_input_count(types, types.len() as int));
            }
            if matches!(layer.cells[j].typ, CellType::Input) {
                count = count + 1;
            }
            j = j + 1;
        }
        i = i + 1;
    }
    count
}

} // verus!
