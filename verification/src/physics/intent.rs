//! The intent model: a typed description of a proposed cell change,
//! subject to the engine's conflict arbitration.

use vstd::prelude::*;

verus! {

use crate::material::MaterialId;

/// A grid cell coordinate.
#[derive(Debug, Clone, Copy, PartialEq, Eq, Structural)]
pub struct Cell {
    pub x: usize,
    pub y: usize,
}

/// A proposed mutation of one or two cells.
#[derive(Debug, Clone, Copy, PartialEq, Eq, Structural)]
pub enum CellIntent {
    /// Set one cell's material. Affects one cell.
    Transform { cell: Cell, out: MaterialId },
    /// Replace the materials of two distinct cells at once; all-or-nothing.
    Reaction { cell_a: Cell, cell_b: Cell, out_a: MaterialId, out_b: MaterialId },
    /// Exchange two cells' materials and their staged temperatures, so a
    /// moving particle carries this tick's thermal changes with it.
    MoveSwap { from: Cell, to: Cell },
}

/// The cells an intent would write.
pub open spec fn intent_cells(it: CellIntent) -> Seq<Cell> {
    match it {
        CellIntent::Transform { cell, .. } => seq![cell],
        CellIntent::Reaction { cell_a, cell_b, .. } => seq![cell_a, cell_b],
        CellIntent::MoveSwap { from, to } => seq![from, to],
    }
}

/// An intent is in bounds and names distinct cells.
pub open spec fn intent_wf(it: CellIntent, w: int, h: int) -> bool {
    match it {
        CellIntent::Transform { cell, .. } => cell.x < w && cell.y < h,
        CellIntent::Reaction { cell_a, cell_b, .. } => {
            &&& cell_a.x < w && cell_a.y < h
            &&& cell_b.x < w && cell_b.y < h
            &&& cell_a != cell_b
        },
        CellIntent::MoveSwap { from, to } => {
            &&& from.x < w && from.y < h
            &&& to.x < w && to.y < h
            &&& from != to
        },
    }
}

/// Every material id an intent writes references an existing material.
pub open spec fn intent_mats_valid(it: CellIntent, count: nat) -> bool {
    match it {
        CellIntent::Transform { out, .. } => out.0 < count,
        CellIntent::Reaction { out_a, out_b, .. } => out_a.0 < count && out_b.0 < count,
        CellIntent::MoveSwap { .. } => true,
    }
}

impl CellIntent {
    /// The set of cells this intent would write, in declaration order.
    pub fn affected_cells(&self) -> (r: Vec<Cell>)
        ensures
            r@ == intent_cells(*self),
    {
        match self {
            CellIntent::Transform { cell, .. } => {
                let mut v = Vec::new();
                v.push(*cell);
                proof {
                    assert(v@ =~= intent_cells(*self));
                }
                v
            },
            CellIntent::Reaction { cell_a, cell_b, .. } => {
                let mut v = Vec::new();
                v.push(*cell_a);
                v.push(*cell_b);
                proof {
                    assert(v@ =~= intent_cells(*self));
                }
                v
            },
            CellIntent::MoveSwap { from, to } => {
                let mut v = Vec::new();
                v.push(*from);
                v.push(*to);
                proof {
                    assert(v@ =~= intent_cells(*self));
                }
                v
            },
        }
    }
}

/// What one module hands back from its per-tick run.
pub enum ModuleOutput {
    /// An ordered list of intents; order within a module is significant.
    CellIntents { intents: Vec<CellIntent> },
    /// A per-cell temperature delta added cell-wise to the staging frame;
    /// never conflicts with other outputs.
    DeltaTemp { delta_temp: Vec<i64> },
}

/// Every intent of a `CellIntents` output is well-formed for a `w` by `h`
/// grid over `count` materials; a `DeltaTemp` output covers the grid.
pub open spec fn output_wf(out: ModuleOutput, w: int, h: int, count: nat) -> bool {
    match out {
        ModuleOutput::CellIntents { intents } => forall|i: int|
            0 <= i < intents@.len() ==> intent_wf(#[trigger] intents@[i], w, h) && intent_mats_valid(
                intents@[i],
                count,
            ),
        ModuleOutput::DeltaTemp { delta_temp } => delta_temp@.len() == w * h,
    }
}

} // verus!
