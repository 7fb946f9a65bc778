//! Input points: a position on the plane and the cost of visiting it.

use vstd::prelude::*;

verus! {

/// A point of the instance. `id` is its position in the input, which is also
/// its row and column in the distance matrix.
#[derive(Clone, Copy, Debug)]
pub struct DataPoint {
    pub id: usize,
    pub x: i32,
    pub y: i32,
    pub cost: i32,
}

/// Every point's `id` is its position in the list.
pub open spec fn ids_are_positions(data: Seq<DataPoint>) -> bool {
    forall|k: int| 0 <= k < data.len() ==> (#[trigger] data[k]).id == k
}

/// The points of an instance from its rows of `(x, y, cost)`, in order:
/// each point's id is its row number.
pub fn points_from_rows(rows: &Vec<(i32, i32, i32)>) -> (r: Vec<DataPoint>)
    ensures
        r@.len() == rows@.len(),
        ids_are_positions(r@),
        forall|k: int|
            0 <= k < rows@.len() ==> {
                &&& (#[trigger] r@[k]).x == rows@[k].0
                &&& r@[k].y == rows@[k].1
                &&& r@[k].cost == rows@[k].2
            },
{
    let mut records: Vec<DataPoint> = Vec::new();
    let mut id: usize = 0;
    while id < rows.len()
        invariant
            id <= rows@.len(),
            records@.len() == id,
            ids_are_positions(records@),
            forall|k: int|
                0 <= k < id ==> {
                    &&& (#[trigger] records@[k]).x == rows@[k].0
                    &&& records@[k].y == rows@[k].1
                    &&& records@[k].cost == rows@[k].2
                },
        decreases rows@.len() - id,
    {
        let (x, y, cost) = rows[id];
        records.push(DataPoint { id, x, y, cost });
        id += 1;
    }
    records
}

} // verus!
