//! One sample per triangle, from one sample per vertex.

use vstd::prelude::*;
use crate::triangulation::{Triangle, Triangulation};

verus! {

/// The integer nearest to a third of `sum`.  A third of an integer is never
/// half-way between two integers, so there is no tie to break.
pub open spec fn nearest_third(sum: int) -> int {
    (sum + 1) / 3
}

/// The mean of three samples, to the nearest unit; missing when any of the
/// three is missing.
pub open spec fn cell_mean(a: Option<i32>, b: Option<i32>, c: Option<i32>) -> Option<i32> {
    match (a, b, c) {
        (Some(x), Some(y), Some(z)) => Some(nearest_third(x + y + z) as i32),
        _ => None,
    }
}

/// The cell samples of the triangles `t` under the vertex samples `v`.
pub open spec fn cell_means(t: Seq<Triangle>, v: Seq<Option<i32>>) -> Seq<Option<i32>> {
    Seq::new(t.len(), |i: int| cell_mean(v[t[i].a as int], v[t[i].b as int], v[t[i].c as int]))
}

/// `nearest_third(sum)` is within a third of `sum / 3`, and it is the only
/// integer that is.
pub proof fn lemma_nearest_third(sum: int, r: int)
    ensures
        -1 <= 3 * nearest_third(sum) - sum <= 1,
        -1 <= 3 * r - sum <= 1 ==> r == nearest_third(sum),
{
}

/// The mean of three samples lies between the least and the greatest of them.
pub proof fn lemma_mean_is_between(x: i32, y: i32, z: i32, lo: int, hi: int)
    requires
        lo <= x <= hi,
        lo <= y <= hi,
        lo <= z <= hi,
    ensures
        lo <= nearest_third(x + y + z) <= hi,
{
}

/// The sample of one triangle: the mean of the samples at its three vertices.
pub fn reduce(triangle: &Triangle, vertex_values: &Vec<Option<i32>>) -> (cell: Option<i32>)
    requires
        triangle.a < vertex_values.len(),
        triangle.b < vertex_values.len(),
        triangle.c < vertex_values.len(),
    ensures
        cell == cell_mean(
            vertex_values[triangle.a as int],
            vertex_values[triangle.b as int],
            vertex_values[triangle.c as int],
        ),
{
    match (vertex_values[triangle.a], vertex_values[triangle.b], vertex_values[triangle.c]) {
        (Some(x), Some(y), Some(z)) => {
            let sum: i64 = x as i64 + y as i64 + z as i64;
            // Shifted by 3 * 2^31 the dividend is positive, and the quotient
            // moves by 2^31.
            let shifted: i64 = sum + 1 + 0x1_8000_0000;
            let third: i64 = shifted / 3 - 0x8000_0000;
            proof {
                lemma_mean_is_between(x, y, z, i32::MIN as int, i32::MAX as int);
            }
            Some(third as i32)
        },
        _ => None,
    }
}

impl Triangulation {
    /// The sample of every triangle, in the order of the triangles.
    pub fn cell_values(&self, vertex_values: &Vec<Option<i32>>) -> (cells: Vec<Option<i32>>)
        requires
            vertex_values.len() == self@.points.len(),
        ensures
            cells@ == cell_means(self@.triangles, vertex_values@),
    {
        let triangles = self.triangles();
        let mut cells: Vec<Option<i32>> = Vec::new();
        let mut i: usize = 0;
        while i < triangles.len()
            invariant
                i <= triangles.len(),
                triangles@ == self@.triangles,
                crate::triangulation::triangulates(self@.points, triangles@),
                vertex_values.len() == self@.points.len(),
                cells.len() == i,
                forall|x: int|
                    0 <= x < i ==> #[trigger] cells[x] == cell_means(
                        self@.triangles,
                        vertex_values@,
                    )[x],
            decreases triangles.len() - i,
        {
            let cell = reduce(&triangles[i], vertex_values);
            cells.push(cell);
            i += 1;
        }
        assert(cells@ =~= cell_means(self@.triangles, vertex_values@));
        cells
    }
}

} // verus!
