//! Winding shapes and the traversal that reads fields along them.

use vstd::prelude::*;
use crate::bits::{
    bits_value, is_bits, lemma_bits_value_bound, lemma_bits_value_push, lemma_two_pow_monotonic,
    shift_in, two_pow,
};
use crate::grid::{in_bounds, is_square, Module, SymbolGrid};
use crate::outcome::{
    all_ok, gather, is_first_failure, lemma_gather_all_ok, lemma_gather_failure_exists,
    lemma_gather_first_failure,
};

verus! {

/// The relative offsets at which one field is sampled, in sampling order.
#[derive(Clone, Copy, Debug, PartialEq, Eq, Structural)]
pub enum WindingShape {
    Up4,
    Up8,
    Down8,
    Left8,
    LeftUp8,
}

impl WindingShape {
    /// The `(dx, dy)` offsets of the shape. The first one yields the most
    /// significant bit of a field.
    pub open spec fn offsets(self) -> Seq<(i32, i32)> {
        match self {
            WindingShape::Up4 => seq![(1i32, 1i32), (0, 1), (1, 0), (0, 0)],
            WindingShape::Up8 => seq![
                (1i32, 3i32),
                (0, 3),
                (1, 2),
                (0, 2),
                (1, 1),
                (0, 1),
                (1, 0),
                (0, 0),
            ],
            WindingShape::Down8 => seq![
                (1i32, 0i32),
                (0, 0),
                (1, 1),
                (0, 1),
                (1, 2),
                (0, 2),
                (1, 3),
                (0, 3),
            ],
            WindingShape::Left8 => seq![
                (3i32, 1i32),
                (2, 1),
                (3, 0),
                (2, 0),
                (1, 1),
                (0, 1),
                (1, 0),
                (0, 0),
            ],
            WindingShape::LeftUp8 => seq![
                (3i32, 0i32),
                (2, 0),
                (3, 1),
                (2, 1),
                (1, 1),
                (0, 1),
                (1, 0),
                (0, 0),
            ],
        }
    }

    /// The offsets of the shape as a vector.
    pub fn offset_table(self) -> (table: Vec<(i32, i32)>)
        ensures
            table@ == self.offsets(),
            table@.len() == 4 || table@.len() == 8,
            forall|i: int|
                0 <= i < table@.len() ==> 0 <= (#[trigger] table@[i]).0 <= 3 && 0 <= table@[i].1 <= 3,
    {
        let table = match self {
            WindingShape::Up4 => vec![(1i32, 1i32), (0, 1), (1, 0), (0, 0)],
            WindingShape::Up8 => vec![
                (1i32, 3i32),
                (0, 3),
                (1, 2),
                (0, 2),
                (1, 1),
                (0, 1),
                (1, 0),
                (0, 0),
            ],
            WindingShape::Down8 => vec![
                (1i32, 0i32),
                (0, 0),
                (1, 1),
                (0, 1),
                (1, 2),
                (0, 2),
                (1, 3),
                (0, 3),
            ],
            WindingShape::Left8 => vec![
                (3i32, 1i32),
                (2, 1),
                (3, 0),
                (2, 0),
                (1, 1),
                (0, 1),
                (1, 0),
                (0, 0),
            ],
            WindingShape::LeftUp8 => vec![
                (3i32, 0i32),
                (2, 0),
                (3, 1),
                (2, 1),
                (1, 1),
                (0, 1),
                (1, 0),
                (0, 0),
            ],
        };
        assert(table@ =~= self.offsets());
        table
    }
}

/// A traversal left the grid at the coordinate held here.
#[derive(Clone, Copy, Debug, PartialEq, Eq, Structural)]
pub struct TraversalBoundsError {
    pub x: i64,
    pub y: i64,
}

impl View for TraversalBoundsError {
    type V = (int, int);

    open spec fn view(&self) -> (int, int) {
        (self.x as int, self.y as int)
    }
}

/// The bit at `p`, or `p` itself where the grid has no module there.
pub open spec fn sample(g: Seq<Seq<Module>>, p: (int, int)) -> Result<nat, (int, int)> {
    if in_bounds(g, p) {
        Ok(g[p.1][p.0].bit())
    } else {
        Err(p)
    }
}

/// The samples taken at `anchor` displaced by each offset in turn.
pub open spec fn samples(g: Seq<Seq<Module>>, anchor: (int, int), offsets: Seq<(i32, i32)>) -> Seq<
    Result<nat, (int, int)>,
> {
    Seq::new(offsets.len(), |i: int| sample(g, (anchor.0 + offsets[i].0, anchor.1 + offsets[i].1)))
}

/// What reading one field yields: the number that the sampled bits spell,
/// most significant bit first, or the first sampled coordinate that lies
/// outside the grid.
pub open spec fn read_outcome(g: Seq<Seq<Module>>, anchor: (int, int), shape: WindingShape) -> Result<
    nat,
    (int, int),
> {
    match gather(samples(g, anchor, shape.offsets())) {
        Ok(bits) => Ok(bits_value(bits)),
        Err(p) => Err(p),
    }
}

/// `res` is what reading the field yields, as a number of 32 bits or as an
/// error that holds the coordinate.
pub open spec fn is_read_result(
    res: Result<u32, TraversalBoundsError>,
    g: Seq<Seq<Module>>,
    anchor: (int, int),
    shape: WindingShape,
) -> bool {
    match res {
        Ok(v) => read_outcome(g, anchor, shape) == Ok::<nat, (int, int)>(v as nat),
        Err(e) => read_outcome(g, anchor, shape) == Err::<nat, (int, int)>(e@),
    }
}

/// Two readings of one field with one shape at one anchor of one grid agree:
/// the result is a function of what is sampled.
pub proof fn lemma_read_deterministic(
    first: Result<u32, TraversalBoundsError>,
    second: Result<u32, TraversalBoundsError>,
    g: Seq<Seq<Module>>,
    anchor: (int, int),
    shape: WindingShape,
)
    requires
        is_read_result(first, g, anchor, shape),
        is_read_result(second, g, anchor, shape),
    ensures
        first == second,
{
}

/// A field with a sample outside the grid is not read: the reading fails,
/// and the coordinate it reports is the first sample outside the grid.
pub proof fn lemma_read_outside_fails(
    g: Seq<Seq<Module>>,
    anchor: (int, int),
    shape: WindingShape,
    i: int,
)
    requires
        0 <= i < shape.offsets().len(),
        !in_bounds(g, (anchor.0 + shape.offsets()[i].0, anchor.1 + shape.offsets()[i].1)),
    ensures
        read_outcome(g, anchor, shape) is Err,
        !in_bounds(g, read_outcome(g, anchor, shape)->Err_0),
        exists|j: int|
            0 <= j <= i && read_outcome(g, anchor, shape)->Err_0 == (
                anchor.0 + (#[trigger] shape.offsets()[j]).0,
                anchor.1 + shape.offsets()[j].1,
            ) && forall|k: int|
                0 <= k < j ==> in_bounds(
                    g,
                    (anchor.0 + (#[trigger] shape.offsets()[k]).0, anchor.1 + shape.offsets()[k].1),
                ),
{
    let all = samples(g, anchor, shape.offsets());
    assert(all[i] is Err);
    lemma_gather_failure_exists(all);
    let j = choose|j: int| is_first_failure(all, j);
    if i < j {
        assert(all.take(j)[i] is Ok);
    }
    assert forall|k: int| 0 <= k < j implies in_bounds(
        g,
        (anchor.0 + (#[trigger] shape.offsets()[k]).0, anchor.1 + shape.offsets()[k].1),
    ) by {
        assert(all.take(j)[k] is Ok);
    }
}

/// Reads the field that `shape` samples at `anchor`, given as `(x, y)`.
pub fn read_field(grid: &SymbolGrid, anchor: (i32, i32), shape: WindingShape) -> (res: Result<
    u32,
    TraversalBoundsError,
>)
    ensures
        is_read_result(res, grid@, (anchor.0 as int, anchor.1 as int), shape),
        res matches Ok(v) ==> v < two_pow(shape.offsets().len()),
{
    read_at(grid, (anchor.0 as i64, anchor.1 as i64), shape)
}

/// `read_field` for an anchor that a cursor has carried beyond `i32`.
pub(crate) fn read_at(grid: &SymbolGrid, anchor: (i64, i64), shape: WindingShape) -> (res: Result<
    u32,
    TraversalBoundsError,
>)
    requires
        -0x1_0000_0000 <= anchor.0 <= 0x1_0000_0000,
        -0x1_0000_0000 <= anchor.1 <= 0x1_0000_0000,
    ensures
        is_read_result(res, grid@, (anchor.0 as int, anchor.1 as int), shape),
        res matches Ok(v) ==> v < two_pow(shape.offsets().len()),
{
    let table = shape.offset_table();
    let ghost all = samples(grid@, (anchor.0 as int, anchor.1 as int), shape.offsets());
    let ghost mut bits: Seq<nat> = Seq::empty();
    let mut acc: u32 = 0;
    let mut i: usize = 0;
    proof {
        assert(two_pow(8) == 256 && two_pow(4) == 16) by {
            reveal_with_fuel(two_pow, 9);
        }
    }
    while i < table.len()
        invariant
            i <= table@.len(),
            table@ == shape.offsets(),
            table@.len() == 4 || table@.len() == 8,
            forall|k: int|
                0 <= k < table@.len() ==> 0 <= (#[trigger] table@[k]).0 <= 3 && 0 <= table@[k].1 <= 3,
            -0x1_0000_0000 <= anchor.0 <= 0x1_0000_0000,
            -0x1_0000_0000 <= anchor.1 <= 0x1_0000_0000,
            all == samples(grid@, (anchor.0 as int, anchor.1 as int), shape.offsets()),
            bits.len() == i,
            is_bits(bits),
            forall|k: int| 0 <= k < i ==> #[trigger] all[k] == Ok::<nat, (int, int)>(bits[k]),
            acc == bits_value(bits),
            two_pow(8) == 256,
        decreases table@.len() - i,
    {
        let offset = table[i];
        let x: i64 = anchor.0 + offset.0 as i64;
        let y: i64 = anchor.1 + offset.1 as i64;
        match grid.module_at(x, y) {
            Some(m) => {
                proof {
                    lemma_bits_value_bound(bits);
                    lemma_two_pow_monotonic(bits.len(), 8);
                    lemma_bits_value_push(bits, m.bit());
                }
                acc = shift_in(acc, m.to_bit());
                proof {
                    bits = bits.push(m.bit());
                }
            },
            None => {
                proof {
                    assert(all[i as int] == Err::<nat, (int, int)>((x as int, y as int)));
                    assert(is_first_failure(all, i as int));
                    lemma_gather_first_failure(all, i as int);
                }
                return Err(TraversalBoundsError { x, y });
            },
        }
        i += 1;
    }
    proof {
        lemma_gather_all_ok(all, bits);
        lemma_bits_value_bound(bits);
    }
    Ok(acc)
}

/// How far the offsets of a shape reach to the right and downwards.
pub open spec fn extent(shape: WindingShape) -> (int, int) {
    match shape {
        WindingShape::Up4 => (1, 1),
        WindingShape::Up8 => (1, 3),
        WindingShape::Down8 => (1, 3),
        WindingShape::Left8 => (3, 1),
        WindingShape::LeftUp8 => (3, 1),
    }
}

/// A field whose anchor keeps the extent of its shape inside a square grid
/// is read without leaving the grid.
pub proof fn lemma_read_inside(g: Seq<Seq<Module>>, anchor: (int, int), shape: WindingShape)
    requires
        is_square(g),
        0 <= anchor.0,
        anchor.0 + extent(shape).0 < g.len(),
        0 <= anchor.1,
        anchor.1 + extent(shape).1 < g.len(),
    ensures
        read_outcome(g, anchor, shape) is Ok,
{
    let offsets = shape.offsets();
    let all = samples(g, anchor, offsets);
    assert forall|i: int| 0 <= i < all.len() implies (#[trigger] all[i]) is Ok by {
        assert(0 <= offsets[i].0 <= extent(shape).0 && 0 <= offsets[i].1 <= extent(shape).1);
        let p = (anchor.0 + offsets[i].0, anchor.1 + offsets[i].1);
        assert(g[p.1].len() == g.len());
        assert(in_bounds(g, p));
    }
}

/// One step of a winding path: the cursor moves by `(dx, dy)`, then a field
/// is read with `shape` at the place it has reached.
#[derive(Clone, Copy, Debug, PartialEq, Eq, Structural)]
pub struct WindingStep {
    pub dx: i32,
    pub dy: i32,
    pub shape: WindingShape,
}

/// The path along which the characters of the header are read.
pub open spec fn winding_path() -> Seq<WindingStep> {
    seq![
        WindingStep { dx: 0, dy: 0, shape: WindingShape::Up8 },
        WindingStep { dx: -2i32, dy: -2i32, shape: WindingShape::Left8 },
        WindingStep { dx: 0, dy: 2, shape: WindingShape::Down8 },
        WindingStep { dx: 0, dy: 4, shape: WindingShape::Down8 },
        WindingStep { dx: -2i32, dy: 4, shape: WindingShape::LeftUp8 },
        WindingStep { dx: 0, dy: -4i32, shape: WindingShape::Up8 },
        WindingStep { dx: 0, dy: -4i32, shape: WindingShape::Up8 },
        WindingStep { dx: -2i32, dy: -2i32, shape: WindingShape::Left8 },
        WindingStep { dx: 0, dy: 2, shape: WindingShape::Down8 },
        WindingStep { dx: 0, dy: 4, shape: WindingShape::Down8 },
        WindingStep { dx: -2i32, dy: 4, shape: WindingShape::LeftUp8 },
        WindingStep { dx: 0, dy: -4i32, shape: WindingShape::Up8 },
    ]
}

/// The winding path as a vector.
pub fn winding_steps() -> (path: Vec<WindingStep>)
    ensures
        path@ == winding_path(),
{
    let path = vec![
        WindingStep { dx: 0, dy: 0, shape: WindingShape::Up8 },
        WindingStep { dx: -2, dy: -2, shape: WindingShape::Left8 },
        WindingStep { dx: 0, dy: 2, shape: WindingShape::Down8 },
        WindingStep { dx: 0, dy: 4, shape: WindingShape::Down8 },
        WindingStep { dx: -2, dy: 4, shape: WindingShape::LeftUp8 },
        WindingStep { dx: 0, dy: -4, shape: WindingShape::Up8 },
        WindingStep { dx: 0, dy: -4, shape: WindingShape::Up8 },
        WindingStep { dx: -2, dy: -2, shape: WindingShape::Left8 },
        WindingStep { dx: 0, dy: 2, shape: WindingShape::Down8 },
        WindingStep { dx: 0, dy: 4, shape: WindingShape::Down8 },
        WindingStep { dx: -2, dy: 4, shape: WindingShape::LeftUp8 },
        WindingStep { dx: 0, dy: -4, shape: WindingShape::Up8 },
    ];
    assert(path@ =~= winding_path());
    path
}

/// Where the cursor stands after the displacements of the first `n` steps.
pub open spec fn cursor_after(start: (int, int), path: Seq<WindingStep>, n: nat) -> (int, int)
    decreases n,
{
    if n == 0 {
        start
    } else {
        let before = cursor_after(start, path, (n - 1) as nat);
        (before.0 + path[n - 1].dx, before.1 + path[n - 1].dy)
    }
}

/// What each step of the path reads, the cursor being displaced before the
/// step's field is sampled.
pub open spec fn step_outcomes(g: Seq<Seq<Module>>, start: (int, int), path: Seq<WindingStep>) -> Seq<
    Result<nat, (int, int)>,
> {
    Seq::new(
        path.len(),
        |k: int| read_outcome(g, cursor_after(start, path, (k + 1) as nat), path[k].shape),
    )
}

/// What walking a path yields: the field of every step in order, or the
/// coordinate at which the first failing step left the grid.
pub open spec fn walk_outcome(g: Seq<Seq<Module>>, start: (int, int), path: Seq<WindingStep>) -> Result<
    Seq<nat>,
    (int, int),
> {
    gather(step_outcomes(g, start, path))
}

/// A path with a step that samples outside the grid is not walked to its
/// end: the walk fails.
pub proof fn lemma_walk_outside_fails(
    g: Seq<Seq<Module>>,
    start: (int, int),
    path: Seq<WindingStep>,
    k: int,
)
    requires
        0 <= k < path.len(),
        read_outcome(g, cursor_after(start, path, (k + 1) as nat), path[k].shape) is Err,
    ensures
        walk_outcome(g, start, path) is Err,
{
    let all = step_outcomes(g, start, path);
    assert(all[k] is Err);
    lemma_gather_failure_exists(all);
}

/// The fields as numbers.
pub open spec fn as_nats(fields: Seq<u32>) -> Seq<nat> {
    Seq::new(fields.len(), |i: int| fields[i] as nat)
}

/// Walks `path` from `start`, given as `(x, y)`, and reads one field per
/// step. The walk ends at the first step that samples outside the grid.
pub fn walk(grid: &SymbolGrid, start: (i32, i32), path: &Vec<WindingStep>) -> (res: Result<
    Vec<u32>,
    TraversalBoundsError,
>)
    requires
        grid.wf(),
    ensures
        match res {
            Ok(fields) => walk_outcome(grid@, (start.0 as int, start.1 as int), path@) == Ok::<
                Seq<nat>,
                (int, int),
            >(as_nats(fields@)) && forall|k: int|
                0 <= k < fields@.len() ==> #[trigger] fields@[k] < two_pow(
                    path@[k].shape.offsets().len(),
                ),
            Err(e) => walk_outcome(grid@, (start.0 as int, start.1 as int), path@) == Err::<
                Seq<nat>,
                (int, int),
            >(e@),
        },
{
    let ghost origin = (start.0 as int, start.1 as int);
    let ghost all = step_outcomes(grid@, origin, path@);
    let mut fields: Vec<u32> = Vec::new();
    let mut x: i64 = start.0 as i64;
    let mut y: i64 = start.1 as i64;
    let mut k: usize = 0;
    while k < path.len()
        invariant
            k <= path@.len(),
            grid.wf(),
            origin == (start.0 as int, start.1 as int),
            all == step_outcomes(grid@, origin, path@),
            (x as int, y as int) == cursor_after(origin, path@, k as nat),
            -0x8000_0000 <= x <= 0x8000_0000,
            -0x8000_0000 <= y <= 0x8000_0000,
            fields@.len() == k,
            forall|j: int|
                0 <= j < k ==> #[trigger] all[j] == Ok::<nat, (int, int)>(fields@[j] as nat),
            forall|j: int|
                0 <= j < k ==> #[trigger] fields@[j] < two_pow(path@[j].shape.offsets().len()),
        decreases path@.len() - k,
    {
        let step = path[k];
        x = x + step.dx as i64;
        y = y + step.dy as i64;
        match read_at(grid, (x, y), step.shape) {
            Ok(v) => {
                proof {
                    lemma_read_anchor_range(grid@, (x as int, y as int), step.shape);
                }
                fields.push(v);
            },
            Err(e) => {
                proof {
                    assert(all[k as int] == Err::<nat, (int, int)>(e@));
                    assert(is_first_failure(all, k as int));
                    lemma_gather_first_failure(all, k as int);
                }
                return Err(e);
            },
        }
        k += 1;
    }
    proof {
        lemma_gather_all_ok(all, as_nats(fields@));
    }
    Ok(fields)
}

/// A field can only be read at an anchor whose first sample lies in the grid.
pub proof fn lemma_read_anchor_range(g: Seq<Seq<Module>>, anchor: (int, int), shape: WindingShape)
    requires
        read_outcome(g, anchor, shape) is Ok,
    ensures
        in_bounds(g, (anchor.0 + shape.offsets()[0].0, anchor.1 + shape.offsets()[0].1)),
{
    let all = samples(g, anchor, shape.offsets());
    assert(all_ok(all));
    assert(all[0] is Ok);
}

} // verus!
