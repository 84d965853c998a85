//! Where and how large a grid is drawn in a viewport, and the colour of
//! every pixel that the drawing covers.

use vstd::prelude::*;
use crate::grid::{is_square, Module, SymbolGrid, MAX_DIMENSION};
use crate::trusted::{div_pair, max_u32, min_u32};

verus! {

/// The colour of a dark module and of the outline.
pub const BLACK: u32 = 0x0;

/// The colour of a light module.
pub const WHITE: u32 = 0xFFFF_FFFF;

/// Pixels of each module's share of the viewport that are left as margin.
pub const MODULE_MARGIN: u32 = 2;

/// Why no plan could be made.
#[derive(Clone, Copy, Debug, PartialEq, Eq, Structural)]
pub enum RenderError {
    /// The viewport leaves no pixel for a module.
    ViewportTooSmall,
}

/// A plan with its numbers unbounded.
pub struct PlanView {
    pub module_pixel_size: nat,
    pub offset: (nat, nat),
    pub colors: Seq<Seq<u32>>,
    pub outline: bool,
}

/// How a grid is drawn: the side of a module in pixels, the `(x, y)` pixel
/// at which the drawing starts, the colour of each module by row and column,
/// and whether the drawing is framed by a black outline one pixel wide.
#[derive(Debug)]
pub struct RenderPlan {
    pub module_pixel_size: u32,
    pub offset: (u32, u32),
    pub colors: Vec<Vec<u32>>,
    pub outline: bool,
}

impl View for RenderPlan {
    type V = PlanView;

    open spec fn view(&self) -> PlanView {
        PlanView {
            module_pixel_size: self.module_pixel_size as nat,
            offset: (self.offset.0 as nat, self.offset.1 as nat),
            colors: Seq::new(self.colors@.len(), |r: int| self.colors@[r]@),
            outline: self.outline,
        }
    }
}

/// The smaller of two numbers.
pub open spec fn smaller(a: int, b: int) -> int {
    if a <= b {
        a
    } else {
        b
    }
}

/// The larger of two numbers.
pub open spec fn larger(a: int, b: int) -> int {
    if a >= b {
        a
    } else {
        b
    }
}

/// The colour in which a module is drawn.
pub open spec fn color_of(m: Module) -> u32 {
    match m {
        Module::Dark => BLACK,
        Module::Light => WHITE,
    }
}

/// The colours of all modules of a grid.
pub open spec fn colors_of(g: Seq<Seq<Module>>) -> Seq<Seq<u32>> {
    Seq::new(g.len(), |r: int| Seq::new(g[r].len(), |c: int| color_of(g[r][c])))
}

/// The side of a module in pixels: the share of the viewport's shorter side
/// that falls to each module of the grid's longer side, less the margin.
pub open spec fn module_side(g: Seq<Seq<Module>>, viewport: (int, int)) -> int {
    smaller(viewport.0, viewport.1) / larger(g[0].len() as int, g.len() as int) - MODULE_MARGIN
}

/// The plan for drawing `g` centred in a viewport of `(width, height)`
/// pixels, or the reason why there is none.
pub open spec fn plan_outcome(g: Seq<Seq<Module>>, viewport: (int, int)) -> Result<
    PlanView,
    RenderError,
> {
    let side = module_side(g, viewport);
    if side <= 0 {
        Err(RenderError::ViewportTooSmall)
    } else {
        Ok(
            PlanView {
                module_pixel_size: side as nat,
                offset: (
                    ((viewport.0 - side * g[0].len()) / 2) as nat,
                    ((viewport.1 - side * g.len()) / 2) as nat,
                ),
                colors: colors_of(g),
                outline: true,
            },
        )
    }
}

impl PlanView {
    /// The modules form a square of a side that a symbol can have, and each
    /// takes at least one pixel.
    pub open spec fn wf(self) -> bool {
        &&& is_square(self.colors)
        &&& 1 <= self.colors.len() <= MAX_DIMENSION
        &&& self.module_pixel_size >= 1
    }

    /// The side of the whole drawing in pixels.
    pub open spec fn block_side(self) -> nat {
        self.module_pixel_size * self.colors.len()
    }

    /// The drawing lies within a viewport of `(width, height)` pixels.
    pub open spec fn fits(self, viewport: (int, int)) -> bool {
        self.offset.0 + self.block_side() <= viewport.0 && self.offset.1 + self.block_side()
            <= viewport.1
    }

    /// The drawing covers the pixel at column `px` of row `py`.
    pub open spec fn covers(self, px: int, py: int) -> bool {
        self.offset.0 <= px < self.offset.0 + self.block_side() && self.offset.1 <= py
            < self.offset.1 + self.block_side()
    }

    /// The pixel lies on the outermost pixel row or column of the drawing.
    pub open spec fn on_frame(self, px: int, py: int) -> bool {
        px == self.offset.0 || px == self.offset.0 + self.block_side() - 1 || py == self.offset.1
            || py == self.offset.1 + self.block_side() - 1
    }

    /// The colour of a pixel that the drawing covers: black on the outline,
    /// else the colour of the module that the pixel belongs to.
    pub open spec fn pixel_color(self, px: int, py: int) -> u32 {
        if self.outline && self.on_frame(px, py) {
            BLACK
        } else {
            self.colors[(py - self.offset.1) / (self.module_pixel_size as int)][(px
                - self.offset.0) / (self.module_pixel_size as int)]
        }
    }

    /// The colour that the drawing gives a pixel, if it covers the pixel.
    pub open spec fn pixel(self, px: int, py: int) -> Option<u32> {
        if self.covers(px, py) {
            Some(self.pixel_color(px, py))
        } else {
            None
        }
    }
}

/// Plans how `grid` is drawn, as large as the margin allows and centred, in
/// a viewport of `(width, height)` pixels.
pub fn plan_render(grid: &SymbolGrid, viewport: (u32, u32)) -> (res: Result<RenderPlan, RenderError>)
    requires
        grid.wf(),
    ensures
        match res {
            Ok(plan) => plan_outcome(grid@, (viewport.0 as int, viewport.1 as int)) == Ok::<
                PlanView,
                RenderError,
            >(plan@) && plan@.wf() && plan@.fits((viewport.0 as int, viewport.1 as int)),
            Err(e) => plan_outcome(grid@, (viewport.0 as int, viewport.1 as int)) == Err::<
                PlanView,
                RenderError,
            >(e),
        },
{
    let n = grid.dimension();
    let width = n as u32;
    let height = n as u32;
    assert(grid@[0].len() == n);
    let share = min_u32(viewport.0, viewport.1) / max_u32(width, height);
    if share <= MODULE_MARGIN {
        return Err(RenderError::ViewportTooSmall);
    }
    let side = share - MODULE_MARGIN;
    assert(side * n <= viewport.0 && side * n <= viewport.1) by (nonlinear_arith)
        requires
            n > 0,
            0 <= side <= share,
            share == smaller(viewport.0 as int, viewport.1 as int) / (n as int),
    ;
    let offset = div_pair(viewport.0 - side * width, viewport.1 - side * height, 2);
    let mut colors: Vec<Vec<u32>> = Vec::new();
    let mut r: usize = 0;
    while r < n
        invariant
            r <= n,
            n == grid@.len(),
            grid.wf(),
            colors@.len() == r,
            forall|k: int| 0 <= k < r ==> (#[trigger] colors@[k])@ == colors_of(grid@)[k],
        decreases n - r,
    {
        let mut row: Vec<u32> = Vec::new();
        let mut c: usize = 0;
        while c < n
            invariant
                r < n,
                c <= n,
                n == grid@.len(),
                grid.wf(),
                grid@[r as int].len() == n,
                row@.len() == c,
                forall|k: int| 0 <= k < c ==> #[trigger] row@[k] == color_of(grid@[r as int][k]),
            decreases n - c,
        {
            let color = match grid.get(r, c) {
                Some(Module::Dark) => BLACK,
                _ => WHITE,
            };
            row.push(color);
            c += 1;
        }
        assert(row@ =~= colors_of(grid@)[r as int]);
        colors.push(row);
        r += 1;
    }
    let plan = RenderPlan { module_pixel_size: side, offset, colors, outline: true };
    assert(plan@.colors =~= colors_of(grid@));
    Ok(plan)
}

impl RenderPlan {
    /// Whether the drawing lies within a viewport of `(width, height)` pixels.
    pub fn fits(&self, viewport: (u32, u32)) -> (b: bool)
        requires
            self@.wf(),
        ensures
            b == self@.fits((viewport.0 as int, viewport.1 as int)),
    {
        let block = self.block_side();
        self.offset.0 as u64 + block <= viewport.0 as u64 && self.offset.1 as u64 + block
            <= viewport.1 as u64
    }

    /// The side of the whole drawing in pixels.
    pub fn block_side(&self) -> (side: u64)
        requires
            self@.wf(),
        ensures
            side == self@.block_side(),
            side <= 0xffff_ffff * 177,
    {
        let n = self.colors.len() as u64;
        assert(self.module_pixel_size * n <= 0xffff_ffff * 177) by (nonlinear_arith)
            requires
                self.module_pixel_size <= 0xffff_ffff,
                n <= 177,
        ;
        self.module_pixel_size as u64 * n
    }

    /// The colour that the drawing gives the pixel at column `px` of row
    /// `py`, if it covers the pixel.
    pub fn pixel(&self, px: u32, py: u32) -> (color: Option<u32>)
        requires
            self@.wf(),
        ensures
            color == self@.pixel(px as int, py as int),
    {
        let side = self.module_pixel_size as u64;
        let block = self.block_side();
        let left = self.offset.0 as u64;
        let top = self.offset.1 as u64;
        let x = px as u64;
        let y = py as u64;
        if x < left || x >= left + block || y < top || y >= top + block {
            return None;
        }
        if self.outline && (x == left || x == left + block - 1 || y == top || y == top + block - 1) {
            return Some(BLACK);
        }
        let row = (y - top) / side;
        let col = (x - left) / side;
        let ghost n = self.colors@.len() as int;
        assert(row < n && col < n) by (nonlinear_arith)
            requires
                row == (y - top) / (side as int),
                col == (x - left) / (side as int),
                side >= 1,
                0 <= y - top < side * n,
                0 <= x - left < side * n,
        ;
        assert(self@.colors[row as int].len() == n);
        Some(self.colors[row as usize][col as usize])
    }
}

/// The place of the pixel at column `px` of row `py` in a buffer that holds
/// the rows of a viewport one after the other.
pub open spec fn pixel_index(px: int, py: int, width: int) -> int {
    py * width + px
}

/// What a pixel holds once a plan has been painted over a buffer.
pub open spec fn painted_pixel(plan: PlanView, before: Seq<u32>, width: int, px: int, py: int) -> u32 {
    match plan.pixel(px, py) {
        Some(color) => color,
        None => before[pixel_index(px, py, width)],
    }
}

/// Two pixels of a viewport that share a place in the buffer are the same.
pub proof fn lemma_pixel_index_injective(ax: int, ay: int, bx: int, by: int, width: int)
    by (nonlinear_arith)
    requires
        0 <= ax < width,
        0 <= bx < width,
        0 <= ay,
        0 <= by,
        ay * width + ax == by * width + bx,
    ensures
        ax == bx,
        ay == by,
{
}

/// Every pixel of a viewport has a place in a buffer of as many elements
/// as the viewport has pixels.
pub proof fn lemma_pixel_index_bound(px: int, py: int, width: int, height: int)
    by (nonlinear_arith)
    requires
        0 <= px < width,
        0 <= py < height,
    ensures
        0 <= py * width + px < width * height,
{
}

/// What a pixel holds while the painting goes on: the rows above `row` are
/// painted, and of row `row` the pixels to the left of `col`.
pub open spec fn painted_up_to(
    plan: PlanView,
    before: Seq<u32>,
    width: int,
    col: int,
    row: int,
    px: int,
    py: int,
) -> u32 {
    if py < row || (py == row && px < col) {
        painted_pixel(plan, before, width, px, py)
    } else {
        before[pixel_index(px, py, width)]
    }
}

/// Paints the drawing into `buffer`, which holds the pixels of a viewport of
/// `(width, height)` pixels row by row. Pixels that the drawing does not
/// cover keep what they held.
pub fn paint(plan: &RenderPlan, buffer: &mut Vec<u32>, viewport: (u32, u32))
    requires
        plan@.wf(),
        plan@.fits((viewport.0 as int, viewport.1 as int)),
        old(buffer)@.len() == viewport.0 * viewport.1,
    ensures
        final(buffer)@.len() == old(buffer)@.len(),
        forall|px: int, py: int|
            0 <= px < viewport.0 && 0 <= py < viewport.1 ==> final(buffer)@[#[trigger] pixel_index(
                px,
                py,
                viewport.0 as int,
            )] == painted_pixel(plan@, old(buffer)@, viewport.0 as int, px, py),
{
    let ghost before = buffer@;
    let ghost width = viewport.0 as int;
    let ghost height = viewport.1 as int;
    let total = buffer.len();
    let block = plan.block_side();
    let left: u32 = plan.offset.0;
    let top: u32 = plan.offset.1;
    let right: u32 = (left as u64 + block) as u32;
    let bottom: u32 = (top as u64 + block) as u32;
    let mut py: u32 = top;
    while py < bottom
        invariant
            top <= py <= bottom,
            plan@.wf(),
            width == viewport.0,
            height == viewport.1,
            left == plan@.offset.0,
            top == plan@.offset.1,
            right == left + plan@.block_side(),
            bottom == top + plan@.block_side(),
            right <= width,
            bottom <= height,
            buffer@.len() == total,
            total == width * height,
            before.len() == total,
            forall|qx: int, qy: int|
                0 <= qx < width && 0 <= qy < height ==> buffer@[#[trigger] pixel_index(qx, qy, width)]
                    == painted_up_to(plan@, before, width, 0, py as int, qx, qy),
        decreases bottom - py,
    {
        let mut px: u32 = left;
        while px < right
            invariant
                top <= py < bottom,
                left <= px <= right,
                plan@.wf(),
                width == viewport.0,
                height == viewport.1,
                left == plan@.offset.0,
                top == plan@.offset.1,
                right == left + plan@.block_side(),
                bottom == top + plan@.block_side(),
                right <= width,
                bottom <= height,
                buffer@.len() == total,
                total == width * height,
                before.len() == total,
                forall|qx: int, qy: int|
                    0 <= qx < width && 0 <= qy < height ==> buffer@[#[trigger] pixel_index(
                        qx,
                        qy,
                        width,
                    )] == painted_up_to(plan@, before, width, px as int, py as int, qx, qy),
            decreases right - px,
        {
            let color = match plan.pixel(px, py) {
                Some(color) => color,
                None => BLACK,
            };
            proof {
                lemma_pixel_index_bound(px as int, py as int, viewport.0 as int, viewport.1 as int);
                assert(py * viewport.0 + px < total);
                assert(0 <= py * viewport.0) by (nonlinear_arith)
                    requires
                        0 <= py,
                        0 <= viewport.0,
                ;
            }
            let index = py as usize * viewport.0 as usize + px as usize;
            let ghost earlier = buffer@;
            buffer[index] = color;
            assert forall|qx: int, qy: int| 0 <= qx < width && 0 <= qy < height implies buffer@[
                #[trigger] pixel_index(qx, qy, width)
            ] == painted_up_to(plan@, before, width, px + 1, py as int, qx, qy) by {
                lemma_pixel_index_bound(qx, qy, width, height);
                if pixel_index(qx, qy, width) == index {
                    lemma_pixel_index_injective(qx, qy, px as int, py as int, width);
                } else {
                    assert(buffer@[pixel_index(qx, qy, width)] == earlier[pixel_index(qx, qy, width)]);
                }
            }
            px += 1;
        }
        assert forall|qx: int, qy: int| 0 <= qx < width && 0 <= qy < height implies buffer@[
            #[trigger] pixel_index(qx, qy, width)
        ] == painted_up_to(plan@, before, width, 0, py + 1, qx, qy) by {
            if qy == py && (qx < left || qx >= right) {
                assert(!plan@.covers(qx, qy));
            }
        }
        py += 1;
    }
    assert forall|qx: int, qy: int| 0 <= qx < width && 0 <= qy < height implies buffer@[
        #[trigger] pixel_index(qx, qy, width)
    ] == painted_pixel(plan@, before, width, qx, qy) by {
        if qy >= bottom {
            assert(!plan@.covers(qx, qy));
        }
    }
}

} // verus!
