//! The block grid: one code per block, either the cluster that all of the
//! block's pixels belong to, or the mark of a mixed block.
use vstd::prelude::*;
use crate::flatten::copy_of;
use crate::layout::{ceil_div, lemma_interval_span, Layout};
use crate::raster::{lemma_product_fits, lemma_row_major_index};

verus! {

/// The code of a block whose pixels do not all belong to one cluster.
/// Cluster ids stay below it.
pub const MIXED: u8 = 16;

/// Block side and image dimensions, as machine values.
#[derive(Clone, Copy, Debug, PartialEq, Eq)]
pub struct Tiling {
    pub block: usize,
    pub width: u32,
    pub height: u32,
}

/// The extent of one block in pixel coordinates.
#[derive(Clone, Copy, Debug, PartialEq, Eq)]
pub struct Rect {
    pub x0: u32,
    pub y0: u32,
    pub w: u32,
    pub h: u32,
}

impl Rect {
    /// Whether this is the extent of block `bi` under a layout.
    pub open spec fn covers(self, lay: Layout, bi: int) -> bool {
        &&& self.x0 == lay.x0(bi)
        &&& self.y0 == lay.y0(bi)
        &&& self.w == lay.block_w(bi)
        &&& self.h == lay.block_h(bi)
        &&& self.x0 + self.w <= lay.width
        &&& self.y0 + self.h <= lay.height
        &&& self.w >= 1
        &&& self.h >= 1
    }
}

impl View for Tiling {
    type V = Layout;

    open spec fn view(&self) -> Layout {
        Layout { block: self.block as nat, width: self.width as nat, height: self.height as nat }
    }
}

/// The number of intervals of length `b` that cover `n` positions.
pub fn intervals(n: u32, b: usize) -> (q: u32)
    requires
        b >= 1,
    ensures
        q == ceil_div(n as nat, b as nat),
{
    if n == 0 {
        0
    } else {
        let m: usize = (n - 1) as usize / b;
        proof {
            vstd::arithmetic::div_mod::lemma_div_is_ordered_by_denominator((n - 1) as int, 1, b as int);
            vstd::arithmetic::div_mod::lemma_div_pos_is_pos((n - 1) as int, b as int);
        }
        m as u32 + 1
    }
}

impl Tiling {
    /// Blocks per row.
    pub fn blocks_x(&self) -> (q: u32)
        requires
            self@.wf(),
        ensures
            q == self@.blocks_x(),
    {
        intervals(self.width, self.block)
    }

    /// Rows of blocks.
    pub fn blocks_y(&self) -> (q: u32)
        requires
            self@.wf(),
        ensures
            q == self@.blocks_y(),
    {
        intervals(self.height, self.block)
    }

    /// The number of blocks.
    pub fn block_count(&self) -> (n: u64)
        requires
            self@.wf(),
        ensures
            n == self@.block_count(),
    {
        let wx = self.blocks_x();
        let hy = self.blocks_y();
        proof {
            lemma_product_fits(wx as int, hy as int);
        }
        (wx as u64) * (hy as u64)
    }

    /// The extent of the block in column `bx` of block row `by`.
    pub fn rect(&self, bx: u32, by: u32) -> (r: Rect)
        requires
            self@.wf(),
            bx < self@.blocks_x(),
            by < self@.blocks_y(),
        ensures
            r.covers(self@, self@.block_at(bx as int, by as int)),
    {
        proof {
            self@.lemma_block_at(bx as int, by as int);
            lemma_interval_span(self.width as nat, self.block as nat, bx as int);
            lemma_interval_span(self.height as nat, self.block as nat, by as int);
        }
        let x0: usize = (bx as usize) * self.block;
        let y0: usize = (by as usize) * self.block;
        let rem_x: usize = self.width as usize - x0;
        let rem_y: usize = self.height as usize - y0;
        let w: usize = if rem_x < self.block { rem_x } else { self.block };
        let h: usize = if rem_y < self.block { rem_y } else { self.block };
        Rect { x0: x0 as u32, y0: y0 as u32, w: w as u32, h: h as u32 }
    }

    /// The extent of block number `bi`.
    pub fn rect_of(&self, bi: usize) -> (r: Rect)
        requires
            self@.wf(),
            bi < self@.block_count(),
        ensures
            r.covers(self@, bi as int),
    {
        proof {
            self@.lemma_block_number(bi as int);
        }
        let wx = self.blocks_x() as usize;
        self.rect((bi % wx) as u32, (bi / wx) as u32)
    }
}

/// The grid of block codes of one image.
#[derive(Clone, Debug, PartialEq, Eq)]
pub struct Grid {
    pub tiling: Tiling,
    /// One code per block, row by row.
    pub codes: Vec<u8>,
}

/// The mathematical model of a grid: its layout and one code per block,
/// row by row.
pub struct GridModel {
    pub layout: Layout,
    pub codes: Seq<u8>,
}

impl GridModel {
    /// The block side is positive and there is one code per block.
    pub open spec fn wf(self) -> bool {
        self.layout.wf() && self.codes.len() == self.layout.block_count()
    }
}

impl View for Grid {
    type V = GridModel;

    open spec fn view(&self) -> GridModel {
        GridModel { layout: self.tiling@, codes: self.codes@ }
    }
}

/// The grid that a list of block codes stands for under a layout; `None`
/// when the block side is zero or the list does not hold one code per block.
pub open spec fn grid_from(list: Seq<u8>, lay: Layout) -> Option<GridModel> {
    if lay.wf() && list.len() == lay.block_count() {
        Some(GridModel { layout: lay, codes: list })
    } else {
        None
    }
}

/// The model of an optional grid.
pub open spec fn grid_view(r: Option<Grid>) -> Option<GridModel> {
    match r {
        Some(g) => Some(g@),
        None => None,
    }
}

/// Reading a grid back from its own code list, under its own layout, gives
/// the same grid.
pub proof fn lemma_grid_round_trip(g: GridModel)
    requires
        g.wf(),
    ensures
        grid_from(g.codes, g.layout) == Some(g),
{
}

impl Grid {
    pub open spec fn layout(&self) -> Layout {
        self.tiling@
    }

    /// The block side is positive and there is one code per block.
    pub open spec fn wf(&self) -> bool {
        self@.wf()
    }

    /// The block codes in block order.
    pub fn to_list(&self) -> (list: Vec<u8>)
        ensures
            list@ == self.codes@,
    {
        copy_of(&self.codes)
    }

    /// Width and height of the image in pixels, in this order.
    pub fn image_dim(&self) -> (d: [u32; 2])
        ensures
            d[0] == self.tiling.width,
            d[1] == self.tiling.height,
    {
        [self.tiling.width, self.tiling.height]
    }
}

/// The grid that a list of block codes stands for under a tiling known
/// from elsewhere; `None` when the block side is zero or the list does not
/// hold one code per block.
pub fn from_list(list: &Vec<u8>, tiling: Tiling) -> (r: Option<Grid>)
    ensures
        grid_view(r) == grid_from(list@, tiling@),
        r matches Some(g) ==> g.wf() && g.tiling == tiling,
{
    if tiling.block == 0 {
        return None;
    }
    if list.len() as u64 != tiling.block_count() {
        return None;
    }
    Some(Grid { tiling, codes: copy_of(list) })
}

/// The raster of cluster ids: for every pixel the cluster it belongs to.
#[derive(Clone, Debug, PartialEq, Eq)]
pub struct ClusterMap {
    pub width: u32,
    pub height: u32,
    /// One id per pixel, row by row.
    pub ids: Vec<usize>,
}

impl ClusterMap {
    pub open spec fn wf(&self) -> bool {
        self.ids@.len() == self.width * self.height
    }

    /// `[width, height]`.
    pub fn shape(&self) -> (d: [u32; 2])
        ensures
            d[0] == self.width,
            d[1] == self.height,
    {
        [self.width, self.height]
    }

    /// The cluster of the pixel at column `x` of row `y`.
    pub fn get(&self, x: u32, y: u32) -> (id: usize)
        requires
            self.wf(),
            x < self.width,
            y < self.height,
        ensures
            id == id_at(self.ids@, self.width as nat, x as int, y as int),
    {
        let n = self.ids.len();
        proof {
            lemma_row_major_index(self.width as int, self.height as int, x as int, y as int);
            assert(0 <= (y as int) * (self.width as int)) by (nonlinear_arith)
                requires
                    0 <= y,
                    0 <= self.width,
            ;
            assert((y as int) * (self.width as int) + x < n);
        }
        self.ids[(y as usize) * (self.width as usize) + (x as usize)]
    }
}

/// The cluster id stored for pixel `(x, y)` in a row-major raster.
pub open spec fn id_at(ids: Seq<usize>, width: nat, x: int, y: int) -> usize {
    ids[y * width + x]
}

/// Whether all pixels of block `bi` carry the id of the block's first pixel.
pub open spec fn block_uniform(ids: Seq<usize>, lay: Layout, bi: int) -> bool {
    forall|x: int, y: int| #[trigger]
        lay.in_block(bi, x, y) ==> id_at(ids, lay.width, x, y) == id_at(
            ids,
            lay.width,
            lay.x0(bi),
            lay.y0(bi),
        )
}

/// The code of block `bi`: the cluster shared by its pixels, or `MIXED`.
pub open spec fn block_code(ids: Seq<usize>, lay: Layout, bi: int) -> u8 {
    if block_uniform(ids, lay, bi) {
        id_at(ids, lay.width, lay.x0(bi), lay.y0(bi)) as u8
    } else {
        MIXED
    }
}

/// The codes of all blocks, in block order.
pub open spec fn grid_codes(ids: Seq<usize>, lay: Layout) -> Seq<u8> {
    Seq::new(lay.block_count(), |bi: int| block_code(ids, lay, bi))
}

/// Classifies block number `bi`: the id shared by all of its pixels, or
/// `MIXED`.
pub fn classify_block(map: &ClusterMap, tiling: &Tiling, bi: usize) -> (code: u8)
    requires
        map.wf(),
        tiling@.wf(),
        map.width == tiling.width,
        map.height == tiling.height,
        bi < tiling@.block_count(),
        forall|i: int| 0 <= i < map.ids@.len() ==> map.ids@[i] < MIXED,
    ensures
        code == block_code(map.ids@, tiling@, bi as int),
{
    let ghost lay = tiling@;
    let r = tiling.rect_of(bi);
    proof {
        lemma_row_major_index(map.width as int, map.height as int, r.x0 as int, r.y0 as int);
    }
    let first = map.get(r.x0, r.y0);
    let mut y: u32 = r.y0;
    while y < r.y0 + r.h
        invariant
            map.wf(),
            lay == tiling@,
            lay.width == map.width,
            lay.height == map.height,
            r.covers(lay, bi as int),
            r.y0 <= y <= r.y0 + r.h,
            first == id_at(map.ids@, lay.width, lay.x0(bi as int), lay.y0(bi as int)),
            forall|px: int, py: int| #[trigger]
                lay.in_block(bi as int, px, py) && py < y ==> id_at(map.ids@, lay.width, px, py)
                    == first,
        decreases r.y0 + r.h - y,
    {
        let mut x: u32 = r.x0;
        while x < r.x0 + r.w
            invariant
                map.wf(),
                lay == tiling@,
                lay.width == map.width,
                lay.height == map.height,
                r.covers(lay, bi as int),
                r.y0 <= y < r.y0 + r.h,
                r.x0 <= x <= r.x0 + r.w,
                first == id_at(map.ids@, lay.width, lay.x0(bi as int), lay.y0(bi as int)),
                forall|px: int, py: int| #[trigger]
                    lay.in_block(bi as int, px, py) && (py < y || (py == y && px < x)) ==> id_at(
                        map.ids@,
                        lay.width,
                        px,
                        py,
                    ) == first,
            decreases r.x0 + r.w - x,
        {
            let id = map.get(x, y);
            if id != first {
                proof {
                    assert(lay.in_block(bi as int, x as int, y as int));
                    assert(!block_uniform(map.ids@, lay, bi as int));
                }
                return MIXED;
            }
            x += 1;
        }
        y += 1;
    }
    proof {
        assert(block_uniform(map.ids@, lay, bi as int));
    }
    first as u8
}

/// Cuts the cluster map into blocks of side `b_size` and classifies each.
pub fn calc_grid(map: &ClusterMap, b_size: usize) -> (grid: Grid)
    requires
        map.wf(),
        b_size >= 1,
        forall|i: int| 0 <= i < map.ids@.len() ==> map.ids@[i] < MIXED,
    ensures
        grid.wf(),
        grid.tiling == (Tiling { block: b_size, width: map.width, height: map.height }),
        grid.codes@ == grid_codes(map.ids@, grid.tiling@),
{
    let tiling = Tiling { block: b_size, width: map.width, height: map.height };
    let ghost lay = tiling@;
    let pixel_count = map.ids.len();
    let count = tiling.block_count();
    proof {
        lay.lemma_block_count_bound();
    }
    let mut codes: Vec<u8> = Vec::new();
    let mut bi: usize = 0;
    while (bi as u64) < count
        invariant
            map.wf(),
            tiling == (Tiling { block: b_size, width: map.width, height: map.height }),
            lay == tiling@,
            lay.wf(),
            count == lay.block_count(),
            count <= pixel_count,
            bi <= count,
            forall|i: int| 0 <= i < map.ids@.len() ==> map.ids@[i] < MIXED,
            codes@.len() == bi,
            forall|t: int| 0 <= t < bi ==> codes@[t] == block_code(map.ids@, lay, t),
        decreases count - bi,
    {
        codes.push(classify_block(map, &tiling, bi));
        bi += 1;
    }
    assert(codes@ =~= grid_codes(map.ids@, lay));
    Grid { tiling, codes }
}

} // verus!
