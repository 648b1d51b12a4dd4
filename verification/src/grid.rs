//! The tile grid: a rectangle of materials stored row by row.

use vstd::prelude::*;
use crate::geometry::Point2;
use crate::material::{Material, codes_of, materials_of};

verus! {

/// The side of a tile, in world units.
pub const TILE: i32 = 32;

/// The cell index that stands for "off the grid": no grid has a column or a
/// row of this index that a position could name.
pub const OFF_GRID: u16 = 65535;

/// The place of cell `(x, y)` in the storage of a grid `width` cells wide.
pub open spec fn cell_index(width: int, x: int, y: int) -> int {
    y * width + x
}

/// The cell index of one coordinate: negative coordinates are off the grid,
/// and so is everything at or beyond the last index.
pub open spec fn snap_coord(n: int) -> u16 {
    if n < 0 || n / (TILE as int) >= OFF_GRID {
        OFF_GRID
    } else {
        (n / (TILE as int)) as u16
    }
}

/// Whether `count` cells fill whole rows of a grid `width` wide, at most
/// 65535 of them. A grid without columns has no cells.
pub open spec fn whole_rows(width: nat, count: nat) -> bool {
    if width == 0 {
        count == 0
    } else {
        count % width == 0 && count / width <= 65535
    }
}

/// A rectangle of tiles. The height is not stored: it is the number of stored
/// cells divided by the width.
#[derive(Debug, Clone)]
pub struct Grid {
    width: u16,
    mats: Vec<Material>,
}

impl Grid {
    /// The number of columns.
    pub closed spec fn spec_width(self) -> nat {
        self.width as nat
    }

    /// The stored cells, row by row.
    pub closed spec fn cells(self) -> Seq<Material> {
        self.mats@
    }

    /// The cells fill whole rows, and there are at most 65535 rows. A grid
    /// without columns has no cells.
    pub open spec fn wf(self) -> bool {
        whole_rows(self.spec_width(), self.cells().len())
    }

    /// The number of rows.
    pub open spec fn spec_height(self) -> nat {
        if self.spec_width() == 0 {
            0
        } else {
            self.cells().len() / self.spec_width()
        }
    }

    /// The material of cell `(x, y)`, if the grid has that cell.
    pub open spec fn spec_get(self, x: int, y: int) -> Option<Material> {
        if 0 <= x < self.spec_width() && 0 <= y && cell_index(self.spec_width() as int, x, y)
            < self.cells().len() {
            Some(self.cells()[cell_index(self.spec_width() as int, x, y)])
        } else {
            None
        }
    }

    /// Whether cell `(x, y)` blocks: a cell that the grid lacks does.
    pub open spec fn spec_is_solid(self, x: int, y: int) -> bool {
        match self.spec_get(x, y) {
            Some(m) => m.spec_solid(),
            None => true,
        }
    }

    /// Whether `to` is this grid with a column of grass added at the end of
    /// every row. A grid that is 65535 cells wide cannot grow: it is its own
    /// widening.
    pub open spec fn widened_to(self, to: Grid) -> bool {
        if self.spec_width() == 65535 {
            to == self
        } else {
            &&& to.spec_width() == self.spec_width() + 1
            &&& to.cells().len() == to.spec_width() * self.spec_height()
            &&& forall|x: int, y: int|
                0 <= x <= self.spec_width() && 0 <= y < self.spec_height()
                    ==> #[trigger] to.spec_get(x, y) == (if x < self.spec_width() {
                    self.spec_get(x, y)
                } else {
                    Some(Material::Grass)
                })
        }
    }

    /// Whether `to` is this grid without the last cell of every row. A grid
    /// at most one cell wide cannot shrink: it is its own thinning.
    pub open spec fn thinned_to(self, to: Grid) -> bool {
        if self.spec_width() <= 1 {
            to == self
        } else {
            &&& to.spec_width() == self.spec_width() - 1
            &&& to.cells().len() == to.spec_width() * self.spec_height()
            &&& forall|x: int, y: int|
                0 <= x < to.spec_width() && 0 <= y < self.spec_height()
                    ==> #[trigger] to.spec_get(x, y) == self.spec_get(x, y)
        }
    }

    /// A well-formed grid has exactly the cells `(x, y)` with `x` below its
    /// width and `y` below its height, and stores `width * height` cells.
    pub proof fn lemma_cells(self)
        requires
            self.wf(),
        ensures
            self.cells().len() == self.spec_width() * self.spec_height(),
            self.spec_width() <= 65535,
            self.spec_height() <= 65535,
            forall|x: int, y: int|
                (#[trigger] self.spec_get(x, y)).is_some() <==> (0 <= x < self.spec_width() && 0
                    <= y < self.spec_height()),
    {
        let w = self.spec_width() as int;
        let n = self.cells().len() as int;
        let h = self.spec_height() as int;
        if w > 0 {
            assert(n == w * h) by (nonlinear_arith)
                requires
                    w > 0,
                    n % w == 0,
                    h == n / w,
            ;
        }
        assert forall|x: int, y: int|
            (#[trigger] self.spec_get(x, y)).is_some() <==> (0 <= x < w && 0 <= y < h) by {
            if 0 <= x < w && 0 <= y {
                lemma_cell_in_rows(w, x, y, h);
            }
        }
    }

    /// An all-grass grid of the given size. A grid without columns has no
    /// rows, whatever height is asked for.
    pub fn new(width: u16, height: u16) -> (g: Grid)
        ensures
            g.wf(),
            g.spec_width() == width,
            g.cells() == Seq::new((width * height) as nat, |i: int| Material::Grass),
            g.spec_height() == (if width > 0 {
                height
            } else {
                0
            }),
    {
        assert(width * height <= 65535 * 65535) by (nonlinear_arith)
            requires
                width <= 65535,
                height <= 65535,
        ;
        let n: usize = width as usize * height as usize;
        let mut mats: Vec<Material> = Vec::new();
        let mut i: usize = 0;
        while i < n
            invariant
                i <= n,
                mats@ == Seq::new(i as nat, |k: int| Material::Grass),
            decreases n - i,
        {
            mats.push(Material::Grass);
            i = i + 1;
        }
        proof {
            if width > 0 {
                lemma_rows(width as int, height as int);
            }
        }
        Grid { width, mats }
    }

    /// The grid of the given width whose cells are stored as `codes`, row by
    /// row; `None` where the codes do not fill whole rows, or fill more than
    /// 65535.
    pub fn from_codes(width: u16, codes: &Vec<u8>) -> (r: Option<Grid>)
        ensures
            match r {
                Some(g) => {
                    &&& whole_rows(width as nat, codes@.len())
                    &&& g.wf()
                    &&& g.spec_width() == width
                    &&& g.cells() == materials_of(codes@)
                },
                None => !whole_rows(width as nat, codes@.len()),
            },
    {
        let n = codes.len();
        if width == 0 {
            if n != 0 {
                return None;
            }
        } else if n % width as usize != 0 || n / width as usize > 65535 {
            return None;
        }
        let mut mats: Vec<Material> = Vec::new();
        let mut i: usize = 0;
        while i < n
            invariant
                i <= n,
                n == codes@.len(),
                mats@ == materials_of(codes@.subrange(0, i as int)),
            decreases n - i,
        {
            mats.push(Material::from_code(codes[i]));
            i = i + 1;
            assert(mats@ =~= materials_of(codes@.subrange(0, i as int)));
        }
        assert(codes@.subrange(0, n as int) =~= codes@);
        Some(Grid { width, mats })
    }

    /// The bytes under which the cells are stored, row by row.
    pub fn codes(&self) -> (v: Vec<u8>)
        ensures
            v@ == codes_of(self.cells()),
    {
        let n = self.mats.len();
        let mut v: Vec<u8> = Vec::new();
        let mut i: usize = 0;
        while i < n
            invariant
                i <= n,
                n == self.mats@.len(),
                v@ == codes_of(self.mats@.subrange(0, i as int)),
            decreases n - i,
        {
            v.push(self.mats[i].code());
            i = i + 1;
            assert(v@ =~= codes_of(self.mats@.subrange(0, i as int)));
        }
        assert(self.mats@.subrange(0, n as int) =~= self.mats@);
        v
    }

    /// Checks that the cells fill whole rows, at most 65535 of them.
    pub fn is_valid(&self) -> (b: bool)
        ensures
            b == self.wf(),
    {
        let n = self.mats.len();
        if self.width == 0 {
            n == 0
        } else {
            n % self.width as usize == 0 && n / self.width as usize <= 65535
        }
    }

    /// The number of columns.
    #[inline]
    pub fn width(&self) -> (w: u16)
        ensures
            w == self.spec_width(),
    {
        self.width
    }

    /// The number of rows; a grid without columns has none.
    pub fn height(&self) -> (h: u16)
        requires
            self.wf(),
        ensures
            h == self.spec_height(),
    {
        if self.width == 0 {
            0
        } else {
            (self.mats.len() / self.width as usize) as u16
        }
    }

    /// The cells of this grid laid out `new_width` wide: each row keeps its
    /// leading cells and is filled up with grass at its end.
    fn relaid(&self, new_width: u16) -> (v: Vec<Material>)
        requires
            self.wf(),
        ensures
            v@.len() == new_width * self.spec_height(),
            forall|x: int, y: int|
                0 <= x < new_width && 0 <= y < self.spec_height() ==> #[trigger] v@[cell_index(
                    new_width as int,
                    x,
                    y,
                )] == (if x < self.spec_width() {
                    self.cells()[cell_index(self.spec_width() as int, x, y)]
                } else {
                    Material::Grass
                }),
    {
        let h = self.height();
        let w = self.width;
        let mut v: Vec<Material> = Vec::new();
        let mut y: u16 = 0;
        proof {
            self.lemma_cells();
        }
        while y < h
            invariant
                self.wf(),
                h == self.spec_height(),
                w == self.spec_width(),
                self.cells() == self.mats@,
                self.mats@.len() == w * h,
                y <= h,
                v@.len() == new_width * y,
                forall|x: int, r: int|
                    0 <= x < new_width && 0 <= r < y ==> #[trigger] v@[cell_index(
                        new_width as int,
                        x,
                        r,
                    )] == (if x < w {
                        self.mats@[cell_index(w as int, x, r)]
                    } else {
                        Material::Grass
                    }),
            decreases h - y,
        {
            let mut x: u16 = 0;
            while x < new_width
                invariant
                    h == self.spec_height(),
                    w == self.spec_width(),
                    self.cells() == self.mats@,
                    self.mats@.len() == w * h,
                    y < h,
                    x <= new_width,
                    v@.len() == new_width * y + x,
                    forall|c: int, r: int|
                        0 <= c < new_width && 0 <= r < y ==> #[trigger] v@[cell_index(
                            new_width as int,
                            c,
                            r,
                        )] == (if c < w {
                            self.mats@[cell_index(w as int, c, r)]
                        } else {
                            Material::Grass
                        }),
                    forall|c: int|
                        0 <= c < x ==> #[trigger] v@[cell_index(new_width as int, c, y as int)]
                            == (if c < w {
                            self.mats@[cell_index(w as int, c, y as int)]
                        } else {
                            Material::Grass
                        }),
                decreases new_width - x,
            {
                let ghost before = v@;
                proof {
                    if x < w {
                        lemma_cell_in_rows(w as int, x as int, y as int, h as int);
                    }
                    assert(y * w <= 65535 * 65535) by (nonlinear_arith)
                        requires
                            0 <= w <= 65535,
                            0 <= y <= 65535,
                    ;
                    assert(y * new_width == new_width * y) by (nonlinear_arith);
                }
                let m = if x < w {
                    self.mats[y as usize * w as usize + x as usize]
                } else {
                    Material::Grass
                };
                v.push(m);
                proof {
                    assert forall|c: int, r: int| 0 <= c < new_width && 0 <= r < y implies v@[cell_index(
                        new_width as int,
                        c,
                        r,
                    )] == before[cell_index(new_width as int, c, r)] by {
                        lemma_cell_in_rows(new_width as int, c, r, y as int);
                    }
                    assert forall|c: int| 0 <= c < x implies v@[cell_index(
                        new_width as int,
                        c,
                        y as int,
                    )] == before[cell_index(new_width as int, c, y as int)] by {}
                    assert(cell_index(new_width as int, x as int, y as int) == before.len());
                }
                x = x + 1;
            }
            proof {
                assert(new_width * (y + 1) == new_width * y + new_width) by (nonlinear_arith);
            }
            y = y + 1;
        }
        v
    }

    /// Adds a column of grass at the end of every row. A grid that is 65535
    /// cells wide stays as it is.
    pub fn widen(&mut self)
        requires
            old(self).wf(),
        ensures
            final(self).wf(),
            old(self).widened_to(*final(self)),
    {
        if self.width == 65535 {
            return;
        }
        let ghost h = self.spec_height() as int;
        let ghost w = self.spec_width() as int;
        let mats = self.relaid(self.width + 1);
        proof {
            self.lemma_cells();
            lemma_rows(w + 1, h);
            assert forall|x: int, y: int| 0 <= x <= w && 0 <= y < h implies cell_index(w + 1, x, y)
                < mats@.len() && (x < w ==> cell_index(w, x, y) < self.cells().len()) by {
                lemma_cell_in_rows(w + 1, x, y, h);
                if x < w {
                    lemma_cell_in_rows(w, x, y, h);
                }
            }
        }
        self.width = self.width + 1;
        self.mats = mats;
    }

    /// Removes the last cell of every row. A grid at most one cell wide stays
    /// as it is.
    pub fn thin(&mut self)
        requires
            old(self).wf(),
        ensures
            final(self).wf(),
            old(self).thinned_to(*final(self)),
    {
        if self.width <= 1 {
            return;
        }
        let ghost h = self.spec_height() as int;
        let ghost w = self.spec_width() as int;
        let mats = self.relaid(self.width - 1);
        proof {
            self.lemma_cells();
            lemma_rows(w - 1, h);
            assert forall|x: int, y: int| 0 <= x < w - 1 && 0 <= y < h implies cell_index(w - 1, x, y)
                < mats@.len() && cell_index(w, x, y) < self.cells().len() by {
                lemma_cell_in_rows(w - 1, x, y, h);
                lemma_cell_in_rows(w, x, y, h);
            }
        }
        self.width = self.width - 1;
        self.mats = mats;
    }

    /// Appends a row of grass. A grid of 65535 rows stays as it is.
    pub fn heighten(&mut self)
        requires
            old(self).wf(),
        ensures
            final(self).wf(),
            final(self).spec_width() == old(self).spec_width(),
            old(self).spec_width() == 0 || old(self).spec_height() == 65535 ==> *final(self)
                == *old(self),
            old(self).spec_width() > 0 && old(self).spec_height() < 65535 ==> {
                &&& final(self).spec_height() == old(self).spec_height() + 1
                &&& final(self).cells() == old(self).cells() + Seq::new(
                    old(self).spec_width(),
                    |i: int| Material::Grass,
                )
            },
    {
        if self.width == 0 || self.height() == 65535 {
            return;
        }
        let ghost before = self.mats@;
        let w = self.width;
        proof {
            self.lemma_cells();
            lemma_rows(w as int, (self.spec_height() + 1) as int);
            assert(w * (self.spec_height() + 1) <= 65535 * 65535 && w * (self.spec_height() + 1)
                == w * self.spec_height() + w) by (nonlinear_arith)
                requires
                    0 <= w <= 65535,
                    0 <= self.spec_height() + 1 <= 65535,
            ;
        }
        let ghost rows = self.spec_height();
        let mut i: u16 = 0;
        while i < w
            invariant
                i <= w,
                self.width == w,
                self.mats@ == before + Seq::new(i as nat, |k: int| Material::Grass),
                before.len() + w <= 65535 * 65535,
            decreases w - i,
        {
            self.mats.push(Material::Grass);
            i = i + 1;
        }
        assert(self.mats@.len() == w * (rows + 1));
    }

    /// Removes the last row. A grid of at most one row stays as it is.
    pub fn shorten(&mut self)
        requires
            old(self).wf(),
        ensures
            final(self).wf(),
            final(self).spec_width() == old(self).spec_width(),
            old(self).spec_height() <= 1 ==> *final(self) == *old(self),
            old(self).spec_height() > 1 ==> {
                &&& final(self).spec_height() == old(self).spec_height() - 1
                &&& final(self).cells() == old(self).cells().subrange(
                    0,
                    old(self).cells().len() - old(self).spec_width(),
                )
            },
    {
        if self.height() <= 1 {
            return;
        }
        proof {
            self.lemma_cells();
            lemma_rows(self.spec_width() as int, self.spec_height() - 1);
            assert(self.spec_width() * (self.spec_height() - 1) == self.spec_width()
                * self.spec_height() - self.spec_width()) by (nonlinear_arith);
        }
        let new_len = self.mats.len() - self.width as usize;
        self.mats.truncate(new_len);
    }

    /// The cell under a position.
    #[inline]
    pub fn snap(c: Point2) -> (cell: (u16, u16))
        ensures
            cell == (snap_coord(c.x as int), snap_coord(c.y as int)),
    {
        Self::snap_coords(c.x, c.y)
    }

    /// The place of cell `(x, y)` in the storage.
    #[inline]
    fn idx(&self, x: u16, y: u16) -> (i: usize)
        ensures
            i == cell_index(self.spec_width() as int, x as int, y as int),
    {
        assert(y * self.width <= 65535 * 65535) by (nonlinear_arith)
            requires
                0 <= y <= 65535,
                0 <= self.width <= 65535,
        ;
        x as usize + y as usize * self.width as usize
    }

    /// The cell under the position `(x, y)`: each coordinate divided by the
    /// tile size. A negative coordinate gives the off-grid index, not zero.
    pub fn snap_coords(x: i32, y: i32) -> (cell: (u16, u16))
        ensures
            cell == (snap_coord(x as int), snap_coord(y as int)),
    {
        (Self::snap_one(x), Self::snap_one(y))
    }

    fn snap_one(n: i32) -> (c: u16)
        ensures
            c == snap_coord(n as int),
    {
        if n < 0 || n / TILE >= OFF_GRID as i32 {
            OFF_GRID
        } else {
            (n / TILE) as u16
        }
    }

    /// The material of cell `(x, y)`, or `None` where the grid has no such
    /// cell.
    pub fn get(&self, x: u16, y: u16) -> (r: Option<Material>)
        ensures
            r == self.spec_get(x as int, y as int),
    {
        if x < self.width {
            let i = self.idx(x, y);
            if i < self.mats.len() {
                Some(self.mats[i])
            } else {
                None
            }
        } else {
            None
        }
    }

    /// Whether the cell blocks. A cell that the grid lacks blocks.
    #[inline(always)]
    pub fn is_solid_tuple(&self, cell: (u16, u16)) -> (b: bool)
        ensures
            b == self.spec_is_solid(cell.0 as int, cell.1 as int),
    {
        self.is_solid(cell.0, cell.1)
    }

    /// Whether cell `(x, y)` blocks. A cell that the grid lacks blocks: so
    /// does every cell at or beyond the width.
    pub fn is_solid(&self, x: u16, y: u16) -> (b: bool)
        ensures
            b == self.spec_is_solid(x as int, y as int),
            x >= self.spec_width() ==> b,
    {
        match self.get(x, y) {
            Some(m) => m.solid(),
            None => true,
        }
    }

    /// Sets the material of cell `(x, y)`. Where the grid has no such cell,
    /// nothing changes.
    pub fn insert(&mut self, x: u16, y: u16, mat: Material)
        ensures
            final(self).spec_width() == old(self).spec_width(),
            final(self).wf() == old(self).wf(),
            old(self).spec_get(x as int, y as int).is_some() ==> final(self).cells() == old(
                self,
            ).cells().update(cell_index(old(self).spec_width() as int, x as int, y as int), mat),
            old(self).spec_get(x as int, y as int).is_none() ==> *final(self) == *old(self),
    {
        if x < self.width {
            let i = self.idx(x, y);
            if i < self.mats.len() {
                self.mats.set(i, mat);
            }
        }
    }
}

/// Widening a grid and then thinning it leaves every cell of the result as
/// it was in the grid; and unless the grid had no column, or was too wide to
/// grow, the result is the grid itself in width and cells.
pub proof fn lemma_widen_then_thin(g: Grid, wide: Grid, back: Grid)
    requires
        g.wf(),
        wide.wf(),
        back.wf(),
        g.widened_to(wide),
        wide.thinned_to(back),
    ensures
        forall|x: int, y: int|
            0 <= x < back.spec_width() ==> #[trigger] back.spec_get(x, y) == g.spec_get(x, y),
        0 < g.spec_width() < 65535 ==> back.spec_width() == g.spec_width() && back.cells()
            == g.cells(),
{
    g.lemma_cells();
    wide.lemma_cells();
    back.lemma_cells();
    let w = g.spec_width() as int;
    let h = g.spec_height() as int;
    if w == 0 {
        assert(wide.cells().len() == 0) by (nonlinear_arith)
            requires
                wide.cells().len() == 1 * h,
                h == 0,
        ;
    } else {
        if w < 65535 {
            lemma_rows(w + 1, h);
        }
        lemma_rows(back.spec_width() as int, wide.spec_height() as int);
        assert(back.spec_height() == h);
        assert forall|x: int, y: int| 0 <= x < back.spec_width() implies #[trigger] back.spec_get(
            x,
            y,
        ) == g.spec_get(x, y) by {
            if 0 <= y < h {
                assert(back.spec_get(x, y) == wide.spec_get(x, y));
                assert(wide.spec_get(x, y) == g.spec_get(x, y));
            } else {
                assert(back.spec_get(x, y).is_none());
                assert(g.spec_get(x, y).is_none());
            }
        }
        if w < 65535 {
            assert(back.cells().len() == g.cells().len());
            assert forall|i: int| 0 <= i < g.cells().len() implies back.cells()[i]
                == g.cells()[i] by {
                let x = i % w;
                let y = i / w;
                vstd::arithmetic::div_mod::lemma_fundamental_div_mod(i, w);
                vstd::arithmetic::div_mod::lemma_mod_bound(i, w);
                vstd::arithmetic::div_mod::lemma_div_pos_is_pos(i, w);
                assert(w * y == y * w) by (nonlinear_arith);
                assert(cell_index(w, x, y) == i);
                lemma_cell_in_rows(w, x, y, h);
                assert(back.spec_get(x, y) == g.spec_get(x, y));
            }
            assert(back.cells() =~= g.cells());
        }
    }
}

/// In a grid `width` wide, cell `(x, y)` with `x` below the width lies in the
/// first `rows` rows exactly when `y` is below `rows`.
pub proof fn lemma_cell_in_rows(width: int, x: int, y: int, rows: int)
    requires
        0 <= x < width,
        0 <= y,
        0 <= rows,
    ensures
        0 <= cell_index(width, x, y),
        cell_index(width, x, y) < width * rows <==> y < rows,
{
    assert(0 <= y * width) by (nonlinear_arith)
        requires
            0 <= y,
            0 < width,
    ;
    if y < rows {
        assert(y * width + width <= width * rows) by (nonlinear_arith)
            requires
                0 <= y < rows,
                0 < width,
        ;
    } else {
        assert(y * width >= width * rows) by (nonlinear_arith)
            requires
                0 <= rows <= y,
                0 < width,
        ;
    }
}

/// `width * rows` cells make `rows` whole rows.
pub proof fn lemma_rows(width: int, rows: int)
    requires
        0 < width,
        0 <= rows,
    ensures
        0 <= width * rows,
        (width * rows) % width == 0,
        (width * rows) / width == rows,
{
    vstd::arithmetic::div_mod::lemma_div_multiples_vanish(rows, width);
    vstd::arithmetic::div_mod::lemma_mod_multiples_basic(rows, width);
    assert(rows * width == width * rows) by (nonlinear_arith);
    assert(0 <= width * rows) by (nonlinear_arith)
        requires
            0 < width,
            0 <= rows,
    ;
}

} // verus!
