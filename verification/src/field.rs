//! The scalar grid that agents read and feed.
//!
//! A field is a dense rectangle of cells, addressed by a column `x` and a
//! row `y`. Its view is a sequence of columns, each a sequence of cells, so
//! that `field@[x][y]` is the cell at `(x, y)`. The cell type is left open:
//! the field moves values around and hands them to the functions it is
//! given, and never computes with them itself.

use vstd::prelude::*;

verus! {

/// Why a set of construction parameters was turned down.
#[derive(Clone, Copy, PartialEq, Eq, Debug, Structural)]
pub enum ConfigError {
    /// The width or the height is zero or negative.
    EmptyGrid,
    /// The number of agents is negative.
    NegativePopulation,
    /// The grid has more cells, or the population more agents, than can be
    /// addressed.
    TooLarge,
}

/// The shape of a grid together with all its cells is well formed: at
/// least one column, at least one row, and every column of the same height.
pub open spec fn is_grid<T>(g: Seq<Seq<T>>) -> bool {
    &&& g.len() > 0
    &&& g[0].len() > 0
    &&& forall|x: int| 0 <= x < g.len() ==> #[trigger] g[x].len() == g[0].len()
}

/// The number of columns of a grid.
pub open spec fn grid_width<T>(g: Seq<Seq<T>>) -> int {
    g.len() as int
}

/// The number of rows of a grid.
pub open spec fn grid_height<T>(g: Seq<Seq<T>>) -> int {
    if g.len() > 0 {
        g[0].len() as int
    } else {
        0
    }
}

/// Whether `(x, y)` names a cell of the grid. Nothing wraps here.
pub open spec fn inside<T>(g: Seq<Seq<T>>, x: int, y: int) -> bool {
    0 <= x < grid_width(g) && 0 <= y < grid_height(g)
}

/// Whether two grids have the same number of columns and rows.
pub open spec fn same_shape<T>(a: Seq<Seq<T>>, b: Seq<Seq<T>>) -> bool {
    is_grid(a) && is_grid(b) && grid_width(a) == grid_width(b) && grid_height(a) == grid_height(
        b,
    )
}

/// `after` has the shape of `before`, and each of its cells is a value that
/// `f` may return for the cell in the same place.
pub open spec fn mapped<T, F: Fn(T) -> T>(before: Seq<Seq<T>>, f: F, after: Seq<Seq<T>>) -> bool {
    &&& same_shape(before, after)
    &&& forall|x: int, y: int|
        inside(before, x, y) ==> f.ensures((before[x][y],), #[trigger] after[x][y])
}

/// `after` has the shape of `left` and `right`, and each of its cells is a
/// value that `f` may return for the two cells in the same place.
pub open spec fn zipped<T, F: Fn(T, T) -> T>(
    left: Seq<Seq<T>>,
    right: Seq<Seq<T>>,
    f: F,
    after: Seq<Seq<T>>,
) -> bool {
    &&& same_shape(left, right)
    &&& same_shape(left, after)
    &&& forall|x: int, y: int|
        inside(left, x, y) ==> f.ensures((left[x][y], right[x][y]), #[trigger] after[x][y])
}

/// What is wrong with a set of construction parameters, if anything.
pub open spec fn config_fault(width: int, height: int, agents: int) -> Option<ConfigError> {
    if width <= 0 || height <= 0 {
        Some(ConfigError::EmptyGrid)
    } else if agents < 0 {
        Some(ConfigError::NegativePopulation)
    } else if width * height > usize::MAX || agents > usize::MAX {
        Some(ConfigError::TooLarge)
    } else {
        None
    }
}

/// Checked construction parameters: a grid with at least one cell whose
/// cell count is addressable, and a number of agents.
#[derive(Clone, Copy, Debug)]
pub struct Config {
    width: usize,
    height: usize,
    population: usize,
}

impl Config {
    #[verifier::type_invariant]
    spec fn well_formed(self) -> bool {
        &&& 0 < self.width <= i64::MAX
        &&& 0 < self.height <= i64::MAX
        &&& self.width * self.height <= usize::MAX
    }

    /// The number of columns.
    pub closed spec fn columns(&self) -> int {
        self.width as int
    }

    /// The number of rows.
    pub closed spec fn rows(&self) -> int {
        self.height as int
    }

    /// The number of agents.
    pub closed spec fn agents(&self) -> int {
        self.population as int
    }

    /// Checks the parameters. The grid is looked at first, then the
    /// population, then the counts' sizes.
    pub fn new(width: i64, height: i64, agents: i64) -> (r: Result<Config, ConfigError>)
        ensures
            match config_fault(width as int, height as int, agents as int) {
                Some(fault) => r == Err::<Config, ConfigError>(fault),
                None => r.is_ok() && r.unwrap().columns() == width && r.unwrap().rows() == height
                    && r.unwrap().agents() == agents,
            },
    {
        if width <= 0 || height <= 0 {
            return Err(ConfigError::EmptyGrid);
        }
        if agents < 0 {
            return Err(ConfigError::NegativePopulation);
        }
        proof {
            assert(0 < width * height <= 0x3fff_ffff_ffff_ffff_ffff_ffff_ffff_ffff) by (nonlinear_arith)
                requires
                    0 < width <= 0x7fff_ffff_ffff_ffff,
                    0 < height <= 0x7fff_ffff_ffff_ffff,
            ;
            assert(width <= width * height && height <= width * height) by (nonlinear_arith)
                requires
                    width > 0,
                    height > 0,
            ;
        }
        let cells: i128 = width as i128 * height as i128;
        if cells > usize::MAX as i128 || agents as i128 > usize::MAX as i128 {
            return Err(ConfigError::TooLarge);
        }
        Ok(Config { width: width as usize, height: height as usize, population: agents as usize })
    }

    /// The number of columns.
    pub fn width(&self) -> (w: usize)
        ensures
            w == self.columns(),
            0 < w <= i64::MAX,
    {
        proof {
            use_type_invariant(self);
        }
        self.width
    }

    /// The number of rows.
    pub fn height(&self) -> (h: usize)
        ensures
            h == self.rows(),
            0 < h <= i64::MAX,
    {
        proof {
            use_type_invariant(self);
        }
        self.height
    }

    /// The number of agents to create at the start and at each reset.
    pub fn population(&self) -> (n: usize)
        ensures
            n == self.agents(),
    {
        self.population
    }
}

/// A dense grid of cells of type `T`.
#[derive(Debug)]
pub struct Field<T> {
    width: usize,
    height: usize,
    cells: Vec<T>,
}

impl<T> View for Field<T> {
    type V = Seq<Seq<T>>;

    closed spec fn view(&self) -> Seq<Seq<T>> {
        Seq::new(
            self.width as nat,
            |x: int|
                Seq::new(self.height as nat, |y: int| self.cells@[x * (self.height as int) + y]),
        )
    }
}

/// A cell's place in the row of cells that backs a grid of the given height
/// lies within a grid of `w` columns.
proof fn lemma_flat(x: int, y: int, w: int, h: int)
    requires
        0 <= x < w,
        0 <= y < h,
    ensures
        0 <= x * h + y < w * h,
{
    assert(x * h + y < w * h) by (nonlinear_arith)
        requires
            0 <= x < w,
            0 <= y < h,
    ;
    assert(0 <= x * h) by (nonlinear_arith)
        requires
            0 <= x,
            0 <= h,
    ;
}

impl<T> Field<T> {
    #[verifier::type_invariant]
    spec fn well_formed(self) -> bool {
        &&& 0 < self.width <= i64::MAX
        &&& 0 < self.height <= i64::MAX
        &&& self.cells.len() == self.width * self.height
    }

    /// How the view reads the backing cells.
    proof fn lemma_layout(self)
        requires
            self.well_formed(),
        ensures
            is_grid(self@),
            grid_width(self@) == self.width,
            grid_height(self@) == self.height,
            forall|x: int, y: int|
                inside(self@, x, y) ==> #[trigger] self@[x][y] == self.cells@[x * self.height + y],
    {
        assert forall|x: int| 0 <= x < self@.len() implies #[trigger] self@[x].len()
            == self.height by {}
        assert forall|x: int, y: int| inside(self@, x, y) implies #[trigger] self@[x][y]
            == self.cells@[x * self.height + y] by {}
    }

    /// Every backing cell is the cell of some place on the grid.
    proof fn lemma_cell_of(self, k: int)
        requires
            self.well_formed(),
            0 <= k < self.cells.len(),
        ensures
            inside(self@, k / (self.height as int), k % (self.height as int)),
            self@[k / (self.height as int)][k % (self.height as int)] == self.cells@[k],
    {
        let h = self.height as int;
        let w = self.width as int;
        vstd::arithmetic::div_mod::lemma_fundamental_div_mod(k, h);
        vstd::arithmetic::div_mod::lemma_mod_bound(k, h);
        assert(0 <= k / h < w) by (nonlinear_arith)
            requires
                0 <= k < w * h,
                0 < h,
                k == h * (k / h) + k % h,
                0 <= k % h < h,
        ;
        assert(h * (k / h) == (k / h) * h) by (nonlinear_arith);
        self.lemma_layout();
    }

    /// Where the view finds the cell at `(x, y)`.
    proof fn lemma_place(self, x: int, y: int)
        requires
            self.well_formed(),
            inside(self@, x, y),
        ensures
            0 <= x * self.height + y < self.cells.len(),
            self@[x][y] == self.cells@[x * self.height + y],
    {
        self.lemma_layout();
        lemma_flat(x, y, self.width as int, self.height as int);
    }
}

impl<T: Copy> Field<T> {
    /// A field of the configured shape with `fill` in every cell.
    pub fn new(config: &Config, fill: T) -> (f: Field<T>)
        ensures
            is_grid(f@),
            grid_width(f@) == config.columns(),
            grid_height(f@) == config.rows(),
            forall|x: int, y: int| inside(f@, x, y) ==> #[trigger] f@[x][y] == fill,
    {
        proof {
            use_type_invariant(config);
        }
        let n: usize = config.width * config.height;
        let mut cells: Vec<T> = Vec::new();
        while cells.len() < n
            invariant
                cells.len() <= n,
                forall|k: int| 0 <= k < cells.len() ==> cells@[k] == fill,
            decreases n - cells.len(),
        {
            cells.push(fill);
        }
        let f = Field { width: config.width, height: config.height, cells };
        proof {
            f.lemma_layout();
            assert forall|x: int, y: int| inside(f@, x, y) implies #[trigger] f@[x][y] == fill by {
                f.lemma_place(x, y);
            }
        }
        f
    }

    /// A field of the shape of this one with `fill` in every cell.
    pub fn like(&self, fill: T) -> (f: Field<T>)
        ensures
            same_shape(self@, f@),
            forall|x: int, y: int| inside(f@, x, y) ==> #[trigger] f@[x][y] == fill,
    {
        proof {
            use_type_invariant(self);
            self.lemma_layout();
        }
        let n: usize = self.cells.len();
        let mut cells: Vec<T> = Vec::with_capacity(n);
        while cells.len() < n
            invariant
                cells.len() <= n,
                forall|k: int| 0 <= k < cells.len() ==> cells@[k] == fill,
            decreases n - cells.len(),
        {
            cells.push(fill);
        }
        let f = Field { width: self.width, height: self.height, cells };
        proof {
            f.lemma_layout();
            assert forall|x: int, y: int| inside(f@, x, y) implies #[trigger] f@[x][y] == fill by {
                f.lemma_place(x, y);
            }
        }
        f
    }

    /// The number of columns.
    pub fn width(&self) -> (w: usize)
        ensures
            w == grid_width(self@),
            0 < w <= i64::MAX,
            is_grid(self@),
    {
        proof {
            use_type_invariant(self);
            self.lemma_layout();
        }
        self.width
    }

    /// The number of rows.
    pub fn height(&self) -> (h: usize)
        ensures
            h == grid_height(self@),
            0 < h <= i64::MAX,
            is_grid(self@),
    {
        proof {
            use_type_invariant(self);
            self.lemma_layout();
        }
        self.height
    }

    /// The cell at `(x, y)`, or nothing where `(x, y)` lies off the grid.
    pub fn get(&self, x: i64, y: i64) -> (v: Option<T>)
        ensures
            inside(self@, x as int, y as int) ==> v == Some(self@[x as int][y as int]),
            !inside(self@, x as int, y as int) ==> v.is_none(),
    {
        proof {
            use_type_invariant(self);
            self.lemma_layout();
        }
        if x < 0 || y < 0 || x >= self.width as i64 || y >= self.height as i64 {
            return None;
        }
        proof {
            self.lemma_place(x as int, y as int);
        }
        Some(self.cells[x as usize * self.height + y as usize])
    }

    /// The cell at `(x, y)` of a place known to lie on the grid.
    pub fn at(&self, x: usize, y: usize) -> (v: T)
        requires
            inside(self@, x as int, y as int),
        ensures
            v == self@[x as int][y as int],
    {
        proof {
            use_type_invariant(self);
            self.lemma_place(x as int, y as int);
        }
        self.cells[x * self.height + y]
    }

    /// Writes `value` into the cell at `(x, y)` and leaves the others.
    pub fn set(&mut self, x: usize, y: usize, value: T)
        requires
            inside(old(self)@, x as int, y as int),
        ensures
            final(self)@ == old(self)@.update(x as int, old(self)@[x as int].update(y as int, value)),
            same_shape(old(self)@, final(self)@),
    {
        proof {
            use_type_invariant(&*self);
            self.lemma_layout();
            self.lemma_place(x as int, y as int);
        }
        let k: usize = x * self.height + y;
        self.cells[k] = value;
        proof {
            self.lemma_layout();
            let want = old(self)@.update(x as int, old(self)@[x as int].update(y as int, value));
            assert forall|i: int, j: int| inside(self@, i, j) implies self@[i][j] == want[i][j] by {
                old(self).lemma_place(i, j);
                self.lemma_place(i, j);
                if i != x {
                    assert(i * self.height + j != k) by (nonlinear_arith)
                        requires
                            i != x,
                            0 <= j < self.height,
                            0 <= y < self.height,
                            k == x * self.height + y,
                    ;
                }
            }
            assert forall|i: int| 0 <= i < self@.len() implies self@[i] =~= want[i] by {
                assert forall|j: int| 0 <= j < self@[i].len() implies self@[i][j]
                    == want[i][j] by {}
            }
        }
    }

    /// Replaces the cell at `(x, y)` by `f` of it and leaves the others.
    pub fn update<F: Fn(T) -> T>(&mut self, x: usize, y: usize, f: &F)
        requires
            inside(old(self)@, x as int, y as int),
            f.requires((old(self)@[x as int][y as int],)),
        ensures
            same_shape(old(self)@, final(self)@),
            f.ensures((old(self)@[x as int][y as int],), final(self)@[x as int][y as int]),
            forall|i: int, j: int|
                inside(old(self)@, i, j) && !(i == x && j == y) ==> #[trigger] final(self)@[i][j]
                    == old(self)@[i][j],
    {
        let held: T = self.at(x, y);
        let fed: T = f(held);
        self.set(x, y, fed);
    }

    /// A new field in which each cell is `f` of the cell in the same place.
    pub fn map<F: Fn(T) -> T>(&self, f: &F) -> (r: Field<T>)
        requires
            forall|x: int, y: int| inside(self@, x, y) ==> f.requires((#[trigger] self@[x][y],)),
        ensures
            mapped(self@, *f, r@),
    {
        proof {
            use_type_invariant(self);
            self.lemma_layout();
        }
        let n: usize = self.cells.len();
        let mut cells: Vec<T> = Vec::with_capacity(n);
        let mut k: usize = 0;
        while k < n
            invariant
                self.well_formed(),
                n == self.cells.len(),
                k <= n,
                cells.len() == k,
                forall|x: int, y: int| inside(self@, x, y) ==> f.requires((#[trigger] self@[x][y],)),
                forall|i: int| 0 <= i < k ==> f.ensures((self.cells@[i],), #[trigger] cells@[i]),
            decreases n - k,
        {
            proof {
                self.lemma_cell_of(k as int);
            }
            cells.push(f(self.cells[k]));
            k += 1;
        }
        let r = Field { width: self.width, height: self.height, cells };
        proof {
            r.lemma_layout();
            assert forall|x: int, y: int| inside(self@, x, y) implies f.ensures(
                (self@[x][y],),
                #[trigger] r@[x][y],
            ) by {
                self.lemma_place(x, y);
                r.lemma_place(x, y);
            }
        }
        r
    }

    /// A new field in which each cell is `f` of the two cells in the same
    /// place of `self` and `other`.
    pub fn zip_with<F: Fn(T, T) -> T>(&self, other: &Field<T>, f: &F) -> (r: Field<T>)
        requires
            same_shape(self@, other@),
            forall|x: int, y: int|
                inside(self@, x, y) ==> f.requires((#[trigger] self@[x][y], other@[x][y])),
        ensures
            zipped(self@, other@, *f, r@),
    {
        proof {
            use_type_invariant(self);
            use_type_invariant(other);
            self.lemma_layout();
            other.lemma_layout();
        }
        let n: usize = self.cells.len();
        let mut cells: Vec<T> = Vec::with_capacity(n);
        let mut k: usize = 0;
        while k < n
            invariant
                self.well_formed(),
                other.well_formed(),
                same_shape(self@, other@),
                n == self.cells.len(),
                n == other.cells.len(),
                k <= n,
                cells.len() == k,
                forall|x: int, y: int|
                    inside(self@, x, y) ==> f.requires((#[trigger] self@[x][y], other@[x][y])),
                forall|i: int|
                    0 <= i < k ==> f.ensures(
                        (self.cells@[i], other.cells@[i]),
                        #[trigger] cells@[i],
                    ),
            decreases n - k,
        {
            proof {
                self.lemma_cell_of(k as int);
                other.lemma_cell_of(k as int);
                self.lemma_layout();
                other.lemma_layout();
            }
            cells.push(f(self.cells[k], other.cells[k]));
            k += 1;
        }
        let r = Field { width: self.width, height: self.height, cells };
        proof {
            r.lemma_layout();
            assert forall|x: int, y: int| inside(self@, x, y) implies f.ensures(
                (self@[x][y], other@[x][y]),
                #[trigger] r@[x][y],
            ) by {
                self.lemma_place(x, y);
                other.lemma_place(x, y);
                r.lemma_place(x, y);
            }
        }
        r
    }

    /// Puts `value` into every cell.
    pub fn reset(&mut self, value: T)
        ensures
            same_shape(old(self)@, final(self)@),
            forall|x: int, y: int| inside(final(self)@, x, y) ==> #[trigger] final(self)@[x][y] == value,
    {
        proof {
            use_type_invariant(&*self);
            self.lemma_layout();
        }
        let n: usize = self.cells.len();
        let mut k: usize = 0;
        while k < n
            invariant
                self.well_formed(),
                self.width == old(self).width,
                self.height == old(self).height,
                self.cells.len() == n,
                old(self).cells.len() == n,
                k <= n,
                forall|i: int| 0 <= i < k ==> self.cells@[i] == value,
            decreases n - k,
        {
            self.cells[k] = value;
            k += 1;
        }
        proof {
            self.lemma_layout();
            assert forall|x: int, y: int| inside(self@, x, y) implies #[trigger] self@[x][y]
                == value by {
                self.lemma_place(x, y);
            }
        }
    }
}

impl<T: Copy> Clone for Field<T> {
    /// A field with the same cells.
    fn clone(&self) -> (r: Self)
        ensures
            r@ == self@,
    {
        proof {
            use_type_invariant(self);
            self.lemma_layout();
        }
        let n: usize = self.cells.len();
        let mut cells: Vec<T> = Vec::with_capacity(n);
        let mut k: usize = 0;
        while k < n
            invariant
                n == self.cells.len(),
                k <= n,
                cells.len() == k,
                forall|i: int| 0 <= i < k ==> cells@[i] == self.cells@[i],
            decreases n - k,
        {
            cells.push(self.cells[k]);
            k += 1;
        }
        let r = Field { width: self.width, height: self.height, cells };
        proof {
            assert(r.cells@ =~= self.cells@);
        }
        r
    }
}

} // verus!
