//! Feature matching: spatial indexing and projection-guided association.

use crate::descriptor::{hamming, hamming_distance};
use crate::double::at_least;
use crate::geometry::{
    difference, doubled, is_within, lies_within, pixel_radius, project, projected, radius_of,
    squared_length, transform, transformed, twice,
};
use crate::mapping::map::MapPoint;
use crate::selection::indices_where;
use kornia_3d::camera::PinholeCamera;
use kornia_3d::pose::Pose3d;
use kornia_algebra::{Vec2F32, Vec3F64};
use kornia_image::ImageSize;
use vstd::arithmetic::div_mod::lemma_fundamental_div_mod_converse;
use vstd::prelude::*;

verus! {

/// A rectangle of grid cells, bounds included.
#[derive(Debug, Clone, Copy, PartialEq, Eq)]
pub struct CellWindow {
    pub col_min: usize,
    pub col_max: usize,
    pub row_min: usize,
    pub row_max: usize,
}

/// Tunable parameters for projection-guided matching.
#[derive(Debug, Clone, Copy)]
pub struct ProjectionMatchConfig {
    /// Points in the camera frame that are no deeper than this one are rejected; without it,
    /// those that are not in front of the camera.
    pub nearest: Option<Vec3F64>,
    /// Keypoint search radius around each projected pixel: a vector as long as the radius.
    pub search_radius: Vec2F32,
    /// Maximum Hamming distance to accept a descriptor match.
    pub max_hamming: u32,
}

impl Default for ProjectionMatchConfig {
    fn default() -> (config: ProjectionMatchConfig)
        ensures
            config.nearest is None,
            config.search_radius == pixel_radius(15),
            config.max_hamming == 50,
    {
        ProjectionMatchConfig { nearest: None, search_radius: radius_of(15), max_hamming: 50 }
    }
}

/// A 2D grid that bins keypoints by their image position.
#[derive(Debug)]
pub struct KeypointGrid {
    cells: Vec<Vec<usize>>,
    n_cols: usize,
    n_rows: usize,
}

/// `i`, or the last index below `n`.
pub open spec fn clamped(i: usize, n: nat) -> int {
    if i < n {
        i as int
    } else {
        n - 1
    }
}

/// Keypoint `i` is in the cell at row `r` and column `c`; cells beyond the grid count as
/// those at its border.
pub open spec fn falls_in(
    keypoint_cells: Seq<(usize, usize)>,
    n_cols: nat,
    n_rows: nat,
    r: int,
    c: int,
    i: int,
) -> bool {
    clamped(keypoint_cells[i].0, n_cols) == c && clamped(keypoint_cells[i].1, n_rows) == r
}

proof fn lemma_flat(n_rows: int, n_cols: int, r: int, c: int)
    requires
        0 <= r < n_rows,
        0 <= c < n_cols,
    ensures
        0 <= r * n_cols + c < n_rows * n_cols,
        (r * n_cols + c) / n_cols == r,
        (r * n_cols + c) % n_cols == c,
{
    assert(0 <= r * n_cols + c < n_rows * n_cols) by (nonlinear_arith)
        requires
            0 <= r < n_rows,
            0 <= c < n_cols,
    ;
    lemma_fundamental_div_mod_converse(r * n_cols + c, n_cols, r, c);
}

impl KeypointGrid {
    /// Number of columns.
    pub closed spec fn cols(&self) -> nat {
        self.n_cols as nat
    }

    /// Number of rows.
    pub closed spec fn rows(&self) -> nat {
        self.n_rows as nat
    }

    /// The keypoints in the cell at row `r` and column `c`.
    pub closed spec fn cell(&self, r: int, c: int) -> Seq<usize> {
        self.cells@[r * self.n_cols + c]@
    }

    /// There is a cell for each row and column.
    pub closed spec fn wf(&self) -> bool {
        self.cells@.len() == self.n_rows * self.n_cols && self.n_rows * self.n_cols <= usize::MAX
    }

    /// Every keypoint in the grid has an index below `n`.
    pub open spec fn holds_below(&self, n: nat) -> bool {
        forall|r: int, c: int, j: int|
            0 <= r < self.rows() && 0 <= c < self.cols() && 0 <= j < self.cell(r, c).len()
                ==> #[trigger] self.cell(r, c)[j] < n
    }

    /// The keypoints in the cells of row `r` from column `lo` to column `hi`, in order.
    pub open spec fn row_items(&self, r: int, lo: int, hi: int) -> Seq<usize>
        decreases hi - lo + 1,
    {
        if hi < lo {
            Seq::empty()
        } else {
            self.row_items(r, lo, hi - 1) + self.cell(r, hi)
        }
    }

    /// The keypoints in the cells of a rectangle, row by row.
    pub open spec fn box_items(&self, row_lo: int, row_hi: int, lo: int, hi: int) -> Seq<usize>
        decreases row_hi - row_lo + 1,
    {
        if row_hi < row_lo {
            Seq::empty()
        } else {
            self.box_items(row_lo, row_hi - 1, lo, hi) + self.row_items(row_hi, lo, hi)
        }
    }

    /// The keypoints in the cells of the window; cells beyond the grid count as those at its
    /// border.
    pub open spec fn window_items(&self, window: CellWindow) -> Seq<usize> {
        self.box_items(
            clamped(window.row_min, self.rows()),
            clamped(window.row_max, self.rows()),
            clamped(window.col_min, self.cols()),
            clamped(window.col_max, self.cols()),
        )
    }

    /// The grid has so many columns and rows, and holds each keypoint in its cell.
    pub open spec fn bins(
        &self,
        keypoint_cells: Seq<(usize, usize)>,
        n_cols: nat,
        n_rows: nat,
    ) -> bool {
        &&& self.wf()
        &&& self.cols() == n_cols
        &&& self.rows() == n_rows
        &&& self.holds_below(keypoint_cells.len())
        &&& forall|r: int, c: int|
            0 <= r < n_rows && 0 <= c < n_cols ==> #[trigger] self.cell(r, c) == indices_where(
                keypoint_cells.len(),
                |i: int| falls_in(keypoint_cells, n_cols, n_rows, r, c, i),
            )
    }

    /// Builds a grid of `n_cols` by `n_rows` cells over keypoints whose column and row are
    /// given. Keypoints outside the grid are put into its border cells.
    pub fn new(keypoint_cells: &[(usize, usize)], n_cols: usize, n_rows: usize) -> (grid: KeypointGrid)
        requires
            n_rows * n_cols <= usize::MAX,
            keypoint_cells@.len() > 0 ==> n_cols > 0 && n_rows > 0,
        ensures
            grid.bins(keypoint_cells@, n_cols as nat, n_rows as nat),
    {
        let n_cells: usize = n_rows * n_cols;
        let mut cells: Vec<Vec<usize>> = Vec::new();
        let mut f: usize = 0;
        while f < n_cells
            invariant
                f <= n_cells,
                cells@.len() == f,
                forall|j: int| 0 <= j < f ==> #[trigger] cells@[j]@ == Seq::<usize>::empty(),
            decreases n_cells - f,
        {
            cells.push(Vec::new());
            f += 1;
        }
        let ghost nc = n_cols as nat;
        let ghost nr = n_rows as nat;
        let ghost kc = keypoint_cells@;
        proof {
            assert forall|r: int, c: int| 0 <= r < n_rows && 0 <= c < n_cols implies #[trigger] cells@[r
                * n_cols + c]@ == indices_where(0, |i: int| falls_in(kc, nc, nr, r, c, i)) by {
                lemma_flat(n_rows as int, n_cols as int, r, c);
            }
        }
        let mut i: usize = 0;
        while i < keypoint_cells.len()
            invariant
                i <= kc.len(),
                kc == keypoint_cells@,
                nc == n_cols,
                nr == n_rows,
                n_cells == n_rows * n_cols,
                kc.len() > 0 ==> n_cols > 0 && n_rows > 0,
                cells@.len() == n_cells,
                forall|r: int, c: int|
                    0 <= r < n_rows && 0 <= c < n_cols ==> #[trigger] cells@[r * n_cols + c]@
                        == indices_where(i as nat, |i: int| falls_in(kc, nc, nr, r, c, i)),
            decreases kc.len() - i,
        {
            let (kc_col, kc_row) = keypoint_cells[i];
            let col: usize = if kc_col < n_cols {
                kc_col
            } else {
                n_cols - 1
            };
            let row: usize = if kc_row < n_rows {
                kc_row
            } else {
                n_rows - 1
            };
            proof {
                lemma_flat(n_rows as int, n_cols as int, row as int, col as int);
                assert(row * n_cols <= row * n_cols + col);
            }
            let flat: usize = row * n_cols + col;
            let ghost before = cells@;
            cells[flat].push(i);
            assert forall|r: int, c: int| 0 <= r < n_rows && 0 <= c < n_cols implies #[trigger] cells@[r
                * n_cols + c]@ == indices_where(
                (i + 1) as nat,
                |i: int| falls_in(kc, nc, nr, r, c, i),
            ) by {
                lemma_flat(n_rows as int, n_cols as int, r, c);
                assert(before[r * n_cols + c]@ == indices_where(
                    i as nat,
                    |i: int| falls_in(kc, nc, nr, r, c, i),
                ));
                if r == row && c == col {
                    assert(falls_in(kc, nc, nr, r, c, i as int));
                } else {
                    assert(r * n_cols + c != flat);
                    assert(!falls_in(kc, nc, nr, r, c, i as int));
                }
            }
            i += 1;
        }
        let grid = KeypointGrid { cells, n_cols, n_rows };
        proof {
            assert(forall|r: int, c: int|
                0 <= r < n_rows && 0 <= c < n_cols ==> #[trigger] grid.cell(r, c)
                    == cells@[r * n_cols + c]@);
            assert forall|r: int, c: int, j: int|
                0 <= r < grid.rows() && 0 <= c < grid.cols() && 0 <= j < grid.cell(
                    r,
                    c,
                ).len() implies #[trigger] grid.cell(r, c)[j] < kc.len() by {
                crate::selection::lemma_indices_where(
                    kc.len(),
                    |i: int| falls_in(kc, nc, nr, r, c, i),
                );
            }
        }
        grid
    }

    fn row_list(&self, row: usize, lo: usize, hi: usize) -> (items: Vec<usize>)
        requires
            self.wf(),
            row < self.rows(),
            hi < self.cols(),
        ensures
            items@ == self.row_items(row as int, lo as int, hi as int),
    {
        let mut items: Vec<usize> = Vec::new();
        let mut c: usize = lo;
        while c <= hi
            invariant
                self.wf(),
                row < self.rows(),
                lo <= c,
                hi < self.cols(),
                c <= hi ==> items@ == self.row_items(row as int, lo as int, c - 1),
                c > hi ==> items@ == self.row_items(row as int, lo as int, hi as int),
            decreases hi + 1 - c,
        {
            proof {
                lemma_flat(self.n_rows as int, self.n_cols as int, row as int, c as int);
                assert(row * self.n_cols <= row * self.n_cols + c);
            }
            let cell = &self.cells[row * self.n_cols + c];
            let ghost done = items@;
            let mut j: usize = 0;
            assert(done + cell@.take(0) =~= done);
            while j < cell.len()
                invariant
                    j <= cell@.len(),
                    items@ == done + cell@.take(j as int),
                decreases cell@.len() - j,
            {
                items.push(cell[j]);
                j += 1;
                assert(items@ =~= done + cell@.take(j as int));
            }
            assert(cell@.take(j as int) =~= cell@);
            c += 1;
        }
        items
    }

    fn box_list(&self, window: &CellWindow) -> (items: Vec<usize>)
        requires
            self.wf(),
            self.cols() > 0,
            self.rows() > 0,
        ensures
            items@ == self.window_items(*window),
    {
        let lo: usize = clamp(window.col_min, self.n_cols);
        let hi: usize = clamp(window.col_max, self.n_cols);
        let row_lo: usize = clamp(window.row_min, self.n_rows);
        let row_hi: usize = clamp(window.row_max, self.n_rows);
        let mut items: Vec<usize> = Vec::new();
        let mut r: usize = row_lo;
        while r <= row_hi
            invariant
                self.wf(),
                row_lo <= r,
                row_hi < self.rows(),
                hi < self.cols(),
                r <= row_hi ==> items@ == self.box_items(
                    row_lo as int,
                    r - 1,
                    lo as int,
                    hi as int,
                ),
                r > row_hi ==> items@ == self.box_items(
                    row_lo as int,
                    row_hi as int,
                    lo as int,
                    hi as int,
                ),
            decreases row_hi + 1 - r,
        {
            let mut row = self.row_list(r, lo, hi);
            items.append(&mut row);
            r += 1;
        }
        items
    }

    /// The keypoints in the cells of the window that are no farther from the pixel than the
    /// radius is long.
    pub open spec fn near_items(
        &self,
        window: CellWindow,
        keypoints: Seq<Vec2F32>,
        pixel: Vec2F32,
        radius: Vec2F32,
    ) -> Seq<usize> {
        self.window_items(window).filter(
            |i: usize| is_within(keypoints[i as int], pixel, radius),
        )
    }

    /// Returns the keypoints in the window that are within the radius of the pixel.
    pub fn query_radius(
        &self,
        window: CellWindow,
        pixel: &Vec2F32,
        radius: &Vec2F32,
        keypoints: &[Vec2F32],
    ) -> (found: Vec<usize>)
        requires
            self.wf(),
            self.cols() > 0,
            self.rows() > 0,
            self.holds_below(keypoints@.len()),
        ensures
            found@ == self.near_items(window, keypoints@, *pixel, *radius),
            forall|j: int| 0 <= j < found@.len() ==> #[trigger] found@[j] < keypoints@.len(),
    {
        let items = self.box_list(&window);
        let ghost near = |i: usize| is_within(keypoints@[i as int], *pixel, *radius);
        proof {
            lemma_box_below(
                *self,
                clamped(window.row_min, self.rows()),
                clamped(window.row_max, self.rows()),
                clamped(window.col_min, self.cols()),
                clamped(window.col_max, self.cols()),
                keypoints@.len(),
            );
            reveal(Seq::filter);
        }
        let mut found: Vec<usize> = Vec::new();
        let mut j: usize = 0;
        assert(items@.take(0).filter(near) =~= Seq::empty());
        while j < items.len()
            invariant
                j <= items@.len(),
                near == (|i: usize| is_within(keypoints@[i as int], *pixel, *radius)),
                forall|j: int| 0 <= j < items@.len() ==> #[trigger] items@[j] < keypoints@.len(),
                found@ == items@.take(j as int).filter(near),
                forall|j: int| 0 <= j < found@.len() ==> #[trigger] found@[j] < keypoints@.len(),
            decreases items@.len() - j,
        {
            let i: usize = items[j];
            proof {
                reveal(Seq::filter);
                assert(items@.take(j + 1).drop_last() =~= items@.take(j as int));
            }
            if lies_within(&keypoints[i], pixel, radius) {
                found.push(i);
            }
            j += 1;
        }
        assert(items@.take(j as int) =~= items@);
        found
    }
}

fn clamp(i: usize, n: usize) -> (at: usize)
    requires
        n > 0,
    ensures
        at == clamped(i, n as nat),
{
    if i < n {
        i
    } else {
        n - 1
    }
}

/// What a grid knows of a row of cells is in the cells.
proof fn lemma_row_items(grid: KeypointGrid, r: int, lo: int, hi: int, i: usize)
    ensures
        grid.row_items(r, lo, hi).contains(i) <==> exists|c: int|
            lo <= c <= hi && (#[trigger] grid.cell(r, c)).contains(i),
    decreases hi - lo + 1,
{
    if lo <= hi {
        lemma_row_items(grid, r, lo, hi - 1, i);
        let head = grid.row_items(r, lo, hi - 1);
        let last = grid.cell(r, hi);
        lemma_contains_concat(head, last, i);
        if exists|c: int| lo <= c <= hi && (#[trigger] grid.cell(r, c)).contains(i) {
            let c = choose|c: int| lo <= c <= hi && (#[trigger] grid.cell(r, c)).contains(i);
            assert(c == hi || c <= hi - 1);
        }
    }
}

proof fn lemma_contains_concat(a: Seq<usize>, b: Seq<usize>, x: usize)
    ensures
        (a + b).contains(x) <==> a.contains(x) || b.contains(x),
{
    if a.contains(x) {
        let i = choose|i: int| 0 <= i < a.len() && a[i] == x;
        assert((a + b)[i] == x);
    }
    if b.contains(x) {
        let i = choose|i: int| 0 <= i < b.len() && b[i] == x;
        assert((a + b)[a.len() + i] == x);
    }
    if (a + b).contains(x) {
        let i = choose|i: int| 0 <= i < (a + b).len() && (a + b)[i] == x;
        if i < a.len() {
            assert(a[i] == x);
        } else {
            assert(b[i - a.len()] == x);
        }
    }
}

/// The items of a window are the keypoints of the cells in it.
pub proof fn lemma_box_items(
    grid: KeypointGrid,
    row_lo: int,
    row_hi: int,
    lo: int,
    hi: int,
    i: usize,
)
    ensures
        grid.box_items(row_lo, row_hi, lo, hi).contains(i) <==> exists|r: int, c: int|
            row_lo <= r <= row_hi && lo <= c <= hi && (#[trigger] grid.cell(r, c)).contains(i),
    decreases row_hi - row_lo + 1,
{
    if row_lo <= row_hi {
        lemma_box_items(grid, row_lo, row_hi - 1, lo, hi, i);
        lemma_row_items(grid, row_hi, lo, hi, i);
        let head = grid.box_items(row_lo, row_hi - 1, lo, hi);
        lemma_contains_concat(head, grid.row_items(row_hi, lo, hi), i);
        if exists|r: int, c: int|
            row_lo <= r <= row_hi && lo <= c <= hi && (#[trigger] grid.cell(r, c)).contains(i) {
            let (r, c) = choose|r: int, c: int|
                row_lo <= r <= row_hi && lo <= c <= hi && (#[trigger] grid.cell(r, c)).contains(i);
            assert(r == row_hi || r <= row_hi - 1);
        }
    }
}

/// The cell that a keypoint falls in is in the window.
pub open spec fn in_cells(
    cells: Seq<(usize, usize)>,
    n_cols: nat,
    n_rows: nat,
    window: CellWindow,
    i: int,
) -> bool {
    &&& clamped(window.col_min, n_cols) <= clamped(cells[i].0, n_cols) <= clamped(
        window.col_max,
        n_cols,
    )
    &&& clamped(window.row_min, n_rows) <= clamped(cells[i].1, n_rows) <= clamped(
        window.row_max,
        n_rows,
    )
}

proof fn lemma_cell_holds(
    grid: KeypointGrid,
    cells: Seq<(usize, usize)>,
    n_cols: nat,
    n_rows: nat,
    r: int,
    c: int,
    i: usize,
)
    requires
        grid.bins(cells, n_cols, n_rows),
        cells.len() <= usize::MAX,
        0 <= r < n_rows,
        0 <= c < n_cols,
    ensures
        grid.cell(r, c).contains(i) <==> i < cells.len() && falls_in(
            cells,
            n_cols,
            n_rows,
            r,
            c,
            i as int,
        ),
        grid.cell(r, c).no_duplicates(),
{
    let here = |i: int| falls_in(cells, n_cols, n_rows, r, c, i);
    crate::selection::lemma_indices_where(cells.len(), here);
    assert(grid.cell(r, c) == indices_where(cells.len(), here));
    if grid.cell(r, c).contains(i) {
        let j = choose|j: int| 0 <= j < grid.cell(r, c).len() && grid.cell(r, c)[j] == i;
        assert(here(indices_where(cells.len(), here)[j] as int));
    }
}

proof fn lemma_distinct_concat(a: Seq<usize>, b: Seq<usize>)
    requires
        a.no_duplicates(),
        b.no_duplicates(),
        forall|x: usize| a.contains(x) ==> !b.contains(x),
    ensures
        (a + b).no_duplicates(),
{
    let all = a + b;
    assert forall|i: int, j: int| 0 <= i < all.len() && 0 <= j < all.len() && i != j implies all[i]
        != all[j] by {
        if i < a.len() && j >= a.len() {
            assert(a.contains(a[i]));
            assert(b.contains(b[j - a.len()]));
        }
        if j < a.len() && i >= a.len() {
            assert(a.contains(a[j]));
            assert(b.contains(b[i - a.len()]));
        }
    }
}

proof fn lemma_row_distinct(
    grid: KeypointGrid,
    cells: Seq<(usize, usize)>,
    n_cols: nat,
    n_rows: nat,
    r: int,
    lo: int,
    hi: int,
)
    requires
        grid.bins(cells, n_cols, n_rows),
        cells.len() <= usize::MAX,
        0 <= r < n_rows,
        0 <= lo,
        hi < n_cols,
    ensures
        grid.row_items(r, lo, hi).no_duplicates(),
    decreases hi - lo + 1,
{
    if lo <= hi {
        lemma_row_distinct(grid, cells, n_cols, n_rows, r, lo, hi - 1);
        let head = grid.row_items(r, lo, hi - 1);
        let last = grid.cell(r, hi);
        lemma_cell_holds(grid, cells, n_cols, n_rows, r, hi, 0);
        assert forall|x: usize| head.contains(x) implies !last.contains(x) by {
            lemma_row_items(grid, r, lo, hi - 1, x);
            let c = choose|c: int| lo <= c <= hi - 1 && (#[trigger] grid.cell(r, c)).contains(x);
            lemma_cell_holds(grid, cells, n_cols, n_rows, r, c, x);
            lemma_cell_holds(grid, cells, n_cols, n_rows, r, hi, x);
        }
        lemma_distinct_concat(head, last);
    }
}

proof fn lemma_box_distinct(
    grid: KeypointGrid,
    cells: Seq<(usize, usize)>,
    n_cols: nat,
    n_rows: nat,
    row_lo: int,
    row_hi: int,
    lo: int,
    hi: int,
)
    requires
        grid.bins(cells, n_cols, n_rows),
        cells.len() <= usize::MAX,
        0 <= row_lo,
        row_hi < n_rows,
        0 <= lo,
        hi < n_cols,
    ensures
        grid.box_items(row_lo, row_hi, lo, hi).no_duplicates(),
    decreases row_hi - row_lo + 1,
{
    if row_lo <= row_hi {
        lemma_box_distinct(grid, cells, n_cols, n_rows, row_lo, row_hi - 1, lo, hi);
        lemma_row_distinct(grid, cells, n_cols, n_rows, row_hi, lo, hi);
        let head = grid.box_items(row_lo, row_hi - 1, lo, hi);
        let last = grid.row_items(row_hi, lo, hi);
        assert forall|x: usize| head.contains(x) implies !last.contains(x) by {
            lemma_box_items(grid, row_lo, row_hi - 1, lo, hi, x);
            let (r, c) = choose|r: int, c: int|
                row_lo <= r <= row_hi - 1 && lo <= c <= hi && (#[trigger] grid.cell(r, c)).contains(
                    x,
                );
            lemma_cell_holds(grid, cells, n_cols, n_rows, r, c, x);
            if last.contains(x) {
                lemma_row_items(grid, row_hi, lo, hi, x);
                let d = choose|d: int|
                    lo <= d <= hi && (#[trigger] grid.cell(row_hi, d)).contains(x);
                lemma_cell_holds(grid, cells, n_cols, n_rows, row_hi, d, x);
            }
        }
        lemma_distinct_concat(head, last);
    }
}

/// A search finds each keypoint once, and it finds exactly those in the cells of the window
/// that are within the radius. Keypoints outside the grid count as in its border cells.
pub proof fn lemma_query_finds(
    grid: KeypointGrid,
    cells: Seq<(usize, usize)>,
    n_cols: nat,
    n_rows: nat,
    window: CellWindow,
    keypoints: Seq<Vec2F32>,
    pixel: Vec2F32,
    radius: Vec2F32,
)
    requires
        grid.bins(cells, n_cols, n_rows),
        cells.len() == keypoints.len() <= usize::MAX,
        n_cols > 0,
        n_rows > 0,
    ensures
        grid.near_items(window, keypoints, pixel, radius).no_duplicates(),
        forall|i: usize|
            #[trigger] grid.near_items(window, keypoints, pixel, radius).contains(i) <==> i
                < keypoints.len() && in_cells(cells, n_cols, n_rows, window, i as int)
                && is_within(keypoints[i as int], pixel, radius),
{
    let row_lo = clamped(window.row_min, n_rows);
    let row_hi = clamped(window.row_max, n_rows);
    let lo = clamped(window.col_min, n_cols);
    let hi = clamped(window.col_max, n_cols);
    let items = grid.window_items(window);
    let near = |i: usize| is_within(keypoints[i as int], pixel, radius);
    lemma_box_distinct(grid, cells, n_cols, n_rows, row_lo, row_hi, lo, hi);
    lemma_filter_distinct(items, near);
    assert forall|i: usize|
        #[trigger] grid.near_items(window, keypoints, pixel, radius).contains(i) <==> i
            < keypoints.len() && in_cells(cells, n_cols, n_rows, window, i as int) && is_within(
            keypoints[i as int],
            pixel,
            radius,
        ) by {
        lemma_filter_contains(items, near, i);
        lemma_box_items(grid, row_lo, row_hi, lo, hi, i);
        if items.contains(i) {
            let (r, c) = choose|r: int, c: int|
                row_lo <= r <= row_hi && lo <= c <= hi && (#[trigger] grid.cell(r, c)).contains(i);
            lemma_cell_holds(grid, cells, n_cols, n_rows, r, c, i);
        }
        if i < keypoints.len() && in_cells(cells, n_cols, n_rows, window, i as int) {
            let r = clamped(cells[i as int].1, n_rows);
            let c = clamped(cells[i as int].0, n_cols);
            lemma_cell_holds(grid, cells, n_cols, n_rows, r, c, i);
            assert(grid.cell(r, c).contains(i));
        }
    }
}

/// Where the window covers the cells of all keypoints within the radius, a search finds
/// exactly the keypoints within the radius, each once, whatever the size of the cells.
pub proof fn lemma_query_is_exact(
    grid: KeypointGrid,
    cells: Seq<(usize, usize)>,
    n_cols: nat,
    n_rows: nat,
    window: CellWindow,
    keypoints: Seq<Vec2F32>,
    pixel: Vec2F32,
    radius: Vec2F32,
)
    requires
        grid.bins(cells, n_cols, n_rows),
        cells.len() == keypoints.len() <= usize::MAX,
        n_cols > 0,
        n_rows > 0,
        forall|i: int|
            0 <= i < keypoints.len() && is_within(#[trigger] keypoints[i], pixel, radius)
                ==> in_cells(cells, n_cols, n_rows, window, i),
    ensures
        grid.near_items(window, keypoints, pixel, radius).no_duplicates(),
        forall|i: usize|
            #[trigger] grid.near_items(window, keypoints, pixel, radius).contains(i) <==> i
                < keypoints.len() && is_within(keypoints[i as int], pixel, radius),
{
    lemma_query_finds(grid, cells, n_cols, n_rows, window, keypoints, pixel, radius);
}

/// The cell at a coordinate, in exact arithmetic: coordinates before the first cell count as
/// in it.
pub open spec fn exact_cell(at: int, cell: int) -> int {
    if at < 0 {
        0
    } else {
        at / cell
    }
}

/// The last cell that a search looks at along an axis of `size` pixels, in exact arithmetic:
/// that of the last pixel, where the circle goes beyond it.
pub open spec fn exact_last(at: int, radius: int, size: int, cell: int, unit: int) -> int {
    let end = at + radius;
    let last = (size - 1) * unit;
    exact_cell(
        if end < last {
            end
        } else {
            last
        },
        cell * unit,
    )
}

/// How many cells cover an axis of `size` pixels.
pub open spec fn exact_count(size: int, cell: int) -> int {
    (size + cell - 1) / cell
}

/// A grid of square cells over an image, and a search in it, in exact arithmetic. Sizes are in
/// whole pixels, coordinates in parts of a pixel: finitely many numbers of finite precision
/// are whole multiples of a small enough part.
pub struct ExactSearch {
    pub width: int,
    pub height: int,
    pub cell: int,
    /// Parts of a pixel.
    pub unit: int,
    /// Where the search is, and how far it goes.
    pub at: (int, int),
    pub radius: int,
}

impl ExactSearch {
    /// There are pixels, cells and parts of a pixel, and the radius is not negative.
    pub open spec fn wf(&self) -> bool {
        &&& self.width > 0
        &&& self.height > 0
        &&& self.cell > 0
        &&& self.unit > 0
        &&& self.radius >= 0
    }

    /// The place is within the radius, or on the circle.
    pub open spec fn reaches(&self, place: (int, int)) -> bool {
        (place.0 - self.at.0) * (place.0 - self.at.0) + (place.1 - self.at.1) * (place.1
            - self.at.1) <= self.radius * self.radius
    }

    /// The cells are those of the places.
    pub open spec fn has_cells(
        &self,
        places: Seq<(int, int)>,
        cells: Seq<(usize, usize)>,
    ) -> bool {
        &&& cells.len() == places.len()
        &&& forall|i: int|
            0 <= i < cells.len() ==> (#[trigger] cells[i]).0 == exact_cell(
                places[i].0,
                self.cell * self.unit,
            ) && cells[i].1 == exact_cell(places[i].1, self.cell * self.unit)
    }

    /// The window is the one that the search looks at.
    pub open spec fn has_window(&self, window: CellWindow) -> bool {
        let side = self.cell * self.unit;
        &&& window.col_min == exact_cell(self.at.0 - self.radius, side)
        &&& window.row_min == exact_cell(self.at.1 - self.radius, side)
        &&& window.col_max == exact_last(
            self.at.0,
            self.radius,
            self.width,
            self.cell,
            self.unit,
        )
        &&& window.row_max == exact_last(
            self.at.1,
            self.radius,
            self.height,
            self.cell,
            self.unit,
        )
    }
}

proof fn lemma_exact_cell_monotonic(a: int, b: int, cell: int)
    requires
        a <= b,
        cell > 0,
    ensures
        0 <= exact_cell(a, cell) <= exact_cell(b, cell),
{
    if b >= 0 {
        vstd::arithmetic::div_mod::lemma_div_pos_is_pos(b, cell);
    }
    if a >= 0 {
        vstd::arithmetic::div_mod::lemma_div_pos_is_pos(a, cell);
        vstd::arithmetic::div_mod::lemma_div_is_ordered(a, b, cell);
    }
}

/// The cell of the last pixel is the last cell.
proof fn lemma_last_pixel_is_in_last_cell(size: int, cell: int, unit: int)
    requires
        size > 0,
        cell > 0,
        unit > 0,
    ensures
        exact_cell((size - 1) * unit, cell * unit) == exact_count(size, cell) - 1,
        exact_count(size, cell) > 0,
{
    assert((size - 1) * unit >= 0) by (nonlinear_arith)
        requires
            size > 0,
            unit > 0,
    ;
    assert(cell * unit > 0) by (nonlinear_arith)
        requires
            cell > 0,
            unit > 0,
    ;
    let q = (size - 1) / cell;
    let m = (size - 1) % cell;
    vstd::arithmetic::div_mod::lemma_fundamental_div_mod(size - 1, cell);
    assert((size - 1) * unit == q * (cell * unit) + m * unit) by (nonlinear_arith)
        requires
            size - 1 == cell * q + m,
    ;
    assert(0 <= m * unit < cell * unit) by (nonlinear_arith)
        requires
            0 <= m < cell,
            unit > 0,
    ;
    lemma_fundamental_div_mod_converse((size - 1) * unit, cell * unit, q, m * unit);
    assert(size + cell - 1 == (q + 1) * cell + m) by (nonlinear_arith)
        requires
            size - 1 == cell * q + m,
    ;
    lemma_fundamental_div_mod_converse(size + cell - 1, cell, q + 1, m);
    vstd::arithmetic::div_mod::lemma_div_pos_is_pos(size - 1, cell);
}

proof fn lemma_axis_is_covered(
    place: int,
    at: int,
    radius: int,
    size: int,
    cell: int,
    unit: int,
    col: usize,
    col_min: usize,
    col_max: usize,
)
    requires
        size > 0,
        cell > 0,
        unit > 0,
        at - radius <= place <= at + radius,
        col == exact_cell(place, cell * unit),
        col_min == exact_cell(at - radius, cell * unit),
        col_max == exact_last(at, radius, size, cell, unit),
    ensures
        ({
            let n = exact_count(size, cell) as nat;
            clamped(col_min, n) <= clamped(col, n) <= clamped(col_max, n)
        }),
{
    assert(cell * unit > 0) by (nonlinear_arith)
        requires
            cell > 0,
            unit > 0,
    ;
    lemma_exact_cell_monotonic(at - radius, place, cell * unit);
    lemma_last_pixel_is_in_last_cell(size, cell, unit);
    if at + radius < (size - 1) * unit {
        lemma_exact_cell_monotonic(place, at + radius, cell * unit);
    }
}

/// In exact arithmetic the window of a search covers the cells of all places within its radius,
/// whatever the size of the cells, and also for places outside the image.
pub proof fn lemma_exact_window_covers(
    search: ExactSearch,
    places: Seq<(int, int)>,
    cells: Seq<(usize, usize)>,
    window: CellWindow,
)
    requires
        search.wf(),
        search.has_cells(places, cells),
        search.has_window(window),
    ensures
        forall|i: int|
            0 <= i < places.len() && search.reaches(#[trigger] places[i]) ==> in_cells(
                cells,
                exact_count(search.width, search.cell) as nat,
                exact_count(search.height, search.cell) as nat,
                window,
                i,
            ),
{
    assert forall|i: int| 0 <= i < places.len() && search.reaches(#[trigger] places[i]) implies in_cells(
        cells,
        exact_count(search.width, search.cell) as nat,
        exact_count(search.height, search.cell) as nat,
        window,
        i,
    ) by {
        let (dx, dy) = (places[i].0 - search.at.0, places[i].1 - search.at.1);
        let r = search.radius;
        assert(-r <= dx <= r && -r <= dy <= r) by (nonlinear_arith)
            requires
                dx * dx + dy * dy <= r * r,
                r >= 0,
        ;
        assert(cells[i].0 == exact_cell(places[i].0, search.cell * search.unit));
        lemma_axis_is_covered(
            places[i].0,
            search.at.0,
            r,
            search.width,
            search.cell,
            search.unit,
            cells[i].0,
            window.col_min,
            window.col_max,
        );
        lemma_axis_is_covered(
            places[i].1,
            search.at.1,
            r,
            search.height,
            search.cell,
            search.unit,
            cells[i].1,
            window.row_min,
            window.row_max,
        );
    }
}

/// Where cells, window and distances are as in exact arithmetic, a search finds exactly the
/// keypoints within the radius, those on the circle among them, each once: it is complete and
/// sound whatever the size of the cells, also for keypoints outside the image.
pub proof fn lemma_exact_query(
    search: ExactSearch,
    places: Seq<(int, int)>,
    grid: KeypointGrid,
    cells: Seq<(usize, usize)>,
    window: CellWindow,
    keypoints: Seq<Vec2F32>,
    pixel: Vec2F32,
    radius: Vec2F32,
)
    requires
        search.wf(),
        search.has_cells(places, cells),
        search.has_window(window),
        grid.bins(
            cells,
            exact_count(search.width, search.cell) as nat,
            exact_count(search.height, search.cell) as nat,
        ),
        cells.len() == keypoints.len() <= usize::MAX,
        forall|i: int|
            0 <= i < keypoints.len() ==> is_within(#[trigger] keypoints[i], pixel, radius)
                == search.reaches(places[i]),
    ensures
        grid.near_items(window, keypoints, pixel, radius).no_duplicates(),
        forall|i: usize|
            #[trigger] grid.near_items(window, keypoints, pixel, radius).contains(i) <==> i
                < keypoints.len() && search.reaches(places[i as int]),
{
    let n_cols = exact_count(search.width, search.cell) as nat;
    let n_rows = exact_count(search.height, search.cell) as nat;
    lemma_last_pixel_is_in_last_cell(search.width, search.cell, search.unit);
    lemma_last_pixel_is_in_last_cell(search.height, search.cell, search.unit);
    lemma_exact_window_covers(search, places, cells, window);
    assert forall|i: int|
        0 <= i < keypoints.len() && is_within(
            #[trigger] keypoints[i],
            pixel,
            radius,
        ) implies in_cells(cells, n_cols, n_rows, window, i) by {
        assert(search.reaches(places[i]));
    }
    lemma_query_is_exact(grid, cells, n_cols, n_rows, window, keypoints, pixel, radius);
}

proof fn lemma_filter_contains(items: Seq<usize>, keep: spec_fn(usize) -> bool, x: usize)
    ensures
        items.filter(keep).contains(x) <==> items.contains(x) && keep(x),
    decreases items.len(),
{
    reveal(Seq::filter);
    if items.len() > 0 {
        let head = items.drop_last();
        lemma_filter_contains(head, keep, x);
        assert(items =~= head.push(items.last()));
        lemma_contains_push(head, items.last(), x);
        lemma_contains_push(head.filter(keep), items.last(), x);
    }
}

proof fn lemma_contains_push(head: Seq<usize>, last: usize, x: usize)
    ensures
        head.push(last).contains(x) <==> head.contains(x) || x == last,
{
    let all = head.push(last);
    if head.contains(x) {
        let i = choose|i: int| 0 <= i < head.len() && head[i] == x;
        assert(all[i] == x);
    }
    assert(all[head.len() as int] == last);
}

proof fn lemma_filter_distinct(items: Seq<usize>, keep: spec_fn(usize) -> bool)
    requires
        items.no_duplicates(),
    ensures
        items.filter(keep).no_duplicates(),
    decreases items.len(),
{
    reveal(Seq::filter);
    if items.len() > 0 {
        let head = items.drop_last();
        let last = items.last();
        assert forall|i: int, j: int|
            0 <= i < head.len() && 0 <= j < head.len() && i != j implies head[i] != head[j] by {
            assert(items[i] != items[j]);
        }
        lemma_filter_distinct(head, keep);
        lemma_filter_contains(head, keep, last);
        if head.contains(last) {
            let i = choose|i: int| 0 <= i < head.len() && head[i] == last;
            assert(items[i] != items[items.len() - 1]);
        }
        let kept = head.filter(keep);
        let all = items.filter(keep);
        assert forall|i: int, j: int|
            0 <= i < all.len() && 0 <= j < all.len() && i != j implies all[i] != all[j] by {
            if i == kept.len() {
                assert(kept.contains(kept[j]));
            } else if j == kept.len() {
                assert(kept.contains(kept[i]));
            }
        }
    }
}

/// How keypoints are looked for around a pixel.
pub struct Searcher<C, W> {
    /// The column and the row of the cell that a keypoint is in.
    pub cell: C,
    /// The cells that a search with a radius around a pixel covers.
    pub window: W,
}

/// `Searcher` answers every question.
pub open spec fn can_search<C, W>(searcher: Searcher<C, W>) -> bool where
    C: Fn(&Vec2F32) -> (usize, usize),
    W: Fn(&Vec2F32, &Vec2F32) -> CellWindow,
 {
    &&& forall|keypoint: &Vec2F32| call_requires(searcher.cell, (keypoint,))
    &&& forall|pixel: &Vec2F32, radius: &Vec2F32| call_requires(searcher.window, (pixel, radius))
}

/// How many cells a grid has.
#[derive(Debug, Clone, Copy, PartialEq, Eq)]
pub struct GridShape {
    pub n_cols: usize,
    pub n_rows: usize,
}

impl GridShape {
    /// There is a cell, and the cells can be counted.
    pub open spec fn wf(&self) -> bool {
        &&& self.n_cols > 0
        &&& self.n_rows > 0
        &&& self.n_rows * self.n_cols <= usize::MAX
    }
}

/// `cells` tells which cell each keypoint is in.
pub open spec fn tells_cells<C: Fn(&Vec2F32) -> (usize, usize)>(
    cell: C,
    keypoints: Seq<Vec2F32>,
    cells: Seq<(usize, usize)>,
) -> bool {
    &&& cells.len() == keypoints.len()
    &&& forall|i: int|
        0 <= i < keypoints.len() ==> call_ensures(cell, (&keypoints[i],), #[trigger] cells[i])
}

/// `grid` is a grid of this shape over the keypoints.
pub open spec fn is_grid_over<C: Fn(&Vec2F32) -> (usize, usize)>(
    cell: C,
    shape: GridShape,
    keypoints: Seq<Vec2F32>,
    grid: KeypointGrid,
) -> bool {
    exists|cells: Seq<(usize, usize)>| #[trigger]
        tells_cells(cell, keypoints, cells) && grid.bins(
            cells,
            shape.n_cols as nat,
            shape.n_rows as nat,
        )
}

/// Builds a grid over keypoints.
pub fn grid_over<C: Fn(&Vec2F32) -> (usize, usize)>(
    cell: &C,
    shape: GridShape,
    keypoints: &[Vec2F32],
) -> (grid: KeypointGrid)
    requires
        shape.wf(),
        forall|keypoint: &Vec2F32| call_requires(*cell, (keypoint,)),
    ensures
        is_grid_over(*cell, shape, keypoints@, grid),
{
    let mut cells: Vec<(usize, usize)> = Vec::new();
    let mut i: usize = 0;
    while i < keypoints.len()
        invariant
            i <= keypoints@.len(),
            forall|keypoint: &Vec2F32| call_requires(*cell, (keypoint,)),
            cells@.len() == i,
            forall|j: int|
                0 <= j < i ==> call_ensures(*cell, (&keypoints@[j],), #[trigger] cells@[j]),
        decreases keypoints@.len() - i,
    {
        let at: (usize, usize) = cell(&keypoints[i]);
        cells.push(at);
        i += 1;
    }
    assert(tells_cells(*cell, keypoints@, cells@));
    KeypointGrid::new(cells.as_slice(), shape.n_cols, shape.n_rows)
}

/// `found` are the keypoints near a pixel.
pub open spec fn is_near_list<C, W>(
    searcher: Searcher<C, W>,
    keypoints: Seq<Vec2F32>,
    grid: KeypointGrid,
    radius: Vec2F32,
    pixel: Vec2F32,
    found: Seq<usize>,
) -> bool where
    C: Fn(&Vec2F32) -> (usize, usize),
    W: Fn(&Vec2F32, &Vec2F32) -> CellWindow,
 {
    exists|window: CellWindow|
        {
            &&& #[trigger] call_ensures(searcher.window, (&pixel, &radius), window)
            &&& found == grid.near_items(window, keypoints, pixel, radius)
        }
}

/// The pixel at which the camera at a pose sees a map point; `None` where the point is culled
/// or not in the image.
pub open spec fn sight(
    camera: PinholeCamera,
    image_size: ImageSize,
    nearest: Option<Vec3F64>,
    pose: Pose3d,
    mp: MapPoint,
) -> Option<Vec2F32> {
    if mp.culled {
        None
    } else {
        projected(camera, transformed(pose, mp.position), nearest, image_size)
    }
}

/// `answer` are the keypoints near a pixel, where there is one.
pub open spec fn is_answer<C, W>(
    searcher: Searcher<C, W>,
    keypoints: Seq<Vec2F32>,
    grid: KeypointGrid,
    radius: Vec2F32,
    pixel: Option<Vec2F32>,
    answer: Option<Seq<usize>>,
) -> bool where
    C: Fn(&Vec2F32) -> (usize, usize),
    W: Fn(&Vec2F32, &Vec2F32) -> CellWindow,
 {
    match pixel {
        None => answer is None,
        Some(pixel) => answer is Some && is_near_list(
            searcher,
            keypoints,
            grid,
            radius,
            pixel,
            answer->0,
        ),
    }
}

/// Keypoint `kp` has a match.
pub open spec fn is_taken(matches: Seq<(usize, usize)>, kp: usize) -> bool {
    exists|j: int| 0 <= j < matches.len() && (#[trigger] matches[j]).1 == kp
}

/// Of the keypoints without a match, the first of those whose descriptor is nearest.
pub open spec fn best_free(
    descriptor: [u8; 32],
    keypoints: Seq<usize>,
    matches: Seq<(usize, usize)>,
    descriptors: Seq<[u8; 32]>,
) -> Option<usize>
    decreases keypoints.len(),
{
    if keypoints.len() == 0 {
        None
    } else {
        let best = best_free(descriptor, keypoints.drop_last(), matches, descriptors);
        let kp = keypoints.last();
        if is_taken(matches, kp) {
            best
        } else if best is None || hamming(descriptor@, descriptors[kp as int]@) < hamming(
            descriptor@,
            descriptors[best->0 as int]@,
        ) {
            Some(kp)
        } else {
            best
        }
    }
}

/// The matches of the first `n` map points. Each takes the nearest keypoint that is left
/// among those near its projection, if its descriptor is near enough.
pub open spec fn greedy_matches(
    map_points: Seq<MapPoint>,
    answers: Seq<Option<Seq<usize>>>,
    descriptors: Seq<[u8; 32]>,
    max_hamming: u32,
    n: nat,
) -> Seq<(usize, usize)>
    decreases n,
{
    if n == 0 {
        Seq::empty()
    } else {
        let before = greedy_matches(
            map_points,
            answers,
            descriptors,
            max_hamming,
            (n - 1) as nat,
        );
        let mp = map_points[n - 1];
        match answers[n - 1] {
            None => before,
            Some(near) => match best_free(mp.descriptor, near, before, descriptors) {
                None => before,
                Some(kp) => if hamming(mp.descriptor@, descriptors[kp as int]@) <= max_hamming {
                    before.push(((n - 1) as usize, kp))
                } else {
                    before
                },
            },
        }
    }
}

/// `matches` is a result of matching the map points by projection.
pub open spec fn is_projection_match<C, W>(
    searcher: Searcher<C, W>,
    camera: PinholeCamera,
    image_size: ImageSize,
    map_points: Seq<MapPoint>,
    keypoints: Seq<Vec2F32>,
    descriptors: Seq<[u8; 32]>,
    grid: KeypointGrid,
    pose: Pose3d,
    config: ProjectionMatchConfig,
    matches: Seq<(usize, usize)>,
) -> bool where
    C: Fn(&Vec2F32) -> (usize, usize),
    W: Fn(&Vec2F32, &Vec2F32) -> CellWindow,
 {
    exists|answers: Seq<Option<Seq<usize>>>|
        {
            &&& answers.len() == map_points.len()
            &&& forall|p: int|
                0 <= p < map_points.len() ==> is_answer(
                    searcher,
                    keypoints,
                    grid,
                    config.search_radius,
                    sight(camera, image_size, config.nearest, pose, map_points[p]),
                    #[trigger] answers[p],
                )
            &&& matches == #[trigger] greedy_matches(
                map_points,
                answers,
                descriptors,
                config.max_hamming,
                map_points.len(),
            )
        }
}

proof fn lemma_greedy_prefix(
    map_points: Seq<MapPoint>,
    answers: Seq<Option<Seq<usize>>>,
    more: Option<Seq<usize>>,
    descriptors: Seq<[u8; 32]>,
    max_hamming: u32,
    n: nat,
)
    requires
        n <= answers.len(),
    ensures
        greedy_matches(map_points, answers.push(more), descriptors, max_hamming, n)
            == greedy_matches(map_points, answers, descriptors, max_hamming, n),
    decreases n,
{
    if n > 0 {
        lemma_greedy_prefix(
            map_points,
            answers,
            more,
            descriptors,
            max_hamming,
            (n - 1) as nat,
        );
        assert(answers.push(more)[n - 1] == answers[n - 1]);
    }
}

/// The best of the keypoints is one of them, has no match, and no other without a match is
/// nearer; there is none only where all have a match.
pub proof fn lemma_best_free(
    descriptor: [u8; 32],
    keypoints: Seq<usize>,
    matches: Seq<(usize, usize)>,
    descriptors: Seq<[u8; 32]>,
)
    ensures
        match best_free(descriptor, keypoints, matches, descriptors) {
            None => forall|j: int|
                0 <= j < keypoints.len() ==> is_taken(matches, #[trigger] keypoints[j]),
            Some(kp) => {
                &&& keypoints.contains(kp)
                &&& !is_taken(matches, kp)
                &&& forall|j: int|
                    0 <= j < keypoints.len() && !is_taken(matches, #[trigger] keypoints[j])
                        ==> hamming(descriptor@, descriptors[kp as int]@) <= hamming(
                        descriptor@,
                        descriptors[keypoints[j] as int]@,
                    )
            },
        },
    decreases keypoints.len(),
{
    if keypoints.len() > 0 {
        let head = keypoints.drop_last();
        lemma_best_free(descriptor, head, matches, descriptors);
        let best = best_free(descriptor, keypoints, matches, descriptors);
        let best0 = best_free(descriptor, head, matches, descriptors);
        assert forall|j: int| 0 <= j < keypoints.len() && !is_taken(
            matches,
            #[trigger] keypoints[j],
        ) implies best is Some && hamming(descriptor@, descriptors[best->0 as int]@) <= hamming(
            descriptor@,
            descriptors[keypoints[j] as int]@,
        ) by {
            if j < head.len() {
                assert(head[j] == keypoints[j]);
                assert(best0 is Some);
            }
        }
        if best is Some {
            if best == best0 {
                let i = choose|i: int| 0 <= i < head.len() && head[i] == best0->0;
                assert(keypoints[i] == best->0);
            } else {
                assert(keypoints[keypoints.len() - 1] == best->0);
            }
        }
    }
}

/// Projection matching is one to one and in the order of the map points: map points come
/// in ascending order, no keypoint is matched twice, no culled point is matched, and every
/// match is near enough.
pub proof fn lemma_greedy_matches(
    map_points: Seq<MapPoint>,
    answers: Seq<Option<Seq<usize>>>,
    descriptors: Seq<[u8; 32]>,
    max_hamming: u32,
    n: nat,
)
    requires
        n <= map_points.len() == answers.len(),
        map_points.len() <= usize::MAX,
    ensures
        ({
            let m = greedy_matches(map_points, answers, descriptors, max_hamming, n);
            &&& m.len() <= n
            &&& forall|i: int, j: int|
                0 <= i < j < m.len() ==> (#[trigger] m[i]).0 < (#[trigger] m[j]).0 && m[i].1
                    != m[j].1
            &&& forall|i: int|
                0 <= i < m.len() ==> {
                    &&& (#[trigger] m[i]).0 < n
                    &&& answers[m[i].0 as int] is Some
                    &&& answers[m[i].0 as int]->0.contains(m[i].1)
                    &&& hamming(
                        map_points[m[i].0 as int].descriptor@,
                        descriptors[m[i].1 as int]@,
                    ) <= max_hamming
                }
        }),
    decreases n,
{
    if n > 0 {
        let k = (n - 1) as nat;
        lemma_greedy_matches(map_points, answers, descriptors, max_hamming, k);
        let before = greedy_matches(map_points, answers, descriptors, max_hamming, k);
        let m = greedy_matches(map_points, answers, descriptors, max_hamming, n);
        if m.len() > before.len() {
            let near = answers[k as int]->0;
            lemma_best_free(map_points[k as int].descriptor, near, before, descriptors);
            let kp = m.last().1;
            assert forall|i: int| 0 <= i < before.len() implies (#[trigger] before[i]).1 != kp by {
                if before[i].1 == kp {
                    assert(is_taken(before, kp));
                }
            }
        }
    }
}

/// The nearest of the keypoints without a match, as `best_free` says.
fn find_best_free(
    descriptor: &[u8; 32],
    keypoints: &Vec<usize>,
    taken: &Vec<bool>,
    descriptors: &[[u8; 32]],
    Ghost(matches): Ghost<Seq<(usize, usize)>>,
) -> (best: Option<(usize, u32)>)
    requires
        forall|j: int| 0 <= j < keypoints@.len() ==> #[trigger] keypoints@[j] < descriptors@.len(),
        taken@.len() == descriptors@.len(),
        forall|i: int| 0 <= i < taken@.len() ==> #[trigger] taken@[i] == is_taken(matches, i as usize),
    ensures
        match best {
            None => best_free(*descriptor, keypoints@, matches, descriptors@) is None,
            Some((kp, distance)) => {
                &&& best_free(*descriptor, keypoints@, matches, descriptors@) == Some(kp)
                &&& kp < descriptors@.len()
                &&& distance == hamming(descriptor@, descriptors@[kp as int]@)
            },
        },
{
    let mut best: Option<(usize, u32)> = None;
    let mut j: usize = 0;
    assert(keypoints@.take(0) =~= Seq::empty());
    while j < keypoints.len()
        invariant
            j <= keypoints@.len(),
            forall|j: int|
                0 <= j < keypoints@.len() ==> #[trigger] keypoints@[j] < descriptors@.len(),
            taken@.len() == descriptors@.len(),
            forall|i: int|
                0 <= i < taken@.len() ==> #[trigger] taken@[i] == is_taken(matches, i as usize),
            match best {
                None => best_free(
                    *descriptor,
                    keypoints@.take(j as int),
                    matches,
                    descriptors@,
                ) is None,
                Some((kp, distance)) => {
                    &&& best_free(*descriptor, keypoints@.take(j as int), matches, descriptors@)
                        == Some(kp)
                    &&& kp < descriptors@.len()
                    &&& distance == hamming(descriptor@, descriptors@[kp as int]@)
                },
            },
        decreases keypoints@.len() - j,
    {
        let kp: usize = keypoints[j];
        proof {
            let next = keypoints@.take(j + 1);
            assert(next.drop_last() =~= keypoints@.take(j as int));
            assert(next.last() == kp);
            assert(taken@[kp as int] == is_taken(matches, kp));
        }
        if !taken[kp] {
            let distance: u32 = hamming_distance(descriptor, &descriptors[kp]);
            let nearer = match best {
                None => true,
                Some((_, so_far)) => distance < so_far,
            };
            if nearer {
                best = Some((kp, distance));
            }
        }
        j += 1;
    }
    assert(keypoints@.take(j as int) =~= keypoints@);
    best
}

proof fn lemma_box_below(
    grid: KeypointGrid,
    row_lo: int,
    row_hi: int,
    lo: int,
    hi: int,
    n: nat,
)
    requires
        grid.holds_below(n),
        0 <= row_lo,
        0 <= lo,
        row_hi < grid.rows(),
        hi < grid.cols(),
    ensures
        forall|j: int|
            0 <= j < grid.box_items(row_lo, row_hi, lo, hi).len() ==> #[trigger] grid.box_items(
                row_lo,
                row_hi,
                lo,
                hi,
            )[j] < n,
{
    let items = grid.box_items(row_lo, row_hi, lo, hi);
    assert forall|j: int| 0 <= j < items.len() implies #[trigger] items[j] < n by {
        assert(items.contains(items[j]));
        lemma_box_items(grid, row_lo, row_hi, lo, hi, items[j]);
        let (r, c) = choose|r: int, c: int|
            row_lo <= r <= row_hi && lo <= c <= hi && (#[trigger] grid.cell(r, c)).contains(
                items[j],
            );
        let cell = grid.cell(r, c);
        let h = choose|h: int| 0 <= h < cell.len() && cell[h] == items[j];
        assert(grid.cell(r, c)[h] < n);
    }
}

/// Matches map points to current-frame keypoints by projecting each map point
/// into the image and searching for the best descriptor match nearby.
///
/// Returns pairs of `(map_point_idx, keypoint_idx)`.
pub fn match_by_projection<C, W>(
    searcher: &Searcher<C, W>,
    camera: &PinholeCamera,
    image_size: ImageSize,
    map_points: &[MapPoint],
    keypoints: &[Vec2F32],
    descriptors: &[[u8; 32]],
    grid: &KeypointGrid,
    pose_world_to_cam: &Pose3d,
    config: ProjectionMatchConfig,
) -> (matches: Vec<(usize, usize)>) where
    C: Fn(&Vec2F32) -> (usize, usize),
    W: Fn(&Vec2F32, &Vec2F32) -> CellWindow,

    requires
        can_search(*searcher),
        grid.wf(),
        grid.cols() > 0,
        grid.rows() > 0,
        grid.holds_below(keypoints@.len()),
        keypoints@.len() <= descriptors@.len(),
    ensures
        is_projection_match(
            *searcher,
            *camera,
            image_size,
            map_points@,
            keypoints@,
            descriptors@,
            *grid,
            *pose_world_to_cam,
            config,
            matches@,
        ),
{
    let n: usize = descriptors.len();
    let mut taken: Vec<bool> = vec![false; n];
    let mut matches: Vec<(usize, usize)> = Vec::new();
    let ghost mut answers: Seq<Option<Seq<usize>>> = Seq::empty();
    let ghost pose = *pose_world_to_cam;
    let mut p: usize = 0;
    while p < map_points.len()
        invariant
            p <= map_points@.len(),
            can_search(*searcher),
            grid.wf(),
            grid.cols() > 0,
            grid.rows() > 0,
            grid.holds_below(keypoints@.len()),
        keypoints@.len() <= descriptors@.len(),
            pose == *pose_world_to_cam,
            n == descriptors@.len(),
            taken@.len() == n,
            forall|i: int|
                0 <= i < taken@.len() ==> #[trigger] taken@[i] == is_taken(matches@, i as usize),
            answers.len() == p,
            forall|q: int|
                0 <= q < p ==> is_answer(
                    *searcher,
                    keypoints@,
                    *grid,
                    config.search_radius,
                    sight(*camera, image_size, config.nearest, pose, map_points@[q]),
                    #[trigger] answers[q],
                ),
            matches@ == greedy_matches(
                map_points@,
                answers,
                descriptors@,
                config.max_hamming,
                p as nat,
            ),
        decreases map_points@.len() - p,
    {
        let ghost answers0 = answers;
        let ghost before = matches@;
        let ghost mut answer: Option<Seq<usize>> = None;
        let mp = &map_points[p];
        if !mp.culled {
            let p_cam = transform(pose_world_to_cam, &mp.position);
            if let Some(pixel) = project(camera, &p_cam, config.nearest, image_size) {
                let window = (searcher.window)(&pixel, &config.search_radius);
                let near = grid.query_radius(window, &pixel, &config.search_radius, keypoints);
                proof {
                    answer = Some(near@);
                    lemma_best_free(mp.descriptor, near@, before, descriptors@);
                }
                if let Some((kp, distance)) = find_best_free(
                    &mp.descriptor,
                    &near,
                    &taken,
                    descriptors,
                    Ghost(before),
                ) {
                    if distance <= config.max_hamming {
                        let ghost taken0 = taken@;
                        taken.set(kp, true);
                        matches.push((p, kp));
                        assert forall|i: int| 0 <= i < taken@.len() implies #[trigger] taken@[i]
                            == is_taken(matches@, i as usize) by {
                            assert(taken0[i] == is_taken(before, i as usize));
                            if is_taken(before, i as usize) {
                                let j = choose|j: int|
                                    0 <= j < before.len() && (#[trigger] before[j]).1 == i as usize;
                                assert(matches@[j].1 == i as usize);
                            }
                            if is_taken(matches@, i as usize) {
                                let j = choose|j: int|
                                    0 <= j < matches@.len() && (#[trigger] matches@[j]).1
                                        == i as usize;
                                if j < before.len() {
                                    assert(before[j].1 == i as usize);
                                }
                            }
                            assert(matches@[before.len() as int].1 == kp);
                        }
                    }
                }
            }
        }
        proof {
            answers = answers0.push(answer);
            lemma_greedy_prefix(
                map_points@,
                answers0,
                answer,
                descriptors@,
                config.max_hamming,
                p as nat,
            );
            assert forall|q: int| 0 <= q < p + 1 implies is_answer(
                *searcher,
                keypoints@,
                *grid,
                config.search_radius,
                sight(*camera, image_size, config.nearest, pose, map_points@[q]),
                #[trigger] answers[q],
            ) by {
                if q < p {
                    assert(answers[q] == answers0[q]);
                }
            }
        }
        p += 1;
    }
    assert(matches@ == greedy_matches(
        map_points@,
        answers,
        descriptors@,
        config.max_hamming,
        map_points@.len(),
    ));
    matches
}

/// Fewer matches than this make the search wide.
pub const MIN_MATCHES_BEFORE_WIDE: usize = 20;

/// Runs projection matching, first with a narrow search, then with a wide one if the first
/// found too little.
pub fn match_map_to_frame<C, W>(
    searcher: &Searcher<C, W>,
    camera: &PinholeCamera,
    image_size: ImageSize,
    map_points: &[MapPoint],
    keypoints: &[Vec2F32],
    descriptors: &[[u8; 32]],
    grid: &KeypointGrid,
    pose: &Pose3d,
    config: ProjectionMatchConfig,
) -> (matches: Vec<(usize, usize)>) where
    C: Fn(&Vec2F32) -> (usize, usize),
    W: Fn(&Vec2F32, &Vec2F32) -> CellWindow,

    requires
        can_search(*searcher),
        grid.wf(),
        grid.cols() > 0,
        grid.rows() > 0,
        grid.holds_below(keypoints@.len()),
        keypoints@.len() <= descriptors@.len(),
    ensures
        is_frame_match(
            *searcher,
            *camera,
            image_size,
            map_points@,
            keypoints@,
            descriptors@,
            *grid,
            *pose,
            config,
            matches@,
        ),
{
    let narrow = match_by_projection(
        searcher,
        camera,
        image_size,
        map_points,
        keypoints,
        descriptors,
        grid,
        pose,
        config,
    );
    if narrow.len() < MIN_MATCHES_BEFORE_WIDE {
        let wide = ProjectionMatchConfig {
            search_radius: twice(&config.search_radius),
            ..config
        };
        match_by_projection(
            searcher,
            camera,
            image_size,
            map_points,
            keypoints,
            descriptors,
            grid,
            pose,
            wide,
        )
    } else {
        narrow
    }
}

/// The configuration with twice the search radius.
pub open spec fn widened(config: ProjectionMatchConfig) -> ProjectionMatchConfig {
    ProjectionMatchConfig { search_radius: doubled(config.search_radius), ..config }
}

/// `matches` comes from the narrow search where that finds enough, else from the wide one.
pub open spec fn is_frame_match<C, W>(
    searcher: Searcher<C, W>,
    camera: PinholeCamera,
    image_size: ImageSize,
    map_points: Seq<MapPoint>,
    keypoints: Seq<Vec2F32>,
    descriptors: Seq<[u8; 32]>,
    grid: KeypointGrid,
    pose: Pose3d,
    config: ProjectionMatchConfig,
    matches: Seq<(usize, usize)>,
) -> bool where
    C: Fn(&Vec2F32) -> (usize, usize),
    W: Fn(&Vec2F32, &Vec2F32) -> CellWindow,
 {
    exists|narrow: Seq<(usize, usize)>|
        {
            &&& #[trigger] is_projection_match(
                searcher,
                camera,
                image_size,
                map_points,
                keypoints,
                descriptors,
                grid,
                pose,
                config,
                narrow,
            )
            &&& if narrow.len() < MIN_MATCHES_BEFORE_WIDE {
                is_projection_match(
                    searcher,
                    camera,
                    image_size,
                    map_points,
                    keypoints,
                    descriptors,
                    grid,
                    pose,
                    widened(config),
                    matches,
                )
            } else {
                matches == narrow
            }
        }
}

/// Whatever the searcher says, projection matching is one to one and in the order of the
/// map points, matches no culled point, and accepts no descriptor that is too far.
pub proof fn lemma_projection_match_is_one_to_one<C, W>(
    searcher: Searcher<C, W>,
    camera: PinholeCamera,
    image_size: ImageSize,
    map_points: Seq<MapPoint>,
    keypoints: Seq<Vec2F32>,
    descriptors: Seq<[u8; 32]>,
    grid: KeypointGrid,
    pose: Pose3d,
    config: ProjectionMatchConfig,
    matches: Seq<(usize, usize)>,
) where
    C: Fn(&Vec2F32) -> (usize, usize),
    W: Fn(&Vec2F32, &Vec2F32) -> CellWindow,

    requires
        is_projection_match(
            searcher,
            camera,
            image_size,
            map_points,
            keypoints,
            descriptors,
            grid,
            pose,
            config,
            matches,
        ),
        map_points.len() <= usize::MAX,
    ensures
        forall|i: int, j: int|
            0 <= i < j < matches.len() ==> (#[trigger] matches[i]).0 < (#[trigger] matches[j]).0
                && matches[i].1 != matches[j].1,
        forall|i: int|
            0 <= i < matches.len() ==> {
                &&& (#[trigger] matches[i]).0 < map_points.len()
                &&& !map_points[matches[i].0 as int].culled
                &&& hamming(
                    map_points[matches[i].0 as int].descriptor@,
                    descriptors[matches[i].1 as int]@,
                ) <= config.max_hamming
            },
{
    let answers = choose|answers: Seq<Option<Seq<usize>>>|
        {
            &&& answers.len() == map_points.len()
            &&& forall|p: int|
                0 <= p < map_points.len() ==> is_answer(
                    searcher,
                    keypoints,
                    grid,
                    config.search_radius,
                    sight(camera, image_size, config.nearest, pose, map_points[p]),
                    #[trigger] answers[p],
                )
            &&& matches == #[trigger] greedy_matches(
                map_points,
                answers,
                descriptors,
                config.max_hamming,
                map_points.len(),
            )
        };
    lemma_greedy_matches(map_points, answers, descriptors, config.max_hamming, map_points.len());
    assert forall|i: int| 0 <= i < matches.len() implies {
        &&& (#[trigger] matches[i]).0 < map_points.len()
        &&& !map_points[matches[i].0 as int].culled
        &&& hamming(
            map_points[matches[i].0 as int].descriptor@,
            descriptors[matches[i].1 as int]@,
        ) <= config.max_hamming
    } by {
        assert(answers[matches[i].0 as int] is Some);
    }
}

/// Whether a keypoint is taken before map point `p` has its turn shows in the matches: it is
/// where an earlier point has it. And `p` is matched to its best keypoint, where that is near
/// enough, and to no other.
proof fn lemma_greedy_at(
    map_points: Seq<MapPoint>,
    answers: Seq<Option<Seq<usize>>>,
    descriptors: Seq<[u8; 32]>,
    max_hamming: u32,
    n: nat,
    p: nat,
)
    requires
        p < n <= map_points.len() == answers.len(),
        map_points.len() <= usize::MAX,
    ensures
        ({
            let m = greedy_matches(map_points, answers, descriptors, max_hamming, n);
            let before = greedy_matches(map_points, answers, descriptors, max_hamming, p);
            let descriptor = map_points[p as int].descriptor;
            &&& forall|k: usize|
                is_taken(before, k) <==> exists|i: int|
                    0 <= i < m.len() && (#[trigger] m[i]).1 == k && m[i].0 < p
            &&& forall|k: usize|
                (exists|i: int| 0 <= i < m.len() && #[trigger] m[i] == (p as usize, k)) <==> {
                    &&& answers[p as int] is Some
                    &&& #[trigger] best_free(
                        descriptor,
                        answers[p as int]->0,
                        before,
                        descriptors,
                    ) == Some(k)
                    &&& hamming(descriptor@, descriptors[k as int]@) <= max_hamming
                }
        }),
    decreases n,
{
    let m = greedy_matches(map_points, answers, descriptors, max_hamming, n);
    let before = greedy_matches(map_points, answers, descriptors, max_hamming, p);
    let descriptor = map_points[p as int].descriptor;
    let head = greedy_matches(map_points, answers, descriptors, max_hamming, (n - 1) as nat);
    lemma_greedy_matches(map_points, answers, descriptors, max_hamming, n);
    lemma_greedy_matches(map_points, answers, descriptors, max_hamming, (n - 1) as nat);
    assert(forall|i: int| 0 <= i < head.len() ==> m[i] == head[i]);
    if p < n - 1 {
        lemma_greedy_at(map_points, answers, descriptors, max_hamming, (n - 1) as nat, p);
        assert forall|k: usize|
            is_taken(before, k) <==> exists|i: int|
                0 <= i < m.len() && (#[trigger] m[i]).1 == k && m[i].0 < p by {
            if is_taken(before, k) {
                let i = choose|i: int| 0 <= i < head.len() && (#[trigger] head[i]).1 == k && head[i].0 < p;
                assert(m[i].1 == k && m[i].0 < p);
            }
            if exists|i: int| 0 <= i < m.len() && (#[trigger] m[i]).1 == k && m[i].0 < p {
                let i = choose|i: int| 0 <= i < m.len() && (#[trigger] m[i]).1 == k && m[i].0 < p;
                assert(i < head.len());
                assert(head[i].1 == k && head[i].0 < p);
            }
        }
        assert forall|k: usize|
            (exists|i: int| 0 <= i < m.len() && #[trigger] m[i] == (p as usize, k)) <==> {
                &&& answers[p as int] is Some
                &&& #[trigger] best_free(
                    descriptor,
                    answers[p as int]->0,
                    before,
                    descriptors,
                ) == Some(k)
                &&& hamming(descriptor@, descriptors[k as int]@) <= max_hamming
            } by {
            if exists|i: int| 0 <= i < head.len() && #[trigger] head[i] == (p as usize, k) {
                let i = choose|i: int| 0 <= i < head.len() && #[trigger] head[i] == (p as usize, k);
                assert(m[i] == (p as usize, k));
            }
            if exists|i: int| 0 <= i < m.len() && #[trigger] m[i] == (p as usize, k) {
                let i = choose|i: int| 0 <= i < m.len() && #[trigger] m[i] == (p as usize, k);
                assert(i < head.len());
                assert(head[i] == (p as usize, k));
            }
        }
    } else {
        assert(head == before);
        assert forall|k: usize|
            is_taken(before, k) <==> exists|i: int|
                0 <= i < m.len() && (#[trigger] m[i]).1 == k && m[i].0 < p by {
            if is_taken(before, k) {
                let i = choose|i: int| 0 <= i < before.len() && (#[trigger] before[i]).1 == k;
                assert(m[i].1 == k && m[i].0 < p);
            }
            if exists|i: int| 0 <= i < m.len() && (#[trigger] m[i]).1 == k && m[i].0 < p {
                let i = choose|i: int| 0 <= i < m.len() && (#[trigger] m[i]).1 == k && m[i].0 < p;
                assert(i < head.len());
                assert(before[i].1 == k);
            }
        }
        assert forall|k: usize|
            (exists|i: int| 0 <= i < m.len() && #[trigger] m[i] == (p as usize, k)) <==> {
                &&& answers[p as int] is Some
                &&& #[trigger] best_free(
                    descriptor,
                    answers[p as int]->0,
                    before,
                    descriptors,
                ) == Some(k)
                &&& hamming(descriptor@, descriptors[k as int]@) <= max_hamming
            } by {
            if m.len() > head.len() {
                assert(m[head.len() as int].0 == p);
            }
            if exists|i: int| 0 <= i < m.len() && #[trigger] m[i] == (p as usize, k) {
                let i = choose|i: int| 0 <= i < m.len() && #[trigger] m[i] == (p as usize, k);
                assert(i == head.len());
            }
        }
    }
}

/// The best of those of the keypoints that pass a test: it passes, has no match, no other one
/// is nearer, and none of those before it is as near.
proof fn lemma_best_of_near(
    descriptor: [u8; 32],
    items: Seq<usize>,
    near: spec_fn(usize) -> bool,
    matches: Seq<(usize, usize)>,
    descriptors: Seq<[u8; 32]>,
)
    ensures
        match best_free(descriptor, items.filter(near), matches, descriptors) {
            None => forall|j: int|
                0 <= j < items.len() && near(#[trigger] items[j]) ==> is_taken(matches, items[j]),
            Some(kp) => {
                &&& near(kp)
                &&& !is_taken(matches, kp)
                &&& exists|b: int|
                    {
                        &&& 0 <= b < items.len()
                        &&& #[trigger] items[b] == kp
                        &&& forall|j: int|
                            0 <= j < b && near(#[trigger] items[j]) && !is_taken(matches, items[j])
                                ==> hamming(descriptor@, descriptors[kp as int]@) < hamming(
                                descriptor@,
                                descriptors[items[j] as int]@,
                            )
                    }
                &&& forall|j: int|
                    0 <= j < items.len() && near(#[trigger] items[j]) && !is_taken(
                        matches,
                        items[j],
                    ) ==> hamming(descriptor@, descriptors[kp as int]@) <= hamming(
                        descriptor@,
                        descriptors[items[j] as int]@,
                    )
            },
        },
    decreases items.len(),
{
    reveal(Seq::filter);
    if items.len() > 0 {
        let head = items.drop_last();
        lemma_best_of_near(descriptor, head, near, matches, descriptors);
        let best = best_free(descriptor, items.filter(near), matches, descriptors);
        let best0 = best_free(descriptor, head.filter(near), matches, descriptors);
        let kp = items.last();
        assert(kp == items[items.len() - 1]);
        if near(kp) {
            assert(items.filter(near).drop_last() =~= head.filter(near));
        }
        assert(forall|j: int| 0 <= j < head.len() ==> head[j] == #[trigger] items[j]);
        if best is Some {
            if best == best0 && best0 is Some {
                let b = choose|b: int|
                    {
                        &&& 0 <= b < head.len()
                        &&& #[trigger] head[b] == best0->0
                        &&& forall|j: int|
                            0 <= j < b && near(#[trigger] head[j]) && !is_taken(matches, head[j])
                                ==> hamming(descriptor@, descriptors[best0->0 as int]@) < hamming(
                                descriptor@,
                                descriptors[head[j] as int]@,
                            )
                    };
                assert(items[b] == best->0);
                assert forall|j: int|
                    0 <= j < b && near(#[trigger] items[j]) && !is_taken(
                        matches,
                        items[j],
                    ) implies hamming(descriptor@, descriptors[best->0 as int]@) < hamming(
                    descriptor@,
                    descriptors[items[j] as int]@,
                ) by {
                    assert(head[j] == items[j]);
                }
            } else {
                assert(items[items.len() - 1] == best->0);
                assert forall|j: int|
                    0 <= j < items.len() - 1 && near(#[trigger] items[j]) && !is_taken(
                        matches,
                        items[j],
                    ) implies hamming(descriptor@, descriptors[best->0 as int]@) < hamming(
                    descriptor@,
                    descriptors[items[j] as int]@,
                ) by {
                    assert(head[j] == items[j]);
                }
            }
        }
        assert forall|j: int| 0 <= j < items.len() && near(#[trigger] items[j]) && !is_taken(
            matches,
            items[j],
        ) implies best is Some && hamming(descriptor@, descriptors[best->0 as int]@) <= hamming(
            descriptor@,
            descriptors[items[j] as int]@,
        ) by {
            if j < head.len() {
                assert(head[j] == items[j]);
            }
        }
    }
}

/// A map point is searched for where the camera at the given pose sees it: the pose takes its
/// position into the camera frame, and the camera takes that to a pixel. Its match is within
/// the search radius of that pixel; and a point that is seen at no pixel, because it is behind
/// the camera or outside the image, has no match.
pub proof fn lemma_matches_are_where_points_project<C, W>(
    searcher: Searcher<C, W>,
    camera: PinholeCamera,
    image_size: ImageSize,
    map_points: Seq<MapPoint>,
    keypoints: Seq<Vec2F32>,
    descriptors: Seq<[u8; 32]>,
    grid: KeypointGrid,
    pose: Pose3d,
    config: ProjectionMatchConfig,
    matches: Seq<(usize, usize)>,
) where
    C: Fn(&Vec2F32) -> (usize, usize),
    W: Fn(&Vec2F32, &Vec2F32) -> CellWindow,

    requires
        is_projection_match(
            searcher,
            camera,
            image_size,
            map_points,
            keypoints,
            descriptors,
            grid,
            pose,
            config,
            matches,
        ),
        map_points.len() <= usize::MAX,
    ensures
        forall|i: int|
            0 <= i < matches.len() ==> {
                let mp = map_points[(#[trigger] matches[i]).0 as int];
                let pixel = projected(
                    camera,
                    transformed(pose, mp.position),
                    config.nearest,
                    image_size,
                );
                &&& pixel is Some
                &&& at_least(
                    squared_length(config.search_radius),
                    squared_length(difference(keypoints[matches[i].1 as int], pixel->0)),
                )
            },
        forall|p: int, i: int|
            0 <= p < map_points.len() && 0 <= i < matches.len() && projected(
                camera,
                transformed(pose, (#[trigger] map_points[p]).position),
                config.nearest,
                image_size,
            ) is None ==> (#[trigger] matches[i]).0 != p,
{
    let answers = choose|answers: Seq<Option<Seq<usize>>>|
        {
            &&& answers.len() == map_points.len()
            &&& forall|p: int|
                0 <= p < map_points.len() ==> is_answer(
                    searcher,
                    keypoints,
                    grid,
                    config.search_radius,
                    sight(camera, image_size, config.nearest, pose, map_points[p]),
                    #[trigger] answers[p],
                )
            &&& matches == #[trigger] greedy_matches(
                map_points,
                answers,
                descriptors,
                config.max_hamming,
                map_points.len(),
            )
        };
    lemma_greedy_matches(map_points, answers, descriptors, config.max_hamming, map_points.len());
    assert forall|i: int| 0 <= i < matches.len() implies {
        let mp = map_points[(#[trigger] matches[i]).0 as int];
        let pixel = projected(
            camera,
            transformed(pose, mp.position),
            config.nearest,
            image_size,
        );
        &&& pixel is Some
        &&& at_least(
            squared_length(config.search_radius),
            squared_length(difference(keypoints[matches[i].1 as int], pixel->0)),
        )
    } by {
        let p = matches[i].0 as int;
        let kp = matches[i].1;
        assert(answers[p] is Some);
        let pixel = projected(
            camera,
            transformed(pose, map_points[p].position),
            config.nearest,
            image_size,
        )->0;
        let window = choose|window: CellWindow|
            {
                &&& #[trigger] call_ensures(
                    searcher.window,
                    (&pixel, &config.search_radius),
                    window,
                )
                &&& answers[p]->0 == grid.near_items(
                    window,
                    keypoints,
                    pixel,
                    config.search_radius,
                )
            };
        lemma_filter_contains(
            grid.window_items(window),
            |i: usize| is_within(keypoints[i as int], pixel, config.search_radius),
            kp,
        );
    }
}

/// A keypoint near a pixel where a live map point is seen is not passed over: where every
/// window for the pixel holds it, it is within the radius of the pixel and its descriptor is
/// near enough, then either an earlier point has it, or the point is matched, to a keypoint
/// whose descriptor is at least as near.
pub proof fn lemma_near_keypoint_is_not_passed_over<C, W>(
    searcher: Searcher<C, W>,
    camera: PinholeCamera,
    image_size: ImageSize,
    map_points: Seq<MapPoint>,
    keypoints: Seq<Vec2F32>,
    descriptors: Seq<[u8; 32]>,
    grid: KeypointGrid,
    pose: Pose3d,
    config: ProjectionMatchConfig,
    matches: Seq<(usize, usize)>,
    p: int,
    pixel: Vec2F32,
    k: usize,
) where
    C: Fn(&Vec2F32) -> (usize, usize),
    W: Fn(&Vec2F32, &Vec2F32) -> CellWindow,

    requires
        is_projection_match(
            searcher,
            camera,
            image_size,
            map_points,
            keypoints,
            descriptors,
            grid,
            pose,
            config,
            matches,
        ),
        map_points.len() <= usize::MAX,
        0 <= p < map_points.len(),
        !map_points[p].culled,
        projected(
            camera,
            transformed(pose, map_points[p].position),
            config.nearest,
            image_size,
        ) == Some(pixel),
        forall|window: CellWindow| #[trigger]
            call_ensures(searcher.window, (&pixel, &config.search_radius), window)
                ==> grid.window_items(window).contains(k),
        at_least(
            squared_length(config.search_radius),
            squared_length(difference(keypoints[k as int], pixel)),
        ),
        hamming(map_points[p].descriptor@, descriptors[k as int]@) <= config.max_hamming,
    ensures
        (exists|i: int| 0 <= i < matches.len() && (#[trigger] matches[i]).1 == k && matches[i].0 < p)
            || (exists|i: int|
            {
                &&& 0 <= i < matches.len()
                &&& (#[trigger] matches[i]).0 == p
                &&& hamming(map_points[p].descriptor@, descriptors[matches[i].1 as int]@)
                    <= hamming(map_points[p].descriptor@, descriptors[k as int]@)
            }),
{
    let answers = choose|answers: Seq<Option<Seq<usize>>>|
        {
            &&& answers.len() == map_points.len()
            &&& forall|p: int|
                0 <= p < map_points.len() ==> is_answer(
                    searcher,
                    keypoints,
                    grid,
                    config.search_radius,
                    sight(camera, image_size, config.nearest, pose, map_points[p]),
                    #[trigger] answers[p],
                )
            &&& matches == #[trigger] greedy_matches(
                map_points,
                answers,
                descriptors,
                config.max_hamming,
                map_points.len(),
            )
        };
    assert(answers[p] is Some);
    let window = choose|window: CellWindow|
        {
            &&& #[trigger] call_ensures(searcher.window, (&pixel, &config.search_radius), window)
            &&& answers[p]->0 == grid.near_items(window, keypoints, pixel, config.search_radius)
        };
    let items = grid.window_items(window);
    let near = |i: usize| is_within(keypoints[i as int], pixel, config.search_radius);
    let before = greedy_matches(
        map_points,
        answers,
        descriptors,
        config.max_hamming,
        p as nat,
    );
    let descriptor = map_points[p].descriptor;
    lemma_greedy_at(
        map_points,
        answers,
        descriptors,
        config.max_hamming,
        map_points.len(),
        p as nat,
    );
    lemma_best_of_near(descriptor, items, near, before, descriptors);
    let j = choose|j: int| 0 <= j < items.len() && items[j] == k;
    assert(near(items[j]));
    if !is_taken(before, k) {
        let best = best_free(descriptor, answers[p]->0, before, descriptors);
        assert(best is Some);
        assert(best == Some(best->0));
        let i = choose|i: int| 0 <= i < matches.len() && #[trigger] matches[i] == (p as usize, best->0);
        assert(matches[i].0 == p);
    }
}

/// Every match names a keypoint that exists, where the grid holds no others.
pub proof fn lemma_matches_name_keypoints<C, W>(
    searcher: Searcher<C, W>,
    camera: PinholeCamera,
    image_size: ImageSize,
    map_points: Seq<MapPoint>,
    keypoints: Seq<Vec2F32>,
    descriptors: Seq<[u8; 32]>,
    grid: KeypointGrid,
    pose: Pose3d,
    config: ProjectionMatchConfig,
    matches: Seq<(usize, usize)>,
) where
    C: Fn(&Vec2F32) -> (usize, usize),
    W: Fn(&Vec2F32, &Vec2F32) -> CellWindow,

    requires
        is_projection_match(
            searcher,
            camera,
            image_size,
            map_points,
            keypoints,
            descriptors,
            grid,
            pose,
            config,
            matches,
        ),
        map_points.len() <= usize::MAX,
        grid.holds_below(keypoints.len()),
        grid.cols() > 0,
        grid.rows() > 0,
    ensures
        forall|i: int| 0 <= i < matches.len() ==> (#[trigger] matches[i]).1 < keypoints.len(),
{
    let answers = choose|answers: Seq<Option<Seq<usize>>>|
        {
            &&& answers.len() == map_points.len()
            &&& forall|p: int|
                0 <= p < map_points.len() ==> is_answer(
                    searcher,
                    keypoints,
                    grid,
                    config.search_radius,
                    sight(camera, image_size, config.nearest, pose, map_points[p]),
                    #[trigger] answers[p],
                )
            &&& matches == #[trigger] greedy_matches(
                map_points,
                answers,
                descriptors,
                config.max_hamming,
                map_points.len(),
            )
        };
    lemma_greedy_matches(map_points, answers, descriptors, config.max_hamming, map_points.len());
    assert forall|i: int| 0 <= i < matches.len() implies (#[trigger] matches[i]).1
        < keypoints.len() by {
        let p = matches[i].0 as int;
        let kp = matches[i].1;
        assert(answers[p] is Some);
        let pixel = sight(camera, image_size, config.nearest, pose, map_points[p])->0;
        let window = choose|window: CellWindow|
            {
                &&& #[trigger] call_ensures(
                    searcher.window,
                    (&pixel, &config.search_radius),
                    window,
                )
                &&& answers[p]->0 == grid.near_items(
                    window,
                    keypoints,
                    pixel,
                    config.search_radius,
                )
            };
        let items = grid.window_items(window);
        lemma_filter_contains(
            items,
            |i: usize| is_within(keypoints[i as int], pixel, config.search_radius),
            kp,
        );
        lemma_box_below(
            grid,
            clamped(window.row_min, grid.rows()),
            clamped(window.row_max, grid.rows()),
            clamped(window.col_min, grid.cols()),
            clamped(window.col_max, grid.cols()),
            keypoints.len(),
        );
        let j = choose|j: int| 0 <= j < items.len() && items[j] == kp;
        assert(items[j] < keypoints.len());
    }
}

/// A keypoint that no earlier point has, near a pixel where a live map point is seen, whose
/// descriptor is near enough and nearer than that of every other keypoint, is the match of that
/// point.
pub proof fn lemma_nearest_keypoint_is_matched<C, W>(
    searcher: Searcher<C, W>,
    camera: PinholeCamera,
    image_size: ImageSize,
    map_points: Seq<MapPoint>,
    keypoints: Seq<Vec2F32>,
    descriptors: Seq<[u8; 32]>,
    grid: KeypointGrid,
    pose: Pose3d,
    config: ProjectionMatchConfig,
    matches: Seq<(usize, usize)>,
    p: int,
    pixel: Vec2F32,
    k: usize,
) where
    C: Fn(&Vec2F32) -> (usize, usize),
    W: Fn(&Vec2F32, &Vec2F32) -> CellWindow,

    requires
        is_projection_match(
            searcher,
            camera,
            image_size,
            map_points,
            keypoints,
            descriptors,
            grid,
            pose,
            config,
            matches,
        ),
        map_points.len() <= usize::MAX,
        0 <= p < map_points.len(),
        !map_points[p].culled,
        projected(
            camera,
            transformed(pose, map_points[p].position),
            config.nearest,
            image_size,
        ) == Some(pixel),
        forall|window: CellWindow| #[trigger]
            call_ensures(searcher.window, (&pixel, &config.search_radius), window)
                ==> grid.window_items(window).contains(k),
        at_least(
            squared_length(config.search_radius),
            squared_length(difference(keypoints[k as int], pixel)),
        ),
        hamming(map_points[p].descriptor@, descriptors[k as int]@) <= config.max_hamming,
        forall|i: int|
            0 <= i < matches.len() && (#[trigger] matches[i]).0 < p ==> matches[i].1 != k,
        grid.holds_below(keypoints.len()),
        grid.cols() > 0,
        grid.rows() > 0,
        keypoints.len() <= descriptors.len(),
        forall|j: int|
            0 <= j < descriptors.len() && j != k ==> hamming(map_points[p].descriptor@, descriptors[k as int]@) < hamming(
                map_points[p].descriptor@,
                #[trigger] descriptors[j]@,
            ),
    ensures
        matches.contains((p as usize, k)),
{
    lemma_near_keypoint_is_not_passed_over(
        searcher,
        camera,
        image_size,
        map_points,
        keypoints,
        descriptors,
        grid,
        pose,
        config,
        matches,
        p,
        pixel,
        k,
    );
    let i = choose|i: int|
        {
            &&& 0 <= i < matches.len()
            &&& (#[trigger] matches[i]).0 == p
            &&& hamming(map_points[p].descriptor@, descriptors[matches[i].1 as int]@) <= hamming(
                map_points[p].descriptor@,
                descriptors[k as int]@,
            )
        };
    lemma_matches_name_keypoints(
        searcher,
        camera,
        image_size,
        map_points,
        keypoints,
        descriptors,
        grid,
        pose,
        config,
        matches,
    );
    assert(matches[i].1 < descriptors.len());
    assert(matches[i] == (p as usize, k));
}

/// A match is the nearest of the keypoints that its point could have: of those that a window
/// for its pixel holds, within the radius, and that no earlier point has, none is nearer by its
/// descriptor, and none of those before it in the window is as near.
pub proof fn lemma_match_is_the_first_nearest<C, W>(
    searcher: Searcher<C, W>,
    camera: PinholeCamera,
    image_size: ImageSize,
    map_points: Seq<MapPoint>,
    keypoints: Seq<Vec2F32>,
    descriptors: Seq<[u8; 32]>,
    grid: KeypointGrid,
    pose: Pose3d,
    config: ProjectionMatchConfig,
    matches: Seq<(usize, usize)>,
    i: int,
    pixel: Vec2F32,
) where
    C: Fn(&Vec2F32) -> (usize, usize),
    W: Fn(&Vec2F32, &Vec2F32) -> CellWindow,

    requires
        is_projection_match(
            searcher,
            camera,
            image_size,
            map_points,
            keypoints,
            descriptors,
            grid,
            pose,
            config,
            matches,
        ),
        map_points.len() <= usize::MAX,
        0 <= i < matches.len(),
        projected(
            camera,
            transformed(pose, map_points[matches[i].0 as int].position),
            config.nearest,
            image_size,
        ) == Some(pixel),
    ensures
        exists|window: CellWindow, b: int|
            {
                let items = grid.window_items(window);
                let descriptor = map_points[matches[i].0 as int].descriptor;
                &&& call_ensures(searcher.window, (&pixel, &config.search_radius), window)
                &&& 0 <= b < items.len()
                &&& #[trigger] grid.window_items(window)[b] == matches[i].1
                &&& forall|j: int|
                    {
                        &&& 0 <= j < items.len()
                        &&& at_least(
                            squared_length(config.search_radius),
                            squared_length(
                                difference(keypoints[(#[trigger] items[j]) as int], pixel),
                            ),
                        )
                        &&& forall|h: int|
                            0 <= h < matches.len() && (#[trigger] matches[h]).0 < matches[i].0
                                ==> matches[h].1 != items[j]
                    } ==> {
                        let other = hamming(descriptor@, descriptors[items[j] as int]@);
                        let mine = hamming(descriptor@, descriptors[matches[i].1 as int]@);
                        mine <= other && (j < b ==> mine < other)
                    }
            },
{
    let answers = choose|answers: Seq<Option<Seq<usize>>>|
        {
            &&& answers.len() == map_points.len()
            &&& forall|p: int|
                0 <= p < map_points.len() ==> is_answer(
                    searcher,
                    keypoints,
                    grid,
                    config.search_radius,
                    sight(camera, image_size, config.nearest, pose, map_points[p]),
                    #[trigger] answers[p],
                )
            &&& matches == #[trigger] greedy_matches(
                map_points,
                answers,
                descriptors,
                config.max_hamming,
                map_points.len(),
            )
        };
    lemma_greedy_matches(map_points, answers, descriptors, config.max_hamming, map_points.len());
    let p = matches[i].0 as int;
    let kp = matches[i].1;
    assert(answers[p] is Some);
    let window = choose|window: CellWindow|
        {
            &&& #[trigger] call_ensures(searcher.window, (&pixel, &config.search_radius), window)
            &&& answers[p]->0 == grid.near_items(window, keypoints, pixel, config.search_radius)
        };
    let items = grid.window_items(window);
    let near = |i: usize| is_within(keypoints[i as int], pixel, config.search_radius);
    let before = greedy_matches(
        map_points,
        answers,
        descriptors,
        config.max_hamming,
        p as nat,
    );
    let descriptor = map_points[p].descriptor;
    lemma_greedy_at(
        map_points,
        answers,
        descriptors,
        config.max_hamming,
        map_points.len(),
        p as nat,
    );
    lemma_best_of_near(descriptor, items, near, before, descriptors);
    assert(matches[i] == (p as usize, kp));
    assert(best_free(descriptor, answers[p]->0, before, descriptors) == Some(kp));
    let b = choose|b: int|
        {
            &&& 0 <= b < items.len()
            &&& #[trigger] items[b] == kp
            &&& forall|j: int|
                0 <= j < b && near(#[trigger] items[j]) && !is_taken(before, items[j]) ==> hamming(
                    descriptor@,
                    descriptors[kp as int]@,
                ) < hamming(descriptor@, descriptors[items[j] as int]@)
        };
    assert(grid.window_items(window)[b] == kp);
    assert forall|j: int|
        {
            &&& 0 <= j < items.len()
            &&& at_least(
                squared_length(config.search_radius),
                squared_length(difference(keypoints[(#[trigger] items[j]) as int], pixel)),
            )
            &&& forall|h: int|
                0 <= h < matches.len() && (#[trigger] matches[h]).0 < matches[i].0
                    ==> matches[h].1 != items[j]
        } implies {
        let other = hamming(descriptor@, descriptors[items[j] as int]@);
        let mine = hamming(descriptor@, descriptors[kp as int]@);
        mine <= other && (j < b ==> mine < other)
    } by {
        assert(near(items[j]));
        assert(!is_taken(before, items[j]));
    }
}

/// The search is made once at the radius that is asked for, and its matches are kept where
/// there are at least twenty; else it is made again, with the radius doubled and the same
/// limits on depth and descriptor distance.
pub proof fn lemma_frame_match<C, W>(
    searcher: Searcher<C, W>,
    camera: PinholeCamera,
    image_size: ImageSize,
    map_points: Seq<MapPoint>,
    keypoints: Seq<Vec2F32>,
    descriptors: Seq<[u8; 32]>,
    grid: KeypointGrid,
    pose: Pose3d,
    config: ProjectionMatchConfig,
    matches: Seq<(usize, usize)>,
) where
    C: Fn(&Vec2F32) -> (usize, usize),
    W: Fn(&Vec2F32, &Vec2F32) -> CellWindow,

    requires
        is_frame_match(
            searcher,
            camera,
            image_size,
            map_points,
            keypoints,
            descriptors,
            grid,
            pose,
            config,
            matches,
        ),
        map_points.len() <= usize::MAX,
    ensures
        exists|radius: Vec2F32|
            {
                &&& radius == config.search_radius || radius == doubled(config.search_radius)
                &&& matches.len() < 20 ==> radius == doubled(config.search_radius)
                &&& #[trigger] is_projection_match(
                    searcher,
                    camera,
                    image_size,
                    map_points,
                    keypoints,
                    descriptors,
                    grid,
                    pose,
                    (ProjectionMatchConfig {
                        nearest: config.nearest,
                        search_radius: radius,
                        max_hamming: config.max_hamming,
                    }),
                    matches,
                )
            },
        (forall|narrow: Seq<(usize, usize)>| #[trigger]
            is_projection_match(
                searcher,
                camera,
                image_size,
                map_points,
                keypoints,
                descriptors,
                grid,
                pose,
                config,
                narrow,
            ) ==> narrow.len() >= 20) ==> is_projection_match(
            searcher,
            camera,
            image_size,
            map_points,
            keypoints,
            descriptors,
            grid,
            pose,
            config,
            matches,
        ),
{
    let narrow = choose|narrow: Seq<(usize, usize)>|
        {
            &&& #[trigger] is_projection_match(
                searcher,
                camera,
                image_size,
                map_points,
                keypoints,
                descriptors,
                grid,
                pose,
                config,
                narrow,
            )
            &&& if narrow.len() < MIN_MATCHES_BEFORE_WIDE {
                is_projection_match(
                    searcher,
                    camera,
                    image_size,
                    map_points,
                    keypoints,
                    descriptors,
                    grid,
                    pose,
                    widened(config),
                    matches,
                )
            } else {
                matches == narrow
            }
        };
    let radius = if narrow.len() < MIN_MATCHES_BEFORE_WIDE {
        doubled(config.search_radius)
    } else {
        config.search_radius
    };
    let used = ProjectionMatchConfig {
        nearest: config.nearest,
        search_radius: radius,
        max_hamming: config.max_hamming,
    };
    assert(used == if narrow.len() < MIN_MATCHES_BEFORE_WIDE {
        widened(config)
    } else {
        config
    });
}

/// `i`, or `last` where that is smaller.
pub open spec fn up_to(i: usize, last: int) -> int {
    if i <= last {
        i as int
    } else {
        last
    }
}

/// A query finds a keypoint exactly where its column and its row are among those of the window,
/// all of them brought into the grid, and it is no farther from the pixel than the radius is
/// long.
pub proof fn lemma_query_by_cells(
    grid: KeypointGrid,
    cells: Seq<(usize, usize)>,
    n_cols: nat,
    n_rows: nat,
    window: CellWindow,
    keypoints: Seq<Vec2F32>,
    pixel: Vec2F32,
    radius: Vec2F32,
    i: usize,
)
    requires
        grid.bins(cells, n_cols, n_rows),
        cells.len() == keypoints.len() <= usize::MAX,
        n_cols > 0,
        n_rows > 0,
        i < keypoints.len(),
    ensures
        grid.near_items(window, keypoints, pixel, radius).contains(i) <==> {
            let (col, row) = cells[i as int];
            &&& up_to(window.col_min, n_cols - 1) <= up_to(col, n_cols - 1) <= up_to(
                window.col_max,
                n_cols - 1,
            )
            &&& up_to(window.row_min, n_rows - 1) <= up_to(row, n_rows - 1) <= up_to(
                window.row_max,
                n_rows - 1,
            )
            &&& at_least(
                squared_length(radius),
                squared_length(difference(keypoints[i as int], pixel)),
            )
        },
{
    lemma_query_finds(grid, cells, n_cols, n_rows, window, keypoints, pixel, radius);
}

/// Keypoint `i` comes before keypoint `j`: by the row of its cell, then by the column, then by
/// its index. Rows and columns are brought into the grid.
pub open spec fn reads_before(
    cells: Seq<(usize, usize)>,
    n_cols: nat,
    n_rows: nat,
    i: usize,
    j: usize,
) -> bool {
    let (c, d) = (
        up_to(cells[i as int].0, n_cols - 1),
        up_to(cells[j as int].0, n_cols - 1),
    );
    let (r, s) = (
        up_to(cells[i as int].1, n_rows - 1),
        up_to(cells[j as int].1, n_rows - 1),
    );
    r < s || (r == s && (c < d || (c == d && i < j)))
}

proof fn lemma_row_order(
    grid: KeypointGrid,
    cells: Seq<(usize, usize)>,
    n_cols: nat,
    n_rows: nat,
    r: int,
    lo: int,
    hi: int,
)
    requires
        grid.bins(cells, n_cols, n_rows),
        cells.len() <= usize::MAX,
        0 <= r < n_rows,
        0 <= lo,
        hi < n_cols,
    ensures
        forall|a: int|
            0 <= a < grid.row_items(r, lo, hi).len() ==> {
                let i = #[trigger] grid.row_items(r, lo, hi)[a];
                &&& i < cells.len()
                &&& up_to(cells[i as int].1, n_rows - 1) == r
                &&& up_to(cells[i as int].0, n_cols - 1) <= hi
            },
        forall|a: int, b: int|
            0 <= a < b < grid.row_items(r, lo, hi).len() ==> #[trigger] reads_before(
                cells,
                n_cols,
                n_rows,
                grid.row_items(r, lo, hi)[a],
                grid.row_items(r, lo, hi)[b],
            ),
    decreases hi - lo + 1,
{
    if lo <= hi {
        lemma_row_order(grid, cells, n_cols, n_rows, r, lo, hi - 1);
        let head = grid.row_items(r, lo, hi - 1);
        let last = grid.cell(r, hi);
        let here = |i: int| falls_in(cells, n_cols, n_rows, r, hi, i);
        crate::selection::lemma_indices_where(cells.len(), here);
        assert(last == indices_where(cells.len(), here));
        let items = grid.row_items(r, lo, hi);
        assert(items =~= head + last);
        assert forall|a: int| 0 <= a < last.len() implies here((#[trigger] last[a]) as int) by {}
        assert forall|a: int| 0 <= a < items.len() implies {
            let i = #[trigger] items[a];
            &&& i < cells.len()
            &&& up_to(cells[i as int].1, n_rows - 1) == r
            &&& up_to(cells[i as int].0, n_cols - 1) <= hi
        } by {
            if a < head.len() {
                assert(items[a] == head[a]);
            } else {
                assert(items[a] == last[a - head.len()]);
                assert(here(last[a - head.len()] as int));
            }
        }
        assert forall|a: int, b: int| 0 <= a < b < items.len() implies #[trigger] reads_before(
            cells,
            n_cols,
            n_rows,
            items[a],
            items[b],
        ) by {
            if b < head.len() {
                assert(items[a] == head[a] && items[b] == head[b]);
                assert(reads_before(cells, n_cols, n_rows, head[a], head[b]));
            } else {
                let q = b - head.len();
                assert(items[b] == last[q] && here(last[q] as int));
                if a < head.len() {
                    assert(items[a] == head[a]);
                } else {
                    let p = a - head.len();
                    assert(items[a] == last[p] && here(last[p] as int));
                    assert(last[p] < last[q]);
                }
            }
        }
    }
}

proof fn lemma_box_order(
    grid: KeypointGrid,
    cells: Seq<(usize, usize)>,
    n_cols: nat,
    n_rows: nat,
    row_lo: int,
    row_hi: int,
    lo: int,
    hi: int,
)
    requires
        grid.bins(cells, n_cols, n_rows),
        cells.len() <= usize::MAX,
        0 <= row_lo,
        row_hi < n_rows,
        0 <= lo,
        hi < n_cols,
    ensures
        forall|a: int|
            0 <= a < grid.box_items(row_lo, row_hi, lo, hi).len() ==> {
                let i = #[trigger] grid.box_items(row_lo, row_hi, lo, hi)[a];
                &&& i < cells.len()
                &&& up_to(cells[i as int].1, n_rows - 1) <= row_hi
            },
        forall|a: int, b: int|
            0 <= a < b < grid.box_items(row_lo, row_hi, lo, hi).len() ==> #[trigger] reads_before(
                cells,
                n_cols,
                n_rows,
                grid.box_items(row_lo, row_hi, lo, hi)[a],
                grid.box_items(row_lo, row_hi, lo, hi)[b],
            ),
    decreases row_hi - row_lo + 1,
{
    if row_lo <= row_hi {
        lemma_box_order(grid, cells, n_cols, n_rows, row_lo, row_hi - 1, lo, hi);
        lemma_row_order(grid, cells, n_cols, n_rows, row_hi, lo, hi);
        let head = grid.box_items(row_lo, row_hi - 1, lo, hi);
        let last = grid.row_items(row_hi, lo, hi);
        let items = grid.box_items(row_lo, row_hi, lo, hi);
        assert(items =~= head + last);
        assert forall|a: int| 0 <= a < items.len() implies {
            let i = #[trigger] items[a];
            &&& i < cells.len()
            &&& up_to(cells[i as int].1, n_rows - 1) <= row_hi
        } by {
            if a < head.len() {
                assert(items[a] == head[a]);
            } else {
                assert(items[a] == last[a - head.len()]);
            }
        }
        assert forall|a: int, b: int| 0 <= a < b < items.len() implies #[trigger] reads_before(
            cells,
            n_cols,
            n_rows,
            items[a],
            items[b],
        ) by {
            if b < head.len() {
                assert(items[a] == head[a] && items[b] == head[b]);
                assert(reads_before(cells, n_cols, n_rows, head[a], head[b]));
            } else {
                let q = b - head.len();
                assert(items[b] == last[q]);
                if a < head.len() {
                    assert(items[a] == head[a]);
                } else {
                    let p = a - head.len();
                    assert(items[a] == last[p]);
                    assert(reads_before(cells, n_cols, n_rows, last[p], last[q]));
                }
            }
        }
    }
}

/// A window lists its keypoints row by row, in a row column by column, and in a cell by index.
pub proof fn lemma_window_order(
    grid: KeypointGrid,
    cells: Seq<(usize, usize)>,
    n_cols: nat,
    n_rows: nat,
    window: CellWindow,
)
    requires
        grid.bins(cells, n_cols, n_rows),
        cells.len() <= usize::MAX,
        n_cols > 0,
        n_rows > 0,
    ensures
        forall|a: int, b: int|
            0 <= a < b < grid.window_items(window).len() ==> #[trigger] reads_before(
                cells,
                n_cols,
                n_rows,
                grid.window_items(window)[a],
                grid.window_items(window)[b],
            ),
{
    lemma_box_order(
        grid,
        cells,
        n_cols,
        n_rows,
        clamped(window.row_min, n_rows),
        clamped(window.row_max, n_rows),
        clamped(window.col_min, n_cols),
        clamped(window.col_max, n_cols),
    );
}

} // verus!
