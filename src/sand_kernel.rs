//! The field: a square grid of sand levels, each kept within `[0, max]`.
use vstd::prelude::*;
use vstd::arithmetic::div_mod::lemma_fundamental_div_mod_converse;
use crate::fixed::{
    ONE, trunc_div, clamp_level, trunc_div_i128, clamp_i128, split_coord,
};

verus! {

/// The largest side length a grid may have.
pub const MAX_TABLE_SIZE: usize = 16777216;

/// Why a field could not be built.
#[derive(Debug, Clone, Copy, PartialEq, Eq, Structural)]
pub enum KernelError {
    /// The grid would have no cells.
    InvalidDimension,
    /// The start level lies outside `[0, max]`.
    InvalidLevels,
}

/// Weight, in units of `1 / ONE`, that column (or row) `c` gets from a point
/// whose cell index is `i` and whose fractional offset is `f`.
pub open spec fn corner_weight(i: int, f: int, c: int) -> int {
    if c == i {
        ONE - f
    } else if c == i + 1 {
        f
    } else {
        0
    }
}

/// The part of `amount` that a deposit at `(x, y)` hands to cell `(cx, cy)`.
pub open spec fn share(x: int, y: int, amount: int, cx: int, cy: int) -> int {
    let wx = corner_weight(x / (ONE as int), x % (ONE as int), cx);
    let wy = corner_weight(y / (ONE as int), y % (ONE as int), cy);
    trunc_div(amount * (wx * wy), ONE * ONE)
}

/// The grid after depositing `amount` at `(x, y)`: each cell receives its
/// bilinear share and is clamped to `[0, max]`.
pub open spec fn deposit_model(
    levels: Seq<i64>,
    n: int,
    max: int,
    x: int,
    y: int,
    amount: int,
) -> Seq<i64> {
    Seq::new(
        levels.len(),
        |k: int| clamp_level(levels[k] + share(x, y, amount, k % n, k / n), max) as i64,
    )
}

/// The cell that `sample` reads for coordinate `x`: truncation toward zero.
pub open spec fn sample_index(x: int) -> int {
    trunc_div(x, ONE as int)
}

/// The mean of the four neighbours of cell `k` in `s`, rounded down.
pub open spec fn neighbor_avg(s: Seq<i64>, n: int, k: int) -> int {
    (s[k - n] + s[k + n] + s[k - 1] + s[k + 1]) / 4
}

/// One cell's value after a settling step.
pub open spec fn settle_value(level: int, avg: int, threshold: int, blend: int, max: int) -> int {
    let diff = if level >= avg { level - avg } else { avg - level };
    if diff > threshold {
        clamp_level(level + trunc_div((avg - level) * blend, ONE as int), max)
    } else {
        level
    }
}

/// Whether cell `k` lies in the half-open window `[x0, x1) x [y0, y1)`.
pub open spec fn in_window(n: int, k: int, x0: int, y0: int, x1: int, y1: int) -> bool {
    x0 <= k % n < x1 && y0 <= k / n < y1
}

/// The grid after settling the window `[x0, x1) x [y0, y1)` against the
/// snapshot `s`; cells outside the window keep their value.
pub open spec fn settle_model(
    s: Seq<i64>,
    n: int,
    max: int,
    x0: int,
    y0: int,
    x1: int,
    y1: int,
    threshold: int,
    blend: int,
) -> Seq<i64> {
    Seq::new(
        s.len(),
        |k: int|
            if in_window(n, k, x0, y0, x1, y1) {
                settle_value(s[k] as int, neighbor_avg(s, n, k), threshold, blend, max) as i64
            } else {
                s[k]
            },
    )
}

/// Whether cell `k` is on the grid's outer border.
pub open spec fn on_border(n: int, k: int) -> bool {
    k % n == 0 || k % n == n - 1 || k / n == 0 || k / n == n - 1
}

/// Row-major indexing facts for cell `(x, y)` of an `n` by `n` grid.
pub proof fn lemma_index(n: int, x: int, y: int)
    requires
        0 <= x < n,
        0 <= y < n,
    ensures
        (y * n + x) % n == x,
        (y * n + x) / n == y,
        0 <= y * n + x < n * n,
{
    lemma_fundamental_div_mod_converse(y * n + x, n, y, x);
    assert(0 <= y * n + x < n * n) by (nonlinear_arith)
        requires
            0 <= x < n,
            0 <= y < n,
    ;
}

/// Every index of an `n` by `n` grid is `row * n + column`.
pub proof fn lemma_split_index(n: int, k: int)
    requires
        0 <= k < n * n,
        n > 0,
    ensures
        k == (k / n) * n + k % n,
        0 <= k % n < n,
        0 <= k / n < n,
{
    vstd::arithmetic::div_mod::lemma_fundamental_div_mod(k, n);
    assert(k == (k / n) * n + k % n) by (nonlinear_arith)
        requires
            k == n * (k / n) + (k % n),
    ;
    assert(0 <= k / n < n) by (nonlinear_arith)
        requires
            0 <= k < n * n,
            n > 0,
            k == (k / n) * n + k % n,
            0 <= k % n < n,
    ;
}

/// Lower edge of a settling window after clamping to the interior.
pub open spec fn window_lo(v: int) -> int {
    if v < 1 {
        1
    } else {
        v
    }
}

/// Upper (exclusive) edge of a settling window after clamping to the interior.
pub open spec fn window_hi(v: int, n: int) -> int {
    if v < n - 1 {
        v
    } else {
        n - 1
    }
}

/// A deposit keeps every cell within `[0, max]`: starting from a grid whose
/// cells all lie in that range, every cell of the result does too.
pub proof fn lemma_deposit_clamps(levels: Seq<i64>, n: int, max: int, x: int, y: int, amount: int)
    requires
        0 <= max <= i64::MAX,
        forall|k: int| 0 <= k < levels.len() ==> 0 <= #[trigger] levels[k] <= max,
    ensures
        deposit_model(levels, n, max, x, y, amount).len() == levels.len(),
        forall|k: int|
            0 <= k < levels.len() ==> 0 <= #[trigger] deposit_model(levels, n, max, x, y, amount)[k]
                <= max,
{
}

/// The four bilinear weights of any point sum to exactly one, that is
/// `ONE * ONE` in the units they are computed in.
pub proof fn lemma_weights_sum(x: int, y: int)
    ensures
        ({
            let (ix, fx, iy, fy) = (x / (ONE as int), x % (ONE as int), y / (ONE as int), y % (
            ONE as int));
            corner_weight(ix, fx, ix) * corner_weight(iy, fy, iy) + corner_weight(ix, fx, ix + 1)
                * corner_weight(iy, fy, iy) + corner_weight(ix, fx, ix) * corner_weight(
                iy,
                fy,
                iy + 1,
            ) + corner_weight(ix, fx, ix + 1) * corner_weight(iy, fy, iy + 1) == ONE * ONE
        }),
{
    let (fx, fy) = (x % (ONE as int), y % (ONE as int));
    assert((ONE - fx) * (ONE - fy) + fx * (ONE - fy) + (ONE - fx) * fy + fx * fy == ONE * ONE)
        by (nonlinear_arith);
}

/// Settling never changes a cell on the grid's outer border, whatever window
/// it is asked for.
pub proof fn lemma_settle_keeps_border(
    s: Seq<i64>,
    n: int,
    max: int,
    min_x: int,
    min_y: int,
    max_x: int,
    max_y: int,
    threshold: int,
    blend: int,
)
    requires
        n >= 1,
        s.len() == n * n,
    ensures
        forall|k: int|
            0 <= k < s.len() && on_border(n, k) ==> #[trigger] settle_model(
                s,
                n,
                max,
                window_lo(min_x),
                window_lo(min_y),
                window_hi(max_x, n),
                window_hi(max_y, n),
                threshold,
                blend,
            )[k] == s[k],
{
}

/// The grid after a sequence of deposits, each `(x, y, amount)`, applied in
/// order.
pub open spec fn replay_deposits(levels: Seq<i64>, n: int, max: int, ops: Seq<(int, int, int)>) -> Seq<
    i64,
>
    decreases ops.len(),
{
    if ops.len() == 0 {
        levels
    } else {
        let last = ops.last();
        deposit_model(
            replay_deposits(levels, n, max, ops.drop_last()),
            n,
            max,
            last.0,
            last.1,
            last.2,
        )
    }
}

/// Replaying the same deposits on two fields that hold the same cells gives
/// the same cells, and every cell stays within `[0, max]` throughout.
pub proof fn lemma_replay_deterministic(
    a: Seq<i64>,
    b: Seq<i64>,
    n: int,
    max: int,
    ops: Seq<(int, int, int)>,
)
    requires
        a == b,
        0 <= max <= i64::MAX,
        forall|k: int| 0 <= k < a.len() ==> 0 <= #[trigger] a[k] <= max,
    ensures
        replay_deposits(a, n, max, ops) == replay_deposits(b, n, max, ops),
        replay_deposits(a, n, max, ops).len() == a.len(),
        forall|k: int|
            0 <= k < a.len() ==> 0 <= #[trigger] replay_deposits(a, n, max, ops)[k] <= max,
    decreases ops.len(),
{
    if ops.len() > 0 {
        lemma_replay_deterministic(a, b, n, max, ops.drop_last());
        let last = ops.last();
        lemma_deposit_clamps(
            replay_deposits(a, n, max, ops.drop_last()),
            n,
            max,
            last.0,
            last.1,
            last.2,
        );
    }
}

/// A square grid of sand levels.
pub struct SandKernel {
    table_size: usize,
    sand_level: Vec<i64>,
    sand_start_level: i64,
    max_sand_level: i64,
}

impl SandKernel {
    /// Side length of the grid.
    pub closed spec fn size(&self) -> int {
        self.table_size as int
    }

    /// The cells, row by row.
    pub closed spec fn levels(&self) -> Seq<i64> {
        self.sand_level@
    }

    /// The level every cell starts at.
    pub closed spec fn start(&self) -> int {
        self.sand_start_level as int
    }

    /// The ceiling of every cell.
    pub closed spec fn max(&self) -> int {
        self.max_sand_level as int
    }

    /// The grid is square, non-empty, and every cell lies within `[0, max]`.
    pub closed spec fn wf(&self) -> bool {
        &&& 1 <= self.table_size <= MAX_TABLE_SIZE
        &&& self.sand_level@.len() == self.table_size * self.table_size
        &&& self.table_size * self.table_size <= usize::MAX
        &&& 0 <= self.sand_start_level <= self.max_sand_level
        &&& forall|k: int|
            0 <= k < self.sand_level@.len() ==> 0 <= #[trigger] self.sand_level@[k]
                <= self.max_sand_level
    }

    /// The grid invariant seen from outside.
    pub proof fn lemma_wf(&self)
        requires
            self.wf(),
        ensures
            1 <= self.size() <= MAX_TABLE_SIZE,
            self.levels().len() == self.size() * self.size(),
            self.size() * self.size() <= usize::MAX,
            0 <= self.start() <= self.max(),
            forall|k: int|
                0 <= k < self.levels().len() ==> 0 <= #[trigger] self.levels()[k] <= self.max(),
    {
    }

    /// Builds a `table_size` by `table_size` grid with every cell at
    /// `sand_start_level`.
    pub fn new(table_size: usize, sand_start_level: i64, max_sand_level: i64) -> (r: Result<
        SandKernel,
        KernelError,
    >)
        requires
            table_size <= MAX_TABLE_SIZE,
            table_size * table_size <= usize::MAX,
        ensures
            table_size == 0 ==> r == Err::<SandKernel, KernelError>(KernelError::InvalidDimension),
            table_size > 0 && !(0 <= sand_start_level <= max_sand_level) ==> r == Err::<
                SandKernel,
                KernelError,
            >(KernelError::InvalidLevels),
            table_size > 0 && 0 <= sand_start_level <= max_sand_level ==> r is Ok,
            r matches Ok(k) ==> {
                &&& k.wf()
                &&& k.size() == table_size
                &&& k.start() == sand_start_level
                &&& k.max() == max_sand_level
                &&& k.levels() == Seq::new(
                    (table_size * table_size) as nat,
                    |i: int| sand_start_level,
                )
            },
    {
        if table_size == 0 {
            return Err(KernelError::InvalidDimension);
        }
        if sand_start_level < 0 || sand_start_level > max_sand_level {
            return Err(KernelError::InvalidLevels);
        }
        let cells: usize = table_size * table_size;
        let mut sand_level: Vec<i64> = Vec::new();
        while sand_level.len() < cells
            invariant
                sand_level@.len() <= cells,
                forall|i: int| 0 <= i < sand_level@.len() ==> sand_level@[i] == sand_start_level,
            decreases cells - sand_level@.len(),
        {
            sand_level.push(sand_start_level);
        }
        let k = SandKernel { table_size, sand_level, sand_start_level, max_sand_level };
        assert(k.levels() =~= Seq::new(cells as nat, |i: int| sand_start_level));
        Ok(k)
    }

    /// Side length of the grid.
    pub fn table_size(&self) -> (r: usize)
        ensures
            r == self.size(),
    {
        self.table_size
    }

    /// Number of cells in the grid.
    pub fn get_buffer_length(&self) -> (r: usize)
        requires
            self.wf(),
        ensures
            r == self.levels().len(),
            r == self.size() * self.size(),
    {
        self.sand_level.len()
    }

    /// A copy of the cells, row by row.
    pub fn get_buffer(&self) -> (r: Vec<i64>)
        ensures
            r@ == self.levels(),
    {
        let mut out: Vec<i64> = Vec::new();
        let mut i: usize = 0;
        while i < self.sand_level.len()
            invariant
                i <= self.sand_level@.len(),
                out@ == self.sand_level@.subrange(0, i as int),
            decreases self.sand_level@.len() - i,
        {
            out.push(self.sand_level[i]);
            i = i + 1;
            assert(out@ =~= self.sand_level@.subrange(0, i as int));
        }
        assert(out@ =~= self.sand_level@);
        out
    }

    /// The level of the cell holding `(x, y)`; coordinates are truncated
    /// toward zero, and a point off the grid reads as 0.
    pub fn get_sand_level(&self, x: i64, y: i64) -> (r: i64)
        requires
            self.wf(),
        ensures
            ({
                let ix = sample_index(x as int);
                let iy = sample_index(y as int);
                r == if 0 <= ix < self.size() && 0 <= iy < self.size() {
                    self.levels()[iy * self.size() + ix]
                } else {
                    0
                }
            }),
    {
        let ix = trunc_div_i128(x as i128, ONE as i128);
        let iy = trunc_div_i128(y as i128, ONE as i128);
        let n = self.table_size as i128;
        if ix < 0 || iy < 0 || ix >= n || iy >= n {
            return 0;
        }
        let (cx, cy) = (ix as usize, iy as usize);
        proof {
            lemma_index(n as int, ix as int, iy as int);
        }
        let idx: usize = cy * self.table_size + cx;
        self.sand_level[idx]
    }

    /// Adds the share `amount * weight / (ONE * ONE)` to cell `(cx, cy)`,
    /// if that cell is on the grid, and clamps it.
    fn deposit_corner(&mut self, cx: i64, cy: i64, weight: i128, amount: i64)
        requires
            old(self).wf(),
            0 <= weight <= (ONE as int) * (ONE as int),
        ensures
            final(self).wf(),
            final(self).size() == old(self).size(),
            final(self).start() == old(self).start(),
            final(self).max() == old(self).max(),
            final(self).levels().len() == old(self).levels().len(),
            forall|k: int|
                0 <= k < old(self).levels().len() ==> #[trigger] final(self).levels()[k] == if k
                    % old(self).size() == cx && k / old(self).size() == cy {
                    clamp_level(
                        old(self).levels()[k] + trunc_div(amount * weight, ONE * ONE),
                        old(self).max(),
                    ) as i64
                } else {
                    old(self).levels()[k]
                },
    {
        let n = self.table_size as i64;
        proof {
            let nn = n as int;
            assert forall|k: int| #![trigger k % nn] #![trigger k / nn] 0 <= k < self.sand_level@.len() implies k == (k / nn) * nn + k % nn
                && 0 <= k % nn < nn && 0 <= k / nn < nn by {
                lemma_split_index(n as int, k);
            }
        }
        if 0 <= cx && cx < n && 0 <= cy && cy < n {
            let (ux, uy) = (cx as usize, cy as usize);
            proof {
                lemma_index(n as int, cx as int, cy as int);
            }
            let idx: usize = uy * self.table_size + ux;
            assert(-0x10000000000000000000000000 < amount * weight < 0x10000000000000000000000000)
                by (nonlinear_arith)
                requires
                    0 <= weight <= 0x100000000,
                    i64::MIN <= amount <= i64::MAX,
            ;
            let p: i128 = amount as i128 * weight;
            let share = trunc_div_i128(p, (ONE as i128) * (ONE as i128));
            assert(-0x10000000000000000000000000 < share < 0x10000000000000000000000000)
                by (nonlinear_arith)
                requires
                    -0x10000000000000000000000000 < p < 0x10000000000000000000000000,
                    p >= 0 ==> share == p / 0x100000000,
                    p < 0 ==> share == -((-p) / 0x100000000),
            ;
            let v = clamp_i128(self.sand_level[idx] as i128 + share, self.max_sand_level);
            self.sand_level.set(idx, v);
        }
    }

    /// Deposits `amount` (negative to remove sand) at the point `(x, y)`,
    /// split over the four surrounding cells by bilinear weights. Each cell
    /// that is on the grid takes its share and is clamped to `[0, max]`;
    /// shares that fall off the grid are dropped.
    pub fn add_sand(&mut self, x: i64, y: i64, amount: i64)
        requires
            old(self).wf(),
        ensures
            final(self).wf(),
            final(self).size() == old(self).size(),
            final(self).start() == old(self).start(),
            final(self).max() == old(self).max(),
            final(self).levels() == deposit_model(
                old(self).levels(),
                old(self).size(),
                old(self).max(),
                x as int,
                y as int,
                amount as int,
            ),
    {
        let (ix, fx) = split_coord(x);
        let (iy, fy) = split_coord(y);
        let gx0 = (ONE - fx) as i128;
        let gx1 = fx as i128;
        let gy0 = (ONE - fy) as i128;
        let gy1 = fy as i128;
        assert(0 <= gx0 * gy0 <= (ONE as int) * (ONE as int)) by (nonlinear_arith)
            requires 0 <= gx0 <= ONE, 0 <= gy0 <= ONE;
        assert(0 <= gx1 * gy0 <= (ONE as int) * (ONE as int)) by (nonlinear_arith)
            requires 0 <= gx1 <= ONE, 0 <= gy0 <= ONE;
        assert(0 <= gx0 * gy1 <= (ONE as int) * (ONE as int)) by (nonlinear_arith)
            requires 0 <= gx0 <= ONE, 0 <= gy1 <= ONE;
        assert(0 <= gx1 * gy1 <= (ONE as int) * (ONE as int)) by (nonlinear_arith)
            requires 0 <= gx1 <= ONE, 0 <= gy1 <= ONE;
        let ghost s0 = self.levels();
        let ghost n = self.size();
        let ghost max = self.max();
        self.deposit_corner(ix, iy, gx0 * gy0, amount);
        let ghost s1 = self.levels();
        self.deposit_corner(ix + 1, iy, gx1 * gy0, amount);
        let ghost s2 = self.levels();
        self.deposit_corner(ix, iy + 1, gx0 * gy1, amount);
        let ghost s3 = self.levels();
        self.deposit_corner(ix + 1, iy + 1, gx1 * gy1, amount);
        proof {
            let m = deposit_model(s0, n, max, x as int, y as int, amount as int);
            assert forall|k: int| 0 <= k < s0.len() implies #[trigger] self.levels()[k] == m[k] by {
                let cx = k % n;
                let cy = k / n;
                let wx = corner_weight(ix as int, fx as int, cx);
                let wy = corner_weight(iy as int, fy as int, cy);
                assert(s1[k] == s0[k] || (cx == ix && cy == iy));
                if !((cx == ix || cx == ix + 1) && (cy == iy || cy == iy + 1)) {
                    assert(wx * wy == 0) by (nonlinear_arith)
                        requires wx == 0 || wy == 0;
                    assert(trunc_div(amount * (wx * wy), ONE * ONE) == 0);
                    assert(self.levels()[k] == s0[k]);
                }
            }
            assert(self.levels() =~= m);
        }
    }

    /// One settling pass over the half-open window `[min_x, max_x) x
    /// [min_y, max_y)`, clamped to the grid's interior. Every cell of the
    /// window is compared with the mean of its four neighbours as they were
    /// before the pass; where the two differ by more than `settle_threshold`
    /// the cell moves `blend_factor` (in units of `1 / ONE`) of the way to the
    /// mean, clamped to `[0, max]`.
    pub fn settle_region_internal(
        &mut self,
        min_x: usize,
        min_y: usize,
        max_x: usize,
        max_y: usize,
        settle_threshold: i64,
        blend_factor: i64,
    )
        requires
            old(self).wf(),
        ensures
            final(self).wf(),
            final(self).size() == old(self).size(),
            final(self).start() == old(self).start(),
            final(self).max() == old(self).max(),
            final(self).levels() == settle_model(
                old(self).levels(),
                old(self).size(),
                old(self).max(),
                window_lo(min_x as int),
                window_lo(min_y as int),
                window_hi(max_x as int, old(self).size()),
                window_hi(max_y as int, old(self).size()),
                settle_threshold as int,
                blend_factor as int,
            ),
    {
        let snap = self.get_buffer();
        let n = self.table_size;
        let max = self.max_sand_level;
        let x0: usize = if min_x < 1 { 1 } else { min_x };
        let y0: usize = if min_y < 1 { 1 } else { min_y };
        let x1: usize = if max_x < n - 1 { max_x } else { n - 1 };
        let y1: usize = if max_y < n - 1 { max_y } else { n - 1 };
        let ghost nn = n as int;
        let ghost m = settle_model(
            snap@, nn, max as int, x0 as int, y0 as int, x1 as int, y1 as int,
            settle_threshold as int, blend_factor as int,
        );
        proof {
            assert forall|k: int| #![trigger k % nn] #![trigger k / nn]
                0 <= k < snap@.len() implies k == (k / nn) * nn + k % nn && 0 <= k % nn < nn
                && 0 <= k / nn < nn by {
                lemma_split_index(nn, k);
            }
        }
        let mut y: usize = y0;
        while y < y1
            invariant
                self.table_size == n,
                n == old(self).table_size,
                nn == n as int,
                max == old(self).max_sand_level,
                m == settle_model(
                    snap@, nn, max as int, x0 as int, y0 as int, x1 as int, y1 as int,
                    settle_threshold as int, blend_factor as int,
                ),
                self.max_sand_level == max,
                self.sand_start_level == old(self).sand_start_level,
                old(self).wf(),
                snap@ == old(self).sand_level@,
                self.sand_level@.len() == snap@.len(),
                1 <= x0,
                1 <= y0 <= y,
                x1 <= n - 1,
                y1 <= n - 1,
                y0 < y1 ==> y <= y1,
                forall|k: int| #![trigger k % nn] #![trigger k / nn]
                    0 <= k < snap@.len() ==> k == (k / nn) * nn + k % nn && 0 <= k % nn < nn
                    && 0 <= k / nn < nn,
                forall|k: int|
                    0 <= k < snap@.len() ==> #[trigger] self.sand_level@[k] == if in_window(
                        nn, k, x0 as int, y0 as int, x1 as int, y1 as int,
                    ) && k / nn < y {
                        m[k]
                    } else {
                        snap@[k]
                    },
            decreases y1 - y,
        {
            let mut x: usize = x0;
            while x < x1
                invariant
                    self.table_size == n,
                    n == old(self).table_size,
                    nn == n as int,
                    max == old(self).max_sand_level,
                    m == settle_model(
                        snap@, nn, max as int, x0 as int, y0 as int, x1 as int, y1 as int,
                        settle_threshold as int, blend_factor as int,
                    ),
                nn == n as int,
                max == old(self).max_sand_level,
                m == settle_model(
                    snap@, nn, max as int, x0 as int, y0 as int, x1 as int, y1 as int,
                    settle_threshold as int, blend_factor as int,
                ),
                    self.max_sand_level == max,
                    self.sand_start_level == old(self).sand_start_level,
                    old(self).wf(),
                    snap@ == old(self).sand_level@,
                    self.sand_level@.len() == snap@.len(),
                    1 <= x0 <= x,
                    x0 < x1 ==> x <= x1,
                    x1 <= n - 1,
                    1 <= y0 <= y < y1,
                    y1 <= n - 1,
                    forall|k: int| #![trigger k % nn] #![trigger k / nn]
                        0 <= k < snap@.len() ==> k == (k / nn) * nn + k % nn && 0 <= k % nn < nn
                        && 0 <= k / nn < nn,
                    forall|k: int|
                        0 <= k < snap@.len() ==> #[trigger] self.sand_level@[k] == if in_window(
                            nn, k, x0 as int, y0 as int, x1 as int, y1 as int,
                        ) && (k / nn < y || (k / nn == y && k % nn < x)) {
                            m[k]
                        } else {
                            snap@[k]
                        },
                decreases x1 - x,
            {
                proof {
                    lemma_index(nn, x as int, y as int);
                    lemma_index(nn, x as int, y - 1);
                    lemma_index(nn, x as int, y + 1);
                    lemma_index(nn, x - 1, y as int);
                    lemma_index(nn, x + 1, y as int);
                    assert((y - 1) * nn == y * nn - nn) by (nonlinear_arith);
                    assert((y + 1) * nn == y * nn + nn) by (nonlinear_arith);
                }
                let idx: usize = y * n + x;
                let level = snap[idx] as i128;
                let north = snap[idx - n] as i128;
                let south = snap[idx + n] as i128;
                let west = snap[idx - 1] as i128;
                let east = snap[idx + 1] as i128;
                let avg: i128 = (north + south + west + east) / 4;
                let diff: i128 = if level >= avg { level - avg } else { avg - level };
                if diff > settle_threshold as i128 {
                    assert(-0x40000000000000000000000000000000 < (avg - level) * blend_factor
                        < 0x40000000000000000000000000000000) by (nonlinear_arith)
                        requires
                            -0x8000000000000000 < avg - level < 0x8000000000000000,
                            i64::MIN <= blend_factor <= i64::MAX,
                    ;
                    let pull = trunc_div_i128((avg - level) * blend_factor as i128, ONE as i128);
                    assert(-0x40000000000000000000000000000000 < pull
                        < 0x40000000000000000000000000000000) by (nonlinear_arith)
                        requires
                            -0x40000000000000000000000000000000 < (avg - level) * blend_factor
                                < 0x40000000000000000000000000000000,
                            (avg - level) * blend_factor >= 0 ==> pull == ((avg - level)
                                * blend_factor) / 65536,
                            (avg - level) * blend_factor < 0 ==> pull == -((-((avg - level)
                                * blend_factor)) / 65536),
                    ;
                    let v = clamp_i128(level + pull, max);
                    self.sand_level.set(idx, v);
                }
                x = x + 1;
            }
            y = y + 1;
        }
        proof {
            assert(self.sand_level@ =~= m);
            assert forall|k: int| 0 <= k < self.sand_level@.len() implies 0
                <= #[trigger] self.sand_level@[k] <= max by {
                if in_window(nn, k, x0 as int, y0 as int, x1 as int, y1 as int) {
                } else {
                }
            }
        }
    }

    /// One settling pass over every interior cell; see
    /// `settle_region_internal`.
    pub fn settle_internal(&mut self, settle_threshold: i64, blend_factor: i64)
        requires
            old(self).wf(),
        ensures
            final(self).wf(),
            final(self).size() == old(self).size(),
            final(self).start() == old(self).start(),
            final(self).max() == old(self).max(),
            final(self).levels() == settle_model(
                old(self).levels(),
                old(self).size(),
                old(self).max(),
                1,
                1,
                old(self).size() - 1,
                old(self).size() - 1,
                settle_threshold as int,
                blend_factor as int,
            ),
    {
        let n = self.table_size;
        self.settle_region_internal(1, 1, n - 1, n - 1, settle_threshold, blend_factor);
    }

    /// Refills every cell with the start level.
    pub fn reset(&mut self)
        requires
            old(self).wf(),
        ensures
            final(self).wf(),
            final(self).size() == old(self).size(),
            final(self).start() == old(self).start(),
            final(self).max() == old(self).max(),
            final(self).levels() == Seq::new(old(self).levels().len(), |i: int| old(self).start() as i64),
    {
        let mut i: usize = 0;
        while i < self.sand_level.len()
            invariant
                self.table_size == old(self).table_size,
                self.sand_start_level == old(self).sand_start_level,
                self.max_sand_level == old(self).max_sand_level,
                self.sand_level@.len() == old(self).sand_level@.len(),
                i <= self.sand_level@.len(),
                forall|k: int| 0 <= k < i ==> self.sand_level@[k] == self.sand_start_level,
                forall|k: int|
                    i <= k < self.sand_level@.len() ==> self.sand_level@[k] == old(self).sand_level@[k],
                old(self).wf(),
            decreases self.sand_level@.len() - i,
        {
            let v = self.sand_start_level;
            self.sand_level.set(i, v);
            i = i + 1;
        }
        assert(self.levels() =~= Seq::new(old(self).levels().len(), |i: int| old(self).start() as i64));
    }
}

} // verus!
