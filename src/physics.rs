//! The displacer: a ball that moves toward a target and ploughs a trough
//! with ridges beside it into the field along the path it travels.
use vstd::prelude::*;
use crate::fixed::{
    ONE, COORD_LIMIT, trunc_div, floor_sqrt, trunc_div_i128, isqrt, lemma_mul_bounds,
    lemma_trunc_div_bounds, lemma_ratio_bounds, lemma_fundamental_div_mod_converse_mul,
};
use crate::sand_kernel::{SandKernel, deposit_model};

verus! {

/// Below this speed (about 0.001 of a cell per tick) the ball counts as
/// standing still and leaves the field alone.
pub const STILL_SPEED: i64 = 66;

/// Distance travelled between two stamps along the path (one cell).
pub const SAMPLE_SPACING: i64 = 65536;

/// Smallest distance that the alignment of an offset is measured against
/// (about 0.1 of a cell).
pub const MIN_ALIGN_DIST: i64 = 6554;

/// Ridges form only where an offset's alignment with the perpendicular of
/// the motion exceeds this (one half).
pub const ALIGN_CUTOFF: i64 = 32768;

/// The ridge on the left of the motion gets `FAR_RIDGE_NUM / FAR_RIDGE_DEN`
/// of what the ridge on the right gets.
pub const FAR_RIDGE_NUM: i64 = 4;

/// See `FAR_RIDGE_NUM`.
pub const FAR_RIDGE_DEN: i64 = 5;

/// Whether `v` is a coordinate or a parameter the engine can hold.
pub open spec fn in_limit(v: int) -> bool {
    -COORD_LIMIT <= v <= COORD_LIMIT
}

/// Distance, in fixed point, from `(ax, ay)` to `(bx, by)`, rounded down.
pub open spec fn distance(ax: int, ay: int, bx: int, by: int) -> int {
    floor_sqrt((bx - ax) * (bx - ax) + (by - ay) * (by - ay))
}

/// One coordinate after a tick: a step of `speed` toward the target when it
/// is farther than that, else the target itself.
pub open spec fn seek(c: int, t: int, dist: int, speed: int) -> int {
    if dist > speed {
        c + trunc_div((t - c) * speed, dist)
    } else {
        t
    }
}

/// Radius of the ball's mark.
pub open spec fn stamp_radius(e: PhysicsEngine) -> int {
    trunc_div(e.diameter(), 2)
}

/// Radius of the trough inside the mark.
pub open spec fn stamp_inner(e: PhysicsEngine) -> int {
    trunc_div(stamp_radius(e) * e.width_ratio(), ONE as int)
}

/// How many whole cells the mark reaches from its centre.
pub open spec fn stamp_reach(e: PhysicsEngine) -> int {
    (stamp_radius(e) + ONE - 1) / (ONE as int)
}

/// Distance, in fixed point, of the offset `(ox, oy)` cells, rounded down.
pub open spec fn offset_distance(ox: int, oy: int) -> int {
    floor_sqrt((ox * ox + oy * oy) * (ONE * ONE))
}

/// The field `s` after the part of the mark centred at `(cx, cy)` that falls
/// at offset `(ox, oy)` cells: a trough deposit inside the inner radius;
/// between the inner radius and the ball's radius, where the offset lies
/// beside the path, a ridge deposit pushed out along the perpendicular
/// `(px, py)` on either side; nothing beyond. Amounts are divided by `ns`.
pub open spec fn offset_model(
    s: Seq<i64>,
    n: int,
    max: int,
    e: PhysicsEngine,
    cx: int,
    cy: int,
    px: int,
    py: int,
    ns: int,
    ox: int,
    oy: int,
) -> Seq<i64> {
    let radius = stamp_radius(e);
    let inner = stamp_inner(e);
    let d = offset_distance(ox, oy);
    let pos_x = cx + ox * ONE;
    let pos_y = cy + oy * ONE;
    if d > radius {
        s
    } else if d < inner {
        let factor = ONE - (d * ONE) / inner;
        let amount = trunc_div(trunc_div(e.depth() * factor, ONE as int), ns);
        deposit_model(s, n, max, pos_x, pos_y, amount)
    } else {
        let side = if radius > inner {
            ((d - inner) * ONE) / (radius - inner)
        } else {
            0
        };
        let fall = (d * ONE) / radius;
        let amount = trunc_div(trunc_div(e.ridge() * (ONE - fall), ONE as int), ns);
        let dot = ox * px + oy * py;
        let adot = if dot < 0 {
            -dot
        } else {
            dot
        };
        let denom = if d < MIN_ALIGN_DIST {
            MIN_ALIGN_DIST as int
        } else {
            d
        };
        let raw_align = (adot * ONE) / denom;
        let align = if raw_align > ONE {
            ONE as int
        } else {
            raw_align
        };
        if align > ALIGN_CUTOFF {
            let off = trunc_div((ONE - side) * e.offset(), ONE as int);
            let shift_x = trunc_div(px * off, ONE as int);
            let shift_y = trunc_div(py * off, ONE as int);
            let near = trunc_div(amount * align, ONE as int);
            let far = trunc_div(amount * align * FAR_RIDGE_NUM, ONE * FAR_RIDGE_DEN);
            deposit_model(
                deposit_model(s, n, max, pos_x + shift_x, pos_y + shift_y, near),
                n,
                max,
                pos_x - shift_x,
                pos_y - shift_y,
                far,
            )
        } else {
            s
        }
    }
}

/// The first `k` offsets of row `oy`, from `ox = -reach` up.
pub open spec fn row_model(
    s: Seq<i64>,
    n: int,
    max: int,
    e: PhysicsEngine,
    cx: int,
    cy: int,
    px: int,
    py: int,
    ns: int,
    oy: int,
    reach: int,
    k: nat,
) -> Seq<i64>
    decreases k,
{
    if k == 0 {
        s
    } else {
        offset_model(
            row_model(s, n, max, e, cx, cy, px, py, ns, oy, reach, (k - 1) as nat),
            n,
            max,
            e,
            cx,
            cy,
            px,
            py,
            ns,
            -reach + k - 1,
            oy,
        )
    }
}

/// The first `j` full rows of the mark, from `oy = -reach` up.
pub open spec fn grid_model(
    s: Seq<i64>,
    n: int,
    max: int,
    e: PhysicsEngine,
    cx: int,
    cy: int,
    px: int,
    py: int,
    ns: int,
    reach: int,
    j: nat,
) -> Seq<i64>
    decreases j,
{
    if j == 0 {
        s
    } else {
        row_model(
            grid_model(s, n, max, e, cx, cy, px, py, ns, reach, (j - 1) as nat),
            n,
            max,
            e,
            cx,
            cy,
            px,
            py,
            ns,
            -reach + j - 1,
            reach,
            (2 * reach + 1) as nat,
        )
    }
}

/// The field after one whole mark centred at `(cx, cy)`.
pub open spec fn stamp_model(
    s: Seq<i64>,
    n: int,
    max: int,
    e: PhysicsEngine,
    cx: int,
    cy: int,
    px: int,
    py: int,
    ns: int,
) -> Seq<i64> {
    if stamp_radius(e) <= 0 {
        s
    } else {
        let reach = stamp_reach(e);
        grid_model(s, n, max, e, cx, cy, px, py, ns, reach, (2 * reach + 1) as nat)
    }
}

/// The field after the first `i` of `ns` marks along the path from
/// `(ax, ay)` by `(vx, vy)`, each at the middle of its piece of the path.
pub open spec fn path_model(
    s: Seq<i64>,
    n: int,
    max: int,
    e: PhysicsEngine,
    ax: int,
    ay: int,
    vx: int,
    vy: int,
    px: int,
    py: int,
    ns: int,
    i: nat,
) -> Seq<i64>
    decreases i,
{
    if i == 0 {
        s
    } else {
        let part = 2 * (i - 1) + 1;
        stamp_model(
            path_model(s, n, max, e, ax, ay, vx, vy, px, py, ns, (i - 1) as nat),
            n,
            max,
            e,
            ax + trunc_div(vx * part, 2 * ns),
            ay + trunc_div(vy * part, 2 * ns),
            px,
            py,
            ns,
        )
    }
}

/// The field after a tick in which the ball `e` went from its previous
/// position to its current one: unchanged if it moved less than
/// `STILL_SPEED`, else marked along the path.
pub open spec fn tick_model(s: Seq<i64>, n: int, max: int, e: PhysicsEngine) -> Seq<i64> {
    let vx = e.cur_x() - e.prev_x();
    let vy = e.cur_y() - e.prev_y();
    let vel = floor_sqrt(vx * vx + vy * vy);
    if vel < STILL_SPEED {
        s
    } else {
        let ux = trunc_div(vx * ONE, vel);
        let uy = trunc_div(vy * ONE, vel);
        let ns = (vel + SAMPLE_SPACING - 1) / (SAMPLE_SPACING as int);
        path_model(s, n, max, e, e.prev_x(), e.prev_y(), vx, vy, -uy, ux, ns, ns as nat)
    }
}

/// A tick is a function of the state it starts from: two balls that agree
/// in every position and parameter, moving over fields that hold the same
/// cells, leave the same field behind and land on the same point.
pub proof fn lemma_tick_deterministic(s: Seq<i64>, n: int, max: int, a: PhysicsEngine, b: PhysicsEngine)
    requires
        a.same_shape(&b),
        a.cur_x() == b.cur_x(),
        a.cur_y() == b.cur_y(),
        a.prev_x() == b.prev_x(),
        a.prev_y() == b.prev_y(),
        a.target_x() == b.target_x(),
        a.target_y() == b.target_y(),
    ensures
        a == b,
        tick_model(s, n, max, a) == tick_model(s, n, max, b),
        seek(a.cur_x(), a.target_x(), distance(a.cur_x(), a.cur_y(), a.target_x(), a.target_y()), a.speed())
            == seek(b.cur_x(), b.target_x(), distance(b.cur_x(), b.cur_y(), b.target_x(), b.target_y()), b.speed()),
{
}

/// A ball whose target is no farther than its speed lands exactly on it: the
/// position `update` computes for each axis is then the target's.
pub proof fn lemma_arrival_snaps(cx: int, cy: int, tx: int, ty: int, speed: int)
    requires
        distance(cx, cy, tx, ty) <= speed,
    ensures
        seek(cx, tx, distance(cx, cy, tx, ty), speed) == tx,
        seek(cy, ty, distance(cx, cy, tx, ty), speed) == ty,
{
}

/// The ball: where it is, where it was a tick ago, where it is headed, and
/// the shape of the mark it leaves.
pub struct PhysicsEngine {
    current_pos_x: i64,
    current_pos_y: i64,
    prev_pos_x: i64,
    prev_pos_y: i64,
    target_pos_x: i64,
    target_pos_y: i64,
    ball_diameter: i64,
    move_speed: i64,
    trough_depth: i64,
    trough_width_ratio: i64,
    ridge_height: i64,
    ridge_offset: i64,
}

impl PhysicsEngine {
    /// Current position, x.
    pub closed spec fn cur_x(&self) -> int {
        self.current_pos_x as int
    }

    /// Current position, y.
    pub closed spec fn cur_y(&self) -> int {
        self.current_pos_y as int
    }

    /// Position one tick ago, x.
    pub closed spec fn prev_x(&self) -> int {
        self.prev_pos_x as int
    }

    /// Position one tick ago, y.
    pub closed spec fn prev_y(&self) -> int {
        self.prev_pos_y as int
    }

    /// Target, x.
    pub closed spec fn target_x(&self) -> int {
        self.target_pos_x as int
    }

    /// Target, y.
    pub closed spec fn target_y(&self) -> int {
        self.target_pos_y as int
    }

    /// Ball diameter.
    pub closed spec fn diameter(&self) -> int {
        self.ball_diameter as int
    }

    /// Largest distance covered in one tick.
    pub closed spec fn speed(&self) -> int {
        self.move_speed as int
    }

    /// Sand added at the centre of the path (negative: removed).
    pub closed spec fn depth(&self) -> int {
        self.trough_depth as int
    }

    /// Trough radius as a fraction of the ball radius.
    pub closed spec fn width_ratio(&self) -> int {
        self.trough_width_ratio as int
    }

    /// Sand added in the ridges.
    pub closed spec fn ridge(&self) -> int {
        self.ridge_height as int
    }

    /// How far ridge deposits are pushed sideways.
    pub closed spec fn offset(&self) -> int {
        self.ridge_offset as int
    }

    /// Every position and parameter is within `COORD_LIMIT` and the speed is
    /// not negative.
    pub open spec fn wf(&self) -> bool {
        &&& in_limit(self.cur_x())
        &&& in_limit(self.cur_y())
        &&& in_limit(self.prev_x())
        &&& in_limit(self.prev_y())
        &&& in_limit(self.target_x())
        &&& in_limit(self.target_y())
        &&& in_limit(self.diameter())
        &&& 0 <= self.speed() <= COORD_LIMIT
        &&& in_limit(self.depth())
        &&& in_limit(self.width_ratio())
        &&& in_limit(self.ridge())
        &&& in_limit(self.offset())
    }

    /// The parameters of `self` and `other` agree.
    pub open spec fn same_shape(&self, other: &PhysicsEngine) -> bool {
        &&& self.diameter() == other.diameter()
        &&& self.speed() == other.speed()
        &&& self.depth() == other.depth()
        &&& self.width_ratio() == other.width_ratio()
        &&& self.ridge() == other.ridge()
        &&& self.offset() == other.offset()
    }

    /// The part of the mark that falls at offset `(ox, oy)` cells from the
    /// centre: a trough inside the inner radius, ridges beside the path
    /// between the inner radius and the ball's radius, nothing beyond.
    fn stamp_offset(
        &self,
        kernel: &mut SandKernel,
        center_x: i64,
        center_y: i64,
        perp_x: i64,
        perp_y: i64,
        num_samples: i64,
        ox: i64,
        oy: i64,
        radius: i128,
        inner: i128,
    )
        requires
            self.wf(),
            old(kernel).wf(),
            -4 * COORD_LIMIT <= center_x <= 4 * COORD_LIMIT,
            -4 * COORD_LIMIT <= center_y <= 4 * COORD_LIMIT,
            -ONE <= perp_x <= ONE,
            -ONE <= perp_y <= ONE,
            1 <= num_samples,
            -16777217 <= ox <= 16777217,
            -16777217 <= oy <= 16777217,
            0 < radius <= COORD_LIMIT,
            -(COORD_LIMIT * COORD_LIMIT) / (ONE as int) <= inner <= (COORD_LIMIT * COORD_LIMIT) / (ONE as int),
            radius == stamp_radius(*self),
            inner == stamp_inner(*self),
        ensures
            final(kernel).wf(),
            final(kernel).size() == old(kernel).size(),
            final(kernel).start() == old(kernel).start(),
            final(kernel).max() == old(kernel).max(),
            final(kernel).levels() == offset_model(
                old(kernel).levels(),
                old(kernel).size(),
                old(kernel).max(),
                *self,
                center_x as int,
                center_y as int,
                perp_x as int,
                perp_y as int,
                num_samples as int,
                ox as int,
                oy as int,
            ),
    {
        let big: i128 = 16777217;
        proof {
            lemma_mul_bounds(ox as int, ox as int, big as int, big as int);
            lemma_mul_bounds(oy as int, oy as int, big as int, big as int);
            assert(ox * ox >= 0 && oy * oy >= 0) by (nonlinear_arith);
        }
        let sq: u128 = (ox as i128 * ox as i128 + oy as i128 * oy as i128) as u128;
        proof {
            lemma_mul_bounds(sq as int, (ONE * ONE) as int, 2 * big * big, (ONE * ONE) as int);
        }
        let d: i128 = isqrt(sq * (ONE as u128 * ONE as u128)) as i128;
        if d > radius {
            return;
        }
        proof {
            lemma_mul_bounds(ox as int, ONE as int, big as int, ONE as int);
            lemma_mul_bounds(oy as int, ONE as int, big as int, ONE as int);
        }
        let pos_x: i128 = center_x as i128 + ox as i128 * ONE as i128;
        let pos_y: i128 = center_y as i128 + oy as i128 * ONE as i128;
        let one: i128 = ONE as i128;
        let lim: i128 = COORD_LIMIT as i128;
        if d < inner {
            proof {
                lemma_ratio_bounds(d as int, inner as int, ONE as int);
            }
            let factor: i128 = one - (d * one) / inner;
            proof {
                lemma_mul_bounds(self.trough_depth as int, factor as int, lim as int, one as int);
                lemma_trunc_div_bounds(self.trough_depth * factor, one as int, lim * one);
            }
            let per_stamp = trunc_div_i128(self.trough_depth as i128 * factor, one);
            proof {
                lemma_trunc_div_bounds(per_stamp as int, num_samples as int, lim as int);
            }
            let amount = trunc_div_i128(per_stamp, num_samples as i128);
            kernel.add_sand(pos_x as i64, pos_y as i64, amount as i64);
        } else {
            let side: i128 = if radius > inner {
                proof {
                    lemma_ratio_bounds(d - inner, radius - inner, ONE as int);
                }
                ((d - inner) * one) / (radius - inner)
            } else {
                0
            };
            proof {
                lemma_ratio_bounds(d as int, radius as int, ONE as int);
            }
            let fall: i128 = (d * one) / radius;
            proof {
                lemma_mul_bounds(self.ridge_height as int, one - fall, lim as int, one as int);
                lemma_trunc_div_bounds(self.ridge_height * (one - fall), one as int, lim * one);
            }
            let per_stamp = trunc_div_i128(self.ridge_height as i128 * (one - fall), one);
            proof {
                lemma_trunc_div_bounds(per_stamp as int, num_samples as int, lim as int);
                lemma_mul_bounds(ox as int, perp_x as int, big as int, one as int);
                lemma_mul_bounds(oy as int, perp_y as int, big as int, one as int);
            }
            let amount = trunc_div_i128(per_stamp, num_samples as i128);
            let dot: i128 = ox as i128 * perp_x as i128 + oy as i128 * perp_y as i128;
            let adot: i128 = if dot < 0 { -dot } else { dot };
            let denom: i128 = if d < MIN_ALIGN_DIST as i128 { MIN_ALIGN_DIST as i128 } else { d };
            proof {
                lemma_mul_bounds(adot as int, one as int, 2 * big * one, one as int);
                vstd::arithmetic::div_mod::lemma_div_is_ordered(0, adot * one, denom as int);
            }
            let raw_align: i128 = (adot * one) / denom;
            // An alignment is a cosine: rounding may carry it past one, never more.
            let align: i128 = if raw_align > one { one } else { raw_align };
            if align > ALIGN_CUTOFF as i128 {
                proof {
                    lemma_mul_bounds(one - side, self.ridge_offset as int, one as int, lim as int);
                    lemma_trunc_div_bounds((one - side) * self.ridge_offset, one as int, one * lim);
                }
                let off = trunc_div_i128((one - side) * self.ridge_offset as i128, one);
                proof {
                    lemma_mul_bounds(perp_x as int, off as int, one as int, lim as int);
                    lemma_mul_bounds(perp_y as int, off as int, one as int, lim as int);
                    lemma_trunc_div_bounds(perp_x * off, one as int, one * lim);
                    lemma_trunc_div_bounds(perp_y * off, one as int, one * lim);
                    lemma_mul_bounds(amount as int, align as int, lim as int, one as int);
                    lemma_trunc_div_bounds(amount * align, one as int, lim * one);
                    lemma_mul_bounds(amount * align, FAR_RIDGE_NUM as int, lim * one, FAR_RIDGE_NUM as int);
                    lemma_trunc_div_bounds(amount * align * FAR_RIDGE_NUM, (ONE * FAR_RIDGE_DEN) as int, lim * one * FAR_RIDGE_NUM);
                }
                let shift_x = trunc_div_i128(perp_x as i128 * off, one);
                let shift_y = trunc_div_i128(perp_y as i128 * off, one);
                let near = trunc_div_i128(amount * align, one);
                let far = trunc_div_i128(
                    amount * align * FAR_RIDGE_NUM as i128,
                    one * FAR_RIDGE_DEN as i128,
                );
                kernel.add_sand((pos_x + shift_x) as i64, (pos_y + shift_y) as i64, near as i64);
                kernel.add_sand((pos_x - shift_x) as i64, (pos_y - shift_y) as i64, far as i64);
            }
        }
    }

    /// Builds a ball resting at the centre `table_size / 2` of the table, with
    /// the given diameter, speed and mark shape.
    pub fn new(
        table_size: i64,
        ball_diameter: i64,
        move_speed: i64,
        trough_depth: i64,
        trough_width_ratio: i64,
        ridge_height: i64,
        ridge_offset: i64,
    ) -> (r: PhysicsEngine)
        requires
            in_limit(table_size as int),
            in_limit(ball_diameter as int),
            0 <= move_speed <= COORD_LIMIT,
            in_limit(trough_depth as int),
            in_limit(trough_width_ratio as int),
            in_limit(ridge_height as int),
            in_limit(ridge_offset as int),
        ensures
            r.wf(),
            r.cur_x() == trunc_div(table_size as int, 2),
            r.cur_y() == r.cur_x(),
            r.prev_x() == r.cur_x(),
            r.prev_y() == r.cur_x(),
            r.target_x() == r.cur_x(),
            r.target_y() == r.cur_x(),
            r.diameter() == ball_diameter,
            r.speed() == move_speed,
            r.depth() == trough_depth,
            r.width_ratio() == trough_width_ratio,
            r.ridge() == ridge_height,
            r.offset() == ridge_offset,
    {
        let center = trunc_div_i128(table_size as i128, 2) as i64;
        proof {
            lemma_trunc_div_bounds(table_size as int, 2, COORD_LIMIT as int);
        }
        PhysicsEngine {
            current_pos_x: center,
            current_pos_y: center,
            prev_pos_x: center,
            prev_pos_y: center,
            target_pos_x: center,
            target_pos_y: center,
            ball_diameter,
            move_speed,
            trough_depth,
            trough_width_ratio,
            ridge_height,
            ridge_offset,
        }
    }

    /// Sets the point the ball heads for; it does not move yet.
    pub fn set_target(&mut self, x: i64, y: i64)
        requires
            old(self).wf(),
            in_limit(x as int),
            in_limit(y as int),
        ensures
            final(self).wf(),
            final(self).same_shape(old(self)),
            final(self).target_x() == x,
            final(self).target_y() == y,
            final(self).cur_x() == old(self).cur_x(),
            final(self).cur_y() == old(self).cur_y(),
            final(self).prev_x() == old(self).prev_x(),
            final(self).prev_y() == old(self).prev_y(),
    {
        self.target_pos_x = x;
        self.target_pos_y = y;
    }

    /// The ball's position, as `[x, y]`.
    pub fn get_position(&self) -> (r: Vec<i64>)
        ensures
            r@ == seq![self.cur_x() as i64, self.cur_y() as i64],
    {
        let mut r: Vec<i64> = Vec::new();
        r.push(self.current_pos_x);
        r.push(self.current_pos_y);
        r
    }

    /// Puts the ball, its previous position and its target at the centre
    /// `table_size / 2` of a table.
    pub fn reset(&mut self, table_size: i64)
        requires
            old(self).wf(),
            in_limit(table_size as int),
        ensures
            final(self).wf(),
            final(self).same_shape(old(self)),
            final(self).cur_x() == trunc_div(table_size as int, 2),
            final(self).cur_y() == final(self).cur_x(),
            final(self).prev_x() == final(self).cur_x(),
            final(self).prev_y() == final(self).cur_x(),
            final(self).target_x() == final(self).cur_x(),
            final(self).target_y() == final(self).cur_x(),
    {
        let center = trunc_div_i128(table_size as i128, 2) as i64;
        proof {
            lemma_trunc_div_bounds(table_size as int, 2, COORD_LIMIT as int);
        }
        self.current_pos_x = center;
        self.current_pos_y = center;
        self.prev_pos_x = center;
        self.prev_pos_y = center;
        self.target_pos_x = center;
        self.target_pos_y = center;
    }

    /// Replaces: ball diameter.
    pub fn set_ball_diameter(&mut self, diameter: i64)
        requires
            old(self).wf(),
            in_limit(diameter as int),
        ensures
            final(self).wf(),
            final(self).diameter() == diameter,
            final(self).speed() == old(self).speed(),
            final(self).depth() == old(self).depth(),
            final(self).width_ratio() == old(self).width_ratio(),
            final(self).ridge() == old(self).ridge(),
            final(self).offset() == old(self).offset(),
            final(self).cur_x() == old(self).cur_x(),
            final(self).cur_y() == old(self).cur_y(),
            final(self).prev_x() == old(self).prev_x(),
            final(self).prev_y() == old(self).prev_y(),
            final(self).target_x() == old(self).target_x(),
            final(self).target_y() == old(self).target_y(),
    {
        self.ball_diameter = diameter;
    }

    /// Ball diameter.
    pub fn get_ball_diameter(&self) -> (r: i64)
        ensures
            r == self.diameter(),
    {
        self.ball_diameter
    }

    /// Replaces: largest distance covered in one tick.
    pub fn set_move_speed(&mut self, speed: i64)
        requires
            old(self).wf(),
            0 <= speed <= COORD_LIMIT,
        ensures
            final(self).wf(),
            final(self).speed() == speed,
            final(self).diameter() == old(self).diameter(),
            final(self).depth() == old(self).depth(),
            final(self).width_ratio() == old(self).width_ratio(),
            final(self).ridge() == old(self).ridge(),
            final(self).offset() == old(self).offset(),
            final(self).cur_x() == old(self).cur_x(),
            final(self).cur_y() == old(self).cur_y(),
            final(self).prev_x() == old(self).prev_x(),
            final(self).prev_y() == old(self).prev_y(),
            final(self).target_x() == old(self).target_x(),
            final(self).target_y() == old(self).target_y(),
    {
        self.move_speed = speed;
    }

    /// Largest distance covered in one tick.
    pub fn get_move_speed(&self) -> (r: i64)
        ensures
            r == self.speed(),
    {
        self.move_speed
    }

    /// Replaces: sand added at the centre of the path.
    pub fn set_trough_depth(&mut self, depth: i64)
        requires
            old(self).wf(),
            in_limit(depth as int),
        ensures
            final(self).wf(),
            final(self).depth() == depth,
            final(self).diameter() == old(self).diameter(),
            final(self).speed() == old(self).speed(),
            final(self).width_ratio() == old(self).width_ratio(),
            final(self).ridge() == old(self).ridge(),
            final(self).offset() == old(self).offset(),
            final(self).cur_x() == old(self).cur_x(),
            final(self).cur_y() == old(self).cur_y(),
            final(self).prev_x() == old(self).prev_x(),
            final(self).prev_y() == old(self).prev_y(),
            final(self).target_x() == old(self).target_x(),
            final(self).target_y() == old(self).target_y(),
    {
        self.trough_depth = depth;
    }

    /// Sand added at the centre of the path.
    pub fn get_trough_depth(&self) -> (r: i64)
        ensures
            r == self.depth(),
    {
        self.trough_depth
    }

    /// Replaces: trough radius as a fraction of the ball radius.
    pub fn set_trough_width_ratio(&mut self, ratio: i64)
        requires
            old(self).wf(),
            in_limit(ratio as int),
        ensures
            final(self).wf(),
            final(self).width_ratio() == ratio,
            final(self).diameter() == old(self).diameter(),
            final(self).speed() == old(self).speed(),
            final(self).depth() == old(self).depth(),
            final(self).ridge() == old(self).ridge(),
            final(self).offset() == old(self).offset(),
            final(self).cur_x() == old(self).cur_x(),
            final(self).cur_y() == old(self).cur_y(),
            final(self).prev_x() == old(self).prev_x(),
            final(self).prev_y() == old(self).prev_y(),
            final(self).target_x() == old(self).target_x(),
            final(self).target_y() == old(self).target_y(),
    {
        self.trough_width_ratio = ratio;
    }

    /// Trough radius as a fraction of the ball radius.
    pub fn get_trough_width_ratio(&self) -> (r: i64)
        ensures
            r == self.width_ratio(),
    {
        self.trough_width_ratio
    }

    /// Replaces: sand added in the ridges.
    pub fn set_ridge_height(&mut self, height: i64)
        requires
            old(self).wf(),
            in_limit(height as int),
        ensures
            final(self).wf(),
            final(self).ridge() == height,
            final(self).diameter() == old(self).diameter(),
            final(self).speed() == old(self).speed(),
            final(self).depth() == old(self).depth(),
            final(self).width_ratio() == old(self).width_ratio(),
            final(self).offset() == old(self).offset(),
            final(self).cur_x() == old(self).cur_x(),
            final(self).cur_y() == old(self).cur_y(),
            final(self).prev_x() == old(self).prev_x(),
            final(self).prev_y() == old(self).prev_y(),
            final(self).target_x() == old(self).target_x(),
            final(self).target_y() == old(self).target_y(),
    {
        self.ridge_height = height;
    }

    /// Sand added in the ridges.
    pub fn get_ridge_height(&self) -> (r: i64)
        ensures
            r == self.ridge(),
    {
        self.ridge_height
    }

    /// Replaces: how far ridge deposits are pushed sideways.
    pub fn set_ridge_offset(&mut self, offset: i64)
        requires
            old(self).wf(),
            in_limit(offset as int),
        ensures
            final(self).wf(),
            final(self).offset() == offset,
            final(self).diameter() == old(self).diameter(),
            final(self).speed() == old(self).speed(),
            final(self).depth() == old(self).depth(),
            final(self).width_ratio() == old(self).width_ratio(),
            final(self).ridge() == old(self).ridge(),
            final(self).cur_x() == old(self).cur_x(),
            final(self).cur_y() == old(self).cur_y(),
            final(self).prev_x() == old(self).prev_x(),
            final(self).prev_y() == old(self).prev_y(),
            final(self).target_x() == old(self).target_x(),
            final(self).target_y() == old(self).target_y(),
    {
        self.ridge_offset = offset;
    }

    /// How far ridge deposits are pushed sideways.
    pub fn get_ridge_offset(&self) -> (r: i64)
        ensures
            r == self.offset(),
    {
        self.ridge_offset
    }

    /// Moves one coordinate toward its target: by `trunc_div(delta * speed,
    /// dist)` when the target is farther than `speed`, onto it otherwise.
    fn seek_axis(c: i64, t: i64, dist: i128, speed: i64) -> (r: i64)
        requires
            in_limit(c as int),
            in_limit(t as int),
            0 <= speed <= COORD_LIMIT,
            speed < dist ==> dist <= 0x4000000000001,
        ensures
            r == seek(c as int, t as int, dist as int, speed as int),
            in_limit(r as int),
    {
        if dist > speed as i128 {
            let delta: i128 = t as i128 - c as i128;
            proof {
                if delta >= 0 {
                    lemma_ratio_bounds(speed as int, dist as int, delta as int);
                    assert(delta * speed == speed * delta) by (nonlinear_arith);
                } else {
                    lemma_ratio_bounds(speed as int, dist as int, -delta);
                    assert(-(delta * speed) == speed * (-delta)) by (nonlinear_arith);
                }
                lemma_mul_bounds(delta as int, speed as int, 2 * COORD_LIMIT, COORD_LIMIT as int);
            }
            let step = trunc_div_i128(delta * speed as i128, dist);
            (c as i128 + step) as i64
        } else {
            t
        }
    }

    /// Advances the ball one tick toward its target and marks `kernel` along
    /// the path it travelled.
    ///
    /// The ball moves `speed` toward the target, or onto it when the target
    /// is no farther than that. If it then moved less than `STILL_SPEED`, the
    /// field is left alone. Otherwise the path is cut into
    /// `ceil(travelled / SAMPLE_SPACING)` equal pieces and the mark is stamped
    /// at the middle of each, every stamp carrying that share of the amounts.
    pub fn update(&mut self, kernel: &mut SandKernel)
        requires
            old(self).wf(),
            old(kernel).wf(),
        ensures
            final(self).wf(),
            final(self).same_shape(old(self)),
            final(self).prev_x() == old(self).cur_x(),
            final(self).prev_y() == old(self).cur_y(),
            final(self).target_x() == old(self).target_x(),
            final(self).target_y() == old(self).target_y(),
            ({
                let dist = distance(
                    old(self).cur_x(),
                    old(self).cur_y(),
                    old(self).target_x(),
                    old(self).target_y(),
                );
                &&& final(self).cur_x() == seek(
                    old(self).cur_x(),
                    old(self).target_x(),
                    dist,
                    old(self).speed(),
                )
                &&& final(self).cur_y() == seek(
                    old(self).cur_y(),
                    old(self).target_y(),
                    dist,
                    old(self).speed(),
                )
            }),
            distance(old(self).cur_x(), old(self).cur_y(), final(self).cur_x(), final(self).cur_y())
                < STILL_SPEED ==> final(kernel).levels() == old(kernel).levels(),
            final(kernel).levels() == tick_model(
                old(kernel).levels(),
                old(kernel).size(),
                old(kernel).max(),
                *final(self),
            ),
            final(kernel).wf(),
            final(kernel).size() == old(kernel).size(),
            final(kernel).start() == old(kernel).start(),
            final(kernel).max() == old(kernel).max(),
    {
        self.prev_pos_x = self.current_pos_x;
        self.prev_pos_y = self.current_pos_y;
        let lim: i128 = COORD_LIMIT as i128;
        let dx: i128 = self.target_pos_x as i128 - self.current_pos_x as i128;
        let dy: i128 = self.target_pos_y as i128 - self.current_pos_y as i128;
        proof {
            lemma_mul_bounds(dx as int, dx as int, 2 * lim, 2 * lim);
            lemma_mul_bounds(dy as int, dy as int, 2 * lim, 2 * lim);
            assert(dx * dx >= 0 && dy * dy >= 0) by (nonlinear_arith);
        }
        let dist = isqrt((dx * dx + dy * dy) as u128) as i128;
        self.current_pos_x = Self::seek_axis(self.current_pos_x, self.target_pos_x, dist, self.move_speed);
        self.current_pos_y = Self::seek_axis(self.current_pos_y, self.target_pos_y, dist, self.move_speed);

        let vx: i128 = self.current_pos_x as i128 - self.prev_pos_x as i128;
        let vy: i128 = self.current_pos_y as i128 - self.prev_pos_y as i128;
        proof {
            lemma_mul_bounds(vx as int, vx as int, 2 * lim, 2 * lim);
            lemma_mul_bounds(vy as int, vy as int, 2 * lim, 2 * lim);
            assert(vx * vx >= 0 && vy * vy >= 0) by (nonlinear_arith);
        }
        let vel = isqrt((vx * vx + vy * vy) as u128) as i128;
        if vel < STILL_SPEED as i128 {
            return;
        }
        let one: i128 = ONE as i128;
        proof {
            let n = vx * vx + vy * vy;
            assert(-vel <= vx <= vel) by (nonlinear_arith)
                requires
                    n == vx * vx + vy * vy,
                    vy * vy >= 0,
                    n < (vel + 1) * (vel + 1),
                    vel >= 0,
            ;
            assert(-vel <= vy <= vel) by (nonlinear_arith)
                requires
                    n == vx * vx + vy * vy,
                    vx * vx >= 0,
                    n < (vel + 1) * (vel + 1),
                    vel >= 0,
            ;
            lemma_mul_bounds(vx as int, one as int, vel as int, one as int);
            lemma_mul_bounds(vy as int, one as int, vel as int, one as int);
            lemma_trunc_div_bounds(vx * one, vel as int, vel * one);
            lemma_trunc_div_bounds(vy * one, vel as int, vel * one);
            lemma_fundamental_div_mod_converse_mul(vel as int, one as int);
        }
        let ux = trunc_div_i128(vx * one, vel);
        let uy = trunc_div_i128(vy * one, vel);
        let perp_x: i64 = (-uy) as i64;
        let perp_y: i64 = ux as i64;
        let num_samples: i128 = (vel + SAMPLE_SPACING as i128 - 1) / SAMPLE_SPACING as i128;
        proof {
            vstd::arithmetic::div_mod::lemma_div_is_ordered(
                vel + SAMPLE_SPACING - 1,
                0x4000000000001 + SAMPLE_SPACING,
                SAMPLE_SPACING as int,
            );
            vstd::arithmetic::div_mod::lemma_div_is_ordered(
                SAMPLE_SPACING as int,
                vel + SAMPLE_SPACING - 1,
                SAMPLE_SPACING as int,
            );
        }
        let ghost after = *self;
        let ghost s0 = kernel.levels();
        let ghost nn = kernel.size();
        let ghost mx = kernel.max();
        let mut i: i128 = 0;
        while i < num_samples
            invariant
                s0 == old(kernel).levels(),
                nn == old(kernel).size(),
                mx == old(kernel).max(),
                kernel.levels() == path_model(
                    s0, nn, mx, after, after.prev_x(), after.prev_y(), vx as int, vy as int,
                    perp_x as int, perp_y as int, num_samples as int, i as nat,
                ),
                *self == after,
                after.wf(),
                kernel.wf(),
                kernel.size() == old(kernel).size(),
                kernel.start() == old(kernel).start(),
                kernel.max() == old(kernel).max(),
                1 <= num_samples <= 0x4000000000,
                0 <= i <= num_samples,
                -2 * COORD_LIMIT <= vx <= 2 * COORD_LIMIT,
                -2 * COORD_LIMIT <= vy <= 2 * COORD_LIMIT,
                vx == after.cur_x() - after.prev_x(),
                vy == after.cur_y() - after.prev_y(),
                -ONE <= perp_x <= ONE,
                -ONE <= perp_y <= ONE,
            decreases num_samples - i,
        {
            let part: i128 = 2 * i + 1;
            proof {
                if vx >= 0 {
                    lemma_ratio_bounds(part as int, 2 * num_samples, vx as int);
                    assert(vx * part == part * vx) by (nonlinear_arith);
                } else {
                    lemma_ratio_bounds(part as int, 2 * num_samples, -vx);
                    assert(-(vx * part) == part * (-vx)) by (nonlinear_arith);
                }
                if vy >= 0 {
                    lemma_ratio_bounds(part as int, 2 * num_samples, vy as int);
                    assert(vy * part == part * vy) by (nonlinear_arith);
                } else {
                    lemma_ratio_bounds(part as int, 2 * num_samples, -vy);
                    assert(-(vy * part) == part * (-vy)) by (nonlinear_arith);
                }
                lemma_mul_bounds(vx as int, part as int, 2 * COORD_LIMIT, 0x10000000000);
                lemma_mul_bounds(vy as int, part as int, 2 * COORD_LIMIT, 0x10000000000);
            }
            let sample_x = self.prev_pos_x as i128 + trunc_div_i128(vx * part, 2 * num_samples);
            let sample_y = self.prev_pos_y as i128 + trunc_div_i128(vy * part, 2 * num_samples);
            self.displace_sand_at(
                kernel,
                sample_x as i64,
                sample_y as i64,
                perp_x,
                perp_y,
                num_samples as i64,
            );
            i = i + 1;
        }
    }

    /// Stamps the ball's mark into `kernel` at `(center_x, center_y)`, with the
    /// motion's perpendicular `(perp_x, perp_y)` (in units of `1 / ONE`) and
    /// every amount divided by `num_samples`.
    fn displace_sand_at(
        &self,
        kernel: &mut SandKernel,
        center_x: i64,
        center_y: i64,
        perp_x: i64,
        perp_y: i64,
        num_samples: i64,
    )
        requires
            self.wf(),
            old(kernel).wf(),
            -4 * COORD_LIMIT <= center_x <= 4 * COORD_LIMIT,
            -4 * COORD_LIMIT <= center_y <= 4 * COORD_LIMIT,
            -ONE <= perp_x <= ONE,
            -ONE <= perp_y <= ONE,
            1 <= num_samples,
        ensures
            final(kernel).wf(),
            final(kernel).size() == old(kernel).size(),
            final(kernel).start() == old(kernel).start(),
            final(kernel).max() == old(kernel).max(),
            final(kernel).levels() == stamp_model(
                old(kernel).levels(),
                old(kernel).size(),
                old(kernel).max(),
                *self,
                center_x as int,
                center_y as int,
                perp_x as int,
                perp_y as int,
                num_samples as int,
            ),
    {
        let radius = trunc_div_i128(self.ball_diameter as i128, 2);
        proof {
            lemma_trunc_div_bounds(self.ball_diameter as int, 2, COORD_LIMIT as int);
        }
        if radius <= 0 {
            return;
        }
        proof {
            lemma_mul_bounds(radius as int, self.trough_width_ratio as int, COORD_LIMIT as int, COORD_LIMIT as int);
        }
        let inner = trunc_div_i128(radius * self.trough_width_ratio as i128, ONE as i128);
        proof {
            lemma_trunc_div_bounds(radius * self.trough_width_ratio, ONE as int, COORD_LIMIT * COORD_LIMIT);
            vstd::arithmetic::div_mod::lemma_div_is_ordered(radius + ONE - 1, COORD_LIMIT + ONE, ONE as int);
        }
        let reach: i64 = ((radius + ONE as i128 - 1) / ONE as i128) as i64;
        assert(reach <= 16777217);
        let ghost s0 = kernel.levels();
        let ghost nn = kernel.size();
        let ghost mx = kernel.max();
        let mut oy: i64 = -reach;
        while oy <= reach
            invariant
                nn == old(kernel).size(),
                mx == old(kernel).max(),
                s0 == old(kernel).levels(),
                reach == stamp_reach(*self),
                radius == stamp_radius(*self),
                inner == stamp_inner(*self),
                kernel.levels() == grid_model(
                    s0, nn, mx, *self, center_x as int, center_y as int, perp_x as int,
                    perp_y as int, num_samples as int, reach as int, (oy + reach) as nat,
                ),
                self.wf(),
                kernel.wf(),
                kernel.size() == old(kernel).size(),
                kernel.start() == old(kernel).start(),
                kernel.max() == old(kernel).max(),
                0 <= reach <= 16777217,
                -reach <= oy <= reach + 1,
                0 < radius <= COORD_LIMIT,
                -(COORD_LIMIT * COORD_LIMIT) / (ONE as int) <= inner <= (COORD_LIMIT * COORD_LIMIT) / (ONE as int),
                -4 * COORD_LIMIT <= center_x <= 4 * COORD_LIMIT,
                -4 * COORD_LIMIT <= center_y <= 4 * COORD_LIMIT,
                -ONE <= perp_x <= ONE,
                -ONE <= perp_y <= ONE,
                1 <= num_samples,
            decreases reach + 1 - oy,
        {
            let ghost g = kernel.levels();
            let mut ox: i64 = -reach;
            while ox <= reach
                invariant
                    nn == old(kernel).size(),
                    mx == old(kernel).max(),
                    s0 == old(kernel).levels(),
                    reach == stamp_reach(*self),
                    radius == stamp_radius(*self),
                    inner == stamp_inner(*self),
                    g == grid_model(
                        s0, nn, mx, *self, center_x as int, center_y as int, perp_x as int,
                        perp_y as int, num_samples as int, reach as int, (oy + reach) as nat,
                    ),
                    kernel.levels() == row_model(
                        g, nn, mx, *self, center_x as int, center_y as int, perp_x as int,
                        perp_y as int, num_samples as int, oy as int, reach as int,
                        (ox + reach) as nat,
                    ),
                    self.wf(),
                    kernel.wf(),
                    kernel.size() == old(kernel).size(),
                    kernel.start() == old(kernel).start(),
                    kernel.max() == old(kernel).max(),
                    0 <= reach <= 16777217,
                    -reach <= oy <= reach,
                    -reach <= ox <= reach + 1,
                    0 < radius <= COORD_LIMIT,
                    -(COORD_LIMIT * COORD_LIMIT) / (ONE as int) <= inner <= (COORD_LIMIT * COORD_LIMIT) / (ONE as int),
                    -4 * COORD_LIMIT <= center_x <= 4 * COORD_LIMIT,
                    -4 * COORD_LIMIT <= center_y <= 4 * COORD_LIMIT,
                    -ONE <= perp_x <= ONE,
                    -ONE <= perp_y <= ONE,
                    1 <= num_samples,
                decreases reach + 1 - ox,
            {
                self.stamp_offset(kernel, center_x, center_y, perp_x, perp_y, num_samples, ox, oy, radius, inner);
                ox = ox + 1;
            }
            oy = oy + 1;
        }
    }
}

} // verus!
