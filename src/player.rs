use crate::geometry::{abs, div_trunc, Vec2i, COORD_LIMIT};
use vstd::arithmetic::power::{lemma_pow_positive, pow};
use vstd::prelude::*;

verus! {

/// Velocity added per tick along an axis whose key is held. Velocities are
/// in millionths of a unit per tick, a finer scale than positions, so that
/// rounding in the damping stays far below what a position can show.
pub const ACCEL: i64 = 370_000;

/// Millionths of a unit in one thousandth: a velocity divided by this,
/// rounded toward zero, is the move it makes in one tick.
pub const VEL_PER_POS: i64 = 1000;

/// Damping factor applied to the velocity every tick, as a fraction.
pub const DAMP_NUM: i64 = 9;

pub const DAMP_DEN: i64 = 10;

/// The terminal speed along one axis, `ACCEL * DAMP_NUM / (DAMP_DEN -
/// DAMP_NUM)`: a fixed point of accelerating and damping, which the speed
/// never exceeds.
pub const MAX_SPEED: i64 = 3_330_000;

/// The largest move along one axis in one tick, in thousandths of a unit.
pub const MAX_MOVE: i64 = 3330;

/// Which movement keys are held in this frame. Each direction has a primary
/// key (an arrow) and an alternate one (WASD).
#[derive(Clone, Copy, Debug, PartialEq, Eq, Structural)]
pub struct HeldKeys {
    pub left: bool,
    pub right: bool,
    pub down: bool,
    pub up: bool,
    pub a: bool,
    pub d: bool,
    pub s: bool,
    pub w: bool,
}

impl HeldKeys {
    /// No key held.
    pub fn none() -> (r: HeldKeys)
        ensures
            !r.left && !r.right && !r.down && !r.up && !r.a && !r.d && !r.s && !r.w,
    {
        HeldKeys { left: false, right: false, down: false, up: false, a: false, d: false, s: false, w: false }
    }
}

/// The push along one axis: `ACCEL` toward the positive end if its key is
/// held, `ACCEL` toward the negative end if that key is held.
pub open spec fn push(neg: bool, pos: bool) -> int {
    (if pos { ACCEL as int } else { 0 }) - (if neg { ACCEL as int } else { 0 })
}

pub open spec fn push_x(k: HeldKeys) -> int {
    push(k.left || k.a, k.right || k.d)
}

pub open spec fn push_y(k: HeldKeys) -> int {
    push(k.down || k.s, k.up || k.w)
}

/// One damping step: the velocity times `DAMP_NUM / DAMP_DEN`, rounded
/// toward zero.
pub open spec fn damp(v: int) -> int {
    div_trunc(DAMP_NUM * v, DAMP_DEN as int)
}

/// The player's vehicle. `facing` is the vector the turret points along;
/// the rotation angle is its argument, `atan2(facing.y, facing.x)`.
#[derive(Clone, Copy, Debug, PartialEq, Eq, Structural)]
pub struct Player {
    pub position: Vec2i,
    pub velocity: Vec2i,
    pub facing: Vec2i,
}

/// The move along one axis that a velocity makes in one tick, in
/// thousandths of a unit.
pub open spec fn step_of(v: int) -> int {
    div_trunc(v, VEL_PER_POS as int)
}

/// The player after one movement tick under the held keys: accelerate,
/// damp, then move by the damped velocity.
pub open spec fn moved(p: Player, k: HeldKeys) -> Player {
    let vx = damp(p.velocity.x + push_x(k));
    let vy = damp(p.velocity.y + push_y(k));
    Player {
        position: Vec2i {
            x: (p.position.x + step_of(vx)) as i64,
            y: (p.position.y + step_of(vy)) as i64,
        },
        velocity: Vec2i { x: vx as i64, y: vy as i64 },
        facing: p.facing,
    }
}

/// The player after `n` ticks with no key held.
pub open spec fn coasted(p: Player, n: nat) -> Player
    decreases n,
{
    if n == 0 {
        p
    } else {
        moved(coasted(p, (n - 1) as nat), HeldKeys {
            left: false,
            right: false,
            down: false,
            up: false,
            a: false,
            d: false,
            s: false,
            w: false,
        })
    }
}

impl Player {
    pub open spec fn new_spec() -> Player {
        Player {
            position: Vec2i { x: 0, y: 0 },
            velocity: Vec2i { x: 0, y: 0 },
            facing: Vec2i { x: 1, y: 0 },
        }
    }

    /// The player at the start of a session: at the origin, at rest,
    /// facing along the positive x axis.
    pub fn new() -> (r: Player)
        ensures
            r == Player::new_spec(),
            r.wf(),
    {
        Player {
            position: Vec2i { x: 0, y: 0 },
            velocity: Vec2i { x: 0, y: 0 },
            facing: Vec2i { x: 1, y: 0 },
        }
    }

    /// Speeds stay within the terminal speed and the position within the
    /// world.
    pub open spec fn wf(self) -> bool {
        &&& abs(self.velocity.x as int) <= MAX_SPEED
        &&& abs(self.velocity.y as int) <= MAX_SPEED
        &&& abs(self.position.x as int) <= COORD_LIMIT
        &&& abs(self.position.y as int) <= COORD_LIMIT
    }

    /// Room for `n` more ticks at full speed inside the world.
    pub open spec fn has_room(self, n: nat) -> bool {
        &&& abs(self.position.x as int) + n * MAX_MOVE <= COORD_LIMIT
        &&& abs(self.position.y as int) + n * MAX_MOVE <= COORD_LIMIT
    }

    /// One fixed tick of movement: for each held direction add `ACCEL` to
    /// the velocity, damp it, then add it to the position.
    pub fn movement(&mut self, keys: &HeldKeys)
        requires
            old(self).wf(),
            old(self).has_room(1),
        ensures
            *final(self) == moved(*old(self), *keys),
            final(self).wf(),
            forall|n: nat| old(self).has_room(n + 1) ==> #[trigger] final(self).has_room(n),
    {
        let vx = damp_axis(self.velocity.x, keys.left || keys.a, keys.right || keys.d);
        let vy = damp_axis(self.velocity.y, keys.down || keys.s, keys.up || keys.w);
        self.velocity = Vec2i { x: vx, y: vy };
        self.position = Vec2i {
            x: self.position.x + step_axis(vx),
            y: self.position.y + step_axis(vy),
        };
        proof {
            assert forall|n: nat| old(self).has_room(n + 1) implies #[trigger] self.has_room(n) by {
                assert((n + 1) * MAX_MOVE == n * MAX_MOVE + MAX_MOVE) by (nonlinear_arith);
            }
        }
    }
}

/// One fixed tick of movement for every player in `players`: the same
/// step as `Player::movement`, applied to each in place (there may be none
/// or several).
pub fn movement_all(players: &mut Vec<Player>, keys: &HeldKeys)
    requires
        forall|i: int| 0 <= i < old(players)@.len() ==> (#[trigger] old(players)@[i]).wf() && old(players)@[i].has_room(1),
    ensures
        final(players)@ == old(players)@.map_values(|p: Player| moved(p, *keys)),
        forall|i: int| 0 <= i < final(players)@.len() ==> (#[trigger] final(players)@[i]).wf(),
{
    let ghost start = players@;
    let mut i: usize = 0;
    while i < players.len()
        invariant
            i <= players.len() == start.len(),
            forall|j: int| 0 <= j < start.len() ==> (#[trigger] start[j]).wf() && start[j].has_room(1),
            forall|j: int| 0 <= j < i ==> players@[j] == moved(#[trigger] start[j], *keys),
            forall|j: int| 0 <= j < i ==> (#[trigger] players@[j]).wf(),
            forall|j: int| i <= j < start.len() ==> players@[j] == #[trigger] start[j],
        decreases start.len() - i,
    {
        let mut p = players[i];
        assert(p == start[i as int]);
        p.movement(keys);
        players.set(i, p);
        i = i + 1;
    }
    assert(players@ =~= start.map_values(|p: Player| moved(p, *keys)));
}

/// The move that a velocity makes in one tick.
fn step_axis(v: i64) -> (r: i64)
    requires
        abs(v as int) <= MAX_SPEED,
    ensures
        r == step_of(v as int),
        abs(r as int) <= MAX_MOVE,
{
    if v >= 0 {
        v / VEL_PER_POS
    } else {
        -((-v) / VEL_PER_POS)
    }
}

/// The new velocity along one axis: push, then damp.
fn damp_axis(v: i64, neg: bool, pos: bool) -> (r: i64)
    requires
        abs(v as int) <= MAX_SPEED,
    ensures
        r == damp(v + push(neg, pos)),
        abs(r as int) <= MAX_SPEED,
{
    let mut u: i64 = v;
    if pos {
        u = u + ACCEL;
    }
    if neg {
        u = u - ACCEL;
    }
    if u >= 0 {
        DAMP_NUM * u / DAMP_DEN
    } else {
        -(DAMP_NUM * (-u) / DAMP_DEN)
    }
}

/// Damping never speeds an axis up, and slows every moving axis down.
pub proof fn lemma_damp_shrinks(v: int)
    ensures
        abs(damp(v)) <= abs(v),
        v != 0 ==> abs(damp(v)) < abs(v),
        DAMP_DEN * abs(damp(v)) <= DAMP_NUM * abs(v),
        DAMP_DEN * abs(damp(v)) >= DAMP_NUM * abs(v) - DAMP_NUM,
        damp(v) == 0 || (damp(v) < 0) == (v < 0),
{
}

/// Velocity damping converges: coasting with no key held, each moving
/// axis slows strictly every tick, so the squared speed strictly drops
/// while the player moves. After `n` ticks each velocity component is at
/// most `(DAMP_NUM / DAMP_DEN)^n` of its starting size, and short of that
/// by less than `DAMP_NUM` millionths of a unit per tick (the rounding);
/// it is zero once the upper bound falls below one.
pub proof fn lemma_damping_convergence(p: Player, n: nat)
    requires
        p.wf(),
        p.has_room(n + 1),
    ensures
        coasted(p, n).wf(),
        norm_v(coasted(p, n + 1)) <= norm_v(coasted(p, n)),
        coasted(p, n).velocity != (Vec2i { x: 0, y: 0 }) ==> norm_v(coasted(p, n + 1)) < norm_v(
            coasted(p, n),
        ),
        pow(DAMP_DEN as int, n) * abs(coasted(p, n).velocity.x as int) <= pow(DAMP_NUM as int, n)
            * abs(p.velocity.x as int),
        pow(DAMP_DEN as int, n) * abs(coasted(p, n).velocity.y as int) <= pow(DAMP_NUM as int, n)
            * abs(p.velocity.y as int),
        pow(DAMP_DEN as int, n) * abs(coasted(p, n).velocity.x as int) >= pow(DAMP_NUM as int, n)
            * abs(p.velocity.x as int) - DAMP_NUM * (pow(DAMP_DEN as int, n) - pow(DAMP_NUM as int, n)),
        pow(DAMP_DEN as int, n) * abs(coasted(p, n).velocity.y as int) >= pow(DAMP_NUM as int, n)
            * abs(p.velocity.y as int) - DAMP_NUM * (pow(DAMP_DEN as int, n) - pow(DAMP_NUM as int, n)),
        pow(DAMP_NUM as int, n) * abs(p.velocity.x as int) < pow(DAMP_DEN as int, n) ==> coasted(
            p,
            n,
        ).velocity.x == 0,
        pow(DAMP_NUM as int, n) * abs(p.velocity.y as int) < pow(DAMP_DEN as int, n) ==> coasted(
            p,
            n,
        ).velocity.y == 0,
{
    lemma_coast_room(p, n, 1);
    let q = coasted(p, n);
    let r = coasted(p, n + 1);
    assert(r == moved(q, HeldKeys {
        left: false,
        right: false,
        down: false,
        up: false,
        a: false,
        d: false,
        s: false,
        w: false,
    }));
    lemma_damp_shrinks(q.velocity.x as int);
    lemma_damp_shrinks(q.velocity.y as int);
    lemma_squares_shrink(q.velocity.x as int, r.velocity.x as int, q.velocity.y as int, r.velocity.y as int);
    lemma_coast_decay(p, n);
    lemma_pow_positive(DAMP_DEN as int, n);
    let (cx, cy) = (abs(q.velocity.x as int), abs(q.velocity.y as int));
    let (bx, by) = (pow(DAMP_NUM as int, n) * abs(p.velocity.x as int), pow(DAMP_NUM as int, n) * abs(p.velocity.y as int));
    let t = pow(DAMP_DEN as int, n);
    assert(bx < t ==> cx == 0) by (nonlinear_arith)
        requires t > 0, t * cx <= bx, cx >= 0;
    assert(by < t ==> cy == 0) by (nonlinear_arith)
        requires t > 0, t * cy <= by, cy >= 0;
}

/// Coasting stays within the world: `n` ticks use up `n` ticks of room.
pub proof fn lemma_coast_room(p: Player, n: nat, m: nat)
    requires
        p.wf(),
        p.has_room(n + m),
    ensures
        coasted(p, n).wf(),
        coasted(p, n).has_room(m),
    decreases n,
{
    if n > 0 {
        lemma_coast_room(p, (n - 1) as nat, m + 1);
        let q = coasted(p, (n - 1) as nat);
        lemma_damp_shrinks(q.velocity.x as int);
        lemma_damp_shrinks(q.velocity.y as int);
        assert((m + 1) * MAX_MOVE == m * MAX_MOVE + MAX_MOVE) by (nonlinear_arith);
    }
}

/// Each velocity component decays at least geometrically while coasting.
proof fn lemma_coast_decay(p: Player, n: nat)
    requires
        p.wf(),
        p.has_room(n),
    ensures
        pow(DAMP_DEN as int, n) * abs(coasted(p, n).velocity.x as int) <= pow(DAMP_NUM as int, n)
            * abs(p.velocity.x as int),
        pow(DAMP_DEN as int, n) * abs(coasted(p, n).velocity.y as int) <= pow(DAMP_NUM as int, n)
            * abs(p.velocity.y as int),
        pow(DAMP_DEN as int, n) * abs(coasted(p, n).velocity.x as int) >= pow(DAMP_NUM as int, n)
            * abs(p.velocity.x as int) - DAMP_NUM * (pow(DAMP_DEN as int, n) - pow(DAMP_NUM as int, n)),
        pow(DAMP_DEN as int, n) * abs(coasted(p, n).velocity.y as int) >= pow(DAMP_NUM as int, n)
            * abs(p.velocity.y as int) - DAMP_NUM * (pow(DAMP_DEN as int, n) - pow(DAMP_NUM as int, n)),
    decreases n,
{
    if n == 0 {
        assert(pow(DAMP_DEN as int, 0) == 1 && pow(DAMP_NUM as int, 0) == 1) by {
            reveal(pow);
        }
    } else {
        let k = (n - 1) as nat;
        assert(p.has_room(k)) by {
            assert(k * MAX_MOVE <= n * MAX_MOVE) by (nonlinear_arith)
                requires k <= n;
        }
        lemma_coast_decay(p, k);
        lemma_coast_room(p, k, 1);
        let q = coasted(p, k);
        lemma_damp_shrinks(q.velocity.x as int);
        lemma_damp_shrinks(q.velocity.y as int);
        assert(pow(DAMP_DEN as int, n) == DAMP_DEN * pow(DAMP_DEN as int, k)
            && pow(DAMP_NUM as int, n) == DAMP_NUM * pow(DAMP_NUM as int, k)) by {
            reveal(pow);
        }
        lemma_pow_positive(DAMP_DEN as int, k);
        lemma_pow_positive(DAMP_NUM as int, k);
        lemma_decay_step(
            pow(DAMP_DEN as int, k),
            pow(DAMP_NUM as int, k),
            abs(q.velocity.x as int),
            abs(coasted(p, n).velocity.x as int),
            abs(p.velocity.x as int),
        );
        lemma_decay_step(
            pow(DAMP_DEN as int, k),
            pow(DAMP_NUM as int, k),
            abs(q.velocity.y as int),
            abs(coasted(p, n).velocity.y as int),
            abs(p.velocity.y as int),
        );
        lemma_decay_floor_step(
            pow(DAMP_DEN as int, k),
            pow(DAMP_NUM as int, k),
            abs(q.velocity.x as int),
            abs(coasted(p, n).velocity.x as int),
            abs(p.velocity.x as int),
        );
        lemma_decay_floor_step(
            pow(DAMP_DEN as int, k),
            pow(DAMP_NUM as int, k),
            abs(q.velocity.y as int),
            abs(coasted(p, n).velocity.y as int),
            abs(p.velocity.y as int),
        );
    }
}

proof fn lemma_decay_floor_step(t: int, b: int, c: int, c2: int, v: int)
    by (nonlinear_arith)
    requires
        t > 0,
        b > 0,
        t * c >= b * v - DAMP_NUM * (t - b),
        DAMP_DEN * c2 >= DAMP_NUM * c - DAMP_NUM,
    ensures
        (DAMP_DEN * t) * c2 >= (DAMP_NUM * b) * v - DAMP_NUM * (DAMP_DEN * t - DAMP_NUM * b),
{
}

proof fn lemma_decay_step(t: int, b: int, c: int, c2: int, v: int)
    by (nonlinear_arith)
    requires
        t > 0,
        b > 0,
        c >= 0,
        c2 >= 0,
        t * c <= b * v,
        DAMP_DEN * c2 <= DAMP_NUM * c,
    ensures
        (DAMP_DEN * t) * c2 <= (DAMP_NUM * b) * v,
{
}

proof fn lemma_squares_shrink(a: int, a2: int, b: int, b2: int)
    by (nonlinear_arith)
    requires
        abs(a2) <= abs(a),
        abs(b2) <= abs(b),
        a != 0 ==> abs(a2) < abs(a),
        b != 0 ==> abs(b2) < abs(b),
    ensures
        a2 * a2 + b2 * b2 <= a * a + b * b,
        (a != 0 || b != 0) ==> a2 * a2 + b2 * b2 < a * a + b * b,
{
}

/// Squared speed of the player.
pub open spec fn norm_v(p: Player) -> int {
    p.velocity.x * p.velocity.x + p.velocity.y * p.velocity.y
}

} // verus!
