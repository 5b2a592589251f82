use crate::geometry::{abs, direction_of, in_diff_range, normalize, Vec2i, COORD_LIMIT, UNIT};
use crate::player::{
    damp, lemma_damp_shrinks, moved, push_x, push_y, HeldKeys, Player, ACCEL, DAMP_DEN, DAMP_NUM,
    MAX_MOVE, MAX_SPEED,
};
use vstd::arithmetic::power::{lemma_pow_positive, pow};
use crate::projectile::{
    advance_projectiles, advanced, all_have_room, all_wf, cull_projectiles, in_bounds,
    Projectile, WindowSize, MAX_STEP, SPEED,
};
use crate::schedule::{carried, ticks_due, FixedTimestep};
use vstd::prelude::*;

verus! {

/// Half the arm length of the crosshair drawn where a shot was fired, in
/// thousandths of a unit.
pub const CROSS_ARM: i64 = 15_000;

/// What the input layer reports for one rendered frame.
#[derive(Clone, Copy, Debug, PartialEq, Eq, Structural)]
pub struct FrameInput {
    /// Movement keys held during the frame.
    pub held: HeldKeys,
    /// The left mouse button went down in this frame.
    pub left_just_pressed: bool,
    /// The cursor in window pixels (thousandths), measured from the
    /// window's corner; `None` while the cursor is outside the window.
    pub cursor: Option<Vec2i>,
}

/// What one rendered frame did, for the presentation layer.
#[derive(Clone, Copy, Debug, PartialEq, Eq, Structural)]
pub struct FrameReport {
    /// Fixed ticks run in the frame.
    pub ticks: u64,
    /// Where to draw a crosshair, if a shot was fired.
    pub marker: Option<Vec2i>,
}

/// A line segment to draw.
#[derive(Clone, Copy, Debug, PartialEq, Eq, Structural)]
pub struct Segment {
    pub from: Vec2i,
    pub to: Vec2i,
}

/// Everything the simulation owns: the player, the projectiles in flight,
/// and the fixed-timestep clock.
pub struct World {
    pub player: Player,
    pub projectiles: Vec<Projectile>,
    pub clock: FixedTimestep,
}

/// A raw cursor reading that the simulation can take.
pub open spec fn cursor_ok(c: Option<Vec2i>) -> bool {
    match c {
        Some(v) => abs(v.x as int) <= COORD_LIMIT && abs(v.y as int) <= COORD_LIMIT,
        None => true,
    }
}

/// The cursor moved from window coordinates into the origin-centred world:
/// `cursor - (width, height) / 2`.
pub open spec fn cursor_world(c: Vec2i, win: WindowSize) -> Vec2i {
    Vec2i { x: (c.x - win.width * (UNIT / 2)) as i64, y: (c.y - win.height * (UNIT / 2)) as i64 }
}

/// The vector from the player to the cursor.
pub open spec fn aim_vector(p: Player, c: Vec2i, win: WindowSize) -> Vec2i {
    let w = cursor_world(c, win);
    Vec2i { x: (w.x - p.position.x) as i64, y: (w.y - p.position.y) as i64 }
}

/// The player after aiming: it faces the cursor, if there is one.
pub open spec fn aimed_player(p: Player, cursor: Option<Vec2i>, win: WindowSize) -> Player {
    match cursor {
        Some(c) => Player { facing: aim_vector(p, c, win), ..p },
        None => p,
    }
}

/// The projectiles after a possible shot: a click with the cursor in the
/// window, away from the player, adds one projectile at the player's
/// position heading for the cursor.
pub open spec fn fired(p: Player, s: Seq<Projectile>, cursor: Option<Vec2i>, pressed: bool, win: WindowSize) -> Seq<Projectile> {
    match cursor {
        Some(c) => if pressed && aim_vector(p, c, win) != (Vec2i { x: 0, y: 0 }) {
            s.push(Projectile { position: p.position, direction: direction_of(aim_vector(p, c, win)) })
        } else {
            s
        },
        None => s,
    }
}

/// Where the crosshair goes: at the cursor, on a click inside the window.
pub open spec fn marker_of(cursor: Option<Vec2i>, pressed: bool, win: WindowSize) -> Option<Vec2i> {
    match cursor {
        Some(c) => if pressed { Some(cursor_world(c, win)) } else { None },
        None => None,
    }
}

/// The player after `n` fixed ticks under the same held keys.
pub open spec fn ticked_player(p: Player, k: HeldKeys, n: nat) -> Player
    decreases n,
{
    if n == 0 { p } else { moved(ticked_player(p, k, (n - 1) as nat), k) }
}

/// The projectiles after `n` fixed ticks.
pub open spec fn ticked_shots(s: Seq<Projectile>, n: nat) -> Seq<Projectile>
    decreases n,
{
    if n == 0 { s } else { ticked_shots(s, (n - 1) as nat).map_values(|q: Projectile| advanced(q)) }
}

/// Firing is edge-triggered and spawns at most one projectile per frame:
/// exactly one is added when the button went down in this frame, the cursor
/// is in the window and not on the player; none otherwise. The projectiles
/// already in flight are kept as they were, in order.
pub proof fn lemma_one_shot_per_press(
    p: Player,
    s: Seq<Projectile>,
    cursor: Option<Vec2i>,
    pressed: bool,
    win: WindowSize,
)
    ensures
        fired(p, s, cursor, pressed, win).len() == s.len() + (if pressed && cursor is Some
            && aim_vector(p, cursor->Some_0, win) != (Vec2i { x: 0, y: 0 }) {
            1int
        } else {
            0int
        }),
        fired(p, s, cursor, pressed, win).take(s.len() as int) == s,
{
    assert(fired(p, s, cursor, pressed, win).take(s.len() as int) =~= s);
}

/// Ticks under held keys stay inside the world: `n` ticks use up `n` ticks
/// of room.
pub proof fn lemma_driven_room(p: Player, k: HeldKeys, n: nat, m: nat)
    requires
        p.wf(),
        p.has_room(n + m),
    ensures
        ticked_player(p, k, n).wf(),
        ticked_player(p, k, n).has_room(m),
    decreases n,
{
    if n > 0 {
        lemma_driven_room(p, k, (n - 1) as nat, m + 1);
        let q = ticked_player(p, k, (n - 1) as nat);
        lemma_damp_shrinks(q.velocity.x + push_x(k));
        lemma_damp_shrinks(q.velocity.y + push_y(k));
        assert((m + 1) * MAX_MOVE == m * MAX_MOVE + MAX_MOVE) by (nonlinear_arith);
    }
}

/// Speed builds up toward the terminal speed: holding a key that pushes
/// toward positive x, from any speed in `[0, MAX_SPEED]` along x, the gap
/// to `MAX_SPEED` after `n` ticks is the starting gap times
/// `(DAMP_NUM / DAMP_DEN)^n`, plus less than `DAMP_NUM` millionths of a
/// unit of rounding. From rest that is `MAX_SPEED * (1 - 0.9^n)`.
pub proof fn lemma_terminal_approach(p: Player, k: HeldKeys, n: nat)
    requires
        p.wf(),
        p.has_room(n),
        push_x(k) == ACCEL,
        p.velocity.x >= 0,
    ensures
        0 <= ticked_player(p, k, n).velocity.x <= MAX_SPEED,
        pow(DAMP_DEN as int, n) * (MAX_SPEED - ticked_player(p, k, n).velocity.x) >= pow(
            DAMP_NUM as int,
            n,
        ) * (MAX_SPEED - p.velocity.x),
        pow(DAMP_DEN as int, n) * (MAX_SPEED - ticked_player(p, k, n).velocity.x) <= pow(
            DAMP_NUM as int,
            n,
        ) * (MAX_SPEED - p.velocity.x) + DAMP_NUM * (pow(DAMP_DEN as int, n) - pow(
            DAMP_NUM as int,
            n,
        )),
    decreases n,
{
    if n == 0 {
        assert(pow(DAMP_DEN as int, 0) == 1 && pow(DAMP_NUM as int, 0) == 1) by {
            reveal(pow);
        }
    } else {
        let j = (n - 1) as nat;
        assert(p.has_room(j)) by {
            assert(j * MAX_MOVE <= n * MAX_MOVE) by (nonlinear_arith)
                requires
                    j <= n,
            ;
        }
        lemma_terminal_approach(p, k, j);
        lemma_driven_room(p, k, j, 1);
        let q = ticked_player(p, k, j);
        let w = q.velocity.x + ACCEL;
        lemma_damp_shrinks(w);
        assert(ticked_player(p, k, n).velocity.x == damp(w));
        assert(pow(DAMP_DEN as int, n) == DAMP_DEN * pow(DAMP_DEN as int, j) && pow(
            DAMP_NUM as int,
            n,
        ) == DAMP_NUM * pow(DAMP_NUM as int, j)) by {
            reveal(pow);
        }
        lemma_pow_positive(DAMP_DEN as int, j);
        lemma_pow_positive(DAMP_NUM as int, j);
        lemma_gap_step(
            pow(DAMP_DEN as int, j),
            pow(DAMP_NUM as int, j),
            MAX_SPEED - q.velocity.x,
            MAX_SPEED - damp(w),
            MAX_SPEED - p.velocity.x,
        );
    }
}

/// One tick of the gap recurrence: `10 g' ` lies in `[9 g, 9 g + 9]`.
proof fn lemma_gap_step(t: int, b: int, g: int, g2: int, g0: int)
    by (nonlinear_arith)
    requires
        t > 0,
        b > 0,
        t * g >= b * g0,
        t * g <= b * g0 + DAMP_NUM * (t - b),
        DAMP_DEN * g2 >= DAMP_NUM * g,
        DAMP_DEN * g2 <= DAMP_NUM * g + DAMP_NUM,
    ensures
        (DAMP_DEN * t) * g2 >= (DAMP_NUM * b) * g0,
        (DAMP_DEN * t) * g2 <= (DAMP_NUM * b) * g0 + DAMP_NUM * (DAMP_DEN * t - DAMP_NUM * b),
{
}

/// Where a projectile is after `n` ticks of flight: its position plus `n`
/// times its direction times `SPEED`.
pub open spec fn flown(q: Projectile, n: nat) -> Projectile {
    Projectile {
        position: Vec2i {
            x: (q.position.x + n * (q.direction.x * SPEED)) as i64,
            y: (q.position.y + n * (q.direction.y * SPEED)) as i64,
        },
        direction: q.direction,
    }
}

/// Projectiles fly in straight lines at constant speed: `n` fixed ticks
/// move each one by `n` steps along its direction.
pub proof fn lemma_flight(s: Seq<Projectile>, n: nat)
    requires
        all_wf(s),
        all_have_room(s, n),
    ensures
        ticked_shots(s, n) == s.map_values(|q: Projectile| flown(q, n)),
    decreases n,
{
    if n == 0 {
        assert(s.map_values(|q: Projectile| flown(q, 0)) =~= s);
    } else {
        let k = (n - 1) as nat;
        assert forall|i: int| 0 <= i < s.len() implies (#[trigger] s[i]).has_room(k) by {
            assert(k * MAX_STEP <= n * MAX_STEP) by (nonlinear_arith)
                requires
                    k <= n,
            ;
        }
        lemma_flight(s, k);
        assert forall|i: int| 0 <= i < s.len() implies advanced(flown(#[trigger] s[i], k)) == flown(s[i], n) by {
            lemma_line_step(s[i].position.x as int, s[i].direction.x * SPEED, k);
            lemma_line_step(s[i].position.y as int, s[i].direction.y * SPEED, k);
        }
        assert(ticked_shots(s, n) =~= s.map_values(|q: Projectile| flown(q, n)));
    }
}

/// A coordinate `k` steps of at most `MAX_STEP` along a line, then one
/// more step.
proof fn lemma_line_step(c: int, d: int, k: nat)
    requires
        abs(d) <= MAX_STEP,
        abs(c) + (k + 1) * MAX_STEP <= COORD_LIMIT,
    ensures
        abs(c + k * d) <= COORD_LIMIT,
        (c + k * d) + d == c + (k + 1) * d,
        abs(c + (k + 1) * d) <= COORD_LIMIT,
{
    assert(abs(k * d) <= k * MAX_STEP && abs((k + 1) * d) <= (k + 1) * MAX_STEP) by (nonlinear_arith)
        requires
            abs(d) <= MAX_STEP,
            abs(d) == d || abs(d) == -d,
            k >= 0,
    ;
    assert((c + k * d) + d == c + (k + 1) * d) by (nonlinear_arith);
}

/// The two strokes of a crosshair centred on `c`.
pub open spec fn cross_of(c: Vec2i) -> (Segment, Segment) {
    (
        Segment {
            from: Vec2i { x: (c.x - CROSS_ARM) as i64, y: (c.y - CROSS_ARM) as i64 },
            to: Vec2i { x: (c.x + CROSS_ARM) as i64, y: (c.y + CROSS_ARM) as i64 },
        },
        Segment {
            from: Vec2i { x: (c.x + CROSS_ARM) as i64, y: (c.y - CROSS_ARM) as i64 },
            to: Vec2i { x: (c.x - CROSS_ARM) as i64, y: (c.y + CROSS_ARM) as i64 },
        },
    )
}

/// The crosshair marking a shot: two diagonal strokes through `c`.
pub fn crosshair(c: Vec2i) -> (r: (Segment, Segment))
    requires
        abs(c.x as int) <= 2 * COORD_LIMIT,
        abs(c.y as int) <= 2 * COORD_LIMIT,
    ensures
        r == cross_of(c),
{
    (
        Segment {
            from: Vec2i { x: c.x - CROSS_ARM, y: c.y - CROSS_ARM },
            to: Vec2i { x: c.x + CROSS_ARM, y: c.y + CROSS_ARM },
        },
        Segment {
            from: Vec2i { x: c.x + CROSS_ARM, y: c.y - CROSS_ARM },
            to: Vec2i { x: c.x - CROSS_ARM, y: c.y + CROSS_ARM },
        },
    )
}

impl World {
    /// A fresh session: the player at rest at the origin, no projectiles,
    /// nothing carried on the clock.
    pub fn new() -> (r: World)
        ensures
            r.player == Player::new_spec(),
            r.projectiles@.len() == 0,
            r.clock.accumulator == 0,
            r.wf(),
    {
        World { player: Player::new(), projectiles: Vec::new(), clock: FixedTimestep::new() }
    }

    pub open spec fn wf(&self) -> bool {
        &&& self.player.wf()
        &&& all_wf(self.projectiles@)
        &&& self.clock.wf()
    }

    /// Room inside the world for `n` more fixed ticks, for the
    /// projectiles in flight and for any fired from where the player is.
    pub open spec fn has_room(&self, n: nat) -> bool {
        &&& abs(self.player.position.x as int) + n * MAX_STEP <= COORD_LIMIT
        &&& abs(self.player.position.y as int) + n * MAX_STEP <= COORD_LIMIT
        &&& all_have_room(self.projectiles@, n)
    }

    /// Whether every entity has room for `n` more fixed ticks.
    pub fn room_for(&self, n: u64) -> (r: bool)
        requires
            self.wf(),
        ensures
            r == self.has_room(n as nat),
    {
        let p = self.player.position;
        if !fits(p.x, n, MAX_STEP) || !fits(p.y, n, MAX_STEP) {
            return false;
        }
        let mut i: usize = 0;
        while i < self.projectiles.len()
            invariant
                i <= self.projectiles.len(),
                all_wf(self.projectiles@),
                forall|j: int| 0 <= j < i ==> (#[trigger] self.projectiles@[j]).has_room(n as nat),
            decreases self.projectiles.len() - i,
        {
            let q = self.projectiles[i].position;
            if !fits(q.x, n, MAX_STEP) || !fits(q.y, n, MAX_STEP) {
                assert(!self.projectiles@[i as int].has_room(n as nat));
                return false;
            }
            i = i + 1;
        }
        true
    }

    /// One fixed tick: movement, then projectile advance.
    pub fn fixed_tick(&mut self, keys: &HeldKeys)
        requires
            old(self).wf(),
            old(self).has_room(1),
        ensures
            final(self).player == moved(old(self).player, *keys),
            final(self).projectiles@ == old(self).projectiles@.map_values(|q: Projectile| advanced(q)),
            final(self).clock == old(self).clock,
            final(self).wf(),
            forall|n: nat| old(self).has_room(n + 1) ==> #[trigger] final(self).has_room(n),
    {
        proof {
            assert(1 * MAX_MOVE <= 1 * MAX_STEP);
        }
        self.player.movement(keys);
        advance_projectiles(&mut self.projectiles);
        proof {
            assert forall|n: nat| old(self).has_room(n + 1) implies #[trigger] self.has_room(n) by {
                assert((n + 1) * MAX_STEP == n * MAX_STEP + MAX_STEP) by (nonlinear_arith);
            }
        }
    }

    /// Turns the player toward the cursor and, on a click, fires a
    /// projectile at it. Returns where to draw the crosshair of a shot.
    /// Without a cursor nothing changes and nothing is drawn.
    pub fn aim_and_fire(&mut self, cursor: Option<Vec2i>, left_just_pressed: bool, win: WindowSize) -> (marker: Option<Vec2i>)
        requires
            old(self).wf(),
            cursor_ok(cursor),
        ensures
            final(self).player == aimed_player(old(self).player, cursor, win),
            final(self).projectiles@ == fired(old(self).player, old(self).projectiles@, cursor, left_just_pressed, win),
            final(self).clock == old(self).clock,
            marker == marker_of(cursor, left_just_pressed, win),
            final(self).wf(),
            cursor is None ==> final(self).player == old(self).player && final(self).projectiles@ == old(self).projectiles@,
            forall|n: nat| old(self).has_room(n) ==> #[trigger] final(self).has_room(n),
    {
        match cursor {
            None => {
                assert forall|n: nat| old(self).has_room(n) implies #[trigger] self.has_room(n) by {}
                None
            },
            Some(c) => {
                let cw = Vec2i {
                    x: c.x - win.width as i64 * (UNIT / 2),
                    y: c.y - win.height as i64 * (UNIT / 2),
                };
                let p = self.player.position;
                let diff = Vec2i { x: cw.x - p.x, y: cw.y - p.y };
                self.player.facing = diff;
                if left_just_pressed {
                    if diff.x != 0 || diff.y != 0 {
                        assert(in_diff_range(diff));
                        let dir = normalize(diff);
                        self.projectiles.push(Projectile { position: p, direction: dir });
                        assert forall|n: nat| old(self).has_room(n) implies #[trigger] self.has_room(n) by {
                            assert(self.projectiles@.last().has_room(n));
                            assert forall|j: int| 0 <= j < self.projectiles@.len() implies (#[trigger] self.projectiles@[j]).has_room(n) by {
                                if j < old(self).projectiles@.len() {
                                    assert(self.projectiles@[j] == old(self).projectiles@[j]);
                                }
                            }
                        }
                    }
                    Some(cw)
                } else {
                    None
                }
            },
        }
    }

    /// One rendered frame: the fixed ticks that `elapsed_ns` makes due
    /// (movement and projectile advance, in that order), then aiming and
    /// firing, then removal of the projectiles outside the window.
    pub fn run_frame(&mut self, input: &FrameInput, win: WindowSize, elapsed_ns: u64) -> (r: FrameReport)
        requires
            old(self).wf(),
            old(self).has_room(ticks_due(old(self).clock.accumulator as int, elapsed_ns as int) as nat),
            cursor_ok(input.cursor),
        ensures
            r.ticks == ticks_due(old(self).clock.accumulator as int, elapsed_ns as int),
            final(self).clock.accumulator == carried(old(self).clock.accumulator as int, elapsed_ns as int),
            final(self).player == aimed_player(ticked_player(old(self).player, input.held, r.ticks as nat), input.cursor, win),
            final(self).projectiles@ == fired(
                ticked_player(old(self).player, input.held, r.ticks as nat),
                ticked_shots(old(self).projectiles@, r.ticks as nat),
                input.cursor,
                input.left_just_pressed,
                win,
            ).filter(|q: Projectile| in_bounds(q, win)),
            r.marker == marker_of(input.cursor, input.left_just_pressed, win),
            final(self).wf(),
    {
        let ghost p0 = self.player;
        let ghost s0 = self.projectiles@;
        let ticks = self.clock.accumulate(elapsed_ns);
        let mut i: u64 = 0;
        while i < ticks
            invariant
                i <= ticks,
                self.wf(),
                self.has_room((ticks - i) as nat),
                self.player == ticked_player(p0, input.held, i as nat),
                self.projectiles@ == ticked_shots(s0, i as nat),
                self.clock.accumulator == carried(old(self).clock.accumulator as int, elapsed_ns as int),
            decreases ticks - i,
        {
            self.fixed_tick(&input.held);
            assert(self.has_room((ticks - (i + 1)) as nat));
            i = i + 1;
        }
        let marker = self.aim_and_fire(input.cursor, input.left_just_pressed, win);
        cull_projectiles(&mut self.projectiles, win);
        FrameReport { ticks, marker }
    }
}

/// Whether a coordinate stays inside the world for `n` steps of at most
/// `step` each.
fn fits(c: i64, n: u64, step: i64) -> (r: bool)
    requires
        abs(c as int) <= COORD_LIMIT,
        0 < step <= MAX_STEP,
    ensures
        r == (abs(c as int) + n * step <= COORD_LIMIT),
{
    let a: i128 = if c >= 0 { c as i128 } else { -(c as i128) };
    assert(n * step <= 0xffff_ffff_ffff_ffffu64 * MAX_STEP) by (nonlinear_arith)
        requires
            0 < step <= MAX_STEP,
            n <= 0xffff_ffff_ffff_ffffu64,
    ;
    a + n as i128 * step as i128 <= COORD_LIMIT as i128
}

} // verus!
