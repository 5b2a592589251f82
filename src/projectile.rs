use crate::geometry::{abs, is_unit, Vec2i, COORD_LIMIT, DIR_SCALE, UNIT};
use vstd::prelude::*;

verus! {

/// World units a projectile covers per fixed tick. A direction component
/// `d` (scale `DIR_SCALE`, equal to `UNIT`) thus moves `d * SPEED`
/// thousandths of a unit per tick.
pub const SPEED: i64 = 10;

/// Largest distance along one axis that a projectile covers in one tick.
pub const MAX_STEP: i64 = 10_000;

/// A shot in flight: where it is and the unit direction it travels along.
#[derive(Clone, Copy, Debug, PartialEq, Eq, Structural)]
pub struct Projectile {
    pub position: Vec2i,
    pub direction: Vec2i,
}

/// The window's size in pixels. The visible part of the world is the
/// rectangle `[-width/2, width/2] x [-height/2, height/2]`.
#[derive(Clone, Copy, Debug, PartialEq, Eq, Structural)]
pub struct WindowSize {
    pub width: u32,
    pub height: u32,
}

impl Projectile {
    /// Directions are unit vectors (up to fixed-point rounding), positions
    /// inside the world.
    pub open spec fn wf(self) -> bool {
        &&& is_unit(self.direction)
        &&& abs(self.direction.x as int) <= DIR_SCALE
        &&& abs(self.direction.y as int) <= DIR_SCALE
        &&& abs(self.position.x as int) <= COORD_LIMIT
        &&& abs(self.position.y as int) <= COORD_LIMIT
    }

    /// Room for `n` more ticks of flight inside the world.
    pub open spec fn has_room(self, n: nat) -> bool {
        &&& abs(self.position.x as int) + n * MAX_STEP <= COORD_LIMIT
        &&& abs(self.position.y as int) + n * MAX_STEP <= COORD_LIMIT
    }
}

/// The projectile one tick later: `position += direction * SPEED`.
pub open spec fn advanced(q: Projectile) -> Projectile {
    Projectile {
        position: Vec2i {
            x: (q.position.x + q.direction.x * SPEED) as i64,
            y: (q.position.y + q.direction.y * SPEED) as i64,
        },
        direction: q.direction,
    }
}

/// Whether a projectile is still inside the visible rectangle (on its edge
/// counts as inside).
pub open spec fn in_bounds(q: Projectile, win: WindowSize) -> bool {
    &&& 2 * abs(q.position.x as int) <= win.width * UNIT
    &&& 2 * abs(q.position.y as int) <= win.height * UNIT
}

pub open spec fn all_wf(s: Seq<Projectile>) -> bool {
    forall|i: int| 0 <= i < s.len() ==> (#[trigger] s[i]).wf()
}

pub open spec fn all_have_room(s: Seq<Projectile>, n: nat) -> bool {
    forall|i: int| 0 <= i < s.len() ==> (#[trigger] s[i]).has_room(n)
}

/// Moves every projectile one tick along its direction.
pub fn advance_projectiles(projectiles: &mut Vec<Projectile>)
    requires
        all_wf(old(projectiles)@),
        all_have_room(old(projectiles)@, 1),
    ensures
        final(projectiles)@ == old(projectiles)@.map_values(|q: Projectile| advanced(q)),
        all_wf(final(projectiles)@),
        forall|n: nat|
            all_have_room(old(projectiles)@, n + 1) ==> #[trigger] all_have_room(
                final(projectiles)@,
                n,
            ),
{
    let ghost start = projectiles@;
    let mut i: usize = 0;
    while i < projectiles.len()
        invariant
            i <= projectiles.len() == start.len(),
            all_wf(start),
            all_have_room(start, 1),
            forall|j: int| 0 <= j < i ==> projectiles@[j] == advanced(#[trigger] start[j]),
            forall|j: int| i <= j < start.len() ==> projectiles@[j] == #[trigger] start[j],
        decreases start.len() - i,
    {
        let q = projectiles[i];
        assert(q == start[i as int]);
        assert(abs(q.direction.x * SPEED) <= MAX_STEP && abs(q.direction.y * SPEED) <= MAX_STEP);
        let moved = Projectile {
            position: Vec2i {
                x: q.position.x + q.direction.x * SPEED,
                y: q.position.y + q.direction.y * SPEED,
            },
            direction: q.direction,
        };
        projectiles.set(i, moved);
        i = i + 1;
    }
    assert(projectiles@ =~= start.map_values(|q: Projectile| advanced(q)));
    assert forall|n: nat| all_have_room(start, n + 1) implies #[trigger] all_have_room(
        projectiles@,
        n,
    ) by {
        assert((n + 1) * MAX_STEP == n * MAX_STEP + MAX_STEP) by (nonlinear_arith);
        assert forall|j: int| 0 <= j < projectiles@.len() implies (
        #[trigger] projectiles@[j]).has_room(n) by {
            assert(start[j].has_room(n + 1));
        }
    }
}

/// Whether the projectile is inside the visible rectangle of the window.
pub fn is_in_bounds(q: &Projectile, win: WindowSize) -> (r: bool)
    requires
        q.wf(),
    ensures
        r == in_bounds(*q, win),
{
    let ax: i128 = if q.position.x >= 0 { q.position.x as i128 } else { -(q.position.x as i128) };
    let ay: i128 = if q.position.y >= 0 { q.position.y as i128 } else { -(q.position.y as i128) };
    let w: i128 = win.width as i128;
    let h: i128 = win.height as i128;
    2 * ax <= w * 1000 && 2 * ay <= h * 1000
}

/// Removes every projectile that has left the visible rectangle, keeping
/// the others in order.
pub fn cull_projectiles(projectiles: &mut Vec<Projectile>, win: WindowSize)
    requires
        all_wf(old(projectiles)@),
    ensures
        final(projectiles)@ == old(projectiles)@.filter(|q: Projectile| in_bounds(q, win)),
        all_wf(final(projectiles)@),
        forall|n: nat| all_have_room(old(projectiles)@, n) ==> #[trigger] all_have_room(final(projectiles)@, n),
{
    let ghost start = projectiles@;
    let ghost keep = |q: Projectile| in_bounds(q, win);
    let mut kept: Vec<Projectile> = Vec::new();
    let mut i: usize = 0;
    while i < projectiles.len()
        invariant
            i <= projectiles.len(),
            projectiles@ == start,
            all_wf(start),
            keep == (|q: Projectile| in_bounds(q, win)),
            kept@ == start.take(i as int).filter(keep),
            forall|j: int| 0 <= j < kept@.len() ==> exists|k: int| 0 <= k < start.len() && #[trigger] kept@[j] == start[k],
        decreases projectiles.len() - i,
    {
        let q = projectiles[i];
        assert(start.take(i + 1).drop_last() =~= start.take(i as int));
        assert(start.take(i + 1).last() == q);
        proof {
            reveal(Seq::filter);
        }
        if is_in_bounds(&q, win) {
            assert(keep(q));
            assert(start.take(i + 1).filter(keep) == start.take(i as int).filter(keep).push(q));
            kept.push(q);
            assert(kept@[kept@.len() - 1] == start[i as int]);
        } else {
            assert(!keep(q));
            assert(start.take(i + 1).filter(keep) == start.take(i as int).filter(keep));
        }
        i = i + 1;
    }
    assert(start.take(start.len() as int) =~= start);
    assert forall|j: int| 0 <= j < kept@.len() implies (#[trigger] kept@[j]).wf() by {
        let k = choose|k: int| 0 <= k < start.len() && #[trigger] kept@[j] == start[k];
    }
    assert forall|n: nat| all_have_room(start, n) implies #[trigger] all_have_room(kept@, n) by {
        assert forall|j: int| 0 <= j < kept@.len() implies (#[trigger] kept@[j]).has_room(n) by {
            let k = choose|k: int| 0 <= k < start.len() && #[trigger] kept@[j] == start[k];
        }
    }
    *projectiles = kept;
}

} // verus!
