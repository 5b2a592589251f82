use tiny_tank::display::{window_shortcuts, DisplayMode, Platform, ShortcutKeys};
use tiny_tank::geometry::{isqrt, normalize, Vec2i};
use tiny_tank::player::{movement_all, HeldKeys, Player};
use tiny_tank::projectile::{advance_projectiles, cull_projectiles, is_in_bounds, Projectile, WindowSize};
use tiny_tank::schedule::FixedTimestep;
use tiny_tank::world::{crosshair, FrameInput, Segment, World};

fn v(x: i64, y: i64) -> Vec2i {
    Vec2i { x, y }
}

const WIN: WindowSize = WindowSize { width: 800, height: 600 };

/// Raw cursor (thousandths of a pixel) that lands on world point (x, y)
/// in whole units, for the 800x600 window.
fn cursor_at(x: i64, y: i64) -> Option<Vec2i> {
    Some(v((x + 400) * 1000, (y + 300) * 1000))
}

fn input(cursor: Option<Vec2i>, click: bool) -> FrameInput {
    FrameInput { held: HeldKeys::none(), left_just_pressed: click, cursor }
}

#[test]
fn movement_from_rest_accelerates_then_damps() {
    let mut p = Player::new();
    let mut keys = HeldKeys::none();
    keys.right = true;
    p.movement(&keys);
    assert_eq!(p.velocity, v(333_000, 0));
    assert_eq!(p.position, v(333, 0));
    p.movement(&keys);
    // (0.333 + 0.37) * 0.9 = 0.6327
    assert_eq!(p.velocity, v(632_700, 0));
    assert_eq!(p.position, v(965, 0));
    p.movement(&keys);
    // 3.33 * (1 - 0.9^3) = 0.90243
    assert_eq!(p.velocity, v(902_430, 0));
    assert_eq!(p.position, v(1867, 0));
}

#[test]
fn alternate_keys_push_like_arrows() {
    let mut p = Player::new();
    let mut keys = HeldKeys::none();
    keys.a = true;
    keys.w = true;
    p.movement(&keys);
    assert_eq!(p.velocity, v(-333_000, 333_000));
    let mut q = Player::new();
    let mut both = HeldKeys::none();
    both.left = true;
    both.a = true;
    q.movement(&both);
    assert_eq!(q.velocity, v(-333_000, 0));
}

#[test]
fn opposite_keys_cancel() {
    let mut p = Player::new();
    p.velocity = v(1_000_000, -1_000_000);
    let mut keys = HeldKeys::none();
    keys.left = true;
    keys.right = true;
    keys.up = true;
    keys.s = true;
    p.movement(&keys);
    assert_eq!(p.velocity, v(900_000, -900_000));
    assert_eq!(p.position, v(900, -900));
}

#[test]
fn sustained_input_reaches_terminal_speed() {
    let mut p = Player::new();
    let mut keys = HeldKeys::none();
    keys.right = true;
    keys.down = true;
    for _ in 0..500 {
        p.movement(&keys);
    }
    // the terminal speed ACCEL * 9 / (10 - 9) = 3.33, within rounding
    assert!(p.velocity.x <= 3_330_000 && p.velocity.x > 3_329_990, "{:?}", p.velocity);
    assert_eq!(p.velocity.y, -p.velocity.x);
    let before = p.velocity;
    p.movement(&keys);
    assert_eq!(p.velocity, before);
}

#[test]
fn damping_convergence_without_input() {
    let mut p = Player::new();
    p.velocity = v(3_330_000, -2_000_000);
    let idle = HeldKeys::none();
    let (vx0, vy0) = (3_330_000f64, 2_000_000f64);
    let mut n = 0;
    while p.velocity != v(0, 0) {
        let before = p.velocity.x * p.velocity.x + p.velocity.y * p.velocity.y;
        p.movement(&idle);
        n += 1;
        let after = p.velocity.x * p.velocity.x + p.velocity.y * p.velocity.y;
        assert!(after < before);
        let decay = 0.9f64.powi(n);
        assert!((p.velocity.x.abs() as f64) <= vx0 * decay + 1e-6);
        assert!((p.velocity.y.abs() as f64) <= vy0 * decay + 1e-6);
        assert!((p.velocity.x.abs() as f64) >= vx0 * decay - 9.0);
        assert!((p.velocity.y.abs() as f64) >= vy0 * decay - 9.0);
        assert!(n < 200);
    }
    p.movement(&idle);
    assert_eq!(p.velocity, v(0, 0));
}

#[test]
fn aim_diagonal_is_quarter_turn() {
    let mut w = World::new();
    let marker = w.aim_and_fire(cursor_at(10, 10), false, WIN);
    assert_eq!(marker, None);
    assert_eq!(w.player.facing, v(10_000, 10_000));
    let angle = (w.player.facing.y as f64).atan2(w.player.facing.x as f64);
    assert!((angle - std::f64::consts::FRAC_PI_4).abs() < 1e-12);
    assert!(w.projectiles.is_empty());
}

#[test]
fn aim_behind_is_half_turn() {
    let mut w = World::new();
    w.aim_and_fire(cursor_at(-5, 0), false, WIN);
    assert_eq!(w.player.facing, v(-5_000, 0));
    let angle = (w.player.facing.y as f64).atan2(w.player.facing.x as f64);
    assert!((angle - std::f64::consts::PI).abs() < 1e-12);
}

#[test]
fn aim_is_relative_to_player() {
    let mut w = World::new();
    w.player.position = v(20_000, -5_000);
    w.aim_and_fire(Some(v(400_500, 300_250)), false, WIN);
    assert_eq!(w.player.facing, v(-19_500, 5_250));
}

#[test]
fn click_spawns_one_projectile_toward_cursor() {
    let mut w = World::new();
    let marker = w.aim_and_fire(cursor_at(100, 0), true, WIN);
    assert_eq!(marker, Some(v(100_000, 0)));
    assert_eq!(w.projectiles.len(), 1);
    assert_eq!(w.projectiles[0], Projectile { position: v(0, 0), direction: v(1000, 0) });
    // the button is still held in the next frame: no new press, no new shot
    let marker = w.aim_and_fire(cursor_at(100, 0), false, WIN);
    assert_eq!(marker, None);
    assert_eq!(w.projectiles.len(), 1);
}

#[test]
fn frame_with_click_spawns_exactly_once() {
    let mut w = World::new();
    let r = w.run_frame(&input(cursor_at(100, 0), true), WIN, 0);
    assert_eq!(r.ticks, 0);
    assert_eq!(r.marker, Some(v(100_000, 0)));
    assert_eq!(w.projectiles.len(), 1);
    assert_eq!(w.projectiles[0].direction, v(1000, 0));
    let r = w.run_frame(&input(cursor_at(100, 0), false), WIN, 0);
    assert_eq!(r.marker, None);
    assert_eq!(w.projectiles.len(), 1);
}

#[test]
fn click_on_player_spawns_nothing() {
    let mut w = World::new();
    let marker = w.aim_and_fire(cursor_at(0, 0), true, WIN);
    assert_eq!(marker, Some(v(0, 0)));
    assert!(w.projectiles.is_empty());
    assert_eq!(w.player.facing, v(0, 0));
}

#[test]
fn missing_cursor_changes_nothing() {
    let mut w = World::new();
    w.player.facing = v(3, 4);
    let marker = w.aim_and_fire(None, true, WIN);
    assert_eq!(marker, None);
    assert_eq!(w.player.facing, v(3, 4));
    assert!(w.projectiles.is_empty());
    let r = w.run_frame(&input(None, true), WIN, 0);
    assert_eq!(r.marker, None);
    assert_eq!(w.player.facing, v(3, 4));
    assert!(w.projectiles.is_empty());
}

#[test]
fn shot_direction_is_normalized() {
    let mut w = World::new();
    w.aim_and_fire(cursor_at(30, -40), true, WIN);
    assert_eq!(w.projectiles[0].direction, v(600, -800));
}

#[test]
fn projectile_leaves_after_passing_edge() {
    let win = WindowSize { width: 200, height: 200 };
    let mut w = World::new();
    w.projectiles.push(Projectile { position: v(0, 0), direction: v(1000, 0) });
    let idle = HeldKeys::none();
    for _ in 0..10 {
        w.fixed_tick(&idle);
        cull_projectiles(&mut w.projectiles, win);
    }
    // after ten ticks it sits exactly on the edge x = 100, still visible
    assert_eq!(w.projectiles.len(), 1);
    assert_eq!(w.projectiles[0].position, v(100_000, 0));
    w.fixed_tick(&idle);
    cull_projectiles(&mut w.projectiles, win);
    assert!(w.projectiles.is_empty());
}

#[test]
fn projectile_culled_through_frames() {
    let win = WindowSize { width: 200, height: 200 };
    let mut w = World::new();
    w.run_frame(
        &FrameInput { held: HeldKeys::none(), left_just_pressed: true, cursor: Some(v(200_000, 100_000)) },
        win,
        0,
    );
    assert_eq!(w.projectiles[0].direction, v(1000, 0));
    let mut ticks = 0;
    while !w.projectiles.is_empty() {
        let r = w.run_frame(&input(None, false), win, 8_333_334);
        ticks += r.ticks;
        assert!(ticks <= 11);
    }
    assert_eq!(ticks, 11);
}

#[test]
fn advance_moves_by_speed() {
    let mut s = vec![
        Projectile { position: v(5, 7), direction: v(600, -800) },
        Projectile { position: v(0, 0), direction: v(-1000, 0) },
    ];
    advance_projectiles(&mut s);
    assert_eq!(s[0].position, v(6005, -7993));
    assert_eq!(s[1].position, v(-10_000, 0));
    assert_eq!(s[0].direction, v(600, -800));
}

#[test]
fn cull_keeps_order_and_edges() {
    let win = WindowSize { width: 200, height: 100 };
    let d = v(1000, 0);
    let mut s = vec![
        Projectile { position: v(100_001, 0), direction: d },
        Projectile { position: v(-100_000, 50_000), direction: d },
        Projectile { position: v(0, -50_001), direction: d },
        Projectile { position: v(3, 4), direction: d },
    ];
    assert!(!is_in_bounds(&s[0], win));
    assert!(is_in_bounds(&s[1], win));
    cull_projectiles(&mut s, win);
    assert_eq!(s.len(), 2);
    assert_eq!(s[0].position, v(-100_000, 50_000));
    assert_eq!(s[1].position, v(3, 4));
}

#[test]
fn cull_of_nothing_is_nothing() {
    let mut s: Vec<Projectile> = Vec::new();
    cull_projectiles(&mut s, WIN);
    assert!(s.is_empty());
}

fn ticks_over(frames: &[u64]) -> u64 {
    let mut clock = FixedTimestep::new();
    let mut total = 0;
    for &f in frames {
        total += clock.accumulate(f);
    }
    total
}

#[test]
fn fixed_ticks_conserved_across_frame_splits() {
    let irregular = [1_000_000u64, 50_000_000, 3_000_000, 250_000_000, 7_777_777, 16_666_667];
    let total: u64 = irregular.iter().sum();
    let expected = total * 120 / 1_000_000_000;
    assert_eq!(ticks_over(&irregular), expected);
    assert_eq!(ticks_over(&[total]), expected);
    let even = [total / 4, total / 4, total / 4, total - 3 * (total / 4)];
    assert_eq!(ticks_over(&even), expected);
    assert_eq!(expected, 39);
}

#[test]
fn one_tick_per_step_and_carry() {
    let mut clock = FixedTimestep::new();
    assert_eq!(clock.ticks_for(8_333_333), 0);
    assert_eq!(clock.accumulate(8_333_333), 0);
    assert_eq!(clock.accumulator, 999_999_960);
    assert_eq!(clock.accumulate(1), 1);
    assert_eq!(clock.accumulator, 80);
    assert_eq!(clock.accumulate(1_000_000_000), 120);
    assert_eq!(clock.accumulator, 80);
}

#[test]
fn slow_frame_catches_up() {
    let mut w = World::new();
    let mut held = HeldKeys::none();
    held.up = true;
    let r = w.run_frame(&FrameInput { held, left_just_pressed: false, cursor: None }, WIN, 25_000_000);
    assert_eq!(r.ticks, 3);
    // velocities 0.333, 0.6327, 0.90243
    assert_eq!(w.player.velocity, v(0, 902_430));
    assert_eq!(w.player.position, v(0, 1867));
}

#[test]
fn frame_ticks_before_aiming() {
    let mut w = World::new();
    let mut held = HeldKeys::none();
    held.d = true;
    let r = w.run_frame(
        &FrameInput { held, left_just_pressed: true, cursor: cursor_at(100, 0) },
        WIN,
        8_333_334,
    );
    assert_eq!(r.ticks, 1);
    assert_eq!(w.player.position, v(333, 0));
    assert_eq!(w.player.facing, v(99_667, 0));
    assert_eq!(w.projectiles[0].position, v(333, 0));
}

#[test]
fn integer_square_roots() {
    assert_eq!(isqrt(0), 0);
    assert_eq!(isqrt(1), 1);
    assert_eq!(isqrt(15), 3);
    assert_eq!(isqrt(16), 4);
    assert_eq!(isqrt(10_000_000_000), 100_000);
    assert_eq!(isqrt(u128::MAX), u64::MAX);
}

#[test]
fn normalize_rounds_toward_zero() {
    assert_eq!(normalize(v(3, 4)), v(600, 800));
    assert_eq!(normalize(v(-7, 0)), v(-1000, 0));
    // scaled length of (1, 1) is 1414.2, rounded up to 1415: 1000000 / 1415 = 706.7
    assert_eq!(normalize(v(1, 1)), v(706, 706));
    // length of (1000, 1000) is 1414: 1000000 / 1414 = 707.2
    assert_eq!(normalize(v(1000, -1000)), v(707, -707));
}

#[test]
fn crosshair_strokes() {
    let (a, b) = crosshair(v(100_000, -5_000));
    assert_eq!(a, Segment { from: v(85_000, -20_000), to: v(115_000, 10_000) });
    assert_eq!(b, Segment { from: v(115_000, -20_000), to: v(85_000, 10_000) });
}

#[test]
fn room_checks() {
    let mut w = World::new();
    assert!(w.room_for(1_000_000));
    assert!(!w.room_for(u64::MAX));
    w.projectiles.push(Projectile { position: v(999_999_999_995_000, 0), direction: v(1000, 0) });
    assert!(!w.room_for(1));
    assert!(w.room_for(0));
}

fn keys() -> ShortcutKeys {
    ShortcutKeys {
        super_held: false,
        control_held: false,
        w_just_pressed: false,
        f_just_pressed: false,
        f11_just_pressed: false,
    }
}

#[test]
fn mac_command_w_quits_windowed() {
    let mut k = keys();
    k.super_held = true;
    k.w_just_pressed = true;
    let c = window_shortcuts(Platform::MacOs, &k, DisplayMode::BorderlessFullscreen);
    assert!(c.exit);
    assert_eq!(c.mode, DisplayMode::Windowed);
    let c = window_shortcuts(Platform::Windows, &k, DisplayMode::BorderlessFullscreen);
    assert!(!c.exit);
    assert_eq!(c.mode, DisplayMode::BorderlessFullscreen);
}

#[test]
fn mac_command_control_f_toggles() {
    let mut k = keys();
    k.super_held = true;
    k.control_held = true;
    k.f_just_pressed = true;
    let c = window_shortcuts(Platform::MacOs, &k, DisplayMode::Windowed);
    assert_eq!(c.mode, DisplayMode::BorderlessFullscreen);
    assert!(!c.exit);
    let c = window_shortcuts(Platform::MacOs, &k, DisplayMode::BorderlessFullscreen);
    assert_eq!(c.mode, DisplayMode::Windowed);
    let c = window_shortcuts(Platform::MacOs, &k, DisplayMode::SizedFullscreen);
    assert_eq!(c.mode, DisplayMode::SizedFullscreen);
    k.control_held = false;
    let c = window_shortcuts(Platform::MacOs, &k, DisplayMode::Windowed);
    assert_eq!(c.mode, DisplayMode::Windowed);
}

#[test]
fn windows_f11_toggles() {
    let mut k = keys();
    k.f11_just_pressed = true;
    let c = window_shortcuts(Platform::Windows, &k, DisplayMode::Windowed);
    assert_eq!(c.mode, DisplayMode::BorderlessFullscreen);
    let c = window_shortcuts(Platform::Windows, &k, DisplayMode::Fullscreen);
    assert_eq!(c.mode, DisplayMode::Fullscreen);
    let c = window_shortcuts(Platform::Other, &k, DisplayMode::Windowed);
    assert_eq!(c.mode, DisplayMode::Windowed);
    assert!(!c.exit);
}

#[test]
fn movement_applies_to_every_player() {
    let mut none: Vec<Player> = Vec::new();
    let mut keys = HeldKeys::none();
    keys.up = true;
    movement_all(&mut none, &keys);
    assert!(none.is_empty());
    let mut fast = Player::new();
    fast.velocity = v(-1_000_000, 0);
    let mut players = vec![Player::new(), fast];
    movement_all(&mut players, &keys);
    assert_eq!(players[0].velocity, v(0, 333_000));
    assert_eq!(players[1].velocity, v(-900_000, 333_000));
    assert_eq!(players[1].position, v(-900, 333));
}

fn unit_len_sq(d: Vec2i) -> i64 {
    d.x * d.x + d.y * d.y
}

#[test]
fn tiny_aim_still_fires_at_unit_speed() {
    let mut w = World::new();
    // cursor a thousandth of a pixel right of and above the player
    w.aim_and_fire(Some(v(400_001, 300_001)), true, WIN);
    assert_eq!(w.projectiles.len(), 1);
    let d = w.projectiles[0].direction;
    assert_eq!(d, v(706, 706));
    assert!(998 * 998 <= unit_len_sq(d) && unit_len_sq(d) <= 1_000_000);
    for (x, y) in [(10, 10), (1, 2), (-3, 1), (7, -13), (1, 0), (0, -1), (123_456, 789)] {
        let d = normalize(v(x, y));
        assert!(998 * 998 <= unit_len_sq(d) && unit_len_sq(d) <= 1_000_000, "{:?}", d);
    }
}

#[test]
fn coasting_follows_geometric_decay() {
    let mut p = Player::new();
    let mut keys = HeldKeys::none();
    keys.right = true;
    p.movement(&keys);
    let idle = HeldKeys::none();
    for _ in 0..4 {
        p.movement(&idle);
    }
    // 0.9^4 * 0.333 = 0.2184813
    assert_eq!(p.velocity, v(218_481, 0));
}

#[test]
fn held_key_speed_tracks_terminal_curve() {
    let mut p = Player::new();
    let mut keys = HeldKeys::none();
    keys.d = true;
    for n in 1..=60 {
        p.movement(&keys);
        let exact = 3_330_000f64 * (1.0 - 0.9f64.powi(n));
        let got = p.velocity.x as f64;
        assert!(got <= exact + 1e-6 && got >= exact - 9.0, "tick {}: {} vs {}", n, got, exact);
        assert_eq!(p.velocity.y, 0);
    }
}
