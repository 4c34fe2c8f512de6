use curve_game::canvas::{CanvasError, GameCanvas};
use curve_game::color::Rgba;
use curve_game::game::{Compass, Game, MatchState, Player, Turn, HEADINGS, PLAYER_RADIUS};
use curve_game::geometry::{Point, SUBPIXELS};

const FRAME_MICROS: u32 = 16_667;

fn compass() -> Compass {
    let mut units = Vec::new();
    for h in 0..HEADINGS {
        let angle = h as f64 * std::f64::consts::PI / 128.0;
        units.push(Point {
            x: (angle.sin() * SUBPIXELS as f64).round() as i64,
            y: (angle.cos() * SUBPIXELS as f64).round() as i64,
        });
    }
    Compass::new(units).unwrap()
}

fn player(compass: &Compass, x_px: i64, y_px: i64, heading: u8, color: Rgba) -> Player {
    Player {
        location: Point { x: x_px * SUBPIXELS, y: y_px * SUBPIXELS },
        direction: compass.direction(heading),
        color,
    }
}

fn red() -> Rgba {
    Rgba::new(255, 0, 0, 255)
}

fn blue() -> Rgba {
    Rgba::new(0, 0, 255, 255)
}

fn no_keys(n: usize) -> Vec<Turn> {
    vec![Turn { left: false, right: false }; n]
}

#[test]
fn compass_rejects_wrong_tables() {
    assert!(Compass::new(vec![Point { x: 0, y: 1024 }; 255]).is_none());
    let mut units = vec![Point { x: 0, y: 1024 }; 256];
    units[17] = Point { x: 1025, y: 0 };
    assert!(Compass::new(units).is_none());
    assert!(Compass::new(vec![Point { x: -1024, y: 1024 }; 256]).is_some());
}

#[test]
fn compass_direction_reads_sine_and_cosine() {
    let c = compass();
    let down = c.direction(0);
    assert_eq!((down.heading, down.x(), down.y()), (0, 0, 1024));
    let up = c.direction(128);
    assert_eq!((up.x(), up.y()), (0, -1024));
    let right = c.direction(64);
    assert_eq!((right.x(), right.y()), (1024, 0));
}

#[test]
fn coords_truncate_toward_zero() {
    let c = compass();
    let mut p = player(&c, 0, 0, 0, red());
    p.location = Point { x: 4 * SUBPIXELS + 921, y: 7 * SUBPIXELS };
    let q = p.coords();
    assert_eq!((q.x, q.y), (4, 7));
    p.location = Point { x: -500, y: -3 * SUBPIXELS };
    let q = p.coords();
    assert_eq!((q.x, q.y), (0, 0));
}

#[test]
fn colliders_is_one_probe_six_pixels_ahead() {
    let c = compass();
    let p = player(&c, 100, 100, 0, red());
    let probes = p.colliders();
    assert_eq!(probes.len(), 1);
    assert_eq!((probes[0].x, probes[0].y), (100, 106));
    let p = player(&c, 100, 100, 128, red());
    let probes = p.colliders();
    assert_eq!((probes[0].x, probes[0].y), (100, 94));
    let p = player(&c, 100, 100, 64, red());
    let probes = p.colliders();
    assert_eq!((probes[0].x, probes[0].y), (106, 100));
}

#[test]
fn check_collision_on_background_and_paint() {
    let c = compass();
    let p = player(&c, 100, 100, 0, red());
    let mut canvas = GameCanvas::new(200, 200);
    assert_eq!(p.check_collision(&canvas), Ok(false));
    canvas.fill_pixel(100, 106, &Rgba::new(0, 0, 0, 0)).unwrap();
    assert_eq!(p.check_collision(&canvas), Ok(false));
    canvas.fill_pixel(100, 106, &Rgba::new(0, 0, 0, 99)).unwrap();
    assert_eq!(p.check_collision(&canvas), Ok(false));
    canvas.fill_pixel(100, 106, &red()).unwrap();
    assert_eq!(p.check_collision(&canvas), Ok(true));
    canvas.fill_pixel(100, 106, &Rgba::new(0, 1, 0, 0)).unwrap();
    assert_eq!(p.check_collision(&canvas), Ok(true));
}

#[test]
fn check_collision_off_canvas_fails() {
    let c = compass();
    let p = player(&c, 100, 196, 0, red());
    let canvas = GameCanvas::new(200, 200);
    assert_eq!(p.check_collision(&canvas), Err(CanvasError::OutOfBounds));
}

#[test]
fn game_new_rejects_bad_players() {
    let c = compass();
    let mut p = player(&c, 1, 1, 0, red());
    p.direction.x = 5000;
    assert!(Game::new(GameCanvas::new(10, 10), vec![p], compass()).is_none());
    let q = player(&c, 1, 1, 0, red());
    let g = Game::new(GameCanvas::new(10, 10), vec![q], compass()).unwrap();
    assert_eq!(g.state, MatchState::Playing);
}

#[test]
fn one_frame_moves_turns_and_paints() {
    let c = compass();
    let p = player(&c, 50, 50, 0, red());
    let mut g = Game::new(GameCanvas::new(100, 100), vec![p], compass()).unwrap();
    assert_eq!(g.step(&vec![Turn { left: true, right: false }], 1_000_000), Ok(()));
    let q = g.players[0];
    assert_eq!(q.direction.heading, 1);
    // sin(pi/128) = 0.02454, cos = 0.99970: 25 and 1024 in fixed point.
    assert_eq!(q.direction.x, 25);
    assert_eq!(q.direction.y, 1024);
    assert_eq!(q.location.x, 50 * SUBPIXELS + 25 * 30);
    assert_eq!(q.location.y, 50 * SUBPIXELS + 1024 * 30);
    assert_eq!(g.canvas.at(&Point { x: 50, y: 80 }), Ok(red()));
    assert_eq!(g.canvas.at(&Point { x: 50, y: 50 }), Ok(Rgba::new(0, 0, 0, 255)));
    assert_eq!(g.state, MatchState::Playing);
}

#[test]
fn right_key_turns_the_other_way_and_wraps() {
    let c = compass();
    let p = player(&c, 50, 50, 0, red());
    let mut g = Game::new(GameCanvas::new(100, 100), vec![p], compass()).unwrap();
    g.step(&vec![Turn { left: false, right: true }], 0).unwrap();
    assert_eq!(g.players[0].direction.heading, 255);
    g.step(&vec![Turn { left: true, right: false }], 0).unwrap();
    assert_eq!(g.players[0].direction.heading, 0);
}

#[test]
fn both_turn_keys_cancel() {
    let c = compass();
    let p = player(&c, 50, 50, 7, red());
    let mut g = Game::new(GameCanvas::new(100, 100), vec![p], compass()).unwrap();
    g.step(&vec![Turn { left: true, right: true }], FRAME_MICROS).unwrap();
    assert_eq!(g.players[0].direction.heading, 7);
    assert_eq!(g.players[0].direction, c.direction(7));
}

#[test]
fn ended_match_freezes_players() {
    let c = compass();
    let p = player(&c, 50, 50, 0, red());
    let mut g = Game::new(GameCanvas::new(100, 100), vec![p], compass()).unwrap();
    g.state = MatchState::Ended;
    let before = g.canvas.rgba8();
    for _ in 0..10 {
        assert_eq!(g.step(&vec![Turn { left: true, right: false }], FRAME_MICROS), Ok(()));
    }
    assert_eq!(g.players[0], p);
    assert_eq!(g.state, MatchState::Ended);
    assert_eq!(g.canvas.rgba8(), before);
}

#[test]
fn straight_parallel_lines_never_collide() {
    let c = compass();
    let a = player(&c, 100, 100, 0, red());
    let b = player(&c, 480 - 100, 720 - 100, 128, blue());
    let mut g = Game::new(GameCanvas::new(480, 720), vec![a, b], compass()).unwrap();
    for _ in 0..1000 {
        assert_eq!(g.step(&no_keys(2), FRAME_MICROS), Ok(()));
        assert_eq!(g.state, MatchState::Playing);
    }
    let a = g.players[0].coords();
    let b = g.players[1].coords();
    assert_eq!((a.x, b.x), (100, 380));
    assert!(a.y > 590 && a.y < 610);
    assert!(b.y > 110 && b.y < 130);
}

#[test]
fn head_on_players_end_the_match_and_then_freeze() {
    let c = compass();
    let a = player(&c, 240, 100, 0, red());
    let b = player(&c, 240, 620, 128, blue());
    let mut g = Game::new(GameCanvas::new(480, 720), vec![a, b], compass()).unwrap();
    let mut frames = 0;
    while g.state == MatchState::Playing && frames < 2000 {
        g.step(&no_keys(2), FRAME_MICROS).unwrap();
        frames += 1;
    }
    assert_eq!(g.state, MatchState::Ended);
    assert!(frames > 400 && frames < 600);
    let frozen = (g.players[0], g.players[1]);
    g.step(&vec![Turn { left: true, right: false }; 2], FRAME_MICROS).unwrap();
    assert_eq!((g.players[0], g.players[1]), frozen);
}

#[test]
fn crossing_own_trail_ends_the_match() {
    let c = compass();
    let p = player(&c, 50, 50, 0, red());
    let mut g = Game::new(GameCanvas::new(100, 100), vec![p], compass()).unwrap();
    g.canvas.draw_circle(50 * SUBPIXELS, 60 * SUBPIXELS, PLAYER_RADIUS, &red());
    g.step(&no_keys(1), FRAME_MICROS).unwrap();
    assert_eq!(g.state, MatchState::Ended);
}

#[test]
fn leaving_the_canvas_fails_the_frame() {
    let c = compass();
    let p = player(&c, 50, 90, 0, red());
    let mut g = Game::new(GameCanvas::new(100, 100), vec![p], compass()).unwrap();
    assert_eq!(g.step(&no_keys(1), 1_000_000), Err(CanvasError::OutOfBounds));
}

#[test]
fn speed_multiplier_follows_match_state() {
    let c = compass();
    let p = player(&c, 50, 50, 0, red());
    let mut g = Game::new(GameCanvas::new(100, 100), vec![p], compass()).unwrap();
    assert_eq!(g.line_speed_multiplier(), 1);
    g.state = MatchState::Ended;
    assert_eq!(g.line_speed_multiplier(), 0);
}
