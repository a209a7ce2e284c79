use sandtable::fixed::ONE;
use sandtable::{PhysicsEngine, SandKernel};

fn ball(speed: i64) -> PhysicsEngine {
    PhysicsEngine::new(100 * ONE, 6 * ONE, speed, -18 * ONE / 10, 2 * ONE / 3, 6 * ONE / 5, 6 * ONE / 5)
}

#[test]
fn starts_at_table_center() {
    let engine = ball(5 * ONE);
    assert_eq!(engine.get_position(), vec![50 * ONE, 50 * ONE]);
}

#[test]
fn short_move_snaps_to_target() {
    let mut kernel = SandKernel::new(100, 5 * ONE, 20 * ONE).unwrap();
    let mut engine = ball(5 * ONE);
    engine.set_target(52 * ONE, 50 * ONE);
    engine.update(&mut kernel);
    assert_eq!(engine.get_position(), vec![52 * ONE, 50 * ONE]);
}

#[test]
fn long_move_advances_by_speed() {
    let mut kernel = SandKernel::new(100, 5 * ONE, 20 * ONE).unwrap();
    let mut engine = ball(5 * ONE);
    engine.set_target(60 * ONE, 50 * ONE);
    engine.update(&mut kernel);
    assert_eq!(engine.get_position(), vec![55 * ONE, 50 * ONE]);
    engine.update(&mut kernel);
    assert_eq!(engine.get_position(), vec![60 * ONE, 50 * ONE]);
}

#[test]
fn moving_ball_digs_a_trough() {
    let mut kernel = SandKernel::new(100, 5 * ONE, 20 * ONE).unwrap();
    let mut engine = ball(5 * ONE);
    engine.set_target(60 * ONE, 50 * ONE);
    engine.update(&mut kernel);
    assert!(kernel.get_sand_level(52 * ONE, 50 * ONE) < 5 * ONE);
    assert!(kernel.get_buffer().iter().any(|v| *v > 5 * ONE));
    assert!(kernel.get_buffer().iter().all(|v| *v >= 0 && *v <= 20 * ONE));
}

#[test]
fn still_ball_leaves_field_alone() {
    let mut kernel = SandKernel::new(100, 5 * ONE, 20 * ONE).unwrap();
    let mut engine = ball(5 * ONE);
    let before = kernel.get_buffer();
    engine.update(&mut kernel);
    engine.set_target(50 * ONE + 10, 50 * ONE);
    engine.update(&mut kernel);
    assert_eq!(engine.get_position(), vec![50 * ONE + 10, 50 * ONE]);
    assert_eq!(kernel.get_buffer(), before);
}

#[test]
fn replay_is_deterministic() {
    let run = || {
        let mut kernel = SandKernel::new(60, 5 * ONE, 20 * ONE).unwrap();
        let mut engine = ball(3 * ONE);
        for (tx, ty) in [(40, 35), (20, 22), (45, 10)] {
            engine.set_target(tx * ONE, ty * ONE);
            for _ in 0..4 {
                engine.update(&mut kernel);
            }
        }
        (kernel.get_buffer(), engine.get_position())
    };
    assert_eq!(run(), run());
}

#[test]
fn reset_returns_to_center() {
    let mut kernel = SandKernel::new(100, 5 * ONE, 20 * ONE).unwrap();
    let mut engine = ball(5 * ONE);
    engine.set_target(10 * ONE, 10 * ONE);
    engine.update(&mut kernel);
    engine.reset(40 * ONE);
    assert_eq!(engine.get_position(), vec![20 * ONE, 20 * ONE]);
    let before = kernel.get_buffer();
    engine.update(&mut kernel);
    assert_eq!(kernel.get_buffer(), before);
}

#[test]
fn ball_parameters_can_be_changed() {
    let mut engine = ball(5 * ONE);
    engine.set_ball_diameter(8 * ONE);
    engine.set_move_speed(2 * ONE);
    engine.set_trough_depth(-ONE);
    engine.set_trough_width_ratio(ONE / 2);
    engine.set_ridge_height(ONE);
    engine.set_ridge_offset(2 * ONE);
    assert_eq!(engine.get_ball_diameter(), 8 * ONE);
    assert_eq!(engine.get_move_speed(), 2 * ONE);
    assert_eq!(engine.get_trough_depth(), -ONE);
    assert_eq!(engine.get_trough_width_ratio(), ONE / 2);
    assert_eq!(engine.get_ridge_height(), ONE);
    assert_eq!(engine.get_ridge_offset(), 2 * ONE);
}

#[test]
fn single_stamp_trough_has_exact_depth() {
    let mut kernel = SandKernel::new(100, 5 * ONE, 20 * ONE).unwrap();
    let mut engine = PhysicsEngine::new(100 * ONE, 2 * ONE, ONE, -ONE, ONE, 0, 0);
    engine.set_target(51 * ONE, 50 * ONE);
    engine.update(&mut kernel);
    assert_eq!(engine.get_position(), vec![51 * ONE, 50 * ONE]);
    let buf = kernel.get_buffer();
    for (k, v) in buf.iter().enumerate() {
        if k == 50 * 100 + 50 || k == 50 * 100 + 51 {
            assert_eq!(*v, 5 * ONE - ONE / 2);
        } else {
            assert_eq!(*v, 5 * ONE);
        }
    }
}

#[test]
fn ridges_rise_beside_the_path() {
    let mut kernel = SandKernel::new(100, 5 * ONE, 20 * ONE).unwrap();
    let mut engine = ball(5 * ONE);
    engine.set_target(60 * ONE, 50 * ONE);
    engine.update(&mut kernel);
    let right = kernel.get_sand_level(52 * ONE, 53 * ONE);
    let left = kernel.get_sand_level(52 * ONE, 47 * ONE);
    assert!(right > 5 * ONE);
    assert!(left > 5 * ONE);
    assert!(right != left);
}
