use sandtable::fixed::ONE;
use sandtable::{SandKernel, SettlementEngine};

fn spike_grid() -> SandKernel {
    let mut kernel = SandKernel::new(5, 0, 200 * ONE).unwrap();
    kernel.add_sand(2 * ONE, 2 * ONE, 100 * ONE);
    kernel
}

#[test]
fn full_blend_moves_spike_to_neighbour_mean() {
    let mut kernel = spike_grid();
    let engine = SettlementEngine::new(0, ONE);
    engine.settle_full(&mut kernel);
    assert_eq!(kernel.get_sand_level(2 * ONE, 2 * ONE), 0);
    assert_eq!(kernel.get_sand_level(1 * ONE, 2 * ONE), 25 * ONE);
    assert_eq!(kernel.get_sand_level(2 * ONE, 3 * ONE), 25 * ONE);
    assert_eq!(kernel.get_sand_level(1 * ONE, 1 * ONE), 0);
}

#[test]
fn half_blend_uses_snapshot() {
    let mut kernel = spike_grid();
    let engine = SettlementEngine::new(0, ONE / 2);
    engine.settle_full(&mut kernel);
    assert_eq!(kernel.get_sand_level(2 * ONE, 2 * ONE), 50 * ONE);
    assert_eq!(kernel.get_sand_level(3 * ONE, 2 * ONE), 25 * ONE / 2);
}

#[test]
fn threshold_leaves_small_differences() {
    let mut kernel = spike_grid();
    let engine = SettlementEngine::new(100 * ONE, ONE);
    engine.settle_full(&mut kernel);
    assert_eq!(kernel.get_sand_level(2 * ONE, 2 * ONE), 100 * ONE);
}

#[test]
fn border_cells_never_change() {
    let mut kernel = SandKernel::new(6, 0, 200 * ONE).unwrap();
    for k in 0..36 {
        kernel.add_sand((k % 6) * ONE, (k / 6) * ONE, ((k * 37) % 11) * ONE);
    }
    let before = kernel.get_buffer();
    let engine = SettlementEngine::new(0, ONE / 2);
    for _ in 0..5 {
        engine.settle_full(&mut kernel);
        engine.settle_region(&mut kernel, 0, 0, 100, 100);
    }
    let after = kernel.get_buffer();
    for k in 0..36usize {
        let (x, y) = (k % 6, k / 6);
        if x == 0 || y == 0 || x == 5 || y == 5 {
            assert_eq!(before[k], after[k]);
        }
    }
    assert_ne!(before, after);
}

#[test]
fn region_settles_only_inside_window() {
    let mut kernel = SandKernel::new(6, 0, 200 * ONE).unwrap();
    kernel.add_sand(2 * ONE, 2 * ONE, 100 * ONE);
    kernel.add_sand(4 * ONE, 4 * ONE, 100 * ONE);
    let engine = SettlementEngine::new(0, ONE);
    engine.settle_region(&mut kernel, 0, 0, 3, 3);
    assert_eq!(kernel.get_sand_level(2 * ONE, 2 * ONE), 0);
    assert_eq!(kernel.get_sand_level(4 * ONE, 4 * ONE), 100 * ONE);
}

fn roughness(buf: &[i64], n: usize) -> i128 {
    let mut total: i128 = 0;
    for y in 0..n {
        for x in 0..n {
            let v = buf[y * n + x] as i128;
            if x + 1 < n {
                let d = v - buf[y * n + x + 1] as i128;
                total += d * d;
            }
            if y + 1 < n {
                let d = v - buf[(y + 1) * n + x] as i128;
                total += d * d;
            }
        }
    }
    total
}

#[test]
fn repeated_settling_does_not_roughen_example() {
    let mut kernel = SandKernel::new(7, 0, 200 * ONE).unwrap();
    kernel.add_sand(3 * ONE, 3 * ONE, 100 * ONE);
    kernel.add_sand(2 * ONE, 4 * ONE, 40 * ONE);
    let engine = SettlementEngine::new(0, ONE / 2);
    let mut last = roughness(&kernel.get_buffer(), 7);
    for _ in 0..10 {
        engine.settle_full(&mut kernel);
        let now = roughness(&kernel.get_buffer(), 7);
        assert!(now <= last);
        last = now;
    }
}

#[test]
fn settle_parameters_can_be_changed() {
    let mut engine = SettlementEngine::new(ONE, ONE / 4);
    engine.set_settle_threshold(2 * ONE);
    engine.set_blend_factor(ONE / 2);
    assert_eq!(engine.get_settle_threshold(), 2 * ONE);
    assert_eq!(engine.get_blend_factor(), ONE / 2);
}

#[test]
fn tiny_grids_have_no_interior() {
    for n in 1..3usize {
        let mut kernel = SandKernel::new(n, 3 * ONE, 20 * ONE).unwrap();
        kernel.add_sand(0, 0, 5 * ONE);
        let before = kernel.get_buffer();
        let engine = SettlementEngine::new(0, ONE);
        engine.settle_full(&mut kernel);
        engine.settle_region(&mut kernel, 0, 0, n, n);
        assert_eq!(kernel.get_buffer(), before);
    }
}
