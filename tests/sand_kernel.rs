use sandtable::fixed::ONE;
use sandtable::{KernelError, SandKernel};

fn level_at(kernel: &SandKernel, x: i64, y: i64) -> i64 {
    kernel.get_sand_level(x * ONE, y * ONE)
}

#[test]
fn test_kernel_initialization() {
    let kernel = SandKernel::new(200, 5 * ONE, 20 * ONE).unwrap();
    assert_eq!(kernel.table_size(), 200);
    assert_eq!(kernel.get_sand_level(100 * ONE, 100 * ONE), 5 * ONE);
}

#[test]
fn test_add_sand() {
    let mut kernel = SandKernel::new(200, 5 * ONE, 20 * ONE).unwrap();
    kernel.add_sand(100 * ONE, 100 * ONE, 2 * ONE);
    assert_eq!(kernel.get_sand_level(100 * ONE, 100 * ONE), 7 * ONE);
}

#[test]
fn test_sand_clamping() {
    let mut kernel = SandKernel::new(200, 5 * ONE, 20 * ONE).unwrap();
    kernel.add_sand(100 * ONE, 100 * ONE, 100 * ONE);
    assert_eq!(kernel.get_sand_level(100 * ONE, 100 * ONE), 20 * ONE);
}

#[test]
fn test_negative_sand() {
    let mut kernel = SandKernel::new(200, 5 * ONE, 20 * ONE).unwrap();
    kernel.add_sand(100 * ONE, 100 * ONE, -10 * ONE);
    assert_eq!(kernel.get_sand_level(100 * ONE, 100 * ONE), 0);
}

#[test]
fn zero_size_is_rejected() {
    assert_eq!(SandKernel::new(0, 5 * ONE, 20 * ONE).err(), Some(KernelError::InvalidDimension));
}

#[test]
fn start_level_outside_range_is_rejected() {
    assert_eq!(SandKernel::new(10, 30 * ONE, 20 * ONE).err(), Some(KernelError::InvalidLevels));
    assert_eq!(SandKernel::new(10, -ONE, 20 * ONE).err(), Some(KernelError::InvalidLevels));
}

#[test]
fn integer_deposit_touches_one_cell() {
    let mut kernel = SandKernel::new(10, 5 * ONE, 20 * ONE).unwrap();
    kernel.add_sand(5 * ONE, 5 * ONE, 2 * ONE);
    let buf = kernel.get_buffer();
    for (k, v) in buf.iter().enumerate() {
        if k == 5 * 10 + 5 {
            assert_eq!(*v, 7 * ONE);
        } else {
            assert_eq!(*v, 5 * ONE);
        }
    }
}

#[test]
fn half_cell_deposit_splits_evenly() {
    let mut kernel = SandKernel::new(10, 5 * ONE, 20 * ONE).unwrap();
    kernel.add_sand(5 * ONE + ONE / 2, 5 * ONE + ONE / 2, 4 * ONE);
    for (x, y) in [(5, 5), (6, 5), (5, 6), (6, 6)] {
        assert_eq!(level_at(&kernel, x, y), 6 * ONE);
    }
    assert_eq!(level_at(&kernel, 4, 5), 5 * ONE);
    assert_eq!(level_at(&kernel, 7, 6), 5 * ONE);
}

#[test]
fn corner_deposit_clamps_to_max() {
    let mut kernel = SandKernel::new(10, 5 * ONE, 20 * ONE).unwrap();
    kernel.add_sand(0, 0, 1000 * ONE);
    assert_eq!(level_at(&kernel, 0, 0), 20 * ONE);
}

#[test]
fn corner_removal_clamps_to_zero() {
    let mut kernel = SandKernel::new(10, 5 * ONE, 20 * ONE).unwrap();
    kernel.add_sand(0, 0, -100 * ONE);
    assert_eq!(level_at(&kernel, 0, 0), 0);
}

#[test]
fn quarter_offsets_give_bilinear_shares() {
    let mut kernel = SandKernel::new(10, 5 * ONE, 20 * ONE).unwrap();
    kernel.add_sand(2 * ONE + ONE / 4, 3 * ONE + 3 * ONE / 4, 4 * ONE);
    let a = level_at(&kernel, 2, 3) - 5 * ONE;
    let b = level_at(&kernel, 3, 3) - 5 * ONE;
    let c = level_at(&kernel, 2, 4) - 5 * ONE;
    let d = level_at(&kernel, 3, 4) - 5 * ONE;
    assert_eq!(a, 3 * ONE / 4);
    assert_eq!(b, ONE / 4);
    assert_eq!(c, 9 * ONE / 4);
    assert_eq!(d, 3 * ONE / 4);
    assert_eq!(a + b + c + d, 4 * ONE);
}

#[test]
fn deposit_off_the_grid_drops_its_share() {
    let mut kernel = SandKernel::new(4, 5 * ONE, 20 * ONE).unwrap();
    kernel.add_sand(3 * ONE + ONE / 2, 0, 2 * ONE);
    assert_eq!(level_at(&kernel, 3, 0), 6 * ONE);
    let total: i64 = kernel.get_buffer().iter().sum();
    assert_eq!(total, 16 * 5 * ONE + ONE);
    kernel.add_sand(-10 * ONE, -10 * ONE, 2 * ONE);
    assert_eq!(kernel.get_buffer().iter().sum::<i64>(), total);
}

#[test]
fn sampling_truncates_and_reads_zero_off_grid() {
    let mut kernel = SandKernel::new(10, 5 * ONE, 20 * ONE).unwrap();
    kernel.add_sand(3 * ONE, 4 * ONE, 2 * ONE);
    assert_eq!(kernel.get_sand_level(3 * ONE + ONE - 1, 4 * ONE + ONE / 2), 7 * ONE);
    assert_eq!(kernel.get_sand_level(-ONE / 2, 0), 5 * ONE);
    assert_eq!(kernel.get_sand_level(-ONE, 0), 0);
    assert_eq!(kernel.get_sand_level(10 * ONE, 0), 0);
    assert_eq!(kernel.get_sand_level(0, 10 * ONE), 0);
}

#[test]
fn every_cell_stays_in_range_under_many_deposits() {
    let mut kernel = SandKernel::new(8, 5 * ONE, 20 * ONE).unwrap();
    let mut seed: i64 = 12345;
    for _ in 0..500 {
        seed = (seed * 1103515245 + 12345) % 2147483648;
        let x = seed % (10 * ONE) - ONE;
        let y = (seed / 7) % (10 * ONE) - ONE;
        let amount = (seed / 13) % (60 * ONE) - 30 * ONE;
        kernel.add_sand(x, y, amount);
        for v in kernel.get_buffer() {
            assert!(v >= 0 && v <= 20 * ONE);
        }
    }
}

#[test]
fn reset_refills_start_level() {
    let mut kernel = SandKernel::new(6, 5 * ONE, 20 * ONE).unwrap();
    kernel.add_sand(2 * ONE, 2 * ONE, 3 * ONE);
    kernel.reset();
    assert!(kernel.get_buffer().iter().all(|v| *v == 5 * ONE));
    assert_eq!(kernel.get_buffer_length(), 36);
}
