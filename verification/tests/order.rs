use ply2splat::{compare_bits, compare_keyed, ply_to_splat, SplatPoint};
use std::cmp::Ordering;

fn point(x: f32, y: f32, z: f32, tag: u8) -> SplatPoint {
    SplatPoint {
        pos: [x.to_bits(), y.to_bits(), z.to_bits()],
        scale: [0, 0, 0],
        color: [tag, 0, 0, 0],
        rot: [0, 0, 0, 0],
    }
}

fn keyed(key: f32, x: f32, y: f32, z: f32, tag: u8) -> (SplatPoint, u32) {
    (point(x, y, z, tag), key.to_bits())
}

fn tags(splats: &[SplatPoint]) -> Vec<u8> {
    splats.iter().map(|s| s.color[0]).collect()
}

#[test]
fn bit_order_agrees_with_total_cmp() {
    let values = [
        -f32::NAN,
        f32::NEG_INFINITY,
        f32::MIN,
        -1.0,
        -f32::MIN_POSITIVE,
        -0.0,
        0.0,
        f32::MIN_POSITIVE,
        0.5,
        1.0,
        f32::MAX,
        f32::INFINITY,
        f32::NAN,
    ];
    for a in values {
        for b in values {
            assert_eq!(compare_bits(a.to_bits(), b.to_bits()), a.total_cmp(&b));
        }
    }
}

#[test]
fn bit_order_at_the_edges() {
    assert_eq!(compare_bits(0x8000_0000, 0x0000_0000), Ordering::Less);
    assert_eq!(compare_bits(0xffff_ffff, 0x8000_0000), Ordering::Less);
    assert_eq!(compare_bits(0x7fff_ffff, 0x7f80_0000), Ordering::Greater);
    assert_eq!(compare_bits(0x1234_5678, 0x1234_5678), Ordering::Equal);
}

#[test]
fn comparison_goes_by_key_then_x_then_y_then_z() {
    let base = keyed(-1.0, 1.0, 1.0, 1.0, 0);
    assert_eq!(compare_keyed(&base, &keyed(-0.5, 0.0, 0.0, 0.0, 0)), Ordering::Less);
    assert_eq!(compare_keyed(&base, &keyed(-2.0, 9.0, 9.0, 9.0, 0)), Ordering::Greater);
    assert_eq!(compare_keyed(&base, &keyed(-1.0, 2.0, 0.0, 0.0, 0)), Ordering::Less);
    assert_eq!(compare_keyed(&base, &keyed(-1.0, 1.0, 0.0, 9.0, 0)), Ordering::Greater);
    assert_eq!(compare_keyed(&base, &keyed(-1.0, 1.0, 1.0, 2.0, 0)), Ordering::Less);
    assert_eq!(compare_keyed(&base, &keyed(-1.0, 1.0, 1.0, 1.0, 7)), Ordering::Equal);
}

#[test]
fn sorting_orders_by_ascending_key() {
    let input = vec![
        keyed(-0.5, 1.0, 0.0, 0.0, 1),
        keyed(-1.0, 0.0, 0.0, 0.0, 2),
    ];
    let sorted = ply_to_splat(input, true);
    assert_eq!(tags(&sorted), vec![2, 1]);
    assert_eq!(f32::from_bits(sorted[0].pos[0]), 0.0);
    assert_eq!(f32::from_bits(sorted[1].pos[0]), 1.0);
}

#[test]
fn equal_keys_order_by_position_whatever_the_input_order() {
    let a = keyed(-0.5, 0.0, 5.0, 5.0, 1);
    let b = keyed(-0.5, 1.0, 0.0, 9.0, 2);
    let c = keyed(-0.5, 1.0, 2.0, 0.0, 3);
    let d = keyed(-0.5, 1.0, 2.0, 1.0, 4);
    let orders = [
        vec![a, b, c, d],
        vec![d, c, b, a],
        vec![b, d, a, c],
        vec![c, a, d, b],
    ];
    for input in orders {
        assert_eq!(tags(&ply_to_splat(input, true)), vec![1, 2, 3, 4]);
    }
}

#[test]
fn points_that_agree_in_key_and_position_keep_input_order() {
    let input: Vec<(SplatPoint, u32)> = (0..200u8)
        .map(|tag| keyed(if tag % 2 == 0 { -1.0 } else { -2.0 }, 0.0, 0.0, 0.0, tag))
        .collect();
    let sorted = ply_to_splat(input, true);
    let odd: Vec<u8> = (0..200u8).filter(|t| t % 2 == 1).collect();
    let even: Vec<u8> = (0..200u8).filter(|t| t % 2 == 0).collect();
    assert_eq!(tags(&sorted[..100]), odd);
    assert_eq!(tags(&sorted[100..]), even);
}

#[test]
fn nan_keys_and_positions_have_a_fixed_place() {
    let input = vec![
        keyed(f32::NAN, 0.0, 0.0, 0.0, 1),
        keyed(f32::INFINITY, 0.0, 0.0, 0.0, 2),
        keyed(-f32::NAN, 0.0, 0.0, 0.0, 3),
        keyed(f32::NEG_INFINITY, 0.0, 0.0, 0.0, 4),
        keyed(0.0, f32::NAN, 0.0, 0.0, 5),
        keyed(0.0, 1.0, 0.0, 0.0, 6),
        keyed(-0.0, 0.0, 0.0, 0.0, 7),
    ];
    let sorted = ply_to_splat(input, true);
    assert_eq!(tags(&sorted), vec![3, 4, 7, 6, 5, 2, 1]);
}

#[test]
fn without_sorting_the_input_order_stands() {
    let input = vec![
        keyed(3.0, 0.0, 0.0, 0.0, 1),
        keyed(-1.0, 0.0, 0.0, 0.0, 2),
        keyed(2.0, 0.0, 0.0, 0.0, 3),
        keyed(-1.0, -4.0, 0.0, 0.0, 4),
    ];
    let records: Vec<SplatPoint> = input.iter().map(|e| e.0).collect();
    assert_eq!(ply_to_splat(input.clone(), false), records);
    let reversed: Vec<(SplatPoint, u32)> = input.into_iter().rev().collect();
    let records: Vec<SplatPoint> = reversed.iter().map(|e| e.0).collect();
    assert_eq!(ply_to_splat(reversed, false), records);
}

#[test]
fn sorting_keeps_every_record() {
    let input: Vec<(SplatPoint, u32)> = (0..1000u32)
        .map(|i| {
            let k = (i.wrapping_mul(2_654_435_761) % 97) as f32;
            keyed(-k, (i % 13) as f32, (i % 7) as f32, (i % 5) as f32, (i % 251) as u8)
        })
        .collect();
    let sorted = ply_to_splat(input.clone(), true);
    assert_eq!(sorted.len(), input.len());
    let mut expected = input.clone();
    expected.sort_by(|a, b| {
        f32::from_bits(a.1)
            .total_cmp(&f32::from_bits(b.1))
            .then_with(|| f32::from_bits(a.0.pos[0]).total_cmp(&f32::from_bits(b.0.pos[0])))
            .then_with(|| f32::from_bits(a.0.pos[1]).total_cmp(&f32::from_bits(b.0.pos[1])))
            .then_with(|| f32::from_bits(a.0.pos[2]).total_cmp(&f32::from_bits(b.0.pos[2])))
    });
    let expected: Vec<SplatPoint> = expected.into_iter().map(|e| e.0).collect();
    assert_eq!(sorted, expected);
}

#[test]
fn empty_input_gives_empty_output() {
    assert!(ply_to_splat(Vec::new(), true).is_empty());
    assert!(ply_to_splat(Vec::new(), false).is_empty());
}
