use palette::color_difference::ImprovedCiede2000;
use palette::{IntoColor, Srgb};
use recolor::color::{is_not_a_number, rank_of};
use recolor::matching::{can_be_ordered, index_of_smallest, measure_palette};
use recolor::{find_closest_color, Lab};

fn bits(l: f32, a: f32, b: f32) -> Lab {
    Lab::new(l.to_bits(), a.to_bits(), b.to_bits())
}

fn lab_of_rgb(red: u8, green: u8, blue: u8) -> Lab {
    let rgb: Srgb = Srgb::new(red, green, blue).into_format();
    let lab: palette::Lab = rgb.into_color();
    bits(lab.l, lab.a, lab.b)
}

fn numbers(c: Lab) -> palette::Lab {
    palette::Lab::new(f32::from_bits(c.l), f32::from_bits(c.a), f32::from_bits(c.b))
}

#[test]
fn rank_of_known_bit_patterns() {
    assert_eq!(rank_of(0), 0);
    assert_eq!(rank_of(0x8000_0000), 0);
    assert_eq!(rank_of(1.0f32.to_bits()), 0x3f80_0000);
    assert_eq!(rank_of((-1.0f32).to_bits()), -0x3f80_0000);
    assert_eq!(rank_of(f32::INFINITY.to_bits()), 0x7f80_0000);
    assert_eq!(rank_of(u32::MAX), -0x7fff_ffff);
}

#[test]
fn rank_orders_as_the_numbers_do() {
    let samples = [
        f32::NEG_INFINITY,
        -1.0e30,
        -2.5,
        -1.0,
        -1.0e-40,
        -0.0,
        0.0,
        1.0e-40,
        0.1,
        1.0,
        1.43,
        100.0,
        3.0e38,
        f32::INFINITY,
    ];
    for x in samples {
        for y in samples {
            let by_rank = rank_of(x.to_bits()) < rank_of(y.to_bits());
            assert_eq!(by_rank, x < y, "{x} against {y}");
            let same_rank = rank_of(x.to_bits()) == rank_of(y.to_bits());
            assert_eq!(same_rank, x == y, "{x} against {y}");
        }
    }
}

#[test]
fn nan_is_told_from_numbers() {
    assert!(is_not_a_number(f32::NAN.to_bits()));
    assert!(is_not_a_number(0x7f80_0001));
    assert!(is_not_a_number(0xffff_ffff));
    assert!(!is_not_a_number(f32::INFINITY.to_bits()));
    assert!(!is_not_a_number(f32::NEG_INFINITY.to_bits()));
    assert!(!is_not_a_number(0));
    assert!(!is_not_a_number(0x8000_0000));
    assert!(!is_not_a_number(12.5f32.to_bits()));
}

#[test]
fn smallest_is_found() {
    let distances: Vec<u32> = [4.0f32, 2.5, 9.0, 0.5, 3.0].iter().map(|d| d.to_bits()).collect();
    assert_eq!(index_of_smallest(&distances), 3);
}

#[test]
fn smallest_of_one_is_that_one() {
    assert_eq!(index_of_smallest(&vec![7.0f32.to_bits()]), 0);
    assert_eq!(index_of_smallest(&vec![f32::NAN.to_bits()]), 0);
}

#[test]
fn first_of_equal_smallest_wins() {
    let distances: Vec<u32> = [3.0f32, 1.0, 2.0, 1.0, 1.0].iter().map(|d| d.to_bits()).collect();
    assert_eq!(index_of_smallest(&distances), 1);
}

#[test]
fn both_zeros_are_equal() {
    let distances = vec![1.0f32.to_bits(), 0.0f32.to_bits(), (-0.0f32).to_bits()];
    assert_eq!(index_of_smallest(&distances), 1);
    let distances = vec![1.0f32.to_bits(), (-0.0f32).to_bits(), 0.0f32.to_bits()];
    assert_eq!(index_of_smallest(&distances), 1);
}

#[test]
fn negative_numbers_are_smaller() {
    let distances: Vec<u32> = [0.5f32, -0.25, -8.0, 2.0].iter().map(|d| d.to_bits()).collect();
    assert_eq!(index_of_smallest(&distances), 2);
}

#[test]
fn ordering_needs_numbers_only_among_several() {
    assert!(can_be_ordered(&vec![]));
    assert!(can_be_ordered(&vec![f32::NAN.to_bits()]));
    assert!(can_be_ordered(&vec![1.0f32.to_bits(), f32::INFINITY.to_bits()]));
    assert!(!can_be_ordered(&vec![1.0f32.to_bits(), f32::NAN.to_bits()]));
    assert!(!can_be_ordered(&vec![f32::NAN.to_bits(), 1.0f32.to_bits(), 2.0f32.to_bits()]));
}

#[test]
fn palette_is_measured_with_the_improved_difference() {
    let original = lab_of_rgb(200, 120, 40);
    let colors = [lab_of_rgb(255, 0, 0), lab_of_rgb(0, 0, 255), bits(50.0, 0.0, 0.0)];
    let measured = measure_palette(&original, &colors);
    assert_eq!(measured.len(), 3);
    for (i, color) in colors.iter().enumerate() {
        let expected = numbers(original).improved_difference(numbers(*color));
        assert_eq!(measured[i], expected.to_bits());
        assert!(expected > 0.0);
    }
}

#[test]
fn difference_is_taken_from_the_original_to_the_color() {
    let original = bits(50.0, 2.5, 0.0);
    let color = bits(73.0, 25.0, -18.0);
    let measured = measure_palette(&original, &[color]);
    let expected = numbers(original).improved_difference(numbers(color));
    assert_eq!(measured, vec![expected.to_bits()]);
    let itself = measure_palette(&original, &[original]);
    assert_eq!(f32::from_bits(itself[0]), 0.0);
}

#[test]
fn reddish_color_is_nearest_to_red() {
    let red = lab_of_rgb(255, 0, 0);
    let blue = lab_of_rgb(0, 0, 255);
    let colors = [red, blue];
    assert_eq!(find_closest_color(&lab_of_rgb(200, 40, 30), &colors), Some(&red));
    assert_eq!(find_closest_color(&lab_of_rgb(20, 30, 200), &colors), Some(&blue));
    let colors = [blue, red];
    assert_eq!(find_closest_color(&lab_of_rgb(200, 40, 30), &colors), Some(&red));
}

#[test]
fn nearest_agrees_with_a_search_by_numbers() {
    let colors = [
        lab_of_rgb(255, 0, 0),
        lab_of_rgb(0, 255, 0),
        lab_of_rgb(0, 0, 255),
        lab_of_rgb(255, 255, 0),
        lab_of_rgb(128, 128, 128),
    ];
    for red in [0u8, 60, 130, 255] {
        for green in [0u8, 90, 200] {
            for blue in [0u8, 45, 180, 255] {
                let original = lab_of_rgb(red, green, blue);
                let mut best = 0;
                for i in 1..colors.len() {
                    let d = numbers(original).improved_difference(numbers(colors[i]));
                    let least = numbers(original).improved_difference(numbers(colors[best]));
                    if d < least {
                        best = i;
                    }
                }
                assert_eq!(find_closest_color(&original, &colors), Some(&colors[best]));
            }
        }
    }
}

#[test]
fn equally_near_colors_give_the_first() {
    let color = bits(40.0, 10.0, 10.0);
    let twin_with_other_bits = bits(40.0, 10.0, 10.0);
    let colors = [bits(90.0, -60.0, 50.0), color, twin_with_other_bits];
    let found = find_closest_color(&bits(41.0, 9.0, 11.0), &colors).unwrap();
    assert!(std::ptr::eq(found, &colors[1]));
}

#[test]
fn single_color_is_always_nearest() {
    let only = [bits(f32::NAN, 1.0, 2.0)];
    assert_eq!(find_closest_color(&bits(10.0, 0.0, 0.0), &only), Some(&only[0]));
}

#[test]
fn nan_among_several_differences_leaves_nothing_nearest() {
    let colors = [bits(50.0, 0.0, 0.0), bits(f32::NAN, 0.0, 0.0)];
    assert_eq!(find_closest_color(&bits(10.0, 0.0, 0.0), &colors), None);
    let colors = [bits(50.0, f32::NAN, 0.0), bits(50.0, 0.0, 0.0), bits(20.0, 0.0, 0.0)];
    assert_eq!(find_closest_color(&bits(10.0, 0.0, 0.0), &colors), None);
}
