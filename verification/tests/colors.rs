use complot::color::{color_continuous, color_discrete, series_color, Gradient, Rgb};
use complot::colorbar::{synthesize, Swatch};
use complot::normalize::ValueRange;
use complot::ratio::Ratio;

fn rgb(r: u8, g: u8, b: u8) -> Rgb {
    Rgb { r, g, b }
}

fn at(gradient: Gradient, num: i128, den: i128) -> Rgb {
    color_continuous(gradient, Some(Ratio { num, den }))
}

#[test]
fn gradient_endpoints() {
    assert_eq!(at(Gradient::Viridis, 0, 1), rgb(68, 1, 84));
    assert_eq!(at(Gradient::Viridis, 1, 1), rgb(253, 231, 37));
    assert_eq!(at(Gradient::Cividis, 0, 1), rgb(0, 32, 81));
    assert_eq!(at(Gradient::Cividis, 1, 1), rgb(253, 233, 69));
}

#[test]
fn gradient_inside_the_unit_interval() {
    assert_eq!(at(Gradient::Viridis, 1, 2), rgb(32, 144, 140));
    assert_eq!(at(Gradient::Viridis, 1, 3), rgb(48, 104, 142));
    assert_eq!(at(Gradient::Cividis, 1, 2), rgb(127, 123, 116));
    // The same position written with other numbers.
    assert_eq!(at(Gradient::Viridis, 2, 4), at(Gradient::Viridis, 1, 2));
    assert_eq!(at(Gradient::Cividis, 50, 100), at(Gradient::Cividis, 1, 2));
}

#[test]
fn values_outside_the_unit_interval_are_clamped() {
    for gradient in [Gradient::Viridis, Gradient::Cividis] {
        let start = at(gradient, 0, 1);
        let end = at(gradient, 1, 1);
        assert_ne!(start, end);
        assert_eq!(at(gradient, -1, 4), start);
        assert_eq!(at(gradient, -1_000_000, 3), start);
        assert_eq!(at(gradient, 0, 977), start);
        assert_eq!(at(gradient, 5, 4), end);
        assert_eq!(at(gradient, 977, 977), end);
        assert_eq!(at(gradient, i128::MAX, 2), end);
        assert_eq!(at(gradient, i128::MIN, 2), start);
    }
}

#[test]
fn missing_value_is_black() {
    assert_eq!(color_continuous(Gradient::Viridis, None), rgb(0, 0, 0));
    assert_eq!(color_continuous(Gradient::Cividis, None), rgb(0, 0, 0));
}

#[test]
fn coarse_and_fine_positions_agree() {
    // A denominator above the grid limit is halved until it is below; the
    // position stays one half.
    let big: i128 = 1 << 40;
    assert_eq!(at(Gradient::Viridis, big / 2, big), at(Gradient::Viridis, 1, 2));
    let huge: i128 = i128::MAX;
    assert_eq!(at(Gradient::Cividis, huge / 2, huge), at(Gradient::Cividis, 1, 2));
    // Just below the limit nothing is halved.
    let limit: i128 = (1 << 31) - 1;
    assert_eq!(at(Gradient::Viridis, limit - 1, limit), at(Gradient::Viridis, 1, 1));
}

#[test]
fn discrete_colors_sample_the_gradient_evenly() {
    assert_eq!(color_discrete(Gradient::Viridis, 0, 5), rgb(68, 1, 84));
    assert_eq!(color_discrete(Gradient::Viridis, 1, 5), rgb(58, 81, 139));
    assert_eq!(color_discrete(Gradient::Viridis, 4, 5), rgb(253, 231, 37));
    assert_eq!(color_discrete(Gradient::Cividis, 0, 5), rgb(0, 32, 81));
    assert_eq!(color_discrete(Gradient::Cividis, 1, 5), rgb(60, 77, 109));
    assert_eq!(color_discrete(Gradient::Cividis, 4, 5), rgb(253, 233, 69));
    for k in 0..5usize {
        assert_eq!(
            color_discrete(Gradient::Viridis, k, 5),
            at(Gradient::Viridis, k as i128, 4)
        );
    }
}

#[test]
fn palette_repeats_after_ten_colors() {
    let palette = [
        rgb(0x4e, 0x79, 0xa7),
        rgb(0xf2, 0x8e, 0x2c),
        rgb(0xe1, 0x57, 0x59),
        rgb(0x76, 0xb7, 0xb2),
        rgb(0x59, 0xa1, 0x4f),
        rgb(0xed, 0xc9, 0x49),
        rgb(0xaf, 0x7a, 0xa1),
        rgb(0xff, 0x9d, 0xa7),
        rgb(0x9c, 0x75, 0x5f),
        rgb(0xba, 0xb0, 0xab),
    ];
    for k in 0..35usize {
        assert_eq!(series_color(k), palette[k % 10]);
    }
    assert_eq!(series_color(usize::MAX), palette[usize::MAX % 10]);
}

#[test]
fn colorbar_of_five_swatches() {
    let range = ValueRange { min: 667, max: 1333 };
    let strip = synthesize(range, Gradient::Cividis, 5);
    assert_eq!(strip.len(), 5);
    // Swatch k begins at 667 + k * 666 / 4, written over 4.
    for (k, swatch) in strip.iter().enumerate() {
        let k = k as i128;
        assert_eq!(swatch.x0, Ratio { num: 667 * 4 + k * 666, den: 4 });
        assert_eq!(swatch.x1, Ratio { num: 667 * 4 + (k + 1) * 666, den: 4 });
    }
    assert_eq!(strip[0].x0.num, 667 * 4);
    assert_eq!(strip[4].x0.num, 1333 * 4);
    assert_eq!(strip[0].color, color_discrete(Gradient::Cividis, 0, 5));
    assert_eq!(strip[4].color, color_discrete(Gradient::Cividis, 4, 5));
    assert_eq!(strip[0].color, at(Gradient::Cividis, 0, 4));
    assert_eq!(strip[2].color, at(Gradient::Cividis, 2, 4));
    assert_eq!(strip[4].color, at(Gradient::Cividis, 4, 4));
}

#[test]
fn colorbar_swatches_are_adjacent() {
    let range = ValueRange { min: -10, max: 30 };
    let strip = synthesize(range, Gradient::Viridis, 768);
    assert_eq!(strip.len(), 768);
    for k in 0..767 {
        assert_eq!(strip[k].x1, strip[k + 1].x0);
    }
    assert_eq!(strip[0].x0, Ratio { num: -10 * 767, den: 767 });
    assert_eq!(strip[767].x0, Ratio { num: 30 * 767, den: 767 });
    assert_eq!(strip[767].x1, Ratio { num: 30 * 767 + 40, den: 767 });
    assert_eq!(strip[0].color, rgb(68, 1, 84));
    assert_eq!(strip[767].color, rgb(253, 231, 37));
}

#[test]
fn colorbar_of_two_swatches() {
    let strip = synthesize(ValueRange { min: 3, max: 3 }, Gradient::Viridis, 2);
    assert_eq!(
        strip,
        vec![
            Swatch {
                x0: Ratio { num: 3, den: 1 },
                x1: Ratio { num: 3, den: 1 },
                color: rgb(68, 1, 84)
            },
            Swatch {
                x0: Ratio { num: 3, den: 1 },
                x1: Ratio { num: 3, den: 1 },
                color: rgb(253, 231, 37)
            },
        ]
    );
}

#[test]
fn colorbar_over_the_whole_sample_range() {
    let range = ValueRange { min: i32::MIN, max: i32::MAX };
    let strip = synthesize(range, Gradient::Viridis, 3);
    let width = (1i128 << 32) - 1;
    let min = i32::MIN as i128;
    assert_eq!(strip[0].x0, Ratio { num: min * 2, den: 2 });
    assert_eq!(strip[1].x0, Ratio { num: min * 2 + width, den: 2 });
    assert_eq!(strip[2].x0, Ratio { num: i32::MAX as i128 * 2, den: 2 });
    assert_eq!(strip[2].x1, Ratio { num: min * 2 + 3 * width, den: 2 });
}
