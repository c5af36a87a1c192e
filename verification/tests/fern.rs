use barnsley_fern::color::Color;
use barnsley_fern::encode::encode;
use barnsley_fern::fern::{
    draw_leaf, random_draws, select_transform, select_transforms, Affine, Pixel, Transform,
    DRAW_RANGE, OPPOSITE_LEAFLET_LIMIT, SMALL_LEAFLET_LIMIT, STEM_LIMIT,
};
use barnsley_fern::raster::{fill_background, Raster};

const BACKGROUND: Color = Color { red: 0x21, green: 0x20, blue: 0x1D };
const LEAF: Color = Color { red: 0x26, green: 0xBB, blue: 0xB8 };

fn walk(transforms: &[Transform], width: usize, height: usize) -> Vec<Pixel> {
    let w = width as f64;
    let h = height as f64;
    let mut x = 0f64;
    let mut y = 0f64;
    let mut pixels = Vec::new();
    for transform in transforms {
        let a = transform.coefficients();
        let cx = f64::from(a.xx) / 100. * x + f64::from(a.xy) / 100. * y;
        let cy = f64::from(a.yx) / 100. * x + f64::from(a.yy) / 100. * y + f64::from(a.dy) / 100.;
        x = cx;
        y = cy;
        let col = (w / 2. + x * w / 11.).round();
        let row = (h - y * h / 11.).round();
        pixels.push(Pixel { row: row as i64, col: col as i64 });
    }
    pixels
}

fn generate(draws: &Vec<u32>, width: usize, height: usize) -> Raster {
    let mut image = Raster::create(width, height).unwrap();
    fill_background(&mut image, BACKGROUND);
    let transforms = select_transforms(draws);
    let pixels = walk(&transforms, width, height);
    draw_leaf(&mut image, &pixels, LEAF);
    image
}

fn count_cells(image: &Raster, color: Color) -> usize {
    let mut n = 0;
    for row in 0..image.height() {
        for col in 0..image.width() {
            if image.get(row, col) == Some(color) {
                n += 1;
            }
        }
    }
    n
}

fn scrambled(count: usize, seed: u64) -> Vec<u32> {
    let mut state = seed;
    let mut draws = Vec::new();
    for _ in 0..count {
        state = state.wrapping_mul(6364136223846793005).wrapping_add(1442695040888963407);
        draws.push((state >> 40) as u32);
    }
    draws
}

#[test]
fn the_limits_are_the_documented_hundredths() {
    assert_eq!(DRAW_RANGE, 1 << 24);
    assert_eq!(STEM_LIMIT, 1);
    assert_eq!(SMALL_LEAFLET_LIMIT, 8);
    assert_eq!(OPPOSITE_LEAFLET_LIMIT, 15);
}

#[test]
fn select_transform_changes_exactly_at_the_limits() {
    assert_eq!(select_transform(0), Transform::Stem);
    assert_eq!(select_transform(167_772), Transform::Stem);
    assert_eq!(select_transform(167_773), Transform::SmallLeaflet);
    assert_eq!(select_transform(1_342_177), Transform::SmallLeaflet);
    assert_eq!(select_transform(1_342_178), Transform::OppositeLeaflet);
    assert_eq!(select_transform(2_516_582), Transform::OppositeLeaflet);
    assert_eq!(select_transform(2_516_583), Transform::SuccessiveLeaflet);
    assert_eq!(select_transform(DRAW_RANGE - 1), Transform::SuccessiveLeaflet);
    assert_eq!(select_transform(u32::MAX), Transform::SuccessiveLeaflet);
}

#[test]
fn select_transform_agrees_with_the_comparison_of_fractions() {
    for draw in scrambled(20_000, 5).into_iter().chain([167_772, 167_773, 1_342_177, 1_342_178, 2_516_582, 2_516_583]) {
        let r = draw as f32 / DRAW_RANGE as f32;
        let expected = if r <= 0.01 {
            Transform::Stem
        } else if r <= 0.08 {
            Transform::SmallLeaflet
        } else if r <= 0.15 {
            Transform::OppositeLeaflet
        } else {
            Transform::SuccessiveLeaflet
        };
        assert_eq!(select_transform(draw), expected);
    }
}

#[test]
fn select_transforms_selects_for_each_draw_in_order() {
    let draws = vec![0, 2_000_000, 16_000_000, 500_000, 167_773];
    assert_eq!(
        select_transforms(&draws),
        vec![
            Transform::Stem,
            Transform::OppositeLeaflet,
            Transform::SuccessiveLeaflet,
            Transform::SmallLeaflet,
            Transform::SmallLeaflet,
        ]
    );
    assert_eq!(select_transforms(&Vec::new()), Vec::new());
}

#[test]
fn the_coefficients_are_those_of_the_four_maps() {
    assert_eq!(Transform::Stem.coefficients(), Affine { xx: 0, xy: 0, yx: 0, yy: 16, dy: 0 });
    assert_eq!(
        Transform::SmallLeaflet.coefficients(),
        Affine { xx: 20, xy: -26, yx: 23, yy: 22, dy: 160 }
    );
    assert_eq!(
        Transform::OppositeLeaflet.coefficients(),
        Affine { xx: -15, xy: 28, yx: 26, yy: 26, dy: 44 }
    );
    assert_eq!(
        Transform::SuccessiveLeaflet.coefficients(),
        Affine { xx: 85, xy: 4, yx: -4, yy: 85, dy: 160 }
    );
}

#[test]
fn the_coefficients_in_hundredths_are_the_decimal_fractions() {
    assert_eq!(16f64 / 100., 0.16);
    assert_eq!(20f64 / 100., 0.2);
    assert_eq!(-26f64 / 100., -0.26);
    assert_eq!(23f64 / 100., 0.23);
    assert_eq!(22f64 / 100., 0.22);
    assert_eq!(160f64 / 100., 1.6);
    assert_eq!(-15f64 / 100., -0.15);
    assert_eq!(28f64 / 100., 0.28);
    assert_eq!(26f64 / 100., 0.26);
    assert_eq!(44f64 / 100., 0.44);
    assert_eq!(85f64 / 100., 0.85);
    assert_eq!(4f64 / 100., 0.04);
    assert_eq!(-4f64 / 100., -0.04);
}

#[test]
fn random_draws_gives_the_asked_number_of_draws_below_the_range() {
    assert_eq!(random_draws(0), Vec::new());
    let draws = random_draws(10_000);
    assert_eq!(draws.len(), 10_000);
    assert!(draws.iter().all(|&draw| draw < DRAW_RANGE));
    assert!(draws.iter().any(|&draw| draw != draws[0]));
}

#[test]
fn random_selections_come_in_the_documented_shares() {
    let transforms = select_transforms(&random_draws(200_000));
    let share = |t: Transform| {
        transforms.iter().filter(|&&chosen| chosen == t).count() as f64 / 200_000.
    };
    assert!((share(Transform::Stem) - 0.01).abs() < 0.01);
    assert!((share(Transform::SmallLeaflet) - 0.07).abs() < 0.01);
    assert!((share(Transform::OppositeLeaflet) - 0.07).abs() < 0.01);
    assert!((share(Transform::SuccessiveLeaflet) - 0.85).abs() < 0.01);
}

#[test]
fn the_draws_of_the_whole_range_divide_into_the_documented_shares() {
    let mut counts = [0u32; 4];
    for draw in 0..DRAW_RANGE {
        match select_transform(draw) {
            Transform::Stem => counts[0] += 1,
            Transform::SmallLeaflet => counts[1] += 1,
            Transform::OppositeLeaflet => counts[2] += 1,
            Transform::SuccessiveLeaflet => counts[3] += 1,
        }
    }
    assert_eq!(counts, [167_773, 1_174_405, 1_174_405, 14_260_633]);
}

#[test]
fn the_same_draws_give_the_same_raster() {
    let draws = scrambled(50_000, 42);
    let first = generate(&draws, 192, 108);
    let second = generate(&draws, 192, 108);
    assert_eq!(encode(&first), encode(&second));
    assert!(count_cells(&first, LEAF) > 1000);
    assert_eq!(count_cells(&first, LEAF) + count_cells(&first, BACKGROUND), 192 * 108);
}

#[test]
fn no_step_leaves_the_background() {
    let image = generate(&Vec::new(), 100, 100);
    let mut plain = Raster::create(100, 100).unwrap();
    fill_background(&mut plain, BACKGROUND);
    assert_eq!(encode(&image), encode(&plain));
    assert_eq!(count_cells(&image, BACKGROUND), 10_000);
}

#[test]
fn one_step_on_the_stem_plots_the_bottom_of_the_middle_column() {
    let draws = vec![0];
    assert_eq!(select_transforms(&draws), vec![Transform::Stem]);
    let pixels = walk(&[Transform::Stem], 100, 100);
    assert_eq!(pixels, vec![Pixel { row: 100, col: 50 }]);
    let image = generate(&draws, 100, 100);
    assert_eq!(image.get(99, 50), Some(LEAF));
    assert_eq!(count_cells(&image, LEAF), 1);
    assert_eq!(count_cells(&image, BACKGROUND), 9_999);
}

#[test]
fn a_pixel_one_past_the_right_edge_is_clipped() {
    let mut image = Raster::create(100, 100).unwrap();
    fill_background(&mut image, BACKGROUND);
    draw_leaf(&mut image, &vec![Pixel { row: 40, col: 100 }], LEAF);
    assert_eq!(image.get(40, 99), Some(LEAF));
    assert_eq!(image.get(41, 0), Some(BACKGROUND));
    assert_eq!(count_cells(&image, LEAF), 1);
    assert_eq!(count_cells(&image, BACKGROUND), 9_999);
    assert_eq!(image.width(), 100);
    assert_eq!(image.height(), 100);
}

#[test]
fn draw_leaf_plots_every_pixel_whatever_the_order() {
    let pixels = vec![
        Pixel { row: 0, col: 0 },
        Pixel { row: 2, col: 3 },
        Pixel { row: -7, col: 9 },
        Pixel { row: 2, col: 3 },
        Pixel { row: 5, col: 1 },
    ];
    let mut forward = Raster::create(4, 3).unwrap();
    draw_leaf(&mut forward, &pixels, LEAF);
    let mut reversed = pixels.clone();
    reversed.reverse();
    let mut backward = Raster::create(4, 3).unwrap();
    draw_leaf(&mut backward, &reversed, LEAF);
    assert_eq!(encode(&forward), encode(&backward));
    assert_eq!(forward.get(0, 0), Some(LEAF));
    assert_eq!(forward.get(2, 3), Some(LEAF));
    assert_eq!(forward.get(0, 3), Some(LEAF));
    assert_eq!(forward.get(2, 1), Some(LEAF));
    assert_eq!(count_cells(&forward, LEAF), 4);
}

#[test]
fn the_default_run_stays_inside_the_raster_but_for_the_bottom_row() {
    let transforms = select_transforms(&scrambled(200_000, 7));
    let pixels = walk(&transforms, 1920, 1080);
    assert!(pixels.iter().all(|p| 0 <= p.col && p.col < 1920 && 0 <= p.row && p.row <= 1080));
}
