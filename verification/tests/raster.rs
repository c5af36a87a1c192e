use barnsley_fern::color::Color;
use barnsley_fern::config::ConfigError;
use barnsley_fern::raster::{clip_index, fill_background, Raster};

fn count_cells(image: &Raster, color: Color) -> usize {
    let mut n = 0;
    for row in 0..image.height() {
        for col in 0..image.width() {
            if image.get(row, col) == Some(color) {
                n += 1;
            }
        }
    }
    n
}

#[test]
fn create_gives_black_cells_of_the_asked_dimensions() {
    let image = Raster::create(7, 4).unwrap();
    assert_eq!(image.width(), 7);
    assert_eq!(image.height(), 4);
    assert_eq!(count_cells(&image, Color { red: 0, green: 0, blue: 0 }), 28);
    assert_eq!(Color::black(), Color { red: 0, green: 0, blue: 0 });
}

#[test]
fn create_refuses_a_zero_width() {
    assert!(matches!(Raster::create(0, 5), Err(ConfigError::ZeroWidth)));
    assert!(matches!(Raster::create(0, 0), Err(ConfigError::ZeroWidth)));
}

#[test]
fn create_refuses_a_zero_height() {
    assert!(matches!(Raster::create(5, 0), Err(ConfigError::ZeroHeight)));
}

#[test]
fn create_then_fill_sets_every_cell() {
    let color = Color { red: 0x21, green: 0x20, blue: 0x1D };
    for (width, height) in [(1, 1), (1, 9), (9, 1), (16, 12), (100, 100)] {
        let mut image = Raster::create(width, height).unwrap();
        image.fill(color);
        assert_eq!(image.width(), width);
        assert_eq!(image.height(), height);
        assert_eq!(count_cells(&image, color), width * height);
    }
}

#[test]
fn fill_background_sets_every_cell() {
    let color = Color { red: 1, green: 2, blue: 3 };
    let mut image = Raster::create(5, 3).unwrap();
    image.plot(1, 1, Color { red: 9, green: 9, blue: 9 });
    fill_background(&mut image, color);
    assert_eq!(image.width(), 5);
    assert_eq!(image.height(), 3);
    assert_eq!(count_cells(&image, color), 15);
}

#[test]
fn get_outside_the_raster_is_none() {
    let image = Raster::create(3, 2).unwrap();
    assert_eq!(image.get(2, 0), None);
    assert_eq!(image.get(0, 3), None);
    assert_eq!(image.get(usize::MAX, usize::MAX), None);
    assert_eq!(image.get(1, 2), Some(Color { red: 0, green: 0, blue: 0 }));
}

#[test]
fn plot_inside_sets_that_cell_only() {
    let ink = Color { red: 5, green: 6, blue: 7 };
    let mut image = Raster::create(4, 3).unwrap();
    image.plot(2, 1, ink);
    assert_eq!(image.get(2, 1), Some(ink));
    assert_eq!(count_cells(&image, ink), 1);
    assert_eq!(count_cells(&image, Color { red: 0, green: 0, blue: 0 }), 11);
}

#[test]
fn plot_one_past_the_right_edge_goes_to_the_last_column() {
    let ink = Color { red: 5, green: 6, blue: 7 };
    let mut image = Raster::create(4, 3).unwrap();
    image.plot(1, 4, ink);
    assert_eq!(image.get(1, 3), Some(ink));
    assert_eq!(count_cells(&image, ink), 1);
    assert_eq!(image.width(), 4);
    assert_eq!(image.height(), 3);
}

#[test]
fn plot_far_outside_goes_to_the_nearest_corner() {
    let ink = Color { red: 5, green: 6, blue: 7 };
    let mut image = Raster::create(4, 3).unwrap();
    image.plot(i64::MIN, i64::MAX, ink);
    assert_eq!(image.get(0, 3), Some(ink));
    image.plot(i64::MAX, i64::MIN, ink);
    assert_eq!(image.get(2, 0), Some(ink));
    image.plot(-1, -1, ink);
    assert_eq!(image.get(0, 0), Some(ink));
    image.plot(3, 4, ink);
    assert_eq!(image.get(2, 3), Some(ink));
    assert_eq!(count_cells(&image, ink), 4);
}

#[test]
fn a_later_plot_replaces_an_earlier_one() {
    let first = Color { red: 1, green: 1, blue: 1 };
    let second = Color { red: 2, green: 2, blue: 2 };
    let mut image = Raster::create(2, 2).unwrap();
    image.plot(1, 0, first);
    image.plot(1, 0, second);
    assert_eq!(image.get(1, 0), Some(second));
    assert_eq!(count_cells(&image, first), 0);
}

#[test]
fn clip_index_picks_the_nearest_index() {
    assert_eq!(clip_index(-1, 10), 0);
    assert_eq!(clip_index(0, 10), 0);
    assert_eq!(clip_index(9, 10), 9);
    assert_eq!(clip_index(10, 10), 9);
    assert_eq!(clip_index(i64::MAX, 10), 9);
    assert_eq!(clip_index(i64::MIN, 10), 0);
    assert_eq!(clip_index(5, 1), 0);
}
