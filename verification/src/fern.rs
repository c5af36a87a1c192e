//! The fern's iterated function system: the four affine maps, the choice among
//! them by a uniform draw, and the plotting of the points that the walk visits.

use vstd::prelude::*;
use vstd::set_lib::*;
use crate::color::Color;
use crate::raster::{clip, Raster};

verus! {

/// The number of equally likely draws. A draw `d` stands for the fraction
/// `d / DRAW_RANGE`, a value in the half-open interval from 0 to 1.
pub const DRAW_RANGE: u32 = 0x100_0000;

/// A draw of at most this many hundredths selects the stem.
pub const STEM_LIMIT: u32 = 1;

/// A draw above the stem's limit and of at most this many hundredths selects
/// the smallest leaflet.
pub const SMALL_LEAFLET_LIMIT: u32 = 8;

/// A draw above the smallest leaflet's limit and of at most this many
/// hundredths selects the opposite leaflet.
pub const OPPOSITE_LEAFLET_LIMIT: u32 = 15;

/// One of the four affine maps of the fern.
#[derive(Clone, Copy, Debug, PartialEq, Eq, Structural)]
pub enum Transform {
    /// The stem.
    Stem,
    /// The smallest leaflet.
    SmallLeaflet,
    /// The leaflet on the opposite side.
    OppositeLeaflet,
    /// The successively smaller leaflets.
    SuccessiveLeaflet,
}

/// An affine map of the plane, its coefficients in hundredths: a point
/// `(x, y)` goes to `(xx·x + xy·y, yx·x + yy·y + dy)`, each coefficient
/// divided by one hundred.
#[derive(Clone, Copy, Debug, PartialEq, Eq, Structural)]
pub struct Affine {
    pub xx: i32,
    pub xy: i32,
    pub yx: i32,
    pub yy: i32,
    pub dy: i32,
}

/// A point of the walk in raster coordinates, before any clipping.
#[derive(Clone, Copy, Debug, PartialEq, Eq, Structural)]
pub struct Pixel {
    pub row: i64,
    pub col: i64,
}

/// Whether the fraction that `draw` stands for is at most `percent` hundredths.
pub open spec fn within_percent(draw: u32, percent: u32) -> bool {
    100 * draw <= percent * DRAW_RANGE
}

/// The map that a draw selects.
pub open spec fn branch_of(draw: u32) -> Transform {
    if within_percent(draw, STEM_LIMIT) {
        Transform::Stem
    } else if within_percent(draw, SMALL_LEAFLET_LIMIT) {
        Transform::SmallLeaflet
    } else if within_percent(draw, OPPOSITE_LEAFLET_LIMIT) {
        Transform::OppositeLeaflet
    } else {
        Transform::SuccessiveLeaflet
    }
}

/// The maps that a sequence of draws selects, one for each draw, in order.
pub open spec fn branches_of(draws: Seq<u32>) -> Seq<Transform> {
    Seq::new(draws.len(), |i: int| branch_of(draws[i]))
}

impl Transform {
    /// The coefficients of each map.
    pub open spec fn spec_coefficients(self) -> Affine {
        match self {
            Transform::Stem => Affine { xx: 0, xy: 0, yx: 0, yy: 16, dy: 0 },
            Transform::SmallLeaflet => Affine { xx: 20, xy: -26i32, yx: 23, yy: 22, dy: 160 },
            Transform::OppositeLeaflet => Affine { xx: -15i32, xy: 28, yx: 26, yy: 26, dy: 44 },
            Transform::SuccessiveLeaflet => Affine { xx: 85, xy: 4, yx: -4i32, yy: 85, dy: 160 },
        }
    }

    /// The share of the draws, in hundredths, that the map is meant to get.
    pub open spec fn percent(self) -> int {
        match self {
            Transform::Stem => 1,
            Transform::SmallLeaflet => 7,
            Transform::OppositeLeaflet => 7,
            Transform::SuccessiveLeaflet => 85,
        }
    }

    /// The coefficients of this map, in hundredths.
    pub fn coefficients(self) -> (a: Affine)
        ensures
            a == self.spec_coefficients(),
    {
        match self {
            Transform::Stem => Affine { xx: 0, xy: 0, yx: 0, yy: 16, dy: 0 },
            Transform::SmallLeaflet => Affine { xx: 20, xy: -26, yx: 23, yy: 22, dy: 160 },
            Transform::OppositeLeaflet => Affine { xx: -15, xy: 28, yx: 26, yy: 26, dy: 44 },
            Transform::SuccessiveLeaflet => Affine { xx: 85, xy: 4, yx: -4, yy: 85, dy: 160 },
        }
    }
}

/// Whether `draw` stands for a fraction of at most `percent` hundredths.
fn is_within_percent(draw: u32, percent: u32) -> (within: bool)
    ensures
        within == within_percent(draw, percent),
{
    let scaled: u64 = 100u64 * (draw as u64);
    let range: u64 = DRAW_RANGE as u64;
    assert(range == 0x100_0000);
    let limit: u64 = (percent as u64) * range;
    scaled <= limit
}

/// Selects the map for one draw.
pub fn select_transform(draw: u32) -> (t: Transform)
    ensures
        t == branch_of(draw),
{
    if is_within_percent(draw, STEM_LIMIT) {
        Transform::Stem
    } else if is_within_percent(draw, SMALL_LEAFLET_LIMIT) {
        Transform::SmallLeaflet
    } else if is_within_percent(draw, OPPOSITE_LEAFLET_LIMIT) {
        Transform::OppositeLeaflet
    } else {
        Transform::SuccessiveLeaflet
    }
}

/// Selects the map for each draw of a sequence, in order.
pub fn select_transforms(draws: &Vec<u32>) -> (chosen: Vec<Transform>)
    ensures
        chosen@ == branches_of(draws@),
{
    let mut chosen: Vec<Transform> = Vec::new();
    let mut i: usize = 0;
    while i < draws.len()
        invariant
            i <= draws@.len(),
            chosen@.len() == i,
            forall|k: int| 0 <= k < i ==> chosen@[k] == branch_of(draws@[k]),
        decreases draws@.len() - i,
    {
        chosen.push(select_transform(draws[i]));
        i += 1;
    }
    assert(chosen@ =~= branches_of(draws@));
    chosen
}

/// The generator of the calling thread, as the `rand` crate keeps it.
#[verifier::external_type_specification]
#[verifier::external_body]
pub struct ExThreadRng(rand::rngs::ThreadRng);

/// `rand::thread_rng`: hands out the calling thread's generator, seeded by the
/// system. Nothing is claimed of it.
#[verifier::external_body]
fn thread_generator() -> rand::rngs::ThreadRng {
    rand::thread_rng()
}

/// `rand::Rng::gen_range` on the half-open range from zero to `bound`: the
/// value drawn lies in that range. An empty range is left out, since the call
/// panics on one.
#[verifier::external_body]
fn draw_below(generator: &mut rand::rngs::ThreadRng, bound: u32) -> (draw: u32)
    requires
        bound > 0,
    ensures
        draw < bound,
{
    rand::Rng::gen_range(generator, 0..bound)
}

/// Takes `count` draws from the calling thread's generator. Which draws come
/// is left to chance: each lies below `DRAW_RANGE`.
pub fn random_draws(count: usize) -> (draws: Vec<u32>)
    ensures
        draws@.len() == count,
        forall|i: int| 0 <= i < count ==> draws@[i] < DRAW_RANGE,
{
    let mut generator = thread_generator();
    let mut draws: Vec<u32> = Vec::new();
    let mut i: usize = 0;
    while i < count
        invariant
            i <= count,
            draws@.len() == i,
            forall|k: int| 0 <= k < i ==> draws@[k] < DRAW_RANGE,
        decreases count - i,
    {
        let draw: u32 = draw_below(&mut generator, DRAW_RANGE);
        draws.push(draw);
        i += 1;
    }
    draws
}

/// Whether `pixel`, clipped to a raster of the given dimensions, is the cell at
/// `row` and `col`.
pub open spec fn lands_on(pixel: Pixel, width: int, height: int, row: int, col: int) -> bool {
    clip(pixel.row as int, height) == row && clip(pixel.col as int, width) == col
}

/// Whether one of `pixels` lands on the cell at `row` and `col`.
pub open spec fn is_hit(pixels: Seq<Pixel>, width: int, height: int, row: int, col: int) -> bool {
    exists|i: int| 0 <= i < pixels.len() && lands_on(#[trigger] pixels[i], width, height, row, col)
}

/// The grid after plotting: a cell that one of `pixels` lands on holds `color`,
/// every other cell holds what it held before.
pub open spec fn drawn(before: Seq<Seq<Color>>, pixels: Seq<Pixel>, color: Color) -> Seq<
    Seq<Color>,
> {
    Seq::new(
        before.len(),
        |r: int|
            Seq::new(
                before[r].len(),
                |c: int|
                    if is_hit(pixels, before[0].len() as int, before.len() as int, r, c) {
                        color
                    } else {
                        before[r][c]
                    },
            ),
    )
}

/// Plots each of `pixels` into `image` in `color`. A pixel outside the raster
/// goes to the nearest cell inside it; a later plot on a cell replaces an
/// earlier one.
pub fn draw_leaf(image: &mut Raster, pixels: &Vec<Pixel>, color: Color)
    ensures
        final(image).spec_width() == old(image).spec_width(),
        final(image).spec_height() == old(image).spec_height(),
        final(image)@ == drawn(old(image)@, pixels@, color),
{
    let ghost width: int = image.spec_width() as int;
    let ghost height: int = image.spec_height() as int;
    let w: usize = image.width();
    let h: usize = image.height();
    assert(image@ =~~= drawn(old(image)@, pixels@.take(0), color));
    let mut i: usize = 0;
    while i < pixels.len()
        invariant
            i <= pixels@.len(),
            width > 0,
            height > 0,
            image.spec_width() == width,
            image.spec_height() == height,
            old(image).spec_width() == width,
            old(image).spec_height() == height,
            image@ == drawn(old(image)@, pixels@.take(i as int), color),
        decreases pixels@.len() - i,
    {
        let pixel: Pixel = pixels[i];
        let ghost before = image@;
        image.plot(pixel.row, pixel.col, color);
        proof {
            let done = pixels@.take(i as int);
            let next = pixels@.take(i + 1);
            let pr = clip(pixel.row as int, height);
            let pc = clip(pixel.col as int, width);
            assert(next[i as int] == pixel);
            assert forall|r: int, c: int| 0 <= r < height && 0 <= c < width implies is_hit(
                next,
                width,
                height,
                r,
                c,
            ) == (is_hit(done, width, height, r, c) || (r == pr && c == pc)) by {
                if is_hit(done, width, height, r, c) {
                    let k = choose|k: int|
                        0 <= k < done.len() && lands_on(#[trigger] done[k], width, height, r, c);
                    assert(next[k] == done[k]);
                }
                if r == pr && c == pc {
                    assert(lands_on(next[i as int], width, height, r, c));
                }
                if is_hit(next, width, height, r, c) {
                    let k = choose|k: int|
                        0 <= k < next.len() && lands_on(#[trigger] next[k], width, height, r, c);
                    if k < i {
                        assert(done[k] == next[k]);
                    }
                }
            }
            assert(image@ =~~= drawn(old(image)@, next, color));
        }
        i += 1;
    }
    assert(pixels@.take(pixels@.len() as int) =~= pixels@);
}

/// With no pixel to plot the grid stays as it was.
pub proof fn lemma_nothing_drawn(before: Seq<Seq<Color>>, color: Color)
    ensures
        drawn(before, Seq::<Pixel>::empty(), color) == before,
{
    assert(drawn(before, Seq::<Pixel>::empty(), color) =~~= before);
}

/// What is drawn depends only on which cells are hit: two sequences of pixels
/// that land on the same cells, in whatever order and however often, give the
/// same grid.
pub proof fn lemma_drawn_by_cells(
    before: Seq<Seq<Color>>,
    first: Seq<Pixel>,
    second: Seq<Pixel>,
    color: Color,
)
    requires
        forall|r: int, c: int|
            is_hit(first, before[0].len() as int, before.len() as int, r, c) == is_hit(
                second,
                before[0].len() as int,
                before.len() as int,
                r,
                c,
            ),
    ensures
        drawn(before, first, color) == drawn(before, second, color),
{
    assert(drawn(before, first, color) =~~= drawn(before, second, color));
}

/// A run can be repeated: draws that agree one by one select the same maps,
/// and pixels that agree one by one, plotted in one colour on one grid, give
/// the same grid.
pub proof fn lemma_repeatable(
    first_draws: Seq<u32>,
    second_draws: Seq<u32>,
    before: Seq<Seq<Color>>,
    first_pixels: Seq<Pixel>,
    second_pixels: Seq<Pixel>,
    color: Color,
)
    requires
        first_draws.len() == second_draws.len(),
        forall|i: int| 0 <= i < first_draws.len() ==> first_draws[i] == second_draws[i],
        first_pixels.len() == second_pixels.len(),
        forall|i: int| 0 <= i < first_pixels.len() ==> first_pixels[i] == second_pixels[i],
    ensures
        branches_of(first_draws) == branches_of(second_draws),
        drawn(before, first_pixels, color) == drawn(before, second_pixels, color),
{
    assert(first_draws =~= second_draws);
    assert(first_pixels =~= second_pixels);
}

/// The draws below `DRAW_RANGE` that select `t`.
pub open spec fn draws_for(t: Transform) -> Set<int> {
    Set::new(|d: int| 0 <= d < DRAW_RANGE && branch_of(d as u32) == t)
}

/// Of the `DRAW_RANGE` equally likely draws, the number that selects each map
/// is its share in hundredths to within one draw: one, seven, seven and
/// eighty-five hundredths.
pub proof fn lemma_branch_shares(t: Transform)
    ensures
        draws_for(t).finite(),
        -100 < 100 * draws_for(t).len() - t.percent() * DRAW_RANGE < 100,
{
    match t {
        Transform::Stem => {
            assert(draws_for(t) =~= set_int_range(0, 167_773));
            lemma_int_range(0, 167_773);
        },
        Transform::SmallLeaflet => {
            assert(draws_for(t) =~= set_int_range(167_773, 1_342_178));
            lemma_int_range(167_773, 1_342_178);
        },
        Transform::OppositeLeaflet => {
            assert(draws_for(t) =~= set_int_range(1_342_178, 2_516_583));
            lemma_int_range(1_342_178, 2_516_583);
        },
        Transform::SuccessiveLeaflet => {
            assert(draws_for(t) =~= set_int_range(2_516_583, 0x100_0000));
            lemma_int_range(2_516_583, 0x100_0000);
        },
    }
}

} // verus!
