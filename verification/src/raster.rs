//! The raster: a rectangular grid of colours, addressed by row and column with
//! row 0 at the top.

use vstd::prelude::*;
use crate::color::Color;
use crate::config::ConfigError;

verus! {

/// A grid of `height` rows of `width` colours each. Both are positive and never
/// change once the raster is made.
pub struct Raster {
    width: usize,
    height: usize,
    rows: Vec<Vec<Color>>,
}

/// The grid of `height` rows and `width` columns that holds `color` everywhere.
pub open spec fn uniform_grid(width: nat, height: nat, color: Color) -> Seq<Seq<Color>> {
    Seq::new(height, |r: int| Seq::new(width, |c: int| color))
}

/// The nearest index in `0..len` to `index`. `len` is positive.
pub open spec fn clip(index: int, len: int) -> int {
    if index < 0 {
        0
    } else if index >= len {
        len - 1
    } else {
        index
    }
}

impl Raster {
    #[verifier::type_invariant]
    closed spec fn well_formed(self) -> bool {
        &&& self.width > 0
        &&& self.height > 0
        &&& self.rows@.len() == self.height
        &&& forall|r: int| 0 <= r < self.height ==> (#[trigger] self.rows@[r])@.len() == self.width
    }

    /// The number of columns.
    pub closed spec fn spec_width(self) -> nat {
        self.width as nat
    }

    /// The number of rows.
    pub closed spec fn spec_height(self) -> nat {
        self.height as nat
    }

    /// The colour at `row` and `col`.
    pub closed spec fn cell(self, row: int, col: int) -> Color {
        self.rows@[row]@[col]
    }

    /// The raster as a sequence of rows, top row first, each row from left to right.
    pub open spec fn view(self) -> Seq<Seq<Color>> {
        Seq::new(self.spec_height(), |r: int| Seq::new(self.spec_width(), |c: int| self.cell(r, c)))
    }

    /// Makes a raster of the given dimensions with every cell black. A zero
    /// width is reported before a zero height.
    pub fn create(width: usize, height: usize) -> (made: Result<Raster, ConfigError>)
        ensures
            width == 0 ==> made == Err::<Raster, ConfigError>(ConfigError::ZeroWidth),
            width > 0 && height == 0 ==> made == Err::<Raster, ConfigError>(ConfigError::ZeroHeight),
            width > 0 && height > 0 ==> made is Ok && made->Ok_0.spec_width() == width
                && made->Ok_0.spec_height() == height && made->Ok_0@ == uniform_grid(
                width as nat,
                height as nat,
                Color { red: 0, green: 0, blue: 0 },
            ),
    {
        if width == 0 {
            return Err(ConfigError::ZeroWidth);
        }
        if height == 0 {
            return Err(ConfigError::ZeroHeight);
        }
        let mut rows: Vec<Vec<Color>> = Vec::new();
        let mut r: usize = 0;
        while r < height
            invariant
                r <= height,
                rows@.len() == r,
                forall|i: int|
                    0 <= i < r ==> (#[trigger] rows@[i])@ == Seq::new(
                        width as nat,
                        |c: int| Color { red: 0, green: 0, blue: 0 },
                    ),
            decreases height - r,
        {
            let mut row: Vec<Color> = Vec::new();
            let mut c: usize = 0;
            while c < width
                invariant
                    c <= width,
                    row@.len() == c,
                    forall|j: int| 0 <= j < c ==> row@[j] == (Color { red: 0, green: 0, blue: 0 }),
                decreases width - c,
            {
                row.push(Color::black());
                c += 1;
            }
            assert(row@ =~= Seq::new(width as nat, |c: int| Color { red: 0, green: 0, blue: 0 }));
            rows.push(row);
            r += 1;
        }
        let made = Raster { width, height, rows };
        assert(made@ =~~= uniform_grid(
            width as nat,
            height as nat,
            Color { red: 0, green: 0, blue: 0 },
        ));
        Ok(made)
    }

    /// The number of columns, which is positive.
    pub fn width(&self) -> (w: usize)
        ensures
            w == self.spec_width(),
            w > 0,
    {
        proof {
            use_type_invariant(self);
        }
        self.width
    }

    /// The number of rows, which is positive.
    pub fn height(&self) -> (h: usize)
        ensures
            h == self.spec_height(),
            h > 0,
    {
        proof {
            use_type_invariant(self);
        }
        self.height
    }

    /// The colour at `row` and `col`, or `None` where that lies outside the raster.
    pub fn get(&self, row: usize, col: usize) -> (found: Option<Color>)
        ensures
            row < self.spec_height() && col < self.spec_width() ==> found == Some(
                self@[row as int][col as int],
            ),
            !(row < self.spec_height() && col < self.spec_width()) ==> found.is_none(),
    {
        proof {
            use_type_invariant(self);
        }
        if row < self.height && col < self.width {
            Some(self.rows[row][col])
        } else {
            None
        }
    }

    /// Overwrites every cell with `color`.
    pub fn fill(&mut self, color: Color)
        ensures
            final(self).spec_width() == old(self).spec_width(),
            final(self).spec_height() == old(self).spec_height(),
            final(self)@ == uniform_grid(old(self).spec_width(), old(self).spec_height(), color),
    {
        proof {
            use_type_invariant(&*self);
        }
        fill_rows(&mut self.rows, color);
        assert(self@ =~~= uniform_grid(old(self).spec_width(), old(self).spec_height(), color));
    }

    /// Sets the cell nearest to `row` and `col` to `color`: a coordinate below
    /// zero counts as zero, one past the last row or column as the last.
    pub fn plot(&mut self, row: i64, col: i64, color: Color)
        ensures
            final(self).spec_width() == old(self).spec_width(),
            final(self).spec_height() == old(self).spec_height(),
            final(self)@ == old(self)@.update(
                clip(row as int, old(self).spec_height() as int),
                old(self)@[clip(row as int, old(self).spec_height() as int)].update(
                    clip(col as int, old(self).spec_width() as int),
                    color,
                ),
            ),
    {
        proof {
            use_type_invariant(&*self);
        }
        let r: usize = clip_index(row, self.height);
        let c: usize = clip_index(col, self.width);
        set_cell(&mut self.rows, r, c, color);
        assert(self@ =~~= old(self)@.update(
            r as int,
            old(self)@[r as int].update(c as int, color),
        ));
    }
}

/// Sets one cell of a grid held as rows and leaves the rest as it was.
fn set_cell(rows: &mut Vec<Vec<Color>>, row: usize, col: usize, color: Color)
    requires
        row < old(rows)@.len(),
        col < old(rows)@[row as int]@.len(),
    ensures
        final(rows)@.len() == old(rows)@.len(),
        forall|i: int|
            0 <= i < old(rows)@.len() && i != row ==> (#[trigger] final(rows)@[i]) == old(rows)@[i],
        final(rows)@[row as int]@ == old(rows)@[row as int]@.update(col as int, color),
    no_unwind
{
    rows[row][col] = color;
}

/// Sets every cell of a grid held as rows to `color`; each row keeps its length.
fn fill_rows(rows: &mut Vec<Vec<Color>>, color: Color)
    ensures
        final(rows)@.len() == old(rows)@.len(),
        forall|i: int|
            0 <= i < old(rows)@.len() ==> (#[trigger] final(rows)@[i])@ == Seq::new(
                old(rows)@[i]@.len(),
                |j: int| color,
            ),
    no_unwind
{
    let mut r: usize = 0;
    while r < rows.len()
        invariant
            r <= rows@.len(),
            rows@.len() == old(rows)@.len(),
            forall|i: int|
                0 <= i < r ==> (#[trigger] rows@[i])@ == Seq::new(
                    old(rows)@[i]@.len(),
                    |j: int| color,
                ),
            forall|i: int| r <= i < rows@.len() ==> (#[trigger] rows@[i]) == old(rows)@[i],
        decreases rows@.len() - r,
    {
        let mut c: usize = 0;
        while c < rows[r].len()
            invariant
                r < rows@.len(),
                rows@.len() == old(rows)@.len(),
                c <= rows@[r as int]@.len(),
                rows@[r as int]@.len() == old(rows)@[r as int]@.len(),
                forall|i: int|
                    0 <= i < r ==> (#[trigger] rows@[i])@ == Seq::new(
                        old(rows)@[i]@.len(),
                        |j: int| color,
                    ),
                forall|i: int| r < i < rows@.len() ==> (#[trigger] rows@[i]) == old(rows)@[i],
                forall|j: int| 0 <= j < c ==> rows@[r as int]@[j] == color,
            decreases rows@[r as int]@.len() - c,
        {
            set_cell(rows, r, c, color);
            c += 1;
        }
        assert(rows@[r as int]@ =~= Seq::new(old(rows)@[r as int]@.len(), |j: int| color));
        r += 1;
    }
}

/// The nearest index in `0..len` to `index`.
pub fn clip_index(index: i64, len: usize) -> (nearest: usize)
    requires
        len > 0,
    ensures
        nearest == clip(index as int, len as int),
        nearest < len,
{
    if index < 0 {
        0
    } else if index as u64 >= len as u64 {
        len - 1
    } else {
        index as usize
    }
}

/// Overwrites every cell of `image` with `color`.
pub fn fill_background(image: &mut Raster, color: Color)
    ensures
        final(image).spec_width() == old(image).spec_width(),
        final(image).spec_height() == old(image).spec_height(),
        final(image)@ == uniform_grid(old(image).spec_width(), old(image).spec_height(), color),
{
    image.fill(color);
}

} // verus!
