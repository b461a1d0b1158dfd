//! The character frame buffer: a grid of coloured text cells.

pub mod coverage;
pub mod drawing;
pub mod styling;

use crate::geometry::{IVec2, UVec2};
use crate::printing::styling::{cells_text, grid_text, push_cell, reset_text, row_text, style_text};
use vstd::prelude::*;

verus! {

/// A 24-bit colour: red, green, blue.
#[derive(Clone, Copy, Debug, PartialEq, Eq, Structural)]
pub struct RgbColor(pub u8, pub u8, pub u8);

/// What one cell shows: its character and its colour.
pub type Cell = (char, RgbColor);

/// The character that marks a filled cell: it is rendered as a solid block of
/// the cell's colour.
pub const FILLED: char = '.';

/// A cell overwritten: the character and the colour are replaced
/// independently, `None` keeping what the cell shows.
pub open spec fn painted(cell: Cell, character: Option<char>, color: Option<RgbColor>) -> Cell {
    (
        match character {
            Some(c) => c,
            None => cell.0,
        },
        match color {
            Some(k) => k,
            None => cell.1,
        },
    )
}

/// Why an operation on a [`CharBuffer`] failed.
#[derive(Debug)]
pub enum CharBufferError {
    /// The text given to build a buffer from is empty or has rows of unequal
    /// length.
    InvalidConstructorString(String),
    /// A cell outside the buffer was addressed.
    OutOfBounds { attempt: UVec2, dimensions: UVec2 },
    /// A coordinate or extent does not fit the platform's index type.
    UsizeConversion,
}

/// The mathematical content of a [`CharBuffer`]: its extent and its rows of
/// cells, `cells[y][x]` being the cell in column `x` of row `y`.
pub struct CharBufferView {
    pub dimensions: UVec2,
    pub cells: Seq<Seq<Cell>>,
}

impl CharBufferView {
    /// The grid has exactly `dimensions.y` rows of `dimensions.x` cells each.
    pub open spec fn wf(self) -> bool {
        &&& self.cells.len() == self.dimensions.y
        &&& forall|y: int| 0 <= y < self.cells.len() ==> (#[trigger] self.cells[y]).len() == self.dimensions.x
    }

    /// Whether column `x` of row `y` lies inside the grid.
    pub open spec fn contains(self, x: int, y: int) -> bool {
        0 <= x < self.dimensions.x && 0 <= y < self.dimensions.y
    }

    /// The cell at the pixel position `p`.
    pub open spec fn at(self, p: IVec2) -> Cell {
        self.cells[p.y as int][p.x as int]
    }

    /// The grid with the cell at `(x, y)` overwritten: the character and the
    /// colour are replaced independently, `None` keeping what was there.
    pub open spec fn with_cell(self, x: int, y: int, character: Option<char>, color: Option<RgbColor>) -> Self {
        let after = painted(self.cells[y][x], character, color);
        CharBufferView { dimensions: self.dimensions, cells: self.cells.update(y, self.cells[y].update(x, after)) }
    }

    /// The grid cut or grown to the extent `dimensions`: cells inside the old
    /// and the new extent keep what they show, the others show `cell`.
    pub open spec fn resized(self, dimensions: UVec2, cell: Cell) -> Self {
        CharBufferView {
            dimensions,
            cells: Seq::new(
                dimensions.y as nat,
                |y: int|
                    Seq::new(
                        dimensions.x as nat,
                        |x: int|
                            if self.contains(x, y) {
                                self.cells[y][x]
                            } else {
                                cell
                            },
                    ),
            ),
        }
    }

    /// The grid of the given extent whose every cell is `cell`.
    pub open spec fn uniform(dimensions: UVec2, cell: Cell) -> Self {
        CharBufferView {
            dimensions,
            cells: Seq::new(dimensions.y as nat, |y: int| Seq::new(dimensions.x as nat, |x: int| cell)),
        }
    }
}

/// The pieces into which line feeds divide a text; a text without a line feed
/// is one piece, and after a final line feed comes an empty piece.
pub open spec fn split_lines(text: Seq<char>) -> Seq<Seq<char>>
    decreases text.len(),
{
    if text.len() == 0 {
        seq![Seq::empty()]
    } else {
        let before = split_lines(text.drop_last());
        if text.last() == '\n' {
            before.push(Seq::empty())
        } else {
            before.drop_last().push(before.last().push(text.last()))
        }
    }
}

/// The rows that a text describes: its lines, but for the empty piece after
/// a final line feed.
pub open spec fn text_rows(text: Seq<char>) -> Seq<Seq<char>> {
    let lines = split_lines(text);
    if lines.last().len() == 0 {
        lines.drop_last()
    } else {
        lines
    }
}

/// There is a row, and all rows are of one length.
pub open spec fn rectangular(rows: Seq<Seq<char>>) -> bool {
    &&& rows.len() > 0
    &&& forall|y: int| 0 <= y < rows.len() ==> (#[trigger] rows[y]).len() == rows[0].len()
}

/// The characters of a line as cells of one colour.
pub open spec fn colored(line: Seq<char>, color: RgbColor) -> Seq<Cell> {
    Seq::new(line.len(), |x: int| (line[x], color))
}

/// The grid that shows the given rows of characters in one colour.
pub open spec fn grid_of(rows: Seq<Seq<char>>, color: RgbColor) -> CharBufferView {
    CharBufferView {
        dimensions: UVec2 { x: rows[0].len() as u32, y: rows.len() as u32 },
        cells: Seq::new(rows.len(), |y: int| colored(rows[y], color)),
    }
}

/// A uniform grid is well formed and shows its one cell everywhere: so does a
/// buffer when it is made and after every fill.
pub proof fn lemma_uniform_shows(dimensions: UVec2, cell: Cell, x: int, y: int)
    requires
        0 <= x < dimensions.x,
        0 <= y < dimensions.y,
    ensures
        CharBufferView::uniform(dimensions, cell).wf(),
        CharBufferView::uniform(dimensions, cell).contains(x, y),
        CharBufferView::uniform(dimensions, cell).cells[y][x] == cell,
{
}

/// A grid of cells, each a character with a colour; the render target.
///
/// Column `x` runs from 0 to `dimensions.x`, row `y` from 0 to `dimensions.y`.
#[derive(Clone, Debug)]
pub struct CharBuffer {
    cells: Vec<Vec<Cell>>,
    dimensions: UVec2,
}

impl View for CharBuffer {
    type V = CharBufferView;

    closed spec fn view(&self) -> CharBufferView {
        CharBufferView {
            dimensions: self.dimensions,
            cells: Seq::new(self.cells.len() as nat, |y: int| self.cells[y]@),
        }
    }
}

/// A row of `n` copies of `cell`.
fn uniform_row(cell: Cell, n: usize) -> (row: Vec<Cell>)
    ensures
        row@ == Seq::new(n as nat, |x: int| cell),
{
    let mut row: Vec<Cell> = Vec::new();
    let mut i: usize = 0;
    while i < n
        invariant
            i <= n,
            row@ == Seq::new(i as nat, |x: int| cell),
        decreases n - i,
    {
        row.push(cell);
        i = i + 1;
        assert(row@ =~= Seq::new(i as nat, |x: int| cell));
    }
    row
}

impl CharBuffer {
    /// The buffer's invariant: its grid has the shape its extent says.
    pub open spec fn wf(&self) -> bool {
        self@.wf()
    }

    /// Whether both extents can be used as lengths on this platform.
    pub open spec fn fits_index(v: UVec2) -> bool {
        v.x <= usize::MAX && v.y <= usize::MAX
    }

    /// A buffer of the given extent with every cell set to `character` in
    /// `color`. Fails only where an extent does not fit the index type.
    pub fn new(dimensions: UVec2, character: char, color: RgbColor) -> (result: Result<Self, CharBufferError>)
        ensures
            match result {
                Ok(buffer) => Self::fits_index(dimensions) && buffer.wf() && buffer@ == CharBufferView::uniform(
                    dimensions,
                    (character, color),
                ),
                Err(e) => !Self::fits_index(dimensions) && e == CharBufferError::UsizeConversion,
            },
    {
        let width: usize = match usize::try_from(dimensions.x) {
            Ok(w) => w,
            Err(_) => {
                return Err(CharBufferError::UsizeConversion);
            },
        };
        let height: usize = match usize::try_from(dimensions.y) {
            Ok(h) => h,
            Err(_) => {
                return Err(CharBufferError::UsizeConversion);
            },
        };
        let mut cells: Vec<Vec<Cell>> = Vec::new();
        let mut y: usize = 0;
        while y < height
            invariant
                y <= height,
                cells.len() == y,
                forall|j: int| 0 <= j < y ==> (#[trigger] cells[j])@ == Seq::new(width as nat, |x: int| (character, color)),
            decreases height - y,
        {
            let row = uniform_row((character, color), width);
            cells.push(row);
            y = y + 1;
        }
        let buffer = CharBuffer { cells, dimensions };
        assert(buffer@.cells =~= CharBufferView::uniform(dimensions, (character, color)).cells);
        Ok(buffer)
    }

    /// The extent of the buffer: `x` columns by `y` rows.
    pub fn dimensions(&self) -> (d: &UVec2)
        ensures
            *d == self@.dimensions,
    {
        &self.dimensions
    }

    /// Whether `pos` names a cell of the buffer. Coordinates are signed so that
    /// rasterization arithmetic that leaves the grid can be tested.
    pub open spec fn valid_point(&self, pos: IVec2) -> bool {
        self@.contains(pos.x as int, pos.y as int)
    }

    /// True exactly when both coordinates are non-negative and inside the
    /// extent.
    pub fn is_valid_point(&self, pos: IVec2) -> (valid: bool)
        ensures
            valid == self.valid_point(pos),
    {
        pos.x >= 0 && pos.y >= 0 && (pos.x as u32) < self.dimensions.x && (pos.y as u32) < self.dimensions.y
    }

    /// The character and colour at `pos`, or `None` outside the buffer.
    pub fn get_char(&self, pos: UVec2) -> (cell: Option<Cell>)
        requires
            self.wf(),
        ensures
            cell == if self@.contains(pos.x as int, pos.y as int) {
                Some(self@.cells[pos.y as int][pos.x as int])
            } else {
                None
            },
    {
        if pos.x < self.dimensions.x && pos.y < self.dimensions.y {
            let x: usize = pos.x as usize;
            let y: usize = pos.y as usize;
            assert(self@.cells[y as int] == self.cells[y as int]@);
            Some(self.cells[y][x])
        } else {
            None
        }
    }

    /// Overwrites the character, the colour, or both, of the cell at
    /// `position`. Outside the buffer nothing changes and the error names the
    /// position and the extent.
    pub fn set_char(&mut self, position: UVec2, character: Option<char>, color: Option<RgbColor>) -> (result: Result<
        (),
        CharBufferError,
    >)
        requires
            old(self).wf(),
        ensures
            final(self).wf(),
            match result {
                Ok(()) => old(self)@.contains(position.x as int, position.y as int) && final(self)@ == old(
                    self,
                )@.with_cell(position.x as int, position.y as int, character, color),
                Err(e) => final(self)@ == old(self)@ && if !Self::fits_index(position) {
                    e == CharBufferError::UsizeConversion
                } else {
                    !old(self)@.contains(position.x as int, position.y as int) && e == (
                    CharBufferError::OutOfBounds { attempt: position, dimensions: old(self)@.dimensions })
                },
            },
    {
        let x: usize = match usize::try_from(position.x) {
            Ok(x) => x,
            Err(_) => {
                return Err(CharBufferError::UsizeConversion);
            },
        };
        let y: usize = match usize::try_from(position.y) {
            Ok(y) => y,
            Err(_) => {
                return Err(CharBufferError::UsizeConversion);
            },
        };
        if y >= self.cells.len() {
            return Err(CharBufferError::OutOfBounds { attempt: position, dimensions: self.dimensions });
        }
        assert(self@.cells[y as int] == self.cells[y as int]@);
        if x >= self.cells[y].len() {
            return Err(CharBufferError::OutOfBounds { attempt: position, dimensions: self.dimensions });
        }
        let before: Cell = self.cells[y][x];
        let after: Cell = (
            match character {
                Some(c) => c,
                None => before.0,
            },
            match color {
                Some(k) => k,
                None => before.1,
            },
        );
        self.cells[y][x] = after;
        assert(self.cells[y as int]@ =~= old(self).cells[y as int]@.update(x as int, after));
        assert(self@.cells =~= old(self)@.with_cell(position.x as int, position.y as int, character, color).cells);
        Ok(())
    }
    /// Sets every cell to `character` in `color`.
    pub fn fill(&mut self, character: char, color: RgbColor)
        requires
            old(self).wf(),
        ensures
            final(self).wf(),
            final(self)@ == CharBufferView::uniform(old(self)@.dimensions, (character, color)),
            forall|x: int, y: int|
                old(self)@.contains(x, y) ==> #[trigger] final(self)@.cells[y][x] == (character, color),
    {
        let ghost dimensions = self@.dimensions;
        let height: usize = self.cells.len();
        assert forall|j: int| 0 <= j < height implies (#[trigger] self.cells[j]).len() == dimensions.x by {
            assert(self@.cells[j] == self.cells[j]@);
        }
        let mut y: usize = 0;
        while y < height
            invariant
                y <= height,
                height == dimensions.y,
                self.dimensions == dimensions,
                self.cells.len() == height,
                forall|j: int| 0 <= j < height ==> (#[trigger] self.cells[j]).len() == dimensions.x,
                forall|j: int, i: int|
                    0 <= j < y && 0 <= i < dimensions.x ==> (#[trigger] self.cells[j][i]) == (character, color),
            decreases height - y,
        {
            let width: usize = self.cells[y].len();
            let mut x: usize = 0;
            while x < width
                invariant
                    y < height,
                    x <= width,
                    width == dimensions.x,
                    height == dimensions.y,
                    self.dimensions == dimensions,
                    self.cells.len() == height,
                    forall|j: int| 0 <= j < height ==> (#[trigger] self.cells[j]).len() == dimensions.x,
                    forall|j: int, i: int|
                        0 <= j < y && 0 <= i < dimensions.x ==> (#[trigger] self.cells[j][i]) == (character, color),
                    forall|i: int| 0 <= i < x ==> (#[trigger] self.cells[y as int][i]) == (character, color),
                decreases width - x,
            {
                self.cells[y][x] = (character, color);
                x = x + 1;
            }
            y = y + 1;
        }
        assert(self@.cells =~~= CharBufferView::uniform(dimensions, (character, color)).cells);
    }

    /// Changes the extent to `dimensions`. Cells that lie in both the old and
    /// the new grid keep what they show; the others are set to `character` in
    /// `color`.
    pub fn set_dimensions(&mut self, dimensions: UVec2, character: char, color: RgbColor)
        requires
            old(self).wf(),
        ensures
            final(self).wf(),
            final(self)@ == old(self)@.resized(dimensions, (character, color)),
    {
        let width: usize = dimensions.x as usize;
        let height: usize = dimensions.y as usize;
        let mut cells: Vec<Vec<Cell>> = Vec::new();
        let mut y: usize = 0;
        while y < height
            invariant
                self.wf(),
                y <= height,
                width == dimensions.x,
                height == dimensions.y,
                cells.len() == y,
                forall|j: int| 0 <= j < y ==> (#[trigger] cells[j])@ == self@.resized(dimensions, (character, color)).cells[j],
            decreases height - y,
        {
            let mut row: Vec<Cell> = Vec::new();
            let mut x: usize = 0;
            while x < width
                invariant
                    self.wf(),
                    x <= width,
                    y < height,
                    width == dimensions.x,
                    height == dimensions.y,
                    row.len() == x,
                    forall|i: int|
                        0 <= i < x ==> (#[trigger] row[i]) == self@.resized(dimensions, (character, color)).cells[y as int][i],
                decreases width - x,
            {
                let cell: Cell = if y < self.cells.len() && x < self.cells[y].len() {
                    self.cells[y][x]
                } else {
                    (character, color)
                };
                row.push(cell);
                x = x + 1;
            }
            assert(row@ =~= self@.resized(dimensions, (character, color)).cells[y as int]);
            cells.push(row);
            y = y + 1;
        }
        let ghost before = self@;
        self.cells = cells;
        self.dimensions = dimensions;
        assert(self@.cells =~= before.resized(dimensions, (character, color)).cells);
    }

    /// The text that shows the buffer on a terminal: one line per row, from
    /// the first row to the last, each cell as its escape codes and its
    /// character twice.
    pub fn to_string(&self) -> (text: String)
        requires
            self.wf(),
        ensures
            text@ == grid_text(self@.cells),
    {
        let reset = reset_text();
        let mut text = String::new();
        let mut y: usize = 0;
        while y < self.cells.len()
            invariant
                self.wf(),
                y <= self.cells.len(),
                reset@ == crate::printing::styling::reset_code(),
                text@ == grid_text(self@.cells.take(y as int)),
            decreases self.cells.len() - y,
        {
            let ghost done = text@;
            let mut x: usize = 0;
            while x < self.cells[y].len()
                invariant
                    self.wf(),
                    y < self.cells.len(),
                    x <= self.cells[y as int].len(),
                    reset@ == crate::printing::styling::reset_code(),
                    text@ == done + cells_text(self.cells[y as int]@.take(x as int)),
                decreases self.cells[y as int].len() - x,
            {
                let cell: Cell = self.cells[y][x];
                let background: Option<RgbColor> = if cell.0 == FILLED {
                    Some(cell.1)
                } else {
                    None
                };
                let style = style_text(cell.1, background);
                push_cell(&mut text, reset.as_str(), style.as_str(), cell.0);
                proof {
                    let row = self.cells[y as int]@;
                    assert(row.take(x + 1).drop_last() =~= row.take(x as int));
                    assert(row.take(x + 1).last() == cell);
                    assert(text@ =~= done + cells_text(row.take(x + 1)));
                }
                x = x + 1;
            }
            text.push_str(reset.as_str());
            text.push('\n');
            proof {
                let rows = self@.cells;
                let row = self.cells[y as int]@;
                assert(row.take(row.len() as int) =~= row);
                assert(rows.take(y + 1).drop_last() =~= rows.take(y as int));
                assert(rows.take(y + 1).last() == row);
                assert(text@ =~= done + row_text(row));
            }
            y = y + 1;
        }
        assert(self@.cells.take(self.cells.len() as int) =~= self@.cells);
        text
    }
    /// A buffer that shows the rows of `text`, one row per line, every cell in
    /// `color`. A line feed ends a row; the last row need not be ended. A text
    /// without a row, or with rows of unequal length, is refused and handed
    /// back in the error.
    pub fn from_str(text: &str, color: RgbColor) -> (result: Result<Self, CharBufferError>)
        ensures
            match result {
                Ok(buffer) => {
                    &&& rectangular(text_rows(text@))
                    &&& text_rows(text@).len() <= u32::MAX
                    &&& text_rows(text@)[0].len() <= u32::MAX
                    &&& buffer.wf()
                    &&& buffer@ == grid_of(text_rows(text@), color)
                },
                Err(CharBufferError::InvalidConstructorString(refused)) => {
                    &&& !rectangular(text_rows(text@))
                    &&& refused@ == text@
                },
                Err(CharBufferError::UsizeConversion) => {
                    &&& rectangular(text_rows(text@))
                    &&& (text_rows(text@).len() > u32::MAX || text_rows(text@)[0].len() > u32::MAX)
                },
                Err(CharBufferError::OutOfBounds { .. }) => false,
            },
    {
        let mut cells: Vec<Vec<Cell>> = Vec::new();
        let mut current: Vec<Cell> = Vec::new();
        proof {
            assert(text@.take(0) =~= Seq::<char>::empty());
            assert(current@ =~= colored(split_lines(text@.take(0)).last(), color));
        }
        for c in it: text.chars()
            invariant
                it.seq() == text@,
                cells.len() + 1 == split_lines(text@.take(it.index() as int)).len(),
                forall|y: int|
                    0 <= y < cells.len() ==> (#[trigger] cells[y])@ == colored(
                        split_lines(text@.take(it.index() as int))[y],
                        color,
                    ),
                current@ == colored(split_lines(text@.take(it.index() as int)).last(), color),
        {
            let ghost before = split_lines(text@.take(it.index() as int));
            let ghost seen = text@.take(it.index() + 1);
            proof {
                assert(seen.drop_last() =~= text@.take(it.index() as int));
                assert(seen.last() == c);
            }
            if c == '\n' {
                cells.push(current);
                current = Vec::new();
                proof {
                    assert(split_lines(seen) == before.push(Seq::empty()));
                    assert(current@ =~= colored(split_lines(seen).last(), color));
                }
            } else {
                current.push((c, color));
                proof {
                    assert(split_lines(seen) == before.drop_last().push(before.last().push(c)));
                    assert(current@ =~= colored(split_lines(seen).last(), color));
                }
            }
        }
        let ghost lines = split_lines(text@);
        let ghost rows = text_rows(text@);
        proof {
            assert(text@.take(text@.len() as int) =~= text@);
        }
        if current.len() > 0 {
            cells.push(current);
        }
        assert(cells.len() == rows.len());
        assert forall|y: int| 0 <= y < cells.len() implies (#[trigger] cells[y])@ == colored(rows[y], color) by {}
        let height: usize = cells.len();
        if height == 0 {
            return Err(CharBufferError::InvalidConstructorString(text.to_owned()));
        }
        let width: usize = cells[0].len();
        let mut y: usize = 1;
        while y < height
            invariant
                1 <= y <= height,
                height == cells.len(),
                width == cells[0].len(),
                rows == text_rows(text@),
                cells.len() == rows.len(),
                forall|j: int| 0 <= j < cells.len() ==> (#[trigger] cells[j])@ == colored(rows[j], color),
                forall|j: int| 0 <= j < y ==> (#[trigger] rows[j]).len() == rows[0].len(),
            decreases height - y,
        {
            if cells[y].len() != width {
                assert(cells[y as int]@ == colored(rows[y as int], color));
                assert(cells[0]@ == colored(rows[0], color));
                assert(rows[y as int].len() != rows[0].len());
                return Err(CharBufferError::InvalidConstructorString(text.to_owned()));
            }
            y = y + 1;
        }
        if width > u32::MAX as usize || height > u32::MAX as usize {
            return Err(CharBufferError::UsizeConversion);
        }
        let buffer = CharBuffer { cells, dimensions: UVec2 { x: width as u32, y: height as u32 } };
        assert(buffer@.cells =~= grid_of(rows, color).cells);
        Ok(buffer)
    }
}

} // verus!
