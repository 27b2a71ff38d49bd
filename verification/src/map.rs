use vstd::prelude::*;

use crate::text::{
    chars_of, parse_u8, parse_u8_spec, split_chars, split_on, trim, trim_bounds,
};

verus! {

/// The tile value a CSV field gives: its number when, trimmed, it parses
/// as a `u8`, else 0 (empty).
pub open spec fn parse_cell(field: Seq<char>) -> u8 {
    match parse_u8_spec(trim(field)) {
        Some(v) => v,
        None => 0,
    }
}

/// The tiles of one CSV line: one per comma-separated field.
pub open spec fn parse_row(line: Seq<char>) -> Seq<u8> {
    split_on(line, ',').map_values(|f: Seq<char>| parse_cell(f))
}

/// A line with nothing but white space.
pub open spec fn is_blank(line: Seq<char>) -> bool {
    trim(line).len() == 0
}

/// The rows of tiles that `lines` give: one per line that is not blank.
pub open spec fn grid_of_lines(lines: Seq<Seq<char>>) -> Seq<Seq<u8>>
    decreases lines.len(),
{
    if lines.len() == 0 {
        Seq::empty()
    } else if is_blank(lines.last()) {
        grid_of_lines(lines.drop_last())
    } else {
        grid_of_lines(lines.drop_last()).push(parse_row(lines.last()))
    }
}

/// The rows of tiles that a CSV text gives. (Splitting at `\n` alone gives
/// the same rows as `str::lines`: a `\r` before `\n` is white space, which
/// the blank test and the field trimming ignore.)
pub open spec fn csv_grid(text: Seq<char>) -> Seq<Seq<u8>> {
    grid_of_lines(split_on(text, '\n'))
}

/// The tile at (`row`, `col`) exists and is not empty.
pub open spec fn solid_at(grid: Seq<Seq<u8>>, row: int, col: int) -> bool {
    0 <= row < grid.len() && 0 <= col < grid[row].len() && grid[row][col] != 0
}

/// Some column in `lo..=hi` of `row` is solid.
pub open spec fn row_has_solid(grid: Seq<Seq<u8>>, row: int, lo: int, hi: int) -> bool {
    exists|c: int| lo <= c <= hi && solid_at(grid, row, c)
}

/// The first screen row at `from` or below (screen rows count from the top,
/// grid rows from the bottom) with a solid tile in columns `lo..=hi`.
pub open spec fn floor_from(grid: Seq<Seq<u8>>, rows: int, from: int, lo: int, hi: int) -> Option<
    int,
>
    decreases rows - from,
{
    if from < 0 || from >= rows {
        None
    } else if row_has_solid(grid, rows - 1 - from, lo, hi) {
        Some(from)
    } else {
        floor_from(grid, rows, from + 1, lo, hi)
    }
}

/// Screen row `k` (counted from the top) has a solid tile in columns
/// `lo..=hi`.
pub open spec fn screen_row_has_solid(grid: Seq<Seq<u8>>, rows: int, k: int, lo: int, hi: int) -> bool {
    row_has_solid(grid, rows - 1 - k, lo, hi)
}

pub proof fn lemma_floor_from_bounds(grid: Seq<Seq<u8>>, rows: int, from: int, lo: int, hi: int)
    ensures
        floor_from(grid, rows, from, lo, hi) matches Some(y) ==> from <= y < rows && row_has_solid(
            grid,
            rows - 1 - y,
            lo,
            hi,
        ) && forall|k: int| from <= k < y ==> !#[trigger] screen_row_has_solid(grid, rows, k, lo, hi),
        floor_from(grid, rows, from, lo, hi) is None && from >= 0 ==> forall|k: int|
            from <= k < rows ==> !#[trigger] screen_row_has_solid(grid, rows, k, lo, hi),
    decreases rows - from,
{
    if 0 <= from < rows && !row_has_solid(grid, rows - 1 - from, lo, hi) {
        lemma_floor_from_bounds(grid, rows, from + 1, lo, hi);
    }
}

/// Law: starting the floor search higher up never finds a lower floor and
/// never loses one: if the search from screen row `b` finds row `yb`, the
/// search from any row `a <= b` finds a row `ya <= yb`; and if the search
/// from `a` finds a row at `b` or below, the search from `b` finds the same.
pub proof fn lemma_floor_monotone(grid: Seq<Seq<u8>>, rows: int, a: int, b: int, lo: int, hi: int)
    requires
        0 <= a <= b,
    ensures
        match floor_from(grid, rows, b, lo, hi) {
            Some(yb) => match floor_from(grid, rows, a, lo, hi) {
                Some(ya) => ya <= yb,
                None => false,
            },
            None => true,
        },
        match floor_from(grid, rows, a, lo, hi) {
            Some(ya) => ya >= b ==> floor_from(grid, rows, b, lo, hi) == Some(ya),
            None => true,
        },
{
    lemma_floor_from_bounds(grid, rows, a, lo, hi);
    lemma_floor_from_bounds(grid, rows, b, lo, hi);
    if floor_from(grid, rows, b, lo, hi) is Some {
        let yb = floor_from(grid, rows, b, lo, hi)->0;
        if floor_from(grid, rows, a, lo, hi) is None {
            assert(!screen_row_has_solid(grid, rows, yb, lo, hi));
        }
    }
    if floor_from(grid, rows, a, lo, hi) is Some {
        let ya = floor_from(grid, rows, a, lo, hi)->0;
        if ya >= b {
            if floor_from(grid, rows, b, lo, hi) is None {
                assert(!screen_row_has_solid(grid, rows, ya, lo, hi));
            } else {
                let yb = floor_from(grid, rows, b, lo, hi)->0;
                if yb < ya {
                    assert(!screen_row_has_solid(grid, rows, yb, lo, hi));
                }
                if ya < yb {
                    assert(!screen_row_has_solid(grid, rows, ya, lo, hi));
                }
            }
        }
    }
}

/// Column `c` clamped to `0..=cols - 1`.
pub open spec fn clamp_col(c: int, cols: int) -> int {
    if c < 0 {
        0
    } else if c > cols - 1 {
        cols - 1
    } else {
        c
    }
}

fn parse_row_exec(line: &[char]) -> (r: Vec<u8>)
    ensures
        r@ == parse_row(line@),
{
    let fields = split_chars(line, ',');
    let ghost pieces = fields@.map_values(|p: Vec<char>| p@);
    let mut r: Vec<u8> = Vec::new();
    let mut i: usize = 0;
    while i < fields.len()
        invariant
            i <= fields@.len(),
            pieces == fields@.map_values(|p: Vec<char>| p@),
            pieces == split_on(line@, ','),
            r@.len() == i,
            forall|j: int| 0 <= j < i ==> r@[j] == parse_cell(#[trigger] pieces[j]),
        decreases fields@.len() - i,
    {
        let field = fields[i].as_slice();
        let (a, b) = trim_bounds(field);
        let trimmed = &field[a..b];
        assert(trimmed@ == trim(pieces[i as int]));
        let v = match parse_u8(trimmed) {
            Some(v) => v,
            None => 0,
        };
        r.push(v);
        i += 1;
    }
    assert(r@ =~= parse_row(line@));
    r
}

fn is_blank_exec(line: &[char]) -> (r: bool)
    ensures
        r == is_blank(line@),
{
    let (a, b) = trim_bounds(line);
    a == b
}

/// The tile grid of the game: rows of tile values (0 is empty), the first
/// row at the bottom of the screen.
#[derive(Clone, Debug)]
pub struct TileMap {
    tiles: Vec<Vec<u8>>,
    rows: usize,
    cols: usize,
}

impl TileMap {
    /// The tiles, row by row.
    pub closed spec fn grid(&self) -> Seq<Seq<u8>> {
        self.tiles@.map_values(|r: Vec<u8>| r@)
    }

    /// The number of rows.
    pub closed spec fn row_count(&self) -> nat {
        self.rows as nat
    }

    /// The number of columns: the length of the first row.
    pub closed spec fn col_count(&self) -> nat {
        self.cols as nat
    }

    /// The map that a CSV text describes: one row per line that is not
    /// blank, one tile per comma-separated field, whose trimmed text parses
    /// as a `u8` (anything else is an empty tile).
    pub fn from_csv_text(content: &str) -> (r: TileMap)
        ensures
            r.grid() == csv_grid(content@),
            r.row_count() == r.grid().len(),
            r.col_count() == if r.grid().len() > 0 {
                r.grid()[0].len()
            } else {
                0
            },
    {
        let chars = chars_of(content);
        let lines = split_chars(chars.as_slice(), '\n');
        let ghost texts = lines@.map_values(|p: Vec<char>| p@);
        let mut tiles: Vec<Vec<u8>> = Vec::new();
        let mut i: usize = 0;
        while i < lines.len()
            invariant
                i <= lines@.len(),
                texts == lines@.map_values(|p: Vec<char>| p@),
                texts == split_on(content@, '\n'),
                tiles@.map_values(|r: Vec<u8>| r@) == grid_of_lines(texts.take(i as int)),
            decreases lines@.len() - i,
        {
            assert(texts.take(i + 1).drop_last() =~= texts.take(i as int));
            let line = lines[i].as_slice();
            if !is_blank_exec(line) {
                let ghost before = tiles@.map_values(|r: Vec<u8>| r@);
                let row = parse_row_exec(line);
                tiles.push(row);
                assert(tiles@.map_values(|r: Vec<u8>| r@) =~= before.push(parse_row(texts[i as int])));
            }
            i += 1;
        }
        assert(texts.take(lines@.len() as int) =~= texts);
        let rows = tiles.len();
        let cols = if tiles.len() > 0 {
            tiles[0].len()
        } else {
            0
        };
        TileMap { tiles, rows, cols }
    }

    /// The number of rows.
    pub fn rows(&self) -> (r: usize)
        ensures
            r == self.row_count(),
    {
        self.rows
    }

    /// The number of columns.
    pub fn cols(&self) -> (r: usize)
        ensures
            r == self.col_count(),
    {
        self.cols
    }

    /// The tiles, row by row.
    pub fn tiles(&self) -> (r: &Vec<Vec<u8>>)
        ensures
            r@.map_values(|t: Vec<u8>| t@) == self.grid(),
    {
        &self.tiles
    }

    /// Whether the tile at (`row`, `col`) exists and is not empty.
    pub fn is_solid(&self, row: usize, col: usize) -> (r: bool)
        ensures
            r == solid_at(self.grid(), row as int, col as int),
    {
        if row < self.tiles.len() {
            if col < self.tiles[row].len() {
                return self.tiles[row][col] != 0;
            }
        }
        false
    }

    /// The grid cell (row, column) at screen row `screen_row` and column
    /// `col`, when both are on the map.
    pub fn grid_cell(&self, screen_row: isize, col: isize) -> (r: Option<(usize, usize)>)
        ensures
            r == if 0 <= col < self.col_count() && 0 <= screen_row < self.row_count() {
                Some(((self.row_count() - 1 - screen_row) as usize, col as usize))
            } else {
                None::<(usize, usize)>
            },
    {
        if col < 0 || screen_row < 0 || col as usize >= self.cols || screen_row as usize
            >= self.rows {
            None
        } else {
            let row = self.rows - 1 - screen_row as usize;
            Some((row, col as usize))
        }
    }

    fn row_has_solid_exec(&self, row: usize, lo: usize, hi: usize) -> (r: bool)
        requires
            lo <= hi < usize::MAX,
        ensures
            r == row_has_solid(self.grid(), row as int, lo as int, hi as int),
    {
        let mut col: usize = lo;
        while col <= hi
            invariant
                lo <= col <= hi + 1,
                hi < usize::MAX,
                forall|c: int| lo <= c < col ==> !solid_at(self.grid(), row as int, c),
            decreases hi + 1 - col,
        {
            if self.is_solid(row, col) {
                assert(lo <= col <= hi && solid_at(self.grid(), row as int, col as int));
                return true;
            }
            col += 1;
        }
        false
    }

    /// The screen row of the first solid tile at or below screen row
    /// `from_row` (capped at the bottom row), within columns `start_col` to
    /// `end_col` (each clamped onto the map).
    pub fn floor_row_below(&self, start_col: isize, end_col: isize, from_row: usize) -> (r: Option<
        usize,
    >)
        ensures
            ({
                let rows = self.row_count() as int;
                let cols = self.col_count() as int;
                let lo = clamp_col(start_col as int, cols);
                let hi = clamp_col(end_col as int, cols);
                let from = if from_row >= rows {
                    rows - 1
                } else {
                    from_row as int
                };
                let expected = if rows == 0 || cols == 0 || lo > hi {
                    None
                } else {
                    floor_from(self.grid(), rows, from, lo, hi)
                };
                &&& r matches Some(x) ==> expected == Some(x as int)
                &&& r is None ==> expected is None
            }),
    {
        if self.rows == 0 || self.cols == 0 {
            return None;
        }
        let max_col = self.cols - 1;
        let lo: usize = if start_col < 0 {
            0
        } else if start_col as usize > max_col {
            max_col
        } else {
            start_col as usize
        };
        let hi: usize = if end_col < 0 {
            0
        } else if end_col as usize > max_col {
            max_col
        } else {
            end_col as usize
        };
        if lo > hi {
            return None;
        }
        let mut screen_row = from_row;
        if screen_row >= self.rows {
            screen_row = self.rows - 1;
        }
        let ghost from = screen_row as int;
        let mut idx = screen_row;
        while idx < self.rows
            invariant
                from <= idx <= self.rows,
                hi <= max_col,
                max_col == self.cols - 1,
                self.rows > 0,
                self.cols > 0,
                lo <= hi,
                lo == clamp_col(start_col as int, self.cols as int),
                hi == clamp_col(end_col as int, self.cols as int),
                from == if from_row >= self.rows {
                    self.rows - 1
                } else {
                    from_row as int
                },
                floor_from(self.grid(), self.rows as int, from, lo as int, hi as int)
                    == floor_from(self.grid(), self.rows as int, idx as int, lo as int, hi as int),
            decreases self.rows - idx,
        {
            let row = self.rows - 1 - idx;
            if self.row_has_solid_exec(row, lo, hi) {
                return Some(idx);
            }
            idx += 1;
        }
        None
    }

    /// Empties the tile at screen row `screen_row` and column `col`, when it
    /// is on the map.
    pub fn clear_cell(&mut self, screen_row: isize, col: isize)
        ensures
            final(self).row_count() == old(self).row_count(),
            final(self).col_count() == old(self).col_count(),
            final(self).grid() == cleared_grid(
                old(self).grid(),
                old(self).row_count() as int,
                old(self).col_count() as int,
                screen_row as int,
                col as int,
            ),
    {
        if screen_row < 0 || screen_row as usize >= self.rows {
            return;
        }
        let row = self.rows - 1 - screen_row as usize;
        if col < 0 || col as usize >= self.cols {
            return;
        }
        let c = col as usize;
        if row < self.tiles.len() && c < self.tiles[row].len() {
            let ghost before = self.grid();
            self.tiles[row][c] = 0;
            assert(self.grid() =~= before.update(row as int, before[row as int].update(c as int, 0)));
        }
    }
}

/// Cell (`row`, `col`) is within the grid (whatever it holds).
pub open spec fn cell_exists(grid: Seq<Seq<u8>>, row: int, col: int) -> bool {
    0 <= row < grid.len() && 0 <= col < grid[row].len()
}

/// `grid` (of `rows` rows and `cols` columns) with the tile at screen row
/// `screen_row` and column `col` emptied, when that tile is on the map.
pub open spec fn cleared_grid(grid: Seq<Seq<u8>>, rows: int, cols: int, screen_row: int, col: int) -> Seq<
    Seq<u8>,
> {
    let row = rows - 1 - screen_row;
    if 0 <= screen_row < rows && 0 <= col < cols && cell_exists(grid, row, col) {
        grid.update(row, grid[row].update(col, 0))
    } else {
        grid
    }
}

/// Law: clearing a cell empties that tile, and only that one.
pub proof fn lemma_cleared_cell_is_empty(
    grid: Seq<Seq<u8>>,
    rows: int,
    cols: int,
    screen_row: int,
    col: int,
    r: int,
    c: int,
)
    ensures
        (r == rows - 1 - screen_row && c == col && 0 <= screen_row < rows && 0 <= col < cols)
            ==> !solid_at(cleared_grid(grid, rows, cols, screen_row, col), r, c),
        !(r == rows - 1 - screen_row && c == col) ==> solid_at(
            cleared_grid(grid, rows, cols, screen_row, col),
            r,
            c,
        ) == solid_at(grid, r, c),
{
}

} // verus!
