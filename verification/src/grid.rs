//! A rectangular grid of integer samples with a nodata sentinel.

use vstd::prelude::*;

verus! {

/// The mathematical content of a grid: its extent, its nodata sentinel and
/// its cells, row by row.
pub struct GridView {
    pub rows: nat,
    pub columns: nat,
    pub nodata: i64,
    pub cells: Seq<Seq<i64>>,
}

impl GridView {
    /// Every row is present and has the full width.
    pub open spec fn wf(self) -> bool {
        &&& self.cells.len() == self.rows
        &&& forall|r: int| 0 <= r < self.rows ==> (#[trigger] self.cells[r]).len() == self.columns
    }

    /// Whether `(row, col)` lies inside the extent.
    pub open spec fn inside(self, row: int, col: int) -> bool {
        0 <= row < self.rows && 0 <= col < self.columns
    }

    /// The sample at `(row, col)`; positions outside the extent read as nodata.
    pub open spec fn at(self, row: int, col: int) -> i64 {
        if self.inside(row, col) {
            self.cells[row][col]
        } else {
            self.nodata
        }
    }

    /// Whether `(row, col)` lies inside the extent and holds a sample.
    pub open spec fn valid(self, row: int, col: int) -> bool {
        self.inside(row, col) && self.cells[row][col] != self.nodata
    }

    /// Two grids of one extent with the same sentinel.
    pub open spec fn same_shape(self, other: GridView) -> bool {
        self.rows == other.rows && self.columns == other.columns && self.nodata == other.nodata
    }
}

/// A grid of samples. Cells that hold the nodata sentinel are missing.
pub struct Grid {
    rows: usize,
    columns: usize,
    nodata: i64,
    data: Vec<Vec<i64>>,
}

impl View for Grid {
    type V = GridView;

    closed spec fn view(&self) -> GridView {
        GridView {
            rows: self.rows as nat,
            columns: self.columns as nat,
            nodata: self.nodata,
            cells: Seq::new(self.data@.len(), |r: int| self.data@[r]@),
        }
    }
}

impl Grid {
    /// The representation invariant: the stored rows match the extent.
    pub closed spec fn wf(&self) -> bool {
        &&& self.data@.len() == self.rows
        &&& forall|r: int| 0 <= r < self.rows ==> (#[trigger] self.data@[r])@.len() == self.columns
    }

    /// A well-formed grid has a well-formed view.
    pub proof fn lemma_view_wf(&self)
        requires
            self.wf(),
        ensures
            self@.wf(),
    {
    }

    /// A grid of the given extent with every cell set to `fill`.
    pub fn new(rows: usize, columns: usize, nodata: i64, fill: i64) -> (g: Grid)
        ensures
            g.wf(),
            g@.wf(),
            g@.rows == rows,
            g@.columns == columns,
            g@.nodata == nodata,
            forall|r: int, c: int| 0 <= r < rows && 0 <= c < columns ==> g@.cells[r][c] == fill,
    {
        let mut data: Vec<Vec<i64>> = Vec::new();
        let mut r: usize = 0;
        while r < rows
            invariant
                r <= rows,
                data@.len() == r,
                forall|i: int| 0 <= i < r ==> (#[trigger] data@[i])@.len() == columns,
                forall|i: int, c: int| 0 <= i < r && 0 <= c < columns ==> data@[i]@[c] == fill,
            decreases rows - r,
        {
            let mut line: Vec<i64> = Vec::new();
            let mut c: usize = 0;
            while c < columns
                invariant
                    c <= columns,
                    line@.len() == c,
                    forall|j: int| 0 <= j < c ==> line@[j] == fill,
                decreases columns - c,
            {
                line.push(fill);
                c += 1;
            }
            data.push(line);
            r += 1;
        }
        Grid { rows, columns, nodata, data }
    }

    /// A grid built from its rows, when they all have the same length.
    pub fn from_rows(nodata: i64, cells: Vec<Vec<i64>>) -> (g: Option<Grid>)
        ensures
            g.is_some() <==> forall|r: int|
                0 <= r < cells@.len() ==> (#[trigger] cells@[r])@.len() == cells@[0]@.len(),
            g.is_some() ==> {
                let grid = g.unwrap();
                &&& grid.wf()
                &&& grid@.wf()
                &&& grid@.rows == cells@.len()
                &&& grid@.columns == (if cells@.len() == 0 { 0 } else { cells@[0]@.len() })
                &&& grid@.nodata == nodata
                &&& forall|r: int| 0 <= r < cells@.len() ==> grid@.cells[r] == (#[trigger] cells@[r])@
            },
    {
        let rows: usize = cells.len();
        let columns: usize = if rows == 0 { 0 } else { cells[0].len() };
        let mut r: usize = 0;
        while r < rows
            invariant
                r <= rows,
                rows == cells@.len(),
                rows > 0 ==> columns == cells@[0]@.len(),
                forall|i: int| 0 <= i < r ==> (#[trigger] cells@[i])@.len() == columns,
            decreases rows - r,
        {
            if cells[r].len() != columns {
                return None;
            }
            r += 1;
        }
        Some(Grid { rows, columns, nodata, data: cells })
    }

    /// The number of rows.
    pub fn rows(&self) -> (n: usize)
        ensures
            n == self@.rows,
    {
        self.rows
    }

    /// The number of columns.
    pub fn columns(&self) -> (n: usize)
        ensures
            n == self@.columns,
    {
        self.columns
    }

    /// The nodata sentinel.
    pub fn nodata(&self) -> (v: i64)
        ensures
            v == self@.nodata,
    {
        self.nodata
    }

    /// The sample at `(row, col)` of a position inside the extent.
    pub fn get(&self, row: usize, col: usize) -> (v: i64)
        requires
            self.wf(),
            self@.inside(row as int, col as int),
        ensures
            v == self@.cells[row as int][col as int],
    {
        self.data[row][col]
    }

    /// The sample at `(row, col)`, or nodata where the position lies outside
    /// the extent.
    pub fn get_value(&self, row: isize, col: isize) -> (v: i64)
        requires
            self.wf(),
        ensures
            v == self@.at(row as int, col as int),
    {
        if row < 0 || col < 0 {
            return self.nodata;
        }
        let r: usize = row as usize;
        let c: usize = col as usize;
        if r < self.rows && c < self.columns {
            self.data[r][c]
        } else {
            self.nodata
        }
    }

    /// Whether `(row, col)` lies inside the extent and holds a sample.
    pub fn is_valid(&self, row: usize, col: usize) -> (b: bool)
        requires
            self.wf(),
        ensures
            b == self@.valid(row as int, col as int),
    {
        row < self.rows && col < self.columns && self.data[row][col] != self.nodata
    }

    /// Writes one sample. A position outside the extent is left alone.
    pub fn set_value(&mut self, row: usize, col: usize, value: i64)
        requires
            old(self).wf(),
        ensures
            final(self).wf(),
            final(self)@.same_shape(old(self)@),
            final(self)@.wf(),
            old(self)@.inside(row as int, col as int) ==> final(self)@.cells == old(self)@.cells.update(
                row as int,
                old(self)@.cells[row as int].update(col as int, value),
            ),
            !old(self)@.inside(row as int, col as int) ==> final(self)@ == old(self)@,
    {
        if row < self.rows && col < self.columns {
            let mut line: Vec<i64> = Vec::new();
            std::mem::swap(&mut line, &mut self.data[row]);
            line[col] = value;
            self.data[row] = line;
            assert(self@.cells =~= old(self)@.cells.update(
                row as int,
                old(self)@.cells[row as int].update(col as int, value),
            ));
        } else {
            assert(self@.cells =~= old(self)@.cells);
        }
    }

    /// Replaces a whole row. A row outside the extent, or values of another
    /// length than the grid's width, leave the grid as it was.
    pub fn set_row_data(&mut self, row: usize, values: Vec<i64>)
        requires
            old(self).wf(),
        ensures
            final(self).wf(),
            final(self)@.same_shape(old(self)@),
            final(self)@.wf(),
            row < old(self)@.rows && values@.len() == old(self)@.columns ==> final(self)@.cells
                == old(self)@.cells.update(row as int, values@),
            !(row < old(self)@.rows && values@.len() == old(self)@.columns) ==> final(self)@ == old(
                self,
            )@,
    {
        if row < self.rows && values.len() == self.columns {
            self.data[row] = values;
            assert(self@.cells =~= old(self)@.cells.update(row as int, values@));
        } else {
            assert(self@.cells =~= old(self)@.cells);
        }
    }
}

} // verus!
