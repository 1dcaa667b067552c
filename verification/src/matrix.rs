use vstd::prelude::*;
use vstd::string::*;
use crate::color::is_legal_code;
use crate::error::DisplayError;

verus! {

/// The mathematical model of a grid: its dimensions and its cells, row by row.
/// The cell in column `x` of row `y` is `cells[y][x]`.
pub struct GridModel {
    pub width: nat,
    pub height: nat,
    pub cells: Seq<Seq<u8>>,
}

impl GridModel {
    /// Whether `(x, y)` is a position of the grid.
    pub open spec fn contains(self, x: int, y: int) -> bool {
        0 <= x < self.width && 0 <= y < self.height
    }

    /// The colour code at `(x, y)`.
    pub open spec fn cell(self, x: int, y: int) -> u8
        recommends
            self.contains(x, y),
    {
        self.cells[y][x]
    }

    /// A grid is well formed when it has `height` rows of `width` cells each
    /// and every cell holds a legal colour code.
    pub open spec fn wf(self) -> bool {
        &&& self.cells.len() == self.height
        &&& forall|y: int| 0 <= y < self.height ==> (#[trigger] self.cells[y]).len() == self.width
        &&& forall|x: int, y: int|
            self.contains(x, y) ==> is_legal_code(#[trigger] self.cell(x, y) as int)
    }

    /// The grid of the given dimensions whose every cell holds `colour`.
    pub open spec fn filled(width: nat, height: nat, colour: u8) -> GridModel {
        GridModel {
            width,
            height,
            cells: Seq::new(height, |y: int| Seq::new(width, |x: int| colour)),
        }
    }

    /// This grid with the cell at `(x, y)` replaced by `colour`.
    pub open spec fn set(self, x: int, y: int, colour: u8) -> GridModel
        recommends
            self.contains(x, y),
    {
        GridModel {
            width: self.width,
            height: self.height,
            cells: self.cells.update(y, self.cells[y].update(x, colour)),
        }
    }

    /// The text of the grid: one line per row, top row first, and in each
    /// line one symbol per cell, leftmost cell first.
    pub open spec fn render(self) -> Seq<char> {
        render_rows(self.cells)
    }

    /// A filled grid has the dimensions it was made with and holds the fill
    /// colour in every cell; it is well formed when that colour is legal.
    pub proof fn lemma_filled(width: nat, height: nat, colour: u8)
        ensures
            GridModel::filled(width, height, colour).width == width,
            GridModel::filled(width, height, colour).height == height,
            forall|x: int, y: int|
                GridModel::filled(width, height, colour).contains(x, y)
                    ==> #[trigger] GridModel::filled(width, height, colour).cell(x, y) == colour,
            is_legal_code(colour as int) ==> GridModel::filled(width, height, colour).wf(),
    {
    }

    /// Writing a legal colour into a cell of a well-formed grid gives a
    /// well-formed grid of the same dimensions, in which that cell holds the
    /// colour and every other cell holds what it held.
    pub proof fn lemma_set(self, x: int, y: int, colour: u8)
        requires
            self.wf(),
            self.contains(x, y),
        ensures
            self.set(x, y, colour).width == self.width,
            self.set(x, y, colour).height == self.height,
            self.set(x, y, colour).cell(x, y) == colour,
            forall|i: int, j: int|
                self.contains(i, j) && (i != x || j != y) ==> #[trigger] self.set(
                    x,
                    y,
                    colour,
                ).cell(i, j) == self.cell(i, j),
            is_legal_code(colour as int) ==> self.set(x, y, colour).wf(),
    {
        let after = self.set(x, y, colour);
        assert(self.cells[y].len() == self.width);
        assert forall|j: int| 0 <= j < after.height implies (#[trigger] after.cells[j]).len()
            == after.width by {
            assert(self.cells[j].len() == self.width);
        }
        if is_legal_code(colour as int) {
            assert forall|i: int, j: int| after.contains(i, j) implies is_legal_code(
                #[trigger] after.cell(i, j) as int,
            ) by {
                assert(self.cells[j].len() == self.width);
                assert(is_legal_code(self.cell(i, j) as int));
            }
        }
    }

    /// Writing the same colour into the same cell twice gives what writing
    /// it once gives.
    pub proof fn lemma_set_idempotent(self, x: int, y: int, colour: u8)
        requires
            self.wf(),
            self.contains(x, y),
        ensures
            self.set(x, y, colour).set(x, y, colour) == self.set(x, y, colour),
    {
        let once = self.set(x, y, colour);
        let twice = once.set(x, y, colour);
        assert(self.cells[y].len() == self.width);
        assert(once.cells[y] =~= self.cells[y].update(x, colour));
        assert(twice.cells[y] =~= once.cells[y]);
        assert(twice.cells =~= once.cells);
    }

    /// The text of a well-formed grid has one line of `width` symbols for
    /// each row: the symbol of the cell at `(x, y)` is character
    /// `y * (width + 1) + x` of the text, and a line feed ends each line.
    pub proof fn lemma_render(self, x: int, y: int)
        requires
            self.wf(),
        ensures
            self.render().len() == self.height * (self.width + 1),
            self.contains(x, y) ==> self.render()[y * (self.width + 1) + x] == symbol(
                self.cell(x, y),
            ),
            0 <= y < self.height ==> self.render()[y * (self.width + 1) + self.width] == '\n',
    {
        lemma_render_rows_len(self.cells, self.width);
        if 0 <= y < self.height {
            lemma_render_rows_at(self.cells, self.width, self.width as int, y);
            if 0 <= x < self.width {
                lemma_render_rows_at(self.cells, self.width, x, y);
            }
        }
    }
}

/// The symbol that stands for a colour code in rendered text: `R` for 1
/// (red), `G` for 2 (green) and `C` for every other code, of which only 3
/// (cyan) occurs in a well-formed grid.
pub open spec fn symbol(code: u8) -> char {
    if code == 1 {
        'R'
    } else if code == 2 {
        'G'
    } else {
        'C'
    }
}

/// One rendered row: the symbol of each cell, in order.
pub open spec fn render_cells(row: Seq<u8>) -> Seq<char> {
    Seq::new(row.len(), |x: int| symbol(row[x]))
}

/// The rendered rows one after the other, each closed by a line feed.
pub open spec fn render_rows(cells: Seq<Seq<u8>>) -> Seq<char>
    decreases cells.len(),
{
    if cells.len() == 0 {
        Seq::empty()
    } else {
        render_rows(cells.drop_last()) + render_cells(cells.last()).push('\n')
    }
}

/// Rows of one width render to lines of one length: the text of `n` rows of
/// `width` cells has `n * (width + 1)` characters.
pub proof fn lemma_render_rows_len(cells: Seq<Seq<u8>>, width: nat)
    requires
        forall|y: int| 0 <= y < cells.len() ==> (#[trigger] cells[y]).len() == width,
    ensures
        render_rows(cells).len() == cells.len() * (width + 1),
    decreases cells.len(),
{
    if cells.len() > 0 {
        let above = cells.drop_last();
        assert forall|y: int| 0 <= y < above.len() implies (#[trigger] above[y]).len() == width by {
            assert(above[y] == cells[y]);
        }
        lemma_render_rows_len(above, width);
        assert(cells.last().len() == width);
        assert((cells.len() - 1) * (width + 1) + (width + 1) == cells.len() * (width + 1))
            by (nonlinear_arith);
    }
}

/// Where each cell and each line end stands in the text of rows of one
/// width: the cell in column `x` of row `y` at `y * (width + 1) + x`, and the
/// line feed of row `y` at `y * (width + 1) + width`.
pub proof fn lemma_render_rows_at(cells: Seq<Seq<u8>>, width: nat, x: int, y: int)
    requires
        forall|j: int| 0 <= j < cells.len() ==> (#[trigger] cells[j]).len() == width,
        0 <= y < cells.len(),
        0 <= x <= width,
    ensures
        0 <= y * (width + 1) + x < render_rows(cells).len(),
        x < width ==> render_rows(cells)[y * (width + 1) + x] == symbol(cells[y][x]),
        x == width ==> render_rows(cells)[y * (width + 1) + x] == '\n',
    decreases cells.len(),
{
    let above = cells.drop_last();
    let line = render_cells(cells.last()).push('\n');
    assert forall|j: int| 0 <= j < above.len() implies (#[trigger] above[j]).len() == width by {
        assert(above[j] == cells[j]);
    }
    lemma_render_rows_len(above, width);
    lemma_render_rows_len(cells, width);
    assert(cells.last().len() == width);
    let start = above.len() * (width + 1);
    let at = y * (width + 1) + x;
    assert(0 <= y * (width + 1)) by (nonlinear_arith)
        requires
            0 <= y,
    ;
    if y == cells.len() - 1 {
        assert(at == start + x);
        assert(render_rows(cells)[at] == line[x]);
    } else {
        assert((y + 1) * (width + 1) <= above.len() * (width + 1)) by (nonlinear_arith)
            requires
                y + 1 <= above.len(),
        ;
        assert((y + 1) * (width + 1) == y * (width + 1) + (width + 1)) by (nonlinear_arith);
        assert(at < start);
        lemma_render_rows_at(above, width, x, y);
        assert(render_rows(cells)[at] == render_rows(above)[at]);
        assert(above[y] == cells[y]);
    }
}

/// Whether a stored row has `width` cells, each holding a legal colour code.
spec fn row_ok(row: Seq<u8>, width: nat) -> bool {
    &&& row.len() == width
    &&& forall|x: int| 0 <= x < width ==> is_legal_code(#[trigger] row[x] as int)
}

/// Whether the stored rows make up a grid of `width` by `height` legal cells.
spec fn rows_ok(rows: Seq<Vec<u8>>, width: nat, height: nat) -> bool {
    &&& rows.len() == height
    &&& forall|y: int| 0 <= y < height ==> row_ok(#[trigger] rows[y]@, width)
}

/// The one-character text of a colour code.
fn symbol_text(code: u8) -> (text: &'static str)
    ensures
        text@ == seq![symbol(code)],
{
    proof {
        reveal_strlit("R");
        reveal_strlit("G");
        reveal_strlit("C");
    }
    if code == 1 {
        let text = "R";
        assert(text@ =~= seq![symbol(code)]);
        text
    } else if code == 2 {
        let text = "G";
        assert(text@ =~= seq![symbol(code)]);
        text
    } else {
        let text = "C";
        assert(text@ =~= seq![symbol(code)]);
        text
    }
}

/// Replaces one cell of a grid held row by row and leaves every other cell,
/// and the shape of the grid, as they were.
fn write_cell(
    rows: &mut Vec<Vec<u8>>,
    x: usize,
    y: usize,
    colour: u8,
    Ghost(width): Ghost<nat>,
    Ghost(height): Ghost<nat>,
)
    requires
        rows_ok(old(rows)@, width, height),
        x < width,
        y < height,
        is_legal_code(colour as int),
    ensures
        rows_ok(final(rows)@, width, height),
        final(rows)@[y as int]@ == old(rows)@[y as int]@.update(x as int, colour),
        forall|j: int| 0 <= j < height && j != y ==> (#[trigger] final(rows)@[j]) == old(rows)@[j],
    no_unwind
{
    assert(row_ok(rows@[y as int]@, width));
    rows[y][x] = colour;
    assert forall|j: int| 0 <= j < height implies row_ok(#[trigger] rows@[j]@, width) by {
        assert(row_ok(old(rows)@[j]@, width));
    }
}

/// A rectangular grid of colour codes with fixed dimensions.
#[derive(Debug)]
pub struct Matrix {
    width: u32,
    height: u32,
    rows: Vec<Vec<u8>>,
}

impl View for Matrix {
    type V = GridModel;

    closed spec fn view(&self) -> GridModel {
        GridModel {
            width: self.width as nat,
            height: self.height as nat,
            cells: Seq::new(self.rows@.len(), |y: int| self.rows@[y]@),
        }
    }
}

impl Matrix {
    #[verifier::type_invariant]
    spec fn inv(self) -> bool {
        rows_ok(self.rows@, self.width as nat, self.height as nat)
    }

    /// The stored rows of a valid grid show a well-formed model.
    proof fn lemma_view_wf(self)
        requires
            self.inv(),
        ensures
            self@.wf(),
            forall|y: int| 0 <= y < self.height ==> (#[trigger] self.rows@[y])@.len() == self.width,
    {
        assert forall|y: int| 0 <= y < self.height implies (#[trigger] self.rows@[y])@.len()
            == self.width by {
            assert(row_ok(self.rows@[y]@, self.width as nat));
        }
        assert forall|x: int, y: int| self@.contains(x, y) implies is_legal_code(
            #[trigger] self@.cell(x, y) as int,
        ) by {
            assert(row_ok(self.rows@[y]@, self.width as nat));
        }
        assert forall|y: int| 0 <= y < self@.height implies (#[trigger] self@.cells[y]).len()
            == self@.width by {
            assert(row_ok(self.rows@[y]@, self.width as nat));
        }
    }

    /// Creates a grid of `width` by `height` cells, each holding
    /// `default_colour`. Fails when `default_colour` is not a legal code.
    pub fn new(width: u32, height: u32, default_colour: u8) -> (created: Result<
        Matrix,
        DisplayError,
    >)
        ensures
            is_legal_code(default_colour as int) ==> created is Ok && created->Ok_0@
                == GridModel::filled(width as nat, height as nat, default_colour),
            created is Ok ==> created->Ok_0@.wf() && forall|x: int, y: int|
                created->Ok_0@.contains(x, y) ==> #[trigger] created->Ok_0@.cell(x, y)
                    == default_colour,
            !is_legal_code(default_colour as int) ==> created == Err::<Matrix, DisplayError>(
                DisplayError::InvalidColor,
            ),
    {
        if default_colour < 1 || default_colour > 3 {
            return Err(DisplayError::InvalidColor);
        }
        let mut rows: Vec<Vec<u8>> = Vec::new();
        let mut y: u32 = 0;
        while y < height
            invariant
                y <= height,
                rows@.len() == y,
                forall|j: int|
                    0 <= j < y ==> (#[trigger] rows@[j])@ == Seq::new(
                        width as nat,
                        |x: int| default_colour,
                    ),
            decreases height - y,
        {
            let row: Vec<u8> = vec![default_colour; width as usize];
            assert(row@ =~= Seq::new(width as nat, |x: int| default_colour));
            rows.push(row);
            y = y + 1;
        }
        let created = Matrix { width, height, rows };
        proof {
            assert(created@.cells =~= GridModel::filled(
                width as nat,
                height as nat,
                default_colour,
            ).cells);
            GridModel::lemma_filled(width as nat, height as nat, default_colour);
        }
        Ok(created)
    }

    /// The number of columns.
    pub fn width(&self) -> (width: u32)
        ensures
            width == self@.width,
            self@.wf(),
    {
        proof {
            use_type_invariant(self);
            self.lemma_view_wf();
        }
        self.width
    }

    /// The number of rows.
    pub fn height(&self) -> (height: u32)
        ensures
            height == self@.height,
            self@.wf(),
    {
        proof {
            use_type_invariant(self);
            self.lemma_view_wf();
        }
        self.height
    }

    /// The colour code at `(x, y)`, or `None` outside the grid.
    pub fn colour_at(&self, x: u64, y: u64) -> (found: Option<u8>)
        ensures
            self@.contains(x as int, y as int) ==> found == Some(self@.cell(x as int, y as int)),
            !self@.contains(x as int, y as int) ==> found.is_none(),
    {
        proof {
            use_type_invariant(self);
            self.lemma_view_wf();
        }
        if x < self.width as u64 && y < self.height as u64 {
            Some(self.rows[y as usize][x as usize])
        } else {
            None
        }
    }

    /// What `set_colour` answers for a grid, a position and a colour code.
    pub open spec fn set_outcome(grid: GridModel, x: int, y: int, colour: u8) -> Result<
        (),
        DisplayError,
    > {
        if !is_legal_code(colour as int) {
            Err(DisplayError::InvalidColor)
        } else if !grid.contains(x, y) {
            Err(DisplayError::CursorOutOfBounds)
        } else {
            Ok(())
        }
    }

    /// Sets the cell at `(x, y)` to `colour`.
    ///
    /// An illegal `colour` is rejected with `InvalidColor`; a legal colour at
    /// a position outside the grid with `CursorOutOfBounds`. A rejected call
    /// leaves the grid as it was.
    pub fn set_colour(&mut self, x: u64, y: u64, colour: u8) -> (outcome: Result<(), DisplayError>)
        ensures
            final(self)@.wf(),
            outcome == Self::set_outcome(old(self)@, x as int, y as int, colour),
            outcome is Ok ==> final(self)@ == old(self)@.set(x as int, y as int, colour),
            outcome is Err ==> final(self)@ == old(self)@,
        no_unwind
    {
        proof {
            use_type_invariant(&*self);
            self.lemma_view_wf();
        }
        if colour < 1 || colour > 3 {
            return Err(DisplayError::InvalidColor);
        }
        if x >= self.width as u64 || y >= self.height as u64 {
            return Err(DisplayError::CursorOutOfBounds);
        }
        write_cell(
            &mut self.rows,
            x as usize,
            y as usize,
            colour,
            Ghost(self.width as nat),
            Ghost(self.height as nat),
        );
        proof {
            self.lemma_view_wf();
            assert(self@.cells =~= old(self)@.set(x as int, y as int, colour).cells);
        }
        Ok(())
    }

    /// The grid as text: one line per row, one symbol per cell.
    pub fn render(&self) -> (text: String)
        ensures
            text@ == self@.render(),
    {
        proof {
            use_type_invariant(self);
            self.lemma_view_wf();
        }
        let mut text = String::new();
        let mut y: usize = 0;
        while y < self.rows.len()
            invariant
                self.rows@.len() == self@.cells.len(),
                y <= self.rows@.len(),
                forall|j: int|
                    0 <= j < self.rows@.len() ==> (#[trigger] self.rows@[j])@ == self@.cells[j],
                text@ == render_rows(self@.cells.take(y as int)),
            decreases self.rows@.len() - y,
        {
            let row = &self.rows[y];
            let ghost before = text@;
            let mut x: usize = 0;
            while x < row.len()
                invariant
                    x <= row@.len(),
                    text@ == before + render_cells(row@.take(x as int)),
                decreases row@.len() - x,
            {
                text.append(symbol_text(row[x]));
                proof {
                    assert(row@.take(x + 1) =~= row@.take(x as int).push(row@[x as int]));
                    assert(render_cells(row@.take(x + 1)) =~= render_cells(
                        row@.take(x as int),
                    ).push(symbol(row@[x as int])));
                    assert(text@ =~= before + render_cells(row@.take(x + 1)));
                }
                x = x + 1;
            }
            text.append("\n");
            proof {
                reveal_strlit("\n");
                assert(row@.take(x as int) =~= row@);
                let upto = self@.cells.take(y + 1);
                assert(upto.drop_last() =~= self@.cells.take(y as int));
                assert(upto.last() == row@);
                assert(text@ =~= render_rows(upto));
            }
            y = y + 1;
        }
        assert(self@.cells.take(y as int) =~= self@.cells);
        text
    }
}

/// Two grids are equal exactly when their dimensions and all their cells
/// agree.
impl PartialEq for Matrix {
    fn eq(&self, other: &Matrix) -> (equal: bool) {
        proof {
            use_type_invariant(self);
            use_type_invariant(other);
            self.lemma_view_wf();
            other.lemma_view_wf();
        }
        if self.width != other.width || self.height != other.height {
            return false;
        }
        let mut y: usize = 0;
        while y < self.rows.len()
            invariant
                self@.wf(),
                other@.wf(),
                self@.width == other@.width,
                self@.height == other@.height,
                self.rows@.len() == self@.height,
                other.rows@.len() == self@.height,
                y <= self@.height,
                forall|j: int| 0 <= j < y ==> #[trigger] self@.cells[j] == other@.cells[j],
            decreases self@.height - y,
        {
            let mine = &self.rows[y];
            let theirs = &other.rows[y];
            assert(mine@ == self@.cells[y as int]);
            assert(theirs@ == other@.cells[y as int]);
            let mut x: usize = 0;
            while x < mine.len()
                invariant
                    mine@ == self@.cells[y as int],
                    theirs@ == other@.cells[y as int],
                    mine@.len() == self@.width,
                    theirs@.len() == self@.width,
                    x <= self@.width,
                    forall|i: int| 0 <= i < x ==> mine@[i] == theirs@[i],
                decreases self@.width - x,
            {
                if mine[x] != theirs[x] {
                    assert(self@.cells[y as int][x as int] != other@.cells[y as int][x as int]);
                    assert(self@.cells != other@.cells);
                    return false;
                }
                x = x + 1;
            }
            assert(mine@ =~= theirs@);
            y = y + 1;
        }
        assert(self@.cells =~= other@.cells);
        true
    }
}

impl vstd::std_specs::cmp::PartialEqSpecImpl for Matrix {
    open spec fn obeys_eq_spec() -> bool {
        true
    }

    open spec fn eq_spec(&self, other: &Matrix) -> bool {
        self@ == other@
    }
}

impl Eq for Matrix {

}

} // verus!
