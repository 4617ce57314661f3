use vstd::prelude::*;

verus! {

/// Number of cells held by lines `0..lines` of a packed lower triangle without
/// its diagonal: line `l` holds the `l` cells `(l, 0) .. (l, l - 1)`, so this is
/// `lines * (lines - 1) / 2`.
pub open spec fn triangle(lines: nat) -> nat
    decreases lines,
{
    if lines == 0 {
        0
    } else {
        triangle((lines - 1) as nat) + (lines - 1) as nat
    }
}

/// Position of the cell `(line, column)` in the packed storage.
pub open spec fn cell_index(line: int, column: int) -> int {
    triangle(line as nat) + column
}

/// The closed form of `triangle`.
pub proof fn lemma_triangle_closed(lines: nat)
    ensures
        2 * triangle(lines) == lines * (lines - 1),
    decreases lines,
{
    if lines > 0 {
        let prev: nat = (lines - 1) as nat;
        lemma_triangle_closed(prev);
        let t: int = triangle(lines) as int;
        let tp: int = triangle(prev) as int;
        assert(t == tp + prev);
        assert(2 * t == lines * (lines - 1)) by (nonlinear_arith)
            requires
                2 * tp == prev * (prev - 1),
                t == tp + prev,
                prev == lines - 1,
        ;
    } else {
        assert(lines * (lines - 1) == 0) by (nonlinear_arith)
            requires
                lines == 0,
        ;
    }
}

/// `triangle` grows with its argument, by at least `a` past `a`.
pub proof fn lemma_triangle_grows(a: nat, b: nat)
    requires
        a < b,
    ensures
        triangle(a) + a <= triangle(b),
    decreases b,
{
    if a + 1 < b {
        lemma_triangle_grows(a, (b - 1) as nat);
    }
}

/// Every valid cell of a triangle of `lines` lines lies inside its storage.
pub proof fn lemma_cell_in_storage(lines: nat, line: int, column: int)
    requires
        0 <= column < line < lines,
    ensures
        0 <= cell_index(line, column) < triangle(lines),
{
    lemma_triangle_grows(line as nat, lines);
}

/// Two valid cells stored at the same position are the same cell.
pub proof fn lemma_cell_index_injective(a: (usize, usize), b: (usize, usize))
    requires
        a.1 < a.0,
        b.1 < b.0,
        cell_index(a.0 as int, a.1 as int) == cell_index(b.0 as int, b.1 as int),
    ensures
        a == b,
{
    if a.0 < b.0 {
        lemma_triangle_grows(a.0 as nat, b.0 as nat);
    } else if b.0 < a.0 {
        lemma_triangle_grows(b.0 as nat, a.0 as nat);
    }
}

/// Every storage position of a triangle of `lines` lines holds some valid
/// cell.
pub proof fn lemma_position_has_cell(lines: nat, p: int)
    requires
        0 <= p < triangle(lines),
    ensures
        exists|line: int, column: int|
            0 <= column < line < lines && #[trigger] cell_index(line, column) == p,
    decreases lines,
{
    let prev = (lines - 1) as nat;
    if p < triangle(prev) {
        lemma_position_has_cell(prev, p);
    } else {
        let column = p - triangle(prev);
        assert(cell_index(prev as int, column) == p);
    }
}

/// Computes `triangle(lines)` without leaving machine integers.
pub fn line_jump(lines: usize) -> (r: usize)
    requires
        triangle(lines as nat) <= usize::MAX,
    ensures
        r == triangle(lines as nat),
{
    proof {
        lemma_triangle_closed(lines as nat);
    }
    if lines == 0 {
        return 0;
    }
    if lines % 2 == 0 {
        let half: usize = lines / 2;
        assert(half * (lines - 1) == triangle(lines as nat)) by (nonlinear_arith)
            requires
                2 * triangle(lines as nat) == lines * (lines - 1),
                lines == 2 * half,
        ;
        half * (lines - 1)
    } else {
        let half: usize = (lines - 1) / 2;
        assert(lines * half == triangle(lines as nat)) by (nonlinear_arith)
            requires
                2 * triangle(lines as nat) == lines * (lines - 1),
                lines - 1 == 2 * half,
        ;
        lines * half
    }
}

/// An access outside the stored lower triangle.
#[derive(Debug, Clone, Copy, PartialEq, Eq, Structural)]
pub enum MatrixIndexError {
    /// The column is not strictly below the line: the diagonal and the upper
    /// half are never stored.
    ColumnNotBelowLine,
    /// The line is past the last stored line.
    LineOutOfRange,
}

/// A table that cannot be read.
#[derive(Debug, Clone, Copy, PartialEq, Eq, Structural)]
pub enum MatrixFormatError {
    /// A value is not a decimal integer that fits in a `usize`.
    NotAnInteger,
    /// Found this many values where the lines call for another count.
    WrongValueCount(usize),
}

/// A symmetric table without diagonal, stored as its lower triangle: the cell
/// `(line, column)`, `column < line < number_of_lines`, sits at position
/// `line * (line - 1) / 2 + column` of a flat vector.
pub struct TriangularMatrix<T> {
    data: Vec<T>,
    number_of_lines: usize,
}

impl<T> View for TriangularMatrix<T> {
    type V = Seq<T>;

    /// The cells in row-major order.
    closed spec fn view(&self) -> Seq<T> {
        self.data@
    }
}

impl<T> TriangularMatrix<T> {
    /// The number of lines, counting line `0`, which holds no cell.
    pub closed spec fn lines(&self) -> nat {
        self.number_of_lines as nat
    }

    /// The storage holds exactly one value per cell.
    pub open spec fn wf(&self) -> bool {
        &&& self@.len() == triangle(self.lines())
        &&& triangle(self.lines()) <= usize::MAX
    }

    pub open spec fn valid_index(&self, line: int, column: int) -> bool {
        0 <= column < line < self.lines()
    }

    pub fn number_of_lines(&self) -> (r: usize)
        ensures
            r == self.lines(),
    {
        self.number_of_lines
    }

    /// The value stored for the pair `(line, column)`.
    pub open spec fn entry(&self, line: int, column: int) -> T {
        self@[cell_index(line, column)]
    }

    /// Builds the table from its cells in row-major order; the count of values
    /// must be `number_of_lines * (number_of_lines - 1) / 2`.
    pub fn from_values(values: Vec<T>, number_of_lines: usize) -> (r: Result<
        TriangularMatrix<T>,
        MatrixFormatError,
    >)
        ensures
            values@.len() == triangle(number_of_lines as nat) <==> r is Ok,
            r matches Ok(m) ==> m@ == values@ && m.lines() == number_of_lines && m.wf(),
            r matches Err(e) ==> e == MatrixFormatError::WrongValueCount(values.len()),
    {
        let n: usize = values.len();
        if !line_count_fits(n, number_of_lines) {
            return Err(MatrixFormatError::WrongValueCount(n));
        }
        let expected: usize = line_jump(number_of_lines);
        if expected != n {
            return Err(MatrixFormatError::WrongValueCount(n));
        }
        Ok(TriangularMatrix { data: values, number_of_lines })
    }

    /// Tells whether `(line, column)` is a stored cell, and why not.
    pub fn check_index(&self, line: usize, column: usize) -> (r: Result<(), MatrixIndexError>)
        ensures
            r is Ok <==> self.valid_index(line as int, column as int),
            column >= line ==> r == Err::<(), MatrixIndexError>(
                MatrixIndexError::ColumnNotBelowLine,
            ),
            column < line && line >= self.lines() ==> r == Err::<(), MatrixIndexError>(
                MatrixIndexError::LineOutOfRange,
            ),
    {
        if column >= line {
            return Err(MatrixIndexError::ColumnNotBelowLine);
        }
        if line >= self.number_of_lines {
            return Err(MatrixIndexError::LineOutOfRange);
        }
        Ok(())
    }

    pub fn get(&self, line: usize, column: usize) -> (r: &T)
        requires
            self.wf(),
            self.valid_index(line as int, column as int),
        ensures
            *r == self.entry(line as int, column as int),
    {
        let p: usize = self.position(line, column);
        &self.data[p]
    }

    pub fn set(&mut self, line: usize, column: usize, value: T)
        requires
            old(self).wf(),
            old(self).valid_index(line as int, column as int),
        ensures
            final(self).wf(),
            final(self).lines() == old(self).lines(),
            final(self)@ == old(self)@.update(cell_index(line as int, column as int), value),
    {
        let p: usize = self.position(line, column);
        self.data.set(p, value);
    }

    fn position(&self, line: usize, column: usize) -> (p: usize)
        requires
            self.wf(),
            self.valid_index(line as int, column as int),
        ensures
            p == cell_index(line as int, column as int),
            p < self@.len(),
    {
        let stored: usize = self.data.len();
        proof {
            lemma_cell_in_storage(self.lines(), line as int, column as int);
            lemma_triangle_grows(line as nat, self.lines());
        }
        line_jump(line) + column
    }

    /// Walks every cell in row-major order, from `(1, 0)`.
    pub fn enumerate_indexes(&self) -> (r: TriangularMultiIndexEnumerate<'_, T>)
        requires
            self.wf(),
        ensures
            r.wf(),
            r.position() == 0,
            r.cells() == self@,
            r.lines() == self.lines(),
    {
        assert(triangle(1) == 0) by {
            reveal_with_fuel(triangle, 2);
        }
        TriangularMultiIndexEnumerate {
            index: (1, 0),
            number_of_lines: self.number_of_lines,
            matrix: &self.data,
        }
    }

    /// Walks the cells in row-major order, from `(line, column)` on.
    pub fn enumerate_from(&self, line: usize, column: usize) -> (r: TriangularMultiIndexEnumerate<
        '_,
        T,
    >)
        requires
            self.wf(),
            column < line,
        ensures
            r.wf(),
            r.position() == cell_index(line as int, column as int),
            r.cells() == self@,
            r.lines() == self.lines(),
    {
        TriangularMultiIndexEnumerate {
            index: (line, column),
            number_of_lines: self.number_of_lines,
            matrix: &self.data,
        }
    }
}

/// Whether `triangle(lines)` could equal a vector length of `n`: false only
/// where the triangle is past `usize::MAX`.
fn line_count_fits(n: usize, lines: usize) -> (r: bool)
    ensures
        r ==> triangle(lines as nat) <= usize::MAX,
        !r ==> triangle(lines as nat) != n,
{
    proof {
        lemma_triangle_closed(lines as nat);
    }
    if lines == 0 {
        return true;
    }
    let a: u128 = lines as u128;
    assert(a * (a - 1) <= u128::MAX) by (nonlinear_arith)
        requires
            a <= usize::MAX,
            a >= 1,
    ;
    let doubled: u128 = a * (a - 1);
    doubled / 2 <= usize::MAX as u128
}

/// Some valid cell of `m` is stored at position `p` and reads `values[p]`.
pub open spec fn read_back_at(m: TriangularMatrix<usize>, values: Seq<usize>, p: int) -> bool {
    exists|line: int, column: int|
        #![trigger cell_index(line, column)]
        m.valid_index(line, column) && cell_index(line, column) == p && m.entry(line, column)
            == values[p]
}

/// Loading a table from values and reading every cell back gives the values
/// in row-major order: the cell `(line, column)` reads value number
/// `line * (line - 1) / 2 + column`, distinct cells read distinct positions,
/// and every value is read by some cell.
pub proof fn lemma_round_trip(values: Seq<usize>, m: TriangularMatrix<usize>)
    requires
        m.wf(),
        m@ == values,
    ensures
        forall|line: int, column: int|
            #![trigger cell_index(line, column)]
            m.valid_index(line, column) ==> 0 <= cell_index(line, column) < values.len()
                && m.entry(line, column) == values[cell_index(line, column)],
        forall|a: (usize, usize), b: (usize, usize)|
            m.valid_index(a.0 as int, a.1 as int) && m.valid_index(b.0 as int, b.1 as int)
                && #[trigger] cell_index(a.0 as int, a.1 as int) == #[trigger] cell_index(
                b.0 as int,
                b.1 as int,
            ) ==> a == b,
        forall|p: int| 0 <= p < values.len() ==> #[trigger] read_back_at(m, values, p),
{
    assert forall|line: int, column: int|
        #![trigger cell_index(line, column)]
        m.valid_index(line, column) implies 0 <= cell_index(line, column) < values.len() && m.entry(
            line,
            column,
        ) == values[cell_index(line, column)] by {
        lemma_cell_in_storage(m.lines(), line, column);
    }
    assert forall|a: (usize, usize), b: (usize, usize)|
        m.valid_index(a.0 as int, a.1 as int) && m.valid_index(b.0 as int, b.1 as int)
            && #[trigger] cell_index(a.0 as int, a.1 as int) == #[trigger] cell_index(
            b.0 as int,
            b.1 as int,
        ) implies a == b by {
        lemma_cell_index_injective(a, b);
    }
    assert forall|p: int| 0 <= p < values.len() implies #[trigger] read_back_at(m, values, p) by {
        lemma_position_has_cell(m.lines(), p);
        let (line, column) = choose|line: int, column: int|
            0 <= column < line < m.lines() && #[trigger] cell_index(line, column) == p;
        assert(m.valid_index(line, column) && cell_index(line, column) == p && m.entry(line, column)
            == values[p]);
    }
}

impl TriangularMatrix<bool> {
    /// A table of `number_of_lines` lines with every cell `false`.
    pub fn filled_false(number_of_lines: usize) -> (r: TriangularMatrix<bool>)
        requires
            triangle(number_of_lines as nat) <= usize::MAX,
        ensures
            r.wf(),
            r.lines() == number_of_lines,
            forall|p: int| 0 <= p < r@.len() ==> r@[p] == false,
    {
        let capacity: usize = line_jump(number_of_lines);
        let mut data: Vec<bool> = Vec::with_capacity(capacity);
        let mut i: usize = 0;
        while i < capacity
            invariant
                i <= capacity,
                data@.len() == i,
                forall|p: int| 0 <= p < i ==> data@[p] == false,
            decreases capacity - i,
        {
            data.push(false);
            i = i + 1;
        }
        TriangularMatrix { data, number_of_lines }
    }
}

impl TriangularMatrix<usize> {
    /// The largest stored value (`0` for a table without cells).
    pub open spec fn cell_max(&self) -> int {
        self@.map_values(|x: usize| x as int).max()
    }

    /// The smallest stored value (`0` for a table without cells).
    pub open spec fn cell_min(&self) -> int {
        self@.map_values(|x: usize| x as int).min()
    }

    /// A table of `number_of_lines` lines with every cell `0`.
    pub fn filled_zeros(number_of_lines: usize) -> (r: TriangularMatrix<usize>)
        requires
            triangle(number_of_lines as nat) <= usize::MAX,
        ensures
            r.wf(),
            r.lines() == number_of_lines,
            forall|p: int| 0 <= p < r@.len() ==> r@[p] == 0,
    {
        let capacity: usize = line_jump(number_of_lines);
        let mut data: Vec<usize> = Vec::with_capacity(capacity);
        let mut i: usize = 0;
        while i < capacity
            invariant
                i <= capacity,
                data@.len() == i,
                forall|p: int| 0 <= p < i ==> data@[p] == 0,
            decreases capacity - i,
        {
            data.push(0);
            i = i + 1;
        }
        TriangularMatrix { data, number_of_lines }
    }

    /// The largest stored value.
    pub fn get_max(&self) -> (r: &usize)
        requires
            self@.len() > 0,
        ensures
            self@.contains(*r),
            forall|p: int| 0 <= p < self@.len() ==> self@[p] <= *r,
            *r == self.cell_max(),
    {
        let mut best: usize = 0;
        let mut i: usize = 1;
        while i < self.data.len()
            invariant
                1 <= i <= self.data@.len(),
                best < i,
                forall|p: int| 0 <= p < i ==> self.data@[p] <= self.data@[best as int],
            decreases self.data@.len() - i,
        {
            if self.data[i] > self.data[best] {
                best = i;
            }
            i = i + 1;
        }
        proof {
            let ints = self@.map_values(|x: usize| x as int);
            ints.max_ensures();
            let q = choose|q: int| 0 <= q < ints.len() && ints[q] == ints.max();
            assert(ints[best as int] == self.data@[best as int]);
            assert(self.data@[q] <= self.data@[best as int]);
        }
        &self.data[best]
    }

    /// The smallest stored value.
    pub fn get_min(&self) -> (r: &usize)
        requires
            self@.len() > 0,
        ensures
            self@.contains(*r),
            forall|p: int| 0 <= p < self@.len() ==> *r <= self@[p],
            *r == self.cell_min(),
    {
        let mut best: usize = 0;
        let mut i: usize = 1;
        while i < self.data.len()
            invariant
                1 <= i <= self.data@.len(),
                best < i,
                forall|p: int| 0 <= p < i ==> self.data@[best as int] <= self.data@[p],
            decreases self.data@.len() - i,
        {
            if self.data[i] < self.data[best] {
                best = i;
            }
            i = i + 1;
        }
        proof {
            let ints = self@.map_values(|x: usize| x as int);
            ints.min_ensures();
            let q = choose|q: int| 0 <= q < ints.len() && ints[q] == ints.min();
            assert(ints[best as int] == self.data@[best as int]);
            assert(self.data@[best as int] <= self.data@[q]);
        }
        &self.data[best]
    }
}

/// A cursor over the cells of a `TriangularMatrix`, in row-major order.
pub struct TriangularMultiIndexEnumerate<'a, T> {
    index: (usize, usize),
    number_of_lines: usize,
    matrix: &'a Vec<T>,
}

impl<'a, T> TriangularMultiIndexEnumerate<'a, T> {
    /// The cells walked over.
    pub closed spec fn cells(&self) -> Seq<T> {
        self.matrix@
    }

    /// The number of lines of the table walked over.
    pub closed spec fn lines(&self) -> nat {
        self.number_of_lines as nat
    }

    /// The cell the next call hands out, as a storage position.
    pub closed spec fn position(&self) -> int {
        cell_index(self.index.0 as int, self.index.1 as int)
    }

    pub closed spec fn wf(&self) -> bool {
        &&& self.index.1 < self.index.0
        &&& self.matrix@.len() == triangle(self.number_of_lines as nat)
    }

    /// Whether cells are left to walk over.
    pub open spec fn has_next(&self) -> bool {
        self.position() < self.cells().len()
    }

    /// Hands out the next cell as `(line, column, value)`, or `None` once
    /// every cell has been handed out.
    pub fn next(&mut self) -> (r: Option<(usize, usize, &'a T)>)
        requires
            old(self).wf(),
        ensures
            final(self).wf(),
            final(self).cells() == old(self).cells(),
            final(self).lines() == old(self).lines(),
            r is Some <==> old(self).has_next(),
            r matches Some(t) ==> {
                &&& final(self).position() == old(self).position() + 1
                &&& old(self).valid_index(t.0 as int, t.1 as int)
                &&& cell_index(t.0 as int, t.1 as int) == old(self).position()
                &&& *t.2 == old(self).cells()[old(self).position()]
            },
            r is None ==> final(self).position() == old(self).position(),
    {
        let line: usize = self.index.0;
        let column: usize = self.index.1;
        let stored: usize = self.matrix.len();
        proof {
            if line >= self.number_of_lines {
                if line > self.number_of_lines {
                    lemma_triangle_grows(self.number_of_lines as nat, line as nat);
                }
            } else {
                lemma_cell_in_storage(self.number_of_lines as nat, line as int, column as int);
            }
        }
        if line >= self.number_of_lines {
            return None;
        }
        proof {
            lemma_triangle_grows(line as nat, self.number_of_lines as nat);
        }
        let jump: usize = line_jump(line);
        let value: &'a T = &self.matrix[jump + column];
        let next_column: usize = column + 1;
        if next_column == line {
            self.index = (line + 1, 0);
        } else {
            self.index = (line, next_column);
        }
        Some((line, column, value))
    }

    pub open spec fn valid_index(&self, line: int, column: int) -> bool {
        0 <= column < line < self.lines()
    }
}

} // verus!
