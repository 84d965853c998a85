//! The module grid of one symbol and the geometry derived from its dimension.

use vstd::prelude::*;
use vstd::string::StrSliceExecFns;

verus! {

/// The character that marks a dark module in a row of symbol text.
pub const DARK_MARKER: char = 'B';

/// The side length of a symbol of version 1, the smallest.
pub const MIN_DIMENSION: usize = 21;

/// The side length of a symbol of version 40, the largest.
pub const MAX_DIMENSION: usize = 177;

/// One cell of a symbol.
#[derive(Clone, Copy, Debug, PartialEq, Eq, Structural)]
pub enum Module {
    Dark,
    Light,
}

impl Module {
    /// The other value: `Dark` for `Light` and `Light` for `Dark`.
    pub open spec fn flipped(self) -> Module {
        match self {
            Module::Dark => Module::Light,
            Module::Light => Module::Dark,
        }
    }

    /// The bit a module stands for: 1 for `Dark`, 0 for `Light`.
    pub open spec fn bit(self) -> nat {
        match self {
            Module::Dark => 1,
            Module::Light => 0,
        }
    }

    /// The other value.
    pub fn flip(self) -> (r: Module)
        ensures
            r == self.flipped(),
    {
        match self {
            Module::Dark => Module::Light,
            Module::Light => Module::Dark,
        }
    }

    /// The bit that the module stands for.
    pub fn to_bit(self) -> (r: u32)
        ensures
            r == self.bit(),
    {
        match self {
            Module::Dark => 1,
            Module::Light => 0,
        }
    }

    /// Classifies one character of symbol text.
    pub fn from_char(c: char) -> (r: Module)
        ensures
            r == module_of(c),
    {
        if c == DARK_MARKER {
            Module::Dark
        } else {
            Module::Light
        }
    }
}

/// Why symbol text was rejected.
#[derive(Clone, Copy, Debug, PartialEq, Eq, Structural)]
pub enum FormatError {
    /// Some row is not as long as there are rows.
    NotSquare,
    /// The side length is not `17 + 4v` for a version `v` from 1 to 40.
    InvalidDimension,
}

/// A side length that belongs to a version from 1 to 40.
pub open spec fn valid_dimension(n: int) -> bool {
    MIN_DIMENSION <= n <= MAX_DIMENSION && (n - 17) % 4 == 0
}

/// The version that a side length stands for.
pub open spec fn version_of(n: int) -> int {
    (n - 17) / 4
}

/// Every row is as long as there are rows.
pub open spec fn is_square<T>(rows: Seq<Seq<T>>) -> bool {
    forall|r: int| 0 <= r < rows.len() ==> (#[trigger] rows[r]).len() == rows.len()
}

/// A square matrix whose side belongs to a version.
pub open spec fn well_formed(g: Seq<Seq<Module>>) -> bool {
    is_square(g) && valid_dimension(g.len() as int)
}

/// Column `p.0` of row `p.1` is a module of `g`.
pub open spec fn in_bounds(g: Seq<Seq<Module>>, p: (int, int)) -> bool {
    0 <= p.1 < g.len() && 0 <= p.0 < g[p.1].len()
}

/// The module that a character of symbol text stands for.
pub open spec fn module_of(c: char) -> Module {
    if c == DARK_MARKER {
        Module::Dark
    } else {
        Module::Light
    }
}

/// The modules that one row of symbol text stands for.
pub open spec fn modules_of_row(row: Seq<char>) -> Seq<Module> {
    Seq::new(row.len(), |i: int| module_of(row[i]))
}

/// The modules that symbol text stands for, row by row.
pub open spec fn modules_of(text: Seq<Seq<char>>) -> Seq<Seq<Module>> {
    Seq::new(text.len(), |r: int| modules_of_row(text[r]))
}

/// The characters of each row.
pub open spec fn text_of(rows: Seq<String>) -> Seq<Seq<char>> {
    Seq::new(rows.len(), |r: int| rows[r]@)
}

/// What loading symbol text yields: the modules, or the reason for rejecting
/// the text. A text that is not square is reported as such whatever its size.
pub open spec fn load_outcome(text: Seq<Seq<char>>) -> Result<Seq<Seq<Module>>, FormatError> {
    if !is_square(text) {
        Err(FormatError::NotSquare)
    } else if !valid_dimension(text.len() as int) {
        Err(FormatError::InvalidDimension)
    } else {
        Ok(modules_of(text))
    }
}

/// The square module matrix of one symbol. Rows run top to bottom, the
/// modules of a row left to right.
#[derive(Debug)]
pub struct SymbolGrid {
    modules: Vec<Vec<Module>>,
}

impl View for SymbolGrid {
    type V = Seq<Seq<Module>>;

    closed spec fn view(&self) -> Seq<Seq<Module>> {
        Seq::new(self.modules@.len(), |r: int| self.modules@[r]@)
    }
}

impl SymbolGrid {
    /// The invariant of every grid that `load` hands out.
    pub open spec fn wf(&self) -> bool {
        well_formed(self@)
    }

    /// Builds the grid of a symbol from its text, one string per row.
    pub fn load(rows: &Vec<String>) -> (res: Result<SymbolGrid, FormatError>)
        ensures
            match res {
                Ok(g) => g.wf() && load_outcome(text_of(rows@)) == Ok::<Seq<Seq<Module>>, FormatError>(g@),
                Err(e) => load_outcome(text_of(rows@)) == Err::<Seq<Seq<Module>>, FormatError>(e),
            },
    {
        let n = rows.len();
        let ghost text = text_of(rows@);
        let mut r: usize = 0;
        while r < n
            invariant
                n == rows.len(),
                r <= n,
                text == text_of(rows@),
                forall|k: int| 0 <= k < r ==> (#[trigger] text[k]).len() == n,
            decreases n - r,
        {
            if rows[r].as_str().unicode_len() != n {
                assert(text[r as int].len() != text.len());
                return Err(FormatError::NotSquare);
            }
            r += 1;
        }
        if n < MIN_DIMENSION || n > MAX_DIMENSION || (n - 17) % 4 != 0 {
            return Err(FormatError::InvalidDimension);
        }
        let mut modules: Vec<Vec<Module>> = Vec::new();
        let mut r: usize = 0;
        while r < n
            invariant
                n == rows.len(),
                r <= n,
                text == text_of(rows@),
                is_square(text),
                modules@.len() == r,
                forall|k: int| 0 <= k < r ==> (#[trigger] modules@[k])@ == modules_of_row(text[k]),
            decreases n - r,
        {
            let line = rows[r].as_str();
            assert(line@ == text[r as int] && text[r as int].len() == text.len());
            let mut row: Vec<Module> = Vec::new();
            let mut c: usize = 0;
            while c < n
                invariant
                    c <= n,
                    r < text.len(),
                    line@ == text[r as int],
                    line@.len() == n,
                    row@.len() == c,
                    forall|k: int| 0 <= k < c ==> #[trigger] row@[k] == module_of(line@[k]),
                decreases n - c,
            {
                row.push(Module::from_char(line.get_char(c)));
                c += 1;
            }
            assert(row@ =~= modules_of_row(text[r as int]));
            modules.push(row);
            r += 1;
        }
        let g = SymbolGrid { modules };
        assert(g@ =~= modules_of(text));
        Ok(g)
    }

    /// The side length of the grid.
    pub fn dimension(&self) -> (n: usize)
        ensures
            n == self@.len(),
    {
        self.modules.len()
    }

    /// The version, recomputed from the side length.
    pub fn version(&self) -> (v: u32)
        requires
            self.wf(),
        ensures
            v == version_of(self@.len() as int),
            1 <= v <= 40,
    {
        ((self.modules.len() - 17) / 4) as u32
    }

    /// The module in row `row` and column `col`, if the grid has one there.
    pub fn get(&self, row: usize, col: usize) -> (m: Option<Module>)
        ensures
            m == if row < self@.len() && col < self@[row as int].len() {
                Some(self@[row as int][col as int])
            } else {
                None
            },
    {
        if row < self.modules.len() && col < self.modules[row].len() {
            Some(self.modules[row][col])
        } else {
            None
        }
    }

    /// The module at column `x` of row `y`, if the grid has one there.
    pub fn module_at(&self, x: i64, y: i64) -> (m: Option<Module>)
        ensures
            m == if in_bounds(self@, (x as int, y as int)) {
                Some(self@[y as int][x as int])
            } else {
                None
            },
    {
        if x < 0 || y < 0 || y as u64 >= self.modules.len() as u64 {
            return None;
        }
        let row = &self.modules[y as usize];
        if x as u64 >= row.len() as u64 {
            None
        } else {
            Some(row[x as usize])
        }
    }

    /// Flips one module and leaves the others as they are.
    pub fn flip_at(&mut self, row: usize, col: usize)
        requires
            row < old(self)@.len(),
            col < old(self)@[row as int].len(),
        ensures
            final(self)@ == old(self)@.update(
                row as int,
                old(self)@[row as int].update(col as int, old(self)@[row as int][col as int].flipped()),
            ),
    {
        let m = self.modules[row][col];
        self.modules[row][col] = m.flip();
        assert(self@ =~= old(self)@.update(
            row as int,
            old(self)@[row as int].update(col as int, old(self)@[row as int][col as int].flipped()),
        ));
    }
}

/// A square text of side `17 + 4v`, for a version `v` from 1 to 40, loads, and
/// the version recomputed from what was loaded is `v`.
pub proof fn lemma_version_derivation(text: Seq<Seq<char>>, v: int)
    requires
        1 <= v <= 40,
        is_square(text),
        text.len() == 17 + 4 * v,
    ensures
        load_outcome(text) is Ok,
        load_outcome(text)->Ok_0.len() == text.len(),
        version_of(load_outcome(text)->Ok_0.len() as int) == v,
{
}

/// A square text whose side minus 17 is no multiple of 4 is rejected as
/// `InvalidDimension`.
pub proof fn lemma_dimension_rejected(text: Seq<Seq<char>>)
    requires
        is_square(text),
        (text.len() - 17) % 4 != 0,
    ensures
        load_outcome(text) == Err::<Seq<Seq<Module>>, FormatError>(FormatError::InvalidDimension),
{
}

} // verus!
