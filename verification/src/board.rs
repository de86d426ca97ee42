use vstd::prelude::*;

verus! {

/// One palette entry of the canvas: a color id with its name and RGB components.
pub struct Color {
    pub id: u8,
    pub name: String,
    pub red: u8,
    pub green: u8,
    pub blue: u8,
}

/// A matrix is square when every row is exactly as long as the column count.
pub open spec fn is_square(m: Seq<Seq<u8>>) -> bool {
    forall|i: int| 0 <= i < m.len() ==> (#[trigger] m[i]).len() == m.len()
}

/// The view of a vector of rows as a mathematical matrix.
pub open spec fn rows_view(rows: Seq<Vec<u8>>) -> Seq<Seq<u8>> {
    rows.map_values(|r: Vec<u8>| r@)
}

/// Rotation of a square matrix by a quarter turn clockwise:
/// the rotated matrix holds `m[y][x]` at row `x`, column `len - 1 - y`.
pub open spec fn rotate_cw(m: Seq<Seq<u8>>) -> Seq<Seq<u8>> {
    Seq::new(m.len(), |i: int| Seq::new(m.len(), |j: int| m[m.len() - 1 - j][i]))
}

/// Horizontal mirror of a square matrix: row order kept, each row reversed.
pub open spec fn mirror_h(m: Seq<Seq<u8>>) -> Seq<Seq<u8>> {
    Seq::new(m.len(), |i: int| Seq::new(m.len(), |j: int| m[i][m.len() - 1 - j]))
}

/// The canonical orientation transform: rotate a quarter turn clockwise,
/// then mirror horizontally. Every consumer coordinate is expressed in the
/// frame this transform produces.
pub open spec fn spec_normalize(m: Seq<Seq<u8>>) -> Seq<Seq<u8>> {
    mirror_h(rotate_cw(m))
}

/// The composed transform reads the source at transposed coordinates.
pub proof fn lemma_normalize_is_transpose(m: Seq<Seq<u8>>, i: int, j: int)
    requires
        0 <= i < m.len(),
        0 <= j < m.len(),
    ensures
        spec_normalize(m)[i][j] == m[j][i],
{
}

/// Law: the orientation transform is an involution. Applying the
/// rotate-then-mirror transform to its own output restores the original
/// square matrix, so normalizing twice is the identity.
pub proof fn lemma_normalize_involutive(m: Seq<Seq<u8>>)
    requires
        is_square(m),
    ensures
        spec_normalize(spec_normalize(m)) == m,
{
    let t = spec_normalize(m);
    assert(t.len() == m.len());
    assert forall|i: int| 0 <= i < t.len() implies (#[trigger] t[i]).len() == t.len() by {
        assert(t[i] == mirror_h(rotate_cw(m))[i]);
    }
    assert(spec_normalize(spec_normalize(m)) =~~= m);
}

/// The canonical board: a square grid of color ids, already in the
/// canonical orientation.
pub struct Board {
    cells: Vec<Vec<u8>>,
}

impl View for Board {
    type V = Seq<Seq<u8>>;

    closed spec fn view(&self) -> Seq<Seq<u8>> {
        rows_view(self.cells@)
    }
}

impl Board {
    /// A board is well formed when its grid is square.
    pub open spec fn wf(&self) -> bool {
        is_square(self@)
    }

    /// Side length of the square grid.
    pub open spec fn spec_side(&self) -> nat {
        self@.len()
    }

    /// Builds a board from raw rows; succeeds exactly when the rows form a
    /// square matrix.
    pub fn from_rows(rows: Vec<Vec<u8>>) -> (r: Option<Board>)
        ensures
            match r {
                Some(b) => b@ == rows_view(rows@) && b.wf(),
                None => !is_square(rows_view(rows@)),
            },
    {
        let n = rows.len();
        let mut i: usize = 0;
        while i < n
            invariant
                n == rows.len(),
                i <= n,
                forall|k: int| 0 <= k < i ==> (#[trigger] rows@[k])@.len() == n,
            decreases n - i,
        {
            if rows[i].len() != n {
                assert(rows_view(rows@)[i as int].len() != rows_view(rows@).len());
                return None;
            }
            i += 1;
        }
        assert(forall|k: int|
            0 <= k < n ==> (#[trigger] rows_view(rows@)[k]).len() == rows_view(rows@).len());
        Some(Board { cells: rows })
    }

    /// Side length of the grid.
    pub fn side(&self) -> (n: usize)
        ensures
            n == self.spec_side(),
    {
        self.cells.len()
    }

    /// The color id currently on cell `(x, y)`.
    pub fn get(&self, x: usize, y: usize) -> (c: u8)
        requires
            self.wf(),
            x < self.spec_side(),
            y < self.spec_side(),
        ensures
            c == self@[y as int][x as int],
    {
        proof {
            assert(self@[y as int] == self.cells@[y as int]@);
        }
        self.cells[y][x]
    }

    /// Applies the canonical orientation transform to this board: rotate a
    /// quarter turn clockwise, then mirror horizontally.
    pub fn normalize_orientation(&self) -> (r: Board)
        requires
            self.wf(),
        ensures
            r@ == spec_normalize(self@),
            r.wf(),
            r.spec_side() == self.spec_side(),
    {
        let n = self.cells.len();
        let ghost m = self@;

        let mut rotated: Vec<Vec<u8>> = Vec::new();
        let mut i: usize = 0;
        while i < n
            invariant
                self.wf(),
                n == self.spec_side(),
                m == self@,
                i <= n,
                rotated@.len() == i,
                forall|a: int| 0 <= a < i ==> (#[trigger] rotated@[a])@ == rotate_cw(m)[a],
            decreases n - i,
        {
            let mut row: Vec<u8> = Vec::new();
            let mut j: usize = 0;
            while j < n
                invariant
                    self.wf(),
                    n == self.spec_side(),
                    m == self@,
                    i < n,
                    j <= n,
                    row@.len() == j,
                    forall|b: int| 0 <= b < j ==> row@[b] == rotate_cw(m)[i as int][b],
                decreases n - j,
            {
                proof {
                    assert(self@[n - 1 - j] == self.cells@[n - 1 - j]@);
                }
                row.push(self.cells[n - 1 - j][i]);
                j += 1;
            }
            assert(row@ =~= rotate_cw(m)[i as int]);
            rotated.push(row);
            i += 1;
        }
        assert(rows_view(rotated@) =~~= rotate_cw(m));

        let mut mirrored: Vec<Vec<u8>> = Vec::new();
        let mut y: usize = 0;
        while y < n
            invariant
                n == rotated@.len(),
                rows_view(rotated@) == rotate_cw(m),
                n == m.len(),
                forall|a: int| 0 <= a < n ==> (#[trigger] rotated@[a])@.len() == n,
                y <= n,
                mirrored@.len() == y,
                forall|a: int| 0 <= a < y ==> (#[trigger] mirrored@[a])@ == spec_normalize(m)[a],
            decreases n - y,
        {
            let mut row: Vec<u8> = Vec::new();
            let mut x: usize = 0;
            while x < n
                invariant
                    n == rotated@.len(),
                    rows_view(rotated@) == rotate_cw(m),
                    n == m.len(),
                    forall|a: int| 0 <= a < n ==> (#[trigger] rotated@[a])@.len() == n,
                    y < n,
                    x <= n,
                    row@.len() == x,
                    forall|b: int| 0 <= b < x ==> row@[b] == spec_normalize(m)[y as int][b],
                decreases n - x,
            {
                assert(rotated@[y as int]@ == rotate_cw(m)[y as int]);
                row.push(rotated[y][n - 1 - x]);
                x += 1;
            }
            assert(row@ =~= spec_normalize(m)[y as int]);
            mirrored.push(row);
            y += 1;
        }
        let out = Board { cells: mirrored };
        assert(out@ =~~= spec_normalize(m));
        assert forall|a: int| 0 <= a < out@.len() implies (#[trigger] out@[a]).len()
            == out@.len() by {
            assert(out@[a] == spec_normalize(m)[a]);
        }
        out
    }
}

} // verus!
