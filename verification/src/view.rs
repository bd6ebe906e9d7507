use vstd::prelude::*;

verus! {

/// A grid of cells, row major: the outer vector holds one inner vector
/// per screen row.
pub type Matrix<T> = Vec<Vec<T>>;

/// Immutable bounds of the play field, set once at startup.
#[derive(Clone, Copy, PartialEq, Eq, Structural, Debug)]
pub struct Dimension {
    pub width: usize,
    pub height: usize,
}

/// The screen coordinate of one hole's center in the rendering grid.
#[derive(Clone, Copy, PartialEq, Eq, Structural, Debug)]
pub struct Hole {
    pub x: usize,
    pub y: usize,
}

/// The transient target of one hole: its face and whether it currently
/// shows and can be struck.
pub struct Marmot {
    pub view: String,
    pub appeared: bool,
}

impl Marmot {
    /// A fresh target: not appeared, wearing the mole face.
    pub fn new() -> (r: Marmot)
        ensures
            !r.appeared,
            r.view@ == mole_face(),
    {
        proof {
            reveal_strlit("🐭");
        }
        Marmot { view: String::from_str("🐭"), appeared: false }
    }
}

/// The glyph a revealed target shows on the grid.
pub open spec fn mole_face() -> Seq<char> {
    seq!['🐭']
}

/// The mathematical view of a matrix: a sequence of rows, each a
/// sequence of cells.
pub open spec fn grid_view<T>(v: Matrix<T>) -> Seq<Seq<T>> {
    Seq::new(v@.len(), |i: int| v@[i]@)
}

/// A grid of `h` rows by `w` columns, every cell holding `v`.
pub open spec fn const_grid<T>(h: int, w: int, v: T) -> Seq<Seq<T>> {
    Seq::new(h as nat, |i: int| Seq::new(w as nat, |j: int| v))
}

/// The grid after one cell is overwritten.
pub open spec fn cell_write(grid: Seq<Seq<char>>, y: int, x: int, ch: char) -> Seq<Seq<char>> {
    grid.update(y, grid[y].update(x, ch))
}

/// The grid after `text` is laid over row `top` starting at column `left`;
/// every cell outside that span keeps its old character.
pub open spec fn written(grid: Seq<Seq<char>>, top: int, left: int, text: Seq<char>) -> Seq<
    Seq<char>,
> {
    grid.update(
        top,
        Seq::new(
            grid[top].len(),
            |j: int|
                if left <= j < left + text.len() {
                    text[j - left]
                } else {
                    grid[top][j]
                },
        ),
    )
}

/// Writes `text` horizontally into the character grid at row `top`,
/// starting at column `left`.
pub fn write_chars(views: &mut Matrix<char>, left: usize, top: usize, text: &Vec<char>)
    requires
        top < old(views)@.len(),
        left + text@.len() <= old(views)@[top as int]@.len(),
    ensures
        grid_view(*final(views)) == written(grid_view(*old(views)), top as int, left as int, text@),
        final(views)@.len() == old(views)@.len(),
        forall|i: int|
            0 <= i < old(views)@.len() ==> #[trigger] final(views)@[i]@.len() == old(
                views,
            )@[i]@.len(),
{
    let n = text.len();
    let row_len = views[top].len();
    for i in 0..n
        invariant
            n == text@.len(),
            top < views@.len(),
            views@.len() == old(views)@.len(),
            row_len == views@[top as int]@.len(),
            left + n <= row_len,
            forall|k: int| 0 <= k < views@.len() && k != top ==> views@[k] == old(views)@[k],
            views@[top as int]@.len() == old(views)@[top as int]@.len(),
            forall|j: int|
                left <= j < left + i ==> views@[top as int]@[j] == text@[j - left],
            forall|j: int|
                0 <= j < views@[top as int]@.len() && !(left <= j < left + i) ==> views@[top
                    as int]@[j] == old(views)@[top as int]@[j],
    {
        views[top][left + i] = text[i];
    }
    proof {
        assert(grid_view(*views) =~~= written(
            grid_view(*old(views)),
            top as int,
            left as int,
            text@,
        ));
    }
}

/// Overwrites one cell of the character grid.
pub fn set_cell(views: &mut Matrix<char>, x: usize, y: usize, ch: char)
    requires
        y < old(views)@.len(),
        x < old(views)@[y as int]@.len(),
    ensures
        grid_view(*final(views)) == cell_write(grid_view(*old(views)), y as int, x as int, ch),
        final(views)@.len() == old(views)@.len(),
        forall|i: int|
            0 <= i < old(views)@.len() ==> #[trigger] final(views)@[i]@.len() == old(
                views,
            )@[i]@.len(),
{
    views[y][x] = ch;
    proof {
        assert(grid_view(*views) =~~= cell_write(
            grid_view(*old(views)),
            y as int,
            x as int,
            ch,
        ));
    }
}

/// Writes the characters of `words` into the grid at row `top`, starting
/// at column `left`, one cell per character.
pub fn write_words(views: &mut Matrix<char>, left: usize, top: usize, words: String)
    requires
        top < old(views)@.len(),
        left + words@.len() <= old(views)@[top as int]@.len(),
    ensures
        grid_view(*final(views)) == written(grid_view(*old(views)), top as int, left as int, words@),
        final(views)@.len() == old(views)@.len(),
        forall|i: int|
            0 <= i < old(views)@.len() ==> #[trigger] final(views)@[i]@.len() == old(
                views,
            )@[i]@.len(),
{
    let s = words.as_str();
    let n = s.unicode_len();
    let mut text: Vec<char> = Vec::new();
    for i in 0..n
        invariant
            n == s@.len(),
            text@ == s@.take(i as int),
    {
        text.push(s.get_char(i));
        proof {
            assert(text@ =~= s@.take(i + 1));
        }
    }
    proof {
        assert(text@ =~= words@);
    }
    write_chars(views, left, top, &text);
}

/// The sixteen-entry lookup from a wall bitmask to its box-drawing glyph.
/// Bit 0 marks a wall face toward the top, bit 1 toward the bottom, bit 2
/// to the left and bit 3 to the right; index 0 is blank.
pub open spec fn glyph_of(mask: usize) -> char {
    if mask == 1 {
        '上'
    } else if mask == 2 {
        '下'
    } else if mask == 3 {
        '║'
    } else if mask == 4 {
        '左'
    } else if mask == 5 {
        '╚'
    } else if mask == 6 {
        '╔'
    } else if mask == 7 {
        '╠'
    } else if mask == 8 {
        '右'
    } else if mask == 9 {
        '╝'
    } else if mask == 10 {
        '╗'
    } else if mask == 11 {
        '╣'
    } else if mask == 12 {
        '═'
    } else if mask == 13 {
        '╩'
    } else if mask == 14 {
        '╦'
    } else if mask == 15 {
        '╬'
    } else {
        ' '
    }
}

fn glyph_char(mask: usize) -> (r: char)
    ensures
        r == glyph_of(mask),
{
    if mask == 1 {
        '上'
    } else if mask == 2 {
        '下'
    } else if mask == 3 {
        '║'
    } else if mask == 4 {
        '左'
    } else if mask == 5 {
        '╚'
    } else if mask == 6 {
        '╔'
    } else if mask == 7 {
        '╠'
    } else if mask == 8 {
        '右'
    } else if mask == 9 {
        '╝'
    } else if mask == 10 {
        '╗'
    } else if mask == 11 {
        '╣'
    } else if mask == 12 {
        '═'
    } else if mask == 13 {
        '╩'
    } else if mask == 14 {
        '╦'
    } else if mask == 15 {
        '╬'
    } else {
        ' '
    }
}

/// The whole glyph grid a wall-bitmask grid renders to, cell by cell.
pub open spec fn glyph_grid(masks: Seq<Seq<usize>>) -> Seq<Seq<char>> {
    Seq::new(masks.len(), |i: int| Seq::new(masks[i].len(), |j: int| glyph_of(masks[i][j])))
}

/// Which bound of a rectangular block was out of order or out of range.
#[derive(Clone, Copy, PartialEq, Eq, Structural, Debug)]
pub enum GeometryError {
    TopNotAboveBottom,
    BottomOutOfRange,
    LeftNotBeforeRight,
    RightOutOfRange,
}

/// The outcome of checking a block's bounds: a block must satisfy
/// `top < bottom < height` and `left < right < width`; the error names
/// the first bound, in that order, that fails.
pub open spec fn block_check(size: Dimension, top: int, bottom: int, left: int, right: int) -> Result<
    (),
    GeometryError,
> {
    if top >= bottom {
        Err(GeometryError::TopNotAboveBottom)
    } else if bottom >= size.height {
        Err(GeometryError::BottomOutOfRange)
    } else if left >= right {
        Err(GeometryError::LeftNotBeforeRight)
    } else if right >= size.width {
        Err(GeometryError::RightOutOfRange)
    } else {
        Ok(())
    }
}

/// The wall bits one block contributes to cell `(i, j)`: junction bits at
/// the four corners (6, 10, 5, 9), vertical-wall bits (3) along the left
/// and right edges, horizontal-wall bits (12) along the top and bottom
/// edges, and nothing elsewhere.
pub open spec fn block_delta(top: int, bottom: int, left: int, right: int, i: int, j: int) -> usize {
    if i == top && j == left {
        6
    } else if i == top && j == right {
        10
    } else if i == bottom && j == left {
        5
    } else if i == bottom && j == right {
        9
    } else if (j == left || j == right) && top < i < bottom {
        3
    } else if (i == top || i == bottom) && left < j < right {
        12
    } else {
        0
    }
}

fn block_delta_exec(top: usize, bottom: usize, left: usize, right: usize, i: usize, j: usize) -> (d:
    usize)
    ensures
        d == block_delta(top as int, bottom as int, left as int, right as int, i as int, j as int),
        d < 16,
{
    if i == top && j == left {
        6
    } else if i == top && j == right {
        10
    } else if i == bottom && j == left {
        5
    } else if i == bottom && j == right {
        9
    } else if (j == left || j == right) && top < i && i < bottom {
        3
    } else if (i == top || i == bottom) && left < j && j < right {
        12
    } else {
        0
    }
}

/// The mask grid after one block's border is merged in: every cell gains
/// the block's wall bits by bitwise OR and loses nothing.
pub open spec fn apply_block(
    g: Seq<Seq<usize>>,
    top: int,
    bottom: int,
    left: int,
    right: int,
) -> Seq<Seq<usize>> {
    Seq::new(
        g.len(),
        |i: int|
            Seq::new(
                g[i].len(),
                |j: int| g[i][j] | block_delta(top, bottom, left, right, i, j),
            ),
    )
}

/// After a block is built, every interior edge cell carries its two wall
/// bits and every corner its junction bits, whatever was on the grid
/// before: OR only adds bits.
pub proof fn lemma_block_sets_bits(g: Seq<Seq<usize>>, w: int, t: int, b: int, l: int, r: int)
    requires
        0 <= t < b < g.len(),
        0 <= l < r < w,
        forall|i: int| 0 <= i < g.len() ==> g[i].len() == w,
    ensures
        forall|i: int|
            t < i < b ==> #[trigger] apply_block(g, t, b, l, r)[i][l] & 3 == 3 && apply_block(
                g,
                t,
                b,
                l,
                r,
            )[i][r] & 3 == 3,
        forall|j: int|
            l < j < r ==> #[trigger] apply_block(g, t, b, l, r)[t][j] & 12 == 12 && apply_block(
                g,
                t,
                b,
                l,
                r,
            )[b][j] & 12 == 12,
        apply_block(g, t, b, l, r)[t][l] & 6 == 6,
        apply_block(g, t, b, l, r)[t][r] & 10 == 10,
        apply_block(g, t, b, l, r)[b][l] & 5 == 5,
        apply_block(g, t, b, l, r)[b][r] & 9 == 9,
{
    let a = apply_block(g, t, b, l, r);
    assert forall|i: int| t < i < b implies #[trigger] a[i][l] & 3 == 3 && a[i][r] & 3 == 3 by {
        let ml = g[i][l];
        let mr = g[i][r];
        assert(a[i][l] == ml | 3);
        assert(a[i][r] == mr | 3);
        assert((ml | 3) & 3 == 3) by (bit_vector);
        assert((mr | 3) & 3 == 3) by (bit_vector);
    }
    assert forall|j: int| l < j < r implies #[trigger] a[t][j] & 12 == 12 && a[b][j] & 12 == 12 by {
        let mt = g[t][j];
        let mb = g[b][j];
        assert(a[t][j] == mt | 12);
        assert(a[b][j] == mb | 12);
        assert((mt | 12) & 12 == 12) by (bit_vector);
        assert((mb | 12) & 12 == 12) by (bit_vector);
    }
    let c1 = g[t][l];
    let c2 = g[t][r];
    let c3 = g[b][l];
    let c4 = g[b][r];
    assert((c1 | 6) & 6 == 6) by (bit_vector);
    assert((c2 | 10) & 10 == 10) by (bit_vector);
    assert((c3 | 5) & 5 == 5) by (bit_vector);
    assert((c4 | 9) & 9 == 9) by (bit_vector);
}

/// Wall bits already on a cell survive any later block: overlapping
/// rectangles accumulate junctions instead of overwriting them.
pub proof fn lemma_block_preserves_bits(
    g: Seq<Seq<usize>>,
    t: int,
    b: int,
    l: int,
    r: int,
    i: int,
    j: int,
    m: usize,
)
    requires
        0 <= i < g.len(),
        0 <= j < g[i].len(),
        g[i][j] & m == m,
    ensures
        apply_block(g, t, b, l, r)[i][j] & m == m,
{
    let x = g[i][j];
    let d = block_delta(t, b, l, r, i, j);
    assert(apply_block(g, t, b, l, r)[i][j] == x | d);
    assert(x & m == m ==> (x | d) & m == m) by (bit_vector);
}

/// Two blocks commute: bitwise OR is commutative and associative, so the
/// mask grid after building two blocks does not depend on their order.
pub proof fn lemma_blocks_commute(
    g: Seq<Seq<usize>>,
    t1: int,
    b1: int,
    l1: int,
    r1: int,
    t2: int,
    b2: int,
    l2: int,
    r2: int,
)
    ensures
        apply_block(apply_block(g, t1, b1, l1, r1), t2, b2, l2, r2) == apply_block(
            apply_block(g, t2, b2, l2, r2),
            t1,
            b1,
            l1,
            r1,
        ),
{
    let ab = apply_block(apply_block(g, t1, b1, l1, r1), t2, b2, l2, r2);
    let ba = apply_block(apply_block(g, t2, b2, l2, r2), t1, b1, l1, r1);
    assert forall|i: int, j: int|
        0 <= i < g.len() && 0 <= j < g[i].len() implies #[trigger] ab[i][j] == #[trigger] ba[i][j] by {
        let x = g[i][j];
        let d1 = block_delta(t1, b1, l1, r1, i, j);
        let d2 = block_delta(t2, b2, l2, r2, i, j);
        assert((x | d1) | d2 == (x | d2) | d1) by (bit_vector);
    }
    assert(ab =~~= ba);
}

/// The logical character grid plus the wall-bitmask grid it is derived
/// from, the registry of hole coordinates, and each hole's target.
pub struct GameView {
    pub points: Matrix<usize>,
    pub views: Matrix<char>,
    pub hole_points: Vec<Hole>,
    pub hole_marmots: Vec<Marmot>,
    pub size: Dimension,
}

impl GameView {
    /// Both grids fill the play field exactly, every wall bitmask indexes
    /// the sixteen-entry glyph table, and every registered hole lies on
    /// the field.
    pub open spec fn wf(self) -> bool {
        &&& self.points@.len() == self.size.height
        &&& self.views@.len() == self.size.height
        &&& (forall|i: int|
            0 <= i < self.size.height ==> #[trigger] self.points@[i]@.len() == self.size.width)
        &&& (forall|i: int|
            0 <= i < self.size.height ==> #[trigger] self.views@[i]@.len() == self.size.width)
        &&& (forall|i: int, j: int|
            0 <= i < self.size.height && 0 <= j < self.size.width ==> #[trigger] self.points@[i]@[j]
                < 16)
        &&& (forall|k: int|
            0 <= k < self.hole_points@.len() ==> #[trigger] self.hole_points@[k].x
                < self.size.width && self.hole_points@[k].y < self.size.height)
    }

    /// An empty play field of the given size: no walls, a blank glyph
    /// grid, and no holes registered yet.
    pub fn new(size: &Dimension) -> (r: GameView)
        ensures
            r.wf(),
            r.size == *size,
            grid_view(r.points) == const_grid(size.height as int, size.width as int, 0usize),
            grid_view(r.views) == const_grid(size.height as int, size.width as int, ' '),
            r.hole_points@.len() == 0,
            r.hole_marmots@.len() == 0,
    {
        let points = filled_grid(size.height, size.width, 0usize);
        let views = filled_grid(size.height, size.width, ' ');
        proof {
            assert forall|i: int, j: int|
                0 <= i < size.height && 0 <= j < size.width implies #[trigger] points@[i]@[j]
                < 16 by {
                assert(points@[i]@ == Seq::new(size.width as nat, |c: int| 0usize));
            }
        }
        GameView {
            points,
            views,
            hole_points: Vec::new(),
            hole_marmots: Vec::new(),
            size: Dimension { width: size.width, height: size.height },
        }
    }

    /// Registers one hole's center coordinate.
    pub fn set_hole_points(&mut self, point: Hole)
        requires
            old(self).wf(),
            point.x < old(self).size.width,
            point.y < old(self).size.height,
        ensures
            final(self).wf(),
            final(self).hole_points@ == old(self).hole_points@.push(point),
            final(self).points == old(self).points,
            final(self).views == old(self).views,
            final(self).hole_marmots == old(self).hole_marmots,
            final(self).size == old(self).size,
    {
        self.hole_points.push(point);
    }

    /// Registers one hole's target.
    pub fn set_hole_marmots(&mut self, marmot: Marmot)
        requires
            old(self).wf(),
        ensures
            final(self).wf(),
            final(self).hole_marmots@ == old(self).hole_marmots@.push(marmot),
            final(self).points == old(self).points,
            final(self).views == old(self).views,
            final(self).hole_points == old(self).hole_points,
            final(self).size == old(self).size,
    {
        self.hole_marmots.push(marmot);
    }

    /// Recomputes the glyph grid from the wall-bitmask grid through the
    /// sixteen-entry lookup, cell by cell.
    pub fn update_block_char(&self) -> (r: Matrix<char>)
        ensures
            grid_view(r) == glyph_grid(grid_view(self.points)),
    {
        let mut char_vec: Vec<Vec<char>> = Vec::new();
        let h = self.points.len();
        for i in 0..h
            invariant
                h == self.points@.len(),
                char_vec@.len() == i,
                forall|k: int|
                    0 <= k < i ==> #[trigger] char_vec@[k]@ == glyph_grid(grid_view(self.points))[k],
        {
            let mut row: Vec<char> = Vec::new();
            let w = self.points[i].len();
            for j in 0..w
                invariant
                    i < self.points@.len(),
                    w == self.points@[i as int]@.len(),
                    row@.len() == j,
                    forall|c: int|
                        0 <= c < j ==> #[trigger] row@[c] == glyph_of(
                            self.points@[i as int]@[c],
                        ),
            {
                row.push(glyph_char(self.points[i][j]));
            }
            proof {
                assert(row@ =~= glyph_grid(grid_view(self.points))[i as int]);
            }
            char_vec.push(row);
        }
        proof {
            assert(grid_view(char_vec) =~~= glyph_grid(grid_view(self.points)));
        }
        char_vec
    }

    /// Draws one rectangular border on the shared wall-bitmask grid and
    /// re-renders the glyph grid. A block whose bounds are out of order
    /// or off the field is refused before any cell changes; a valid one
    /// merges its wall bits into every border cell by bitwise OR, so
    /// overlapping blocks form junctions instead of overwriting.
    pub fn build_block(&mut self, top: usize, bottom: usize, left: usize, right: usize) -> (r:
        Result<(), GeometryError>)
        requires
            old(self).wf(),
        ensures
            final(self).wf(),
            r == block_check(old(self).size, top as int, bottom as int, left as int, right as int),
            r is Err ==> *final(self) == *old(self),
            r is Ok ==> grid_view(final(self).points) == apply_block(
                grid_view(old(self).points),
                top as int,
                bottom as int,
                left as int,
                right as int,
            ),
            r is Ok ==> grid_view(final(self).views) == glyph_grid(grid_view(final(self).points)),
            final(self).size == old(self).size,
            final(self).hole_points == old(self).hole_points,
            final(self).hole_marmots == old(self).hole_marmots,
    {
        let width = self.size.width;
        let height = self.size.height;
        if top >= bottom {
            return Err(GeometryError::TopNotAboveBottom);
        }
        if bottom >= height {
            return Err(GeometryError::BottomOutOfRange);
        }
        if left >= right {
            return Err(GeometryError::LeftNotBeforeRight);
        }
        if right >= width {
            return Err(GeometryError::RightOutOfRange);
        }
        let ghost g0 = grid_view(old(self).points);
        for i in 0..height
            invariant
                self.size == old(self).size,
                self.views == old(self).views,
                self.hole_points == old(self).hole_points,
                self.hole_marmots == old(self).hole_marmots,
                width == self.size.width,
                height == self.size.height,
                top < bottom < height,
                left < right < width,
                old(self).wf(),
                g0 == grid_view(old(self).points),
                self.points@.len() == height,
                forall|k: int|
                    0 <= k < height ==> #[trigger] self.points@[k]@.len() == width,
                forall|k: int| i <= k < height ==> self.points@[k] == old(self).points@[k],
                forall|k: int, c: int|
                    0 <= k < i && 0 <= c < width ==> #[trigger] self.points@[k]@[c] == (
                    g0[k][c] | block_delta(
                        top as int,
                        bottom as int,
                        left as int,
                        right as int,
                        k,
                        c,
                    )),
        {
            for j in 0..width
                invariant
                    self.size == old(self).size,
                    self.views == old(self).views,
                    self.hole_points == old(self).hole_points,
                    self.hole_marmots == old(self).hole_marmots,
                    width == self.size.width,
                    height == self.size.height,
                    i < height,
                    top < bottom < height,
                    left < right < width,
                    old(self).wf(),
                    g0 == grid_view(old(self).points),
                    self.points@.len() == height,
                    forall|k: int|
                        0 <= k < height ==> #[trigger] self.points@[k]@.len() == width,
                    forall|k: int| i < k < height ==> self.points@[k] == old(self).points@[k],
                    forall|c: int| j <= c < width ==> self.points@[i as int]@[c] == g0[i as int][c],
                    forall|k: int, c: int|
                        0 <= k < i && 0 <= c < width ==> #[trigger] self.points@[k]@[c] == (
                        g0[k][c] | block_delta(
                            top as int,
                            bottom as int,
                            left as int,
                            right as int,
                            k,
                            c,
                        )),
                    forall|c: int|
                        0 <= c < j ==> #[trigger] self.points@[i as int]@[c] == (
                        g0[i as int][c] | block_delta(
                            top as int,
                            bottom as int,
                            left as int,
                            right as int,
                            i as int,
                            c,
                        )),
            {
                let d = block_delta_exec(top, bottom, left, right, i, j);
                let m = self.points[i][j];
                self.points[i][j] = m | d;
            }
        }
        proof {
            assert(grid_view(self.points) =~~= apply_block(
                g0,
                top as int,
                bottom as int,
                left as int,
                right as int,
            ));
            assert forall|i: int, j: int|
                0 <= i < self.size.height && 0 <= j < self.size.width implies #[trigger] self.points@[i]@[j]
                < 16 by {
                let x = g0[i][j];
                let d = block_delta(
                    top as int,
                    bottom as int,
                    left as int,
                    right as int,
                    i,
                    j,
                );
                assert(x < 16);
                assert(d < 16);
                assert(x < 16 && d < 16 ==> (x | d) < 16) by (bit_vector);
            }
        }
        let new_views = self.update_block_char();
        self.views = new_views;
        proof {
            assert(grid_view(self.views).len() == self.views@.len());
            assert(glyph_grid(grid_view(self.points)).len() == grid_view(self.points).len());
            assert(self.views@.len() == self.size.height);
            assert forall|i: int| 0 <= i < self.size.height implies #[trigger] self.views@[i]@.len()
                == self.size.width by {
                assert(grid_view(self.views)[i] == self.views@[i]@);
                assert(grid_view(self.points)[i] == self.points@[i]@);
                assert(glyph_grid(grid_view(self.points))[i].len() == grid_view(self.points)[i].len());
            }
        }
        Ok(())
    }
}

/// A vector of `w` copies of `v`.
fn filled_row<T: Copy>(w: usize, v: T) -> (r: Vec<T>)
    ensures
        r@ == Seq::new(w as nat, |i: int| v),
{
    let mut r: Vec<T> = Vec::new();
    for i in 0..w
        invariant
            r@.len() == i,
            forall|k: int| 0 <= k < i ==> #[trigger] r@[k] == v,
    {
        r.push(v);
    }
    proof {
        assert(r@ =~= Seq::new(w as nat, |i: int| v));
    }
    r
}

/// A matrix of `h` rows by `w` columns, every cell holding `v`.
fn filled_grid<T: Copy>(h: usize, w: usize, v: T) -> (r: Matrix<T>)
    ensures
        grid_view(r) == const_grid(h as int, w as int, v),
        r@.len() == h,
        forall|i: int| 0 <= i < h ==> #[trigger] r@[i]@ == Seq::new(w as nat, |j: int| v),
{
    let mut r: Matrix<T> = Vec::new();
    for i in 0..h
        invariant
            r@.len() == i,
            forall|k: int| 0 <= k < i ==> #[trigger] r@[k]@ == Seq::new(w as nat, |j: int| v),
    {
        r.push(filled_row(w, v));
    }
    proof {
        assert(grid_view(r) =~~= const_grid(h as int, w as int, v));
    }
    r
}

} // verus!
