//! Dense arrays of samples, stored by `ndarray`.
//!
//! Verus cannot look inside an `ndarray` array. Each array type here
//! therefore has two uninterpreted descriptions, its shape and its cells in
//! row-major order, and a handful of unverified bindings that relate the
//! `ndarray` operations to those descriptions. Everything else in the crate
//! is proved against them.

use vstd::prelude::*;

verus! {

/// Why a shape and a buffer do not make an array.
#[derive(Clone, Copy, Debug, PartialEq, Eq)]
pub enum ShapeFault {
    /// The product of the axis lengths cannot be addressed.
    TooLarge,
    /// The shape asks for `expected` cells and the buffer holds `actual`.
    CellCount { expected: usize, actual: usize },
}

/// The error that `ndarray` reports when a shape does not fit a buffer.
#[verifier::external_type_specification]
#[verifier::external_body]
pub struct ExShapeError(ndarray::ShapeError);

/// A three-dimensional array of samples.
#[verifier::external_body]
pub struct Cube {
    cells: ndarray::Array3<i16>,
}

/// A two-dimensional array of integers.
#[verifier::external_body]
pub struct Matrix {
    cells: ndarray::Array2<i32>,
}

/// The axis lengths of a cube, outermost first.
pub uninterp spec fn cube_shape(c: Cube) -> (nat, nat, nat);

/// The cells of a cube in row-major order.
pub uninterp spec fn cube_cells(c: Cube) -> Seq<i16>;

/// The axis lengths of a matrix: rows, then columns.
pub uninterp spec fn matrix_shape(m: Matrix) -> (nat, nat);

/// The cells of a matrix in row-major order.
pub uninterp spec fn matrix_cells(m: Matrix) -> Seq<i32>;

/// An axis length, with the empty axis counted as one.
pub open spec fn at_least_one(d: int) -> int {
    if d == 0 {
        1
    } else {
        d
    }
}

/// Whether `ndarray` accepts a three-axis shape for a buffer of `len` cells.
pub open spec fn cube_fits(d0: int, d1: int, d2: int, len: int) -> bool {
    &&& at_least_one(d0) * at_least_one(d1) * at_least_one(d2) <= isize::MAX
    &&& d0 * d1 * d2 == len
}

/// Whether `ndarray` accepts a two-axis shape for a buffer of `len` cells.
pub open spec fn matrix_fits(rows: int, cols: int, len: int) -> bool {
    &&& at_least_one(rows) * at_least_one(cols) <= isize::MAX
    &&& rows * cols == len
}

/// `ndarray::Array3::from_shape_vec` with a plain three-axis shape. It
/// succeeds exactly when the product of the non-empty axes fits in `isize`
/// and the product of all axes is the buffer's length; the array then has
/// that shape and holds the buffer in row-major order.
#[verifier::external_body]
fn cube_from_shape_vec(d0: usize, d1: usize, d2: usize, v: Vec<i16>) -> (r: Result<
    Cube,
    ndarray::ShapeError,
>)
    ensures
        r.is_ok() <==> cube_fits(d0 as int, d1 as int, d2 as int, v@.len() as int),
        r matches Ok(c) ==> cube_shape(c) == (d0 as nat, d1 as nat, d2 as nat) && cube_cells(c)
            == v@,
{
    match ndarray::Array3::from_shape_vec((d0, d1, d2), v) {
        Ok(cells) => Ok(Cube { cells }),
        Err(e) => Err(e),
    }
}

/// `ndarray::ArrayBase::dim` on a three-axis array: the axis lengths. The
/// array holds as many cells as their product, and the product of its
/// non-empty axes fits in `isize`, which every `ndarray` constructor checks.
#[verifier::external_body]
fn cube_dim(c: &Cube) -> (r: (usize, usize, usize))
    ensures
        cube_shape(*c) == (r.0 as nat, r.1 as nat, r.2 as nat),
        cube_fits(r.0 as int, r.1 as int, r.2 as int, cube_cells(*c).len() as int),
{
    c.cells.dim()
}

/// Indexing of a three-axis `ndarray` array by `[i, j, k]`, which panics
/// out of bounds: the cell at row-major position `(i * d1 + j) * d2 + k`.
#[verifier::external_body]
fn cube_index(c: &Cube, i: usize, j: usize, k: usize) -> (r: i16)
    requires
        i < cube_shape(*c).0,
        j < cube_shape(*c).1,
        k < cube_shape(*c).2,
    ensures
        r == cube_cells(*c)[(i * cube_shape(*c).1 + j) * cube_shape(*c).2 + k],
{
    c.cells[[i, j, k]]
}

/// `ndarray::Array2::from_shape_vec` with a plain two-axis shape. It
/// succeeds exactly when the product of the non-empty axes fits in `isize`
/// and the product of both axes is the buffer's length; the array then has
/// that shape and holds the buffer in row-major order.
#[verifier::external_body]
fn matrix_from_shape_vec(rows: usize, cols: usize, v: Vec<i32>) -> (r: Result<
    Matrix,
    ndarray::ShapeError,
>)
    ensures
        r.is_ok() <==> matrix_fits(rows as int, cols as int, v@.len() as int),
        r matches Ok(m) ==> matrix_shape(m) == (rows as nat, cols as nat) && matrix_cells(m)
            == v@,
{
    match ndarray::Array2::from_shape_vec((rows, cols), v) {
        Ok(cells) => Ok(Matrix { cells }),
        Err(e) => Err(e),
    }
}

/// `ndarray::ArrayBase::dim` on a two-axis array: the axis lengths. The
/// array holds as many cells as their product, and the product of its
/// non-empty axes fits in `isize`, which every `ndarray` constructor checks.
#[verifier::external_body]
fn matrix_dim(m: &Matrix) -> (r: (usize, usize))
    ensures
        matrix_shape(*m) == (r.0 as nat, r.1 as nat),
        matrix_fits(r.0 as int, r.1 as int, matrix_cells(*m).len() as int),
{
    m.cells.dim()
}

/// Indexing of a two-axis `ndarray` array by `[i, j]`, which panics out of
/// bounds: the cell at row-major position `i * cols + j`.
#[verifier::external_body]
fn matrix_index(m: &Matrix, i: usize, j: usize) -> (r: i32)
    requires
        i < matrix_shape(*m).0,
        j < matrix_shape(*m).1,
    ensures
        r == matrix_cells(*m)[i * matrix_shape(*m).1 + j],
{
    m.cells[[i, j]]
}

/// The axis length that stands for `d` in the size check.
fn nonempty(d: usize) -> (r: usize)
    ensures
        r == at_least_one(d as int),
{
    if d == 0 {
        1
    } else {
        d
    }
}

/// A product of three axis lengths, or `None` when it exceeds `isize::MAX`.
fn bounded_product(a: usize, b: usize, c: usize) -> (r: Option<usize>)
    requires
        a >= 1,
        b >= 1,
        c >= 1,
    ensures
        r matches Some(p) ==> p == a * b * c && p <= isize::MAX,
        r is None ==> a * b * c > isize::MAX,
{
    match a.checked_mul(b) {
        None => {
            assert(a * b * c >= a * b) by (nonlinear_arith)
                requires
                    a >= 1,
                    b >= 1,
                    c >= 1,
            ;
            None
        },
        Some(ab) => match ab.checked_mul(c) {
            None => None,
            Some(abc) => {
                if abc > isize::MAX as usize {
                    None
                } else {
                    Some(abc)
                }
            },
        },
    }
}

impl Cube {
    /// The axis lengths, outermost first.
    pub open spec fn shape(&self) -> (nat, nat, nat) {
        cube_shape(*self)
    }

    /// The cells in row-major order.
    pub open spec fn flat(&self) -> Seq<i16> {
        cube_cells(*self)
    }

    /// The cell at `[i, j, k]`.
    pub open spec fn at(&self, i: int, j: int, k: int) -> i16 {
        cube_cells(*self)[(i * cube_shape(*self).1 + j) * cube_shape(*self).2 + k]
    }

    /// The cells `[i, j, ..]`: one trace of one acquisition.
    pub open spec fn lane(&self, i: int, j: int) -> Seq<i16> {
        Seq::new(self.shape().2, |k: int| self.at(i, j, k))
    }

    /// The cells `[i, .., k]`: one sample instant across all traces.
    pub open spec fn cross(&self, i: int, k: int) -> Seq<i16> {
        Seq::new(self.shape().1, |j: int| self.at(i, j, k))
    }

    /// Makes a cube of shape `d0 x d1 x d2` from its cells in row-major
    /// order.
    pub fn from_shape_vec(d0: usize, d1: usize, d2: usize, v: Vec<i16>) -> (r: Result<
        Cube,
        ShapeFault,
    >)
        ensures
            r is Ok <==> cube_fits(d0 as int, d1 as int, d2 as int, v@.len() as int),
            match r {
                Ok(c) => {
                    &&& cube_fits(d0 as int, d1 as int, d2 as int, v@.len() as int)
                    &&& c.shape() == (d0 as nat, d1 as nat, d2 as nat)
                    &&& c.flat() == v@
                },
                Err(ShapeFault::TooLarge) => at_least_one(d0 as int) * at_least_one(d1 as int)
                    * at_least_one(d2 as int) > isize::MAX,
                Err(ShapeFault::CellCount { expected, actual }) => {
                    &&& at_least_one(d0 as int) * at_least_one(d1 as int) * at_least_one(
                        d2 as int,
                    ) <= isize::MAX
                    &&& expected == d0 * d1 * d2
                    &&& actual == v@.len()
                    &&& expected != actual
                },
            },
    {
        let full = match bounded_product(nonempty(d0), nonempty(d1), nonempty(d2)) {
            None => {
                return Err(ShapeFault::TooLarge);
            },
            Some(p) => p,
        };
        let expected: usize = if d0 == 0 || d1 == 0 || d2 == 0 {
            assert(d0 * d1 * d2 == 0) by (nonlinear_arith)
                requires
                    d0 == 0 || d1 == 0 || d2 == 0,
            ;
            0
        } else {
            full
        };
        let actual: usize = v.len();
        if expected != actual {
            return Err(ShapeFault::CellCount { expected, actual });
        }
        match cube_from_shape_vec(d0, d1, d2, v) {
            Ok(c) => Ok(c),
            Err(_) => Err(ShapeFault::TooLarge),
        }
    }

    /// The axis lengths, outermost first.
    pub fn dim(&self) -> (r: (usize, usize, usize))
        ensures
            self.shape() == (r.0 as nat, r.1 as nat, r.2 as nat),
            cube_fits(r.0 as int, r.1 as int, r.2 as int, self.flat().len() as int),
    {
        cube_dim(self)
    }

    /// The cell at `[i, j, k]`, or `None` outside the cube.
    pub fn get(&self, i: usize, j: usize, k: usize) -> (r: Option<i16>)
        ensures
            r == if i < self.shape().0 && j < self.shape().1 && k < self.shape().2 {
                Some(self.at(i as int, j as int, k as int))
            } else {
                None
            },
    {
        let (d0, d1, d2) = cube_dim(self);
        if i < d0 && j < d1 && k < d2 {
            Some(cube_index(self, i, j, k))
        } else {
            None
        }
    }

    /// Copies out the cells `[i, j, ..]`.
    pub fn lane_to_vec(&self, i: usize, j: usize) -> (r: Vec<i16>)
        requires
            i < self.shape().0,
            j < self.shape().1,
        ensures
            r@ == self.lane(i as int, j as int),
    {
        let (_, _, d2) = cube_dim(self);
        let mut out: Vec<i16> = Vec::with_capacity(d2);
        let mut k: usize = 0;
        while k < d2
            invariant
                i < self.shape().0,
                j < self.shape().1,
                d2 == self.shape().2,
                k <= d2,
                out@.len() == k,
                forall|q: int| 0 <= q < k ==> out@[q] == self.at(i as int, j as int, q),
            decreases d2 - k,
        {
            out.push(cube_index(self, i, j, k));
            k += 1;
        }
        assert(out@ =~= self.lane(i as int, j as int));
        out
    }

    /// Copies out the cells `[i, .., k]`.
    pub fn cross_to_vec(&self, i: usize, k: usize) -> (r: Vec<i16>)
        requires
            i < self.shape().0,
            k < self.shape().2,
        ensures
            r@ == self.cross(i as int, k as int),
    {
        let (_, d1, _) = cube_dim(self);
        let mut out: Vec<i16> = Vec::with_capacity(d1);
        let mut j: usize = 0;
        while j < d1
            invariant
                i < self.shape().0,
                k < self.shape().2,
                d1 == self.shape().1,
                j <= d1,
                out@.len() == j,
                forall|q: int| 0 <= q < j ==> out@[q] == self.at(i as int, q, k as int),
            decreases d1 - j,
        {
            out.push(cube_index(self, i, j, k));
            j += 1;
        }
        assert(out@ =~= self.cross(i as int, k as int));
        out
    }
}

impl Matrix {
    /// The axis lengths: rows, then columns.
    pub open spec fn shape(&self) -> (nat, nat) {
        matrix_shape(*self)
    }

    /// The cells in row-major order.
    pub open spec fn flat(&self) -> Seq<i32> {
        matrix_cells(*self)
    }

    /// The cell at `[i, j]`.
    pub open spec fn at(&self, i: int, j: int) -> i32 {
        matrix_cells(*self)[i * matrix_shape(*self).1 + j]
    }

    /// Makes a matrix of `rows` rows and `cols` columns from its cells in
    /// row-major order.
    pub fn from_shape_vec(rows: usize, cols: usize, v: Vec<i32>) -> (r: Result<Matrix, ShapeFault>)
        ensures
            r is Ok <==> matrix_fits(rows as int, cols as int, v@.len() as int),
            match r {
                Ok(m) => {
                    &&& matrix_fits(rows as int, cols as int, v@.len() as int)
                    &&& m.shape() == (rows as nat, cols as nat)
                    &&& m.flat() == v@
                },
                Err(ShapeFault::TooLarge) => at_least_one(rows as int) * at_least_one(cols as int)
                    > isize::MAX,
                Err(ShapeFault::CellCount { expected, actual }) => {
                    &&& at_least_one(rows as int) * at_least_one(cols as int) <= isize::MAX
                    &&& expected == rows * cols
                    &&& actual == v@.len()
                    &&& expected != actual
                },
            },
    {
        let full = match bounded_product(nonempty(rows), nonempty(cols), 1) {
            None => {
                return Err(ShapeFault::TooLarge);
            },
            Some(p) => p,
        };
        assert(at_least_one(rows as int) * at_least_one(cols as int) * 1 == at_least_one(
            rows as int,
        ) * at_least_one(cols as int)) by (nonlinear_arith);
        let expected: usize = if rows == 0 || cols == 0 {
            assert(rows * cols == 0) by (nonlinear_arith)
                requires
                    rows == 0 || cols == 0,
            ;
            0
        } else {
            full
        };
        let actual: usize = v.len();
        if expected != actual {
            return Err(ShapeFault::CellCount { expected, actual });
        }
        match matrix_from_shape_vec(rows, cols, v) {
            Ok(m) => Ok(m),
            Err(_) => Err(ShapeFault::TooLarge),
        }
    }

    /// The axis lengths: rows, then columns.
    pub fn dim(&self) -> (r: (usize, usize))
        ensures
            self.shape() == (r.0 as nat, r.1 as nat),
            matrix_fits(r.0 as int, r.1 as int, self.flat().len() as int),
    {
        matrix_dim(self)
    }

    /// The cell at `[i, j]`, or `None` outside the matrix.
    pub fn get(&self, i: usize, j: usize) -> (r: Option<i32>)
        ensures
            r == if i < self.shape().0 && j < self.shape().1 {
                Some(self.at(i as int, j as int))
            } else {
                None
            },
    {
        let (rows, cols) = matrix_dim(self);
        if i < rows && j < cols {
            Some(matrix_index(self, i, j))
        } else {
            None
        }
    }
}

/// Whether `flat` is the lanes of `lanes`, each `width` cells long, laid
/// end to end.
pub open spec fn laid_out(flat: Seq<i16>, width: int, lanes: Seq<Seq<i16>>) -> bool {
    &&& flat.len() == lanes.len() * width
    &&& forall|l: int| 0 <= l < lanes.len() ==> (#[trigger] lanes[l]).len() == width
    &&& forall|l: int, k: int|
        0 <= l < lanes.len() && 0 <= k < width ==> flat[l * width + k] == #[trigger] lanes[l][k]
}

/// Laying one more lane after the others keeps the layout.
pub proof fn lemma_lay_next(flat: Seq<i16>, width: int, lanes: Seq<Seq<i16>>, next: Seq<i16>)
    requires
        0 <= width,
        laid_out(flat, width, lanes),
        next.len() == width,
    ensures
        laid_out(flat + next, width, lanes.push(next)),
{
    let longer = flat + next;
    let more = lanes.push(next);
    let count = lanes.len() as int;
    assert((count + 1) * width == count * width + width) by (nonlinear_arith);
    assert forall|l: int, k: int| 0 <= l < more.len() && 0 <= k < width implies longer[l * width
        + k] == #[trigger] more[l][k] by {
        if l < count {
            assert(l * width + k < count * width) by (nonlinear_arith)
                requires
                    0 <= l < count,
                    0 <= k < width,
            ;
            assert(0 <= l * width + k) by (nonlinear_arith)
                requires
                    0 <= l,
                    0 <= k,
                    0 <= width,
            ;
            assert(more[l] == lanes[l]);
        }
    }
}

/// A cube whose cells are laid out lane by lane has those lanes.
pub proof fn lemma_cube_lanes(c: Cube, lanes: Seq<Seq<i16>>)
    requires
        lanes.len() == c.shape().0 * c.shape().1,
        laid_out(c.flat(), c.shape().2 as int, lanes),
    ensures
        forall|i: int, j: int|
            0 <= i < c.shape().0 && 0 <= j < c.shape().1 ==> #[trigger] c.lane(i, j) == lanes[i
                * c.shape().1 + j],
{
    let d0 = c.shape().0 as int;
    let d1 = c.shape().1 as int;
    let d2 = c.shape().2 as int;
    assert forall|i: int, j: int| 0 <= i < d0 && 0 <= j < d1 implies #[trigger] c.lane(i, j)
        == lanes[i * d1 + j] by {
        let l = i * d1 + j;
        assert(0 <= l < d0 * d1) by (nonlinear_arith)
            requires
                0 <= i < d0,
                0 <= j < d1,
                l == i * d1 + j,
        ;
        assert(lanes[l].len() == d2);
        assert forall|k: int| 0 <= k < d2 implies c.lane(i, j)[k] == lanes[l][k] by {
            assert(c.flat()[l * d2 + k] == lanes[l][k]);
        }
        assert(c.lane(i, j) =~= lanes[l]);
    }
}

/// A shape that fits has at most `isize::MAX` lanes and cells.
pub proof fn lemma_fits_bounds(d0: int, d1: int, d2: int, len: int)
    requires
        0 <= d0,
        0 <= d1,
        0 <= d2,
        cube_fits(d0, d1, d2, len),
    ensures
        0 <= d0 * d1 <= isize::MAX,
        0 <= len <= isize::MAX,
{
    let a = at_least_one(d0);
    let b = at_least_one(d1);
    let c = at_least_one(d2);
    assert(0 <= d0 * d1 <= a * b && a * b <= a * b * c && 0 <= d0 * d1 * d2 <= a * b * c)
        by (nonlinear_arith)
        requires
            0 <= d0 <= a,
            0 <= d1 <= b,
            0 <= d2 <= c,
            1 <= c,
    ;
}

/// The lanes of a vector of vectors.
pub open spec fn lanes_of(lanes: Seq<Vec<i16>>) -> Seq<Seq<i16>> {
    Seq::new(lanes.len(), |l: int| lanes[l]@)
}

/// Lays lanes of equal width end to end.
fn flatten(lanes: &Vec<Vec<i16>>, width: usize) -> (flat: Vec<i16>)
    requires
        forall|l: int| 0 <= l < lanes@.len() ==> (#[trigger] lanes@[l])@.len() == width,
    ensures
        laid_out(flat@, width as int, lanes_of(lanes@)),
{
    let mut flat: Vec<i16> = Vec::new();
    let count: usize = lanes.len();
    let mut l: usize = 0;
    while l < count
        invariant
            count == lanes@.len(),
            l <= count,
            forall|q: int| 0 <= q < lanes@.len() ==> (#[trigger] lanes@[q])@.len() == width,
            laid_out(flat@, width as int, lanes_of(lanes@).take(l as int)),
        decreases count - l,
    {
        let lane: &Vec<i16> = &lanes[l];
        let ghost base = flat@;
        let mut k: usize = 0;
        while k < width
            invariant
                lane@.len() == width,
                k <= width,
                flat@ == base + lane@.take(k as int),
            decreases width - k,
        {
            flat.push(lane[k]);
            assert(lane@.take(k + 1) =~= lane@.take(k as int).push(lane@[k as int]));
            assert(flat@ =~= base + lane@.take(k + 1));
            k += 1;
        }
        proof {
            assert(lane@.take(width as int) =~= lane@);
            lemma_lay_next(base, width as int, lanes_of(lanes@).take(l as int), lane@);
            assert(lanes_of(lanes@).take(l + 1) =~= lanes_of(lanes@).take(l as int).push(lane@));
        }
        l += 1;
    }
    assert(lanes_of(lanes@).take(count as int) =~= lanes_of(lanes@));
    flat
}

impl Cube {
    /// Makes a cube of shape `d0 x d1 x d2` from its `d0 * d1` lanes, the
    /// lane `[i, j, ..]` standing at position `i * d1 + j`.
    pub(crate) fn from_lanes(d0: usize, d1: usize, d2: usize, lanes: &Vec<Vec<i16>>) -> (r: Result<
        Cube,
        ShapeFault,
    >)
        requires
            lanes@.len() == d0 * d1,
            forall|l: int| 0 <= l < lanes@.len() ==> (#[trigger] lanes@[l])@.len() == d2,
        ensures
            r is Ok <==> at_least_one(d0 as int) * at_least_one(d1 as int) * at_least_one(
                d2 as int,
            ) <= isize::MAX,
            r matches Err(e) ==> e == ShapeFault::TooLarge,
            r matches Ok(c) ==> {
                &&& c.shape() == (d0 as nat, d1 as nat, d2 as nat)
                &&& forall|i: int, j: int|
                    0 <= i < d0 && 0 <= j < d1 ==> #[trigger] c.lane(i, j) == lanes@[i * d1 + j]@
            },
    {
        let flat = flatten(lanes, d2);
        assert(flat@.len() == d0 * d1 * d2);
        match Cube::from_shape_vec(d0, d1, d2, flat) {
            Ok(c) => {
                proof {
                    lemma_cube_lanes(c, lanes_of(lanes@));
                    assert forall|i: int, j: int| 0 <= i < d0 && 0 <= j < d1 implies #[trigger] c.lane(
                        i,
                        j,
                    ) == lanes@[i * d1 + j]@ by {
                        assert(0 <= i * d1 + j < d0 * d1) by (nonlinear_arith)
                            requires
                                0 <= i < d0,
                                0 <= j < d1,
                        ;
                    }
                }
                Ok(c)
            },
            Err(e) => Err(ShapeFault::TooLarge),
        }
    }
}

} // verus!
