//! Bands as tables of numbers, and the picture's bytes made of three of
//! them.
//!
//! A band comes as rows and columns of samples. What is done to the samples
//! in floating point is done by the caller, who hands the brightness of each
//! cell back as a whole number; here the numbers are brought to eight bits
//! and the three channels are laid side by side, cell by cell.

use vstd::prelude::*;
use crate::error::PipelineError;

verus! {

/// A table of `rows` by `cols` cells, row after row.
#[derive(Debug)]
pub struct Grid<T> {
    rows: usize,
    cols: usize,
    cells: Vec<T>,
}

/// One band as it is read: signed 16-bit samples.
pub type Channel = Grid<i16>;

/// One channel of the picture: eight bits a cell.
pub type Plane = Grid<u8>;

/// What a `Grid` holds: its size, and its cells row after row.
pub ghost struct GridView<T> {
    pub rows: nat,
    pub cols: nat,
    pub cells: Seq<T>,
}

impl<T> View for Grid<T> {
    type V = GridView<T>;

    closed spec fn view(&self) -> GridView<T> {
        GridView { rows: self.rows as nat, cols: self.cols as nat, cells: self.cells@ }
    }
}

/// Whether two tables have as many rows and as many columns.
pub open spec fn same_shape<T>(a: GridView<T>, b: GridView<T>) -> bool {
    a.rows == b.rows && a.cols == b.cols
}

impl<T> Grid<T> {
    #[verifier::type_invariant]
    spec fn filled(self) -> bool {
        self.cells.len() == self.rows * self.cols
    }

    /// The table of `rows` by `cols` whose cells are `cells`, row after row.
    ///
    /// Fails with `UnexpectedShape` where, and only where, there are not as
    /// many cells as the table has.
    pub fn new(rows: usize, cols: usize, cells: Vec<T>) -> (r: Result<Grid<T>, PipelineError>)
        ensures
            match r {
                Ok(grid) => cells.len() == rows * cols && grid@ == (GridView {
                    rows: rows as nat,
                    cols: cols as nat,
                    cells: cells@,
                }),
                Err(e) => e == PipelineError::UnexpectedShape && cells.len() != rows * cols,
            },
    {
        match rows.checked_mul(cols) {
            Some(count) => {
                if count == cells.len() {
                    Ok(Grid { rows, cols, cells })
                } else {
                    Err(PipelineError::UnexpectedShape)
                }
            },
            None => Err(PipelineError::UnexpectedShape),
        }
    }

    /// How many rows the table has.
    pub fn rows(&self) -> (n: usize)
        ensures
            n == self@.rows,
    {
        self.rows
    }

    /// How many columns the table has.
    pub fn cols(&self) -> (n: usize)
        ensures
            n == self@.cols,
    {
        self.cols
    }

    /// The cells, row after row: as many as rows times columns.
    pub fn cells(&self) -> (cells: &Vec<T>)
        ensures
            cells@ == self@.cells,
            cells.len() == self@.rows * self@.cols,
    {
        proof {
            use_type_invariant(self);
        }
        &self.cells
    }
}

/// How the samples of a band are stored.
#[derive(Debug, Clone, Copy, PartialEq, Eq, Structural)]
pub enum SampleType {
    /// Signed integers of 8 bits.
    Int8,
    /// Signed integers of 16 bits: what a band is expected to hold.
    Int16,
    /// Signed integers of 32 bits.
    Int32,
    /// Signed integers of 64 bits.
    Int64,
    /// Unsigned integers of 8 bits.
    Uint8,
    /// Unsigned integers of 16 bits.
    Uint16,
    /// Unsigned integers of 32 bits.
    Uint32,
    /// Unsigned integers of 64 bits.
    Uint64,
    /// Reals of 32 bits.
    Real32,
    /// Reals of 64 bits.
    Real64,
    /// Anything else: text, records, lists.
    Other,
}

/// What `extract_channel` gives for a band that is stored as `stored`, has
/// the sizes `dims` along its axes and holds `samples`.
pub open spec fn extracted(stored: SampleType, dims: Seq<usize>, samples: Seq<i16>) -> Result<
    GridView<i16>,
    PipelineError,
> {
    if stored != SampleType::Int16 {
        Err(PipelineError::UnexpectedSampleType)
    } else if !(dims.len() == 2 && samples.len() == dims[0] * dims[1]) {
        Err(PipelineError::UnexpectedShape)
    } else {
        Ok(GridView { rows: dims[0] as nat, cols: dims[1] as nat, cells: samples })
    }
}

/// The band as a table of its samples.
///
/// Fails with `UnexpectedSampleType` where the band is not stored as signed
/// 16-bit integers. Fails with `UnexpectedShape` where it is, but does not
/// have exactly two axes, or not as many samples as the two sizes ask for.
pub fn extract_channel(stored: SampleType, dims: &Vec<usize>, samples: Vec<i16>) -> (r: Result<
    Channel,
    PipelineError,
>)
    ensures
        match r {
            Ok(channel) => extracted(stored, dims@, samples@) == Ok::<
                GridView<i16>,
                PipelineError,
            >(channel@),
            Err(e) => extracted(stored, dims@, samples@) == Err::<GridView<i16>, PipelineError>(e),
        },
{
    if stored != SampleType::Int16 {
        return Err(PipelineError::UnexpectedSampleType);
    }
    if dims.len() != 2 {
        return Err(PipelineError::UnexpectedShape);
    }
    Grid::new(dims[0], dims[1], samples)
}

/// The size that three tables share.
///
/// Fails with `ChannelShapeMismatch` where, and only where, two of them
/// differ in rows or in columns.
pub fn common_shape<T>(r: &Grid<T>, g: &Grid<T>, b: &Grid<T>) -> (shape: Result<
    (usize, usize),
    PipelineError,
>)
    ensures
        match shape {
            Ok((rows, cols)) => same_shape(r@, g@) && same_shape(r@, b@) && rows == r@.rows && cols
                == r@.cols,
            Err(e) => e == PipelineError::ChannelShapeMismatch && !(same_shape(r@, g@)
                && same_shape(r@, b@)),
        },
{
    if r.rows == g.rows && r.cols == g.cols && r.rows == b.rows && r.cols == b.cols {
        Ok((r.rows, r.cols))
    } else {
        Err(PipelineError::ChannelShapeMismatch)
    }
}

/// A brightness brought into eight bits: what lies below 0 becomes 0, what
/// lies above 255 becomes 255.
pub open spec fn saturated(level: int) -> int {
    if level < 0 {
        0
    } else if level > 255 {
        255
    } else {
        level
    }
}

/// Each brightness of `levels` brought into eight bits.
pub open spec fn quantized(levels: Seq<i64>) -> Seq<u8> {
    Seq::new(levels.len(), |i: int| saturated(levels[i] as int) as u8)
}

/// The eight-bit value of a brightness that was scaled to `0..=255` and
/// rounded down.
pub fn quantize(level: i64) -> (q: u8)
    ensures
        q == saturated(level as int),
{
    if level < 0 {
        0
    } else if level > 255 {
        255
    } else {
        level as u8
    }
}

/// The channel made of `levels`, each brought into eight bits.
pub fn quantize_levels(levels: &Grid<i64>) -> (plane: Plane)
    ensures
        plane@ == (GridView {
            rows: levels@.rows,
            cols: levels@.cols,
            cells: quantized(levels@.cells),
        }),
{
    proof {
        use_type_invariant(levels);
    }
    let n = levels.cells.len();
    let mut cells: Vec<u8> = Vec::new();
    let mut i: usize = 0;
    while i < n
        invariant
            i <= n == levels.cells.len(),
            cells.len() == i,
            forall|k: int| 0 <= k < i ==> cells@[k] == saturated(levels.cells@[k] as int),
        decreases n - i,
    {
        cells.push(quantize(levels.cells[i]));
        i += 1;
    }
    assert(cells@ =~= quantized(levels.cells@));
    Grid { rows: levels.rows, cols: levels.cols, cells }
}

/// Three channels laid side by side: the cells of the first, and after each
/// of them the cell at the same place in the second and in the third.
pub open spec fn interleaved(r: Seq<u8>, g: Seq<u8>, b: Seq<u8>) -> Seq<u8> {
    Seq::new(
        3 * r.len(),
        |p: int|
            if p % 3 == 0 {
                r[p / 3]
            } else if p % 3 == 1 {
                g[p / 3]
            } else {
                b[p / 3]
            },
    )
}

/// In three channels of `cols` columns laid side by side, the pixel in row
/// `i` and column `j` takes three bytes in a row: its cell of the first
/// channel, of the second and of the third. Rows follow each other, and in a
/// row the pixels.
pub proof fn lemma_pixel_holds_its_three_cells(
    r: Seq<u8>,
    g: Seq<u8>,
    b: Seq<u8>,
    cols: nat,
    i: nat,
    j: nat,
)
    requires
        i * cols + j < r.len(),
    ensures
        ({
            let cell = (i * cols + j) as int;
            let data = interleaved(r, g, b);
            &&& 3 * cell + 2 < data.len()
            &&& data[3 * cell] == r[cell]
            &&& data[3 * cell + 1] == g[cell]
            &&& data[3 * cell + 2] == b[cell]
        }),
{
}

/// The bytes of a picture of `rows` by `cols` pixels: row after row, pixel
/// after pixel, and for each pixel its red, green and blue.
#[derive(Debug)]
pub struct PixelTensor {
    rows: usize,
    cols: usize,
    data: Vec<u8>,
}

/// What a `PixelTensor` holds.
pub ghost struct TensorView {
    pub rows: nat,
    pub cols: nat,
    pub data: Seq<u8>,
}

impl View for PixelTensor {
    type V = TensorView;

    closed spec fn view(&self) -> TensorView {
        TensorView { rows: self.rows as nat, cols: self.cols as nat, data: self.data@ }
    }
}

impl PixelTensor {
    #[verifier::type_invariant]
    spec fn filled(self) -> bool {
        self.data.len() == 3 * (self.rows * self.cols)
    }

    /// How many rows of pixels there are.
    pub fn rows(&self) -> (n: usize)
        ensures
            n == self@.rows,
    {
        self.rows
    }

    /// How many pixels a row has.
    pub fn cols(&self) -> (n: usize)
        ensures
            n == self@.cols,
    {
        self.cols
    }

    /// The bytes: three for each pixel.
    pub fn data(&self) -> (data: &Vec<u8>)
        ensures
            data@ == self@.data,
            data.len() == 3 * (self@.rows * self@.cols),
    {
        proof {
            use_type_invariant(self);
        }
        &self.data
    }

    /// The bytes, given away.
    pub fn into_raw(self) -> (data: Vec<u8>)
        ensures
            data@ == self@.data,
            data.len() == 3 * (self@.rows * self@.cols),
    {
        proof {
            use_type_invariant(&self);
        }
        self.data
    }
}

/// `ndarray::stack` along a new last axis, on three tables of `rows` by
/// `cols` that are read from `r`, `g` and `b` row after row. The result has
/// the cell `[i, j, k]` from the table `k` at `[i, j]`, and `iter` walks it
/// with the last index running fastest: so the bytes come out as the three
/// tables laid side by side.
#[verifier::external_body]
fn stack_last_axis(rows: usize, cols: usize, r: &Vec<u8>, g: &Vec<u8>, b: &Vec<u8>) -> (out: Vec<u8>)
    requires
        0 < rows,
        0 < cols,
        3 * (rows * cols) <= isize::MAX,
        r.len() == rows * cols,
        g.len() == rows * cols,
        b.len() == rows * cols,
    ensures
        out@ == interleaved(r@, g@, b@),
{
    let views = [
        ndarray::ArrayView2::from_shape((rows, cols), r.as_slice()).unwrap(),
        ndarray::ArrayView2::from_shape((rows, cols), g.as_slice()).unwrap(),
        ndarray::ArrayView2::from_shape((rows, cols), b.as_slice()).unwrap(),
    ];
    let stacked = ndarray::stack(ndarray::Axis(2), &views).unwrap();
    stacked.iter().copied().collect()
}

/// The picture's bytes, made of its red, green and blue channels.
///
/// Fails with `ChannelShapeMismatch` where, and only where, the channels
/// differ in size. The picture's bytes must be no more than a vector can
/// hold.
pub fn composite(r: &Plane, g: &Plane, b: &Plane) -> (t: Result<PixelTensor, PipelineError>)
    requires
        3 * (r@.rows * r@.cols) <= isize::MAX,
    ensures
        match t {
            Ok(tensor) => same_shape(r@, g@) && same_shape(r@, b@) && tensor@ == (TensorView {
                rows: r@.rows,
                cols: r@.cols,
                data: interleaved(r@.cells, g@.cells, b@.cells),
            }),
            Err(e) => e == PipelineError::ChannelShapeMismatch && !(same_shape(r@, g@)
                && same_shape(r@, b@)),
        },
{
    proof {
        use_type_invariant(r);
        use_type_invariant(g);
        use_type_invariant(b);
    }
    match common_shape(r, g, b) {
        Err(e) => Err(e),
        Ok((rows, cols)) => {
            if rows == 0 || cols == 0 {
                assert(rows * cols == 0) by (nonlinear_arith)
                    requires
                        rows == 0 || cols == 0,
                ;
                let data: Vec<u8> = Vec::new();
                assert(data@ =~= interleaved(r.cells@, g.cells@, b.cells@));
                Ok(PixelTensor { rows, cols, data })
            } else {
                let data = stack_last_axis(rows, cols, &r.cells, &g.cells, &b.cells);
                Ok(PixelTensor { rows, cols, data })
            }
        },
    }
}

} // verus!
