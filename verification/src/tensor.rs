//! What this crate assumes of the tensor library.
//!
//! A tensor is opaque here: its numbers are never read. What the planning code
//! needs to know is the shape of a tensor, the kind of its numbers, where it is
//! held and whether it is laid out row by row; how the operations it calls act
//! on these, and when they succeed; and which operations a tensor has come
//! out of.
use vstd::prelude::*;

verus! {

/// `candle_core::Tensor`, carried through without a look inside.
#[verifier::external_type_specification]
#[verifier::external_body]
pub struct ExTensor(candle_core::Tensor);

/// `candle_core::Error`, the failure of a tensor operation, passed on as it
/// comes.
#[verifier::external_type_specification]
#[verifier::external_body]
pub struct ExTensorError(candle_core::Error);

/// The kinds of numbers that a tensor can hold.
#[derive(Clone, Copy, Debug, PartialEq, Eq, Structural)]
pub enum ElementType {
    /// Whole numbers of eight bits, without sign.
    Byte,
    /// Whole numbers of thirty-two bits, without sign.
    Word,
    /// Whole numbers of sixty-four bits, with sign.
    Long,
    /// Brain floating point of sixteen bits.
    BrainHalf,
    /// Floating point of half precision.
    Half,
    /// Floating point of single precision.
    Single,
    /// Floating point of double precision.
    Double,
}

/// The operations that a tensor has come out of, and what they were applied
/// to. A recipe names operations and operands; it says nothing of the numbers
/// that come out.
pub enum Recipe {
    /// The tensor itself, as it was handed in.
    Given(candle_core::Tensor),
    /// `Tensor::sub` of two tensors.
    Sub(Box<Recipe>, Box<Recipe>),
    /// `Tensor::mul` of two tensors.
    Mul(Box<Recipe>, Box<Recipe>),
    /// `Tensor::sqr` of a tensor.
    Sqr(Box<Recipe>),
    /// `Tensor::abs` of a tensor.
    Abs(Box<Recipe>),
    /// `Tensor::sum_all` of a tensor.
    SumAll(Box<Recipe>),
    /// `Tensor::matmul` of two tensors.
    MatMul(Box<Recipe>, Box<Recipe>),
    /// `Tensor::reshape` of a tensor to a matrix of so many rows and columns.
    Reshaped(Box<Recipe>, usize, usize),
    /// `Tensor::detach` of a tensor.
    Detached(Box<Recipe>),
    /// A matrix of so many rows and columns made of the given whole numbers,
    /// row after row.
    Matrix(Seq<u8>, usize, usize),
    /// The cell areas of the polygon mesh with the given cell table and vertex
    /// ids, taken from a tensor of vertex coordinates.
    CellAreas(Seq<usize>, Seq<usize>, Box<Recipe>),
    /// The vectors along the given edges, taken from a tensor of points.
    EdgeVectors(Seq<usize>, Box<Recipe>),
    /// The rows of a tensor with the given numbers.
    Rows(Box<Recipe>, Seq<u32>),
}

/// The size of a tensor along each of its axes, as `Tensor::dims` reports it.
pub uninterp spec fn tensor_dims(t: candle_core::Tensor) -> Seq<usize>;

/// Whether a tensor is laid out row by row, as `Tensor::is_contiguous`
/// reports it.
pub uninterp spec fn tensor_is_contiguous(t: candle_core::Tensor) -> bool;

/// The kind of numbers that a tensor holds, as `Tensor::dtype` reports it.
pub uninterp spec fn tensor_dtype(t: candle_core::Tensor) -> ElementType;

/// Whether a tensor is held in the memory of the processor, as `Device::is_cpu`
/// reports it of `Tensor::device`.
pub uninterp spec fn tensor_on_cpu(t: candle_core::Tensor) -> bool;

/// Whether a tensor is what the operations of a recipe have returned, applied
/// as the recipe says. Every operation says this of what it returns; nothing
/// else is known of it.
pub uninterp spec fn made_by(t: candle_core::Tensor, recipe: Recipe) -> bool;

/// A recipe stands for a tensor that it names as given, or that was made by
/// it.
pub open spec fn stands_for(t: candle_core::Tensor, recipe: Recipe) -> bool {
    recipe == Recipe::Given(t) || made_by(t, recipe)
}

/// A tensor of single-precision numbers in the memory of the processor.
pub open spec fn is_plain(t: candle_core::Tensor) -> bool {
    tensor_dtype(t) == ElementType::Single && tensor_on_cpu(t)
}

/// `Tensor::dims` hands out the sizes of the axes. A tensor never changes its
/// shape, so the answer is a function of the tensor.
pub assume_specification[ candle_core::Tensor::dims ](t: &candle_core::Tensor) -> (dims: &[usize])
    ensures
        dims@ == tensor_dims(*t),
;

/// `Tensor::is_contiguous` says whether the layout is row-major. A tensor never
/// changes its layout, so the answer is a function of the tensor.
pub assume_specification[ candle_core::Tensor::is_contiguous ](t: &candle_core::Tensor) -> (dense:
    bool)
    ensures
        dense == tensor_is_contiguous(*t),
;

/// The kind of numbers of a tensor: `Tensor::dtype`, its seven kinds told
/// apart. A tensor never changes the kind of its numbers.
#[verifier::external_body]
pub(crate) fn element_type(t: &candle_core::Tensor) -> (kind: ElementType)
    ensures
        kind == tensor_dtype(*t),
{
    match t.dtype() {
        candle_core::DType::U8 => ElementType::Byte,
        candle_core::DType::U32 => ElementType::Word,
        candle_core::DType::I64 => ElementType::Long,
        candle_core::DType::BF16 => ElementType::BrainHalf,
        candle_core::DType::F16 => ElementType::Half,
        candle_core::DType::F32 => ElementType::Single,
        candle_core::DType::F64 => ElementType::Double,
    }
}

/// Whether a tensor is held in the memory of the processor: `Device::is_cpu`
/// of `Tensor::device`. A tensor never moves.
#[verifier::external_body]
pub(crate) fn on_processor(t: &candle_core::Tensor) -> (here: bool)
    ensures
        here == tensor_on_cpu(*t),
{
    t.device().is_cpu()
}

/// `Tensor::matmul`, called here on two matrices of single-precision numbers
/// on the processor whose product has a number of entries that fits the
/// machine. It succeeds exactly when the left matrix has as many columns as
/// the right one has rows, or the product has no entry, or the left matrix
/// has no column. The product has the rows of the left and the columns of the
/// right matrix.
pub assume_specification[ candle_core::Tensor::matmul ](
    lhs: &candle_core::Tensor,
    rhs: &candle_core::Tensor,
) -> (product: Result<candle_core::Tensor, candle_core::Error>)
    requires
        is_plain(*lhs),
        is_plain(*rhs),
        tensor_dims(*lhs).len() == 2,
        tensor_dims(*rhs).len() == 2,
        tensor_dims(*lhs)[0] * tensor_dims(*rhs)[1] <= usize::MAX,
    ensures
        product is Ok <==> {
            ||| tensor_dims(*lhs)[1] == tensor_dims(*rhs)[0]
            ||| tensor_dims(*lhs)[0] * tensor_dims(*rhs)[1] == 0
            ||| tensor_dims(*lhs)[1] == 0
        },
        product matches Ok(p) ==> {
            &&& tensor_dims(p) == seq![tensor_dims(*lhs)[0], tensor_dims(*rhs)[1]]
            &&& is_plain(p)
            &&& forall|a: Recipe, b: Recipe| #[trigger]
                stands_for(*lhs, a) && #[trigger] stands_for(*rhs, b) ==> made_by(
                    p,
                    Recipe::MatMul(Box::new(a), Box::new(b)),
                )
        },
;

/// `Tensor::sub` subtracts entry by entry. It is called here on tensors of
/// single-precision numbers on the processor, where it succeeds exactly when
/// both operands have one shape; the difference has that shape.
pub assume_specification[ candle_core::Tensor::sub ](
    lhs: &candle_core::Tensor,
    rhs: &candle_core::Tensor,
) -> (difference: Result<candle_core::Tensor, candle_core::Error>)
    requires
        is_plain(*lhs),
        is_plain(*rhs),
    ensures
        difference is Ok <==> tensor_dims(*rhs) == tensor_dims(*lhs),
        difference matches Ok(d) ==> {
            &&& tensor_dims(d) == tensor_dims(*lhs)
            &&& is_plain(d)
            &&& forall|a: Recipe, b: Recipe| #[trigger]
                stands_for(*lhs, a) && #[trigger] stands_for(*rhs, b) ==> made_by(
                    d,
                    Recipe::Sub(Box::new(a), Box::new(b)),
                )
        },
;

/// `Tensor::mul` multiplies entry by entry. It is called here on tensors of
/// single-precision numbers on the processor, where it succeeds exactly when
/// both operands have one shape; the product has that shape.
pub assume_specification[ candle_core::Tensor::mul ](
    lhs: &candle_core::Tensor,
    rhs: &candle_core::Tensor,
) -> (product: Result<candle_core::Tensor, candle_core::Error>)
    requires
        is_plain(*lhs),
        is_plain(*rhs),
    ensures
        product is Ok <==> tensor_dims(*rhs) == tensor_dims(*lhs),
        product matches Ok(p) ==> {
            &&& tensor_dims(p) == tensor_dims(*lhs)
            &&& is_plain(p)
            &&& forall|a: Recipe, b: Recipe| #[trigger]
                stands_for(*lhs, a) && #[trigger] stands_for(*rhs, b) ==> made_by(
                    p,
                    Recipe::Mul(Box::new(a), Box::new(b)),
                )
        },
;

/// `Tensor::sqr` squares every entry. It is called here on tensors of
/// single-precision numbers on the processor, where it always succeeds; the
/// squares have the shape of the tensor.
pub assume_specification[ candle_core::Tensor::sqr ](t: &candle_core::Tensor) -> (squares: Result<
    candle_core::Tensor,
    candle_core::Error,
>)
    requires
        is_plain(*t),
    ensures
        squares is Ok,
        squares matches Ok(s) ==> {
            &&& tensor_dims(s) == tensor_dims(*t)
            &&& is_plain(s)
            &&& forall|r: Recipe| #[trigger]
                stands_for(*t, r) ==> made_by(s, Recipe::Sqr(Box::new(r)))
        },
;

/// `Tensor::abs` takes the absolute value of every entry. It is called here on
/// tensors of single-precision numbers on the processor, where it always
/// succeeds; the result has the shape of the tensor.
pub assume_specification[ candle_core::Tensor::abs ](t: &candle_core::Tensor) -> (sizes: Result<
    candle_core::Tensor,
    candle_core::Error,
>)
    requires
        is_plain(*t),
    ensures
        sizes is Ok,
        sizes matches Ok(s) ==> {
            &&& tensor_dims(s) == tensor_dims(*t)
            &&& is_plain(s)
            &&& forall|r: Recipe| #[trigger]
                stands_for(*t, r) ==> made_by(s, Recipe::Abs(Box::new(r)))
        },
;

/// `Tensor::sum_all` adds up all entries. It is called here on tensors of
/// single-precision numbers on the processor, where it always succeeds; the
/// sum is a tensor without axes.
pub assume_specification[ candle_core::Tensor::sum_all ](t: &candle_core::Tensor) -> (sum: Result<
    candle_core::Tensor,
    candle_core::Error,
>)
    requires
        is_plain(*t),
    ensures
        sum is Ok,
        sum matches Ok(s) ==> {
            &&& tensor_dims(s) == Seq::<usize>::empty()
            &&& is_plain(s)
            &&& forall|r: Recipe| #[trigger]
                stands_for(*t, r) ==> made_by(s, Recipe::SumAll(Box::new(r)))
        },
;

/// Areas of the cells of a polygon mesh: `Tensor::apply_op1` with the layer
/// `polygonmesh2_to_areas`. The layer reads the vertex coordinates as rows of
/// two numbers and walks every cell of the table, so the table must be a
/// prefix-sum table over the vertex entries, the tensor row-major, and, where
/// it has two axes, these must be a row for every vertex id and two columns.
/// The call succeeds exactly when the coordinates have two axes and are
/// single-precision numbers on the processor. The result has one axis with an
/// entry for each cell and is row-major.
#[verifier::external_body]
pub(crate) fn cell_areas(
    site2idx: &[usize],
    idx2vtxv: &[usize],
    vtxv2xy: &candle_core::Tensor,
) -> (areas: Result<candle_core::Tensor, candle_core::Error>)
    requires
        crate::mesh::is_cell_table(site2idx@, idx2vtxv@.len()),
        tensor_is_contiguous(*vtxv2xy),
        tensor_dims(*vtxv2xy).len() == 2 ==> tensor_dims(*vtxv2xy)[1] == 2
            && crate::mesh::all_below(idx2vtxv@, tensor_dims(*vtxv2xy)[0] as nat),
    ensures
        areas is Ok <==> (tensor_dims(*vtxv2xy).len() == 2 && is_plain(*vtxv2xy)),
        areas matches Ok(a) ==> {
            &&& tensor_dims(a) == seq![(site2idx@.len() - 1) as usize]
            &&& is_plain(a)
            &&& tensor_is_contiguous(a)
            &&& forall|r: Recipe| #[trigger]
                stands_for(*vtxv2xy, r) ==> made_by(
                    a,
                    Recipe::CellAreas(site2idx@, idx2vtxv@, Box::new(r)),
                )
        },
{
    vtxv2xy.apply_op1(
        del_candle::polygonmesh2_to_areas::Layer {
            elem2idx: site2idx.to_vec(),
            idx2vtx: idx2vtxv.to_vec(),
        },
    )
}

/// The entries of a list as a matrix of one column: `Tensor::reshape` of a
/// tensor of one axis to as many rows as it has entries. It is called here on
/// a tensor on the processor, where it always succeeds and keeps the kind of
/// the numbers.
#[verifier::external_body]
pub(crate) fn as_column(t: &candle_core::Tensor, rows: usize) -> (matrix: Result<
    candle_core::Tensor,
    candle_core::Error,
>)
    requires
        tensor_dims(*t) == seq![rows],
        tensor_on_cpu(*t),
    ensures
        matrix is Ok,
        matrix matches Ok(m) ==> {
            &&& tensor_dims(m) == seq![rows, 1usize]
            &&& tensor_dtype(m) == tensor_dtype(*t)
            &&& tensor_on_cpu(m)
            &&& forall|r: Recipe| #[trigger]
                stands_for(*t, r) ==> made_by(m, Recipe::Reshaped(Box::new(r), rows, 1))
        },
{
    t.reshape((rows, 1))
}

/// A matrix of zeros and ones as a tensor of single-precision numbers on the
/// processor: `Tensor::from_slice`, its bytes then widened by
/// `Tensor::to_dtype`. It succeeds exactly when `cells` holds `rows * cols`
/// entries; the result has the shape `rows` by `cols`.
#[verifier::external_body]
pub(crate) fn matrix_tensor(cells: &Vec<u8>, rows: usize, cols: usize) -> (matrix: Result<
    candle_core::Tensor,
    candle_core::Error,
>)
    requires
        rows * cols <= usize::MAX,
    ensures
        matrix is Ok <==> cells@.len() == rows * cols,
        matrix matches Ok(m) ==> {
            &&& tensor_dims(m) == seq![rows, cols]
            &&& is_plain(m)
            &&& made_by(m, Recipe::Matrix(cells@, rows, cols))
        },
{
    let bytes =
        candle_core::Tensor::from_slice(cells.as_slice(), (rows, cols), &candle_core::Device::Cpu)?;
    bytes.to_dtype(candle_core::DType::F32)
}

/// The vector along each edge of a list of edges: `Tensor::apply_op1` with the
/// layer `vtx2xyz_to_edgevector`. The layer reads the points as rows and looks
/// up both ends of every edge, so the tensor must be row-major and, where it
/// has two axes, have a row for every end point; it is called here on points
/// of two coordinates alone. The call succeeds exactly when the points have
/// two axes and are single-precision numbers on the processor. The result has
/// a row for each edge and two columns.
#[verifier::external_body]
pub(crate) fn edge_vectors(edge2vtx: &[usize], vtx2xy: &candle_core::Tensor) -> (vectors: Result<
    candle_core::Tensor,
    candle_core::Error,
>)
    requires
        tensor_is_contiguous(*vtx2xy),
        tensor_dims(*vtx2xy).len() == 2 ==> tensor_dims(*vtx2xy)[1] == 2 && crate::mesh::all_below(
            edge2vtx@,
            tensor_dims(*vtx2xy)[0] as nat,
        ),
    ensures
        vectors is Ok <==> (tensor_dims(*vtx2xy).len() == 2 && is_plain(*vtx2xy)),
        vectors matches Ok(v) ==> {
            &&& tensor_dims(v) == seq![(edge2vtx@.len() / 2) as usize, 2usize]
            &&& is_plain(v)
            &&& forall|r: Recipe| #[trigger]
                stands_for(*vtx2xy, r) ==> made_by(v, Recipe::EdgeVectors(edge2vtx@, Box::new(r)))
        },
{
    vtx2xy.apply_op1(del_candle::vtx2xyz_to_edgevector::Layer { edge2vtx: edge2vtx.to_vec() })
}

/// A tensor cut loose from what it was computed from: `Tensor::detach`. The
/// result shares the numbers of the tensor, and has its shape, its layout, its
/// kind of numbers and its place.
#[verifier::external_body]
pub(crate) fn detached(t: &candle_core::Tensor) -> (loose: candle_core::Tensor)
    ensures
        tensor_dims(loose) == tensor_dims(*t),
        tensor_dtype(loose) == tensor_dtype(*t),
        tensor_on_cpu(loose) == tensor_on_cpu(*t),
        tensor_is_contiguous(loose) == tensor_is_contiguous(*t),
        forall|r: Recipe| #[trigger]
            stands_for(*t, r) ==> made_by(loose, Recipe::Detached(Box::new(r))),
{
    t.detach()
}

/// The rows of a matrix that a list of row numbers names, one row for each
/// entry of the list: `Tensor::index_select` along the first axis, with the
/// list made a tensor by `Tensor::from_slice`. The matrix must have two axes,
/// and the rows asked for must together have a number of entries that fits
/// the machine. The call succeeds exactly when the matrix is on the processor
/// and row-major and every row number is below the number of its rows. The
/// result has a row for each entry of the list, and the columns, the kind of
/// numbers and the place of the matrix.
#[verifier::external_body]
pub(crate) fn select_rows(t: &candle_core::Tensor, rows: &Vec<u32>) -> (chosen: Result<
    candle_core::Tensor,
    candle_core::Error,
>)
    requires
        tensor_dims(*t).len() == 2,
        rows@.len() * tensor_dims(*t)[1] <= usize::MAX,
    ensures
        chosen is Ok <==> {
            &&& tensor_on_cpu(*t)
            &&& tensor_is_contiguous(*t)
            &&& forall|x: int| 0 <= x < rows@.len() ==> rows@[x] < tensor_dims(*t)[0]
        },
        chosen matches Ok(c) ==> {
            &&& tensor_dims(c) == seq![rows@.len() as usize, tensor_dims(*t)[1]]
            &&& tensor_dtype(c) == tensor_dtype(*t)
            &&& tensor_on_cpu(c)
            &&& forall|r: Recipe| #[trigger]
                stands_for(*t, r) ==> made_by(c, Recipe::Rows(Box::new(r), rows@))
        },
{
    let indexes =
        candle_core::Tensor::from_slice(rows.as_slice(), rows.len(), &candle_core::Device::Cpu)?;
    t.index_select(&indexes, 0)
}

} // verus!
