//! Fixed-point tensors and the kernels that the layers are built from.
//!
//! A tensor is a shape, a row-major vector of scalars, a memory-layout tag
//! and a device tag. The dense kernels (`tr`, `matmul`, `add`) take dense
//! tensors only, the fused kernel (`mkldnn_linear`) takes tensors in the
//! accelerated layout only; `to_mkldnn` and `to_dense` convert between the
//! two. Handles made by `shallow_clone` and by the conversions share the
//! storage of the tensor they come from.
use crate::error::TensorError;
use crate::fixed::{add_sat, affine_entry, dot, dot_upto, lemma_dot_bound, rescale, rescale_sum, sat};
use crate::shape::{
    checked_numel, is_valid_shape, lemma_grid_index, lemma_grid_place, lemma_numel_parts,
    lemma_numel_replace_last, lemma_numel_small, shape_fits, shape_numel, shape_valid,
};
use std::rc::Rc;
use vstd::prelude::*;

verus! {

/// Where a tensor lives.
#[derive(Debug, Clone, Copy, PartialEq, Eq, Structural)]
pub enum Device {
    Cpu,
    Cuda(usize),
}

/// How a tensor is laid out in memory.
#[derive(Debug, Clone, Copy, PartialEq, Eq, Structural)]
pub enum Layout {
    /// The generic layout of the dense kernels.
    Dense,
    /// The layout of the accelerated backend.
    Mkldnn,
}

/// The mathematical value of a tensor.
pub struct TensorView {
    /// The dimensions, outermost first.
    pub shape: Seq<i64>,
    /// The scalars in row-major order.
    pub data: Seq<i32>,
    pub layout: Layout,
    pub device: Device,
}

impl TensorView {
    /// The shape is valid and there is one scalar for each index.
    pub open spec fn wf(self) -> bool {
        &&& shape_valid(self.shape)
        &&& self.data.len() == shape_numel(self.shape)
    }

    /// The length of a row: the last dimension.
    pub open spec fn cols(self) -> int {
        self.shape.last() as int
    }

    /// The number of rows: the product of all dimensions but the last.
    pub open spec fn rows(self) -> int {
        shape_numel(self.shape.drop_last())
    }

    /// Row `r`.
    pub open spec fn row(self, r: int) -> Seq<i32> {
        self.data.subrange(r * self.cols(), (r + 1) * self.cols())
    }

    /// Column `c`.
    pub open spec fn col(self, c: int) -> Seq<i32> {
        Seq::new(self.rows() as nat, |j: int| self.data[j * self.cols() + c])
    }

    /// The same tensor under another layout tag.
    pub open spec fn with_layout(self, layout: Layout) -> TensorView {
        TensorView { layout, ..self }
    }

    /// The tensor of shape `shape` whose scalars all are `value`.
    pub open spec fn filled(shape: Seq<i64>, value: i32, device: Device) -> TensorView {
        TensorView {
            shape,
            data: Seq::new(shape_numel(shape) as nat, |i: int| value),
            layout: Layout::Dense,
            device,
        }
    }
}

/// A tensor of fixed-point scalars.
#[derive(Debug, PartialEq, Eq)]
pub struct Tensor {
    dims: Vec<i64>,
    data: Rc<Vec<i32>>,
    layout: Layout,
    device: Device,
}

impl View for Tensor {
    type V = TensorView;

    closed spec fn view(&self) -> TensorView {
        TensorView {
            shape: self.dims@,
            data: self.data@,
            layout: self.layout,
            device: self.device,
        }
    }
}

/// The value of a fallible kernel's result.
pub open spec fn result_view(r: Result<Tensor, TensorError>) -> Result<TensorView, TensorError> {
    match r {
        Ok(t) => Ok(t@),
        Err(e) => Err(e),
    }
}

/// A result, where there is one, has no more scalars than `usize` can count.
pub open spec fn result_fits(v: Result<TensorView, TensorError>) -> bool {
    v matches Ok(t) ==> t.data.len() <= usize::MAX
}

/// What `Tensor::full` returns.
pub open spec fn full_spec(shape: Seq<i64>, value: i32, device: Device) -> Result<
    TensorView,
    TensorError,
> {
    if shape_valid(shape) {
        Ok(TensorView::filled(shape, value, device))
    } else {
        Err(TensorError::InvalidShape)
    }
}

/// What `Tensor::from_vec` returns.
pub open spec fn from_vec_spec(shape: Seq<i64>, data: Seq<i32>, device: Device) -> Result<
    TensorView,
    TensorError,
> {
    if !shape_valid(shape) {
        Err(TensorError::InvalidShape)
    } else if shape_numel(shape) != data.len() {
        Err(TensorError::IncompatibleShapes)
    } else {
        Ok(TensorView { shape, data, layout: Layout::Dense, device })
    }
}

fn copy_dims(dims: &[i64]) -> (v: Vec<i64>)
    ensures
        v@ == dims@,
{
    let mut v: Vec<i64> = Vec::new();
    let mut i: usize = 0;
    while i < dims.len()
        invariant
            i <= dims.len(),
            v@ == dims@.take(i as int),
        decreases dims.len() - i,
    {
        v.push(dims[i]);
        assert(v@ =~= dims@.take(i + 1));
        i = i + 1;
    }
    assert(dims@.take(dims.len() as int) =~= dims@);
    v
}

impl Tensor {
    #[verifier::type_invariant]
    pub open spec fn inv(&self) -> bool {
        self@.wf()
    }

    /// A dense tensor of shape `dims` whose scalars all are `value`.
    pub fn full(dims: &[i64], value: i32, device: Device) -> (r: Result<Tensor, TensorError>)
        requires
            shape_fits(dims@),
        ensures
            result_view(r) == full_spec(dims@, value, device),
    {
        if !is_valid_shape(dims) {
            return Err(TensorError::InvalidShape);
        }
        let n: usize = match checked_numel(dims) {
            Some(n) => n,
            None => {
                assert(false);
                return Err(TensorError::InvalidShape);
            },
        };
        let mut data: Vec<i32> = Vec::new();
        let mut i: usize = 0;
        while i < n
            invariant
                i <= n,
                data@.len() == i,
                forall|k: int| 0 <= k < i ==> data@[k] == value,
            decreases n - i,
        {
            data.push(value);
            i = i + 1;
        }
        let t = Tensor { dims: copy_dims(dims), data: Rc::new(data), layout: Layout::Dense, device };
        assert(t@.data =~= TensorView::filled(dims@, value, device).data);
        Ok(t)
    }

    /// A dense tensor of shape `dims` filled with zeros.
    pub fn zeros(dims: &[i64], device: Device) -> (r: Result<Tensor, TensorError>)
        requires
            shape_fits(dims@),
        ensures
            result_view(r) == full_spec(dims@, 0, device),
    {
        Tensor::full(dims, 0, device)
    }

    /// A dense tensor of shape `dims` that holds `data` in row-major order.
    pub fn from_vec(dims: &[i64], data: Vec<i32>, device: Device) -> (r: Result<
        Tensor,
        TensorError,
    >)
        ensures
            result_view(r) == from_vec_spec(dims@, data@, device),
    {
        if !is_valid_shape(dims) {
            return Err(TensorError::InvalidShape);
        }
        let len: usize = data.len();
        match checked_numel(dims) {
            Some(n) => {
                if n != len {
                    return Err(TensorError::IncompatibleShapes);
                }
            },
            None => {
                return Err(TensorError::IncompatibleShapes);
            },
        }
        Ok(Tensor { dims: copy_dims(dims), data: Rc::new(data), layout: Layout::Dense, device })
    }

    /// The dimensions, outermost first.
    pub fn size(&self) -> (dims: Vec<i64>)
        ensures
            dims@ == self@.shape,
    {
        copy_dims(self.dims.as_slice())
    }

    /// Tells whether the tensor has the shape `dims`.
    pub fn has_shape(&self, dims: &[i64]) -> (b: bool)
        ensures
            b == (self@.shape == dims@),
    {
        if self.dims.len() != dims.len() {
            return false;
        }
        let mut i: usize = 0;
        while i < dims.len()
            invariant
                i <= dims.len(),
                self.dims@.len() == dims@.len(),
                forall|k: int| 0 <= k < i ==> self.dims@[k] == dims@[k],
            decreases dims.len() - i,
        {
            if self.dims[i] != dims[i] {
                return false;
            }
            i = i + 1;
        }
        assert(self.dims@ =~= dims@);
        true
    }

    /// The number of scalars.
    pub fn numel(&self) -> (n: usize)
        ensures
            n == self@.data.len(),
            n == shape_numel(self@.shape),
    {
        proof {
            use_type_invariant(self);
        }
        self.data.len()
    }

    /// The length of a row: the last dimension.
    pub fn cols(&self) -> (n: usize)
        ensures
            n == self@.cols(),
            n >= 1,
    {
        proof {
            use_type_invariant(self);
            lemma_numel_parts(self@.shape);
        }
        let len: usize = self.data.len();
        let n: usize = self.dims[self.dims.len() - 1] as usize;
        assert(n <= len);
        n
    }

    /// The number of rows: the product of all dimensions but the last.
    pub fn rows(&self) -> (n: usize)
        ensures
            n == self@.rows(),
            n >= 1,
    {
        proof {
            use_type_invariant(self);
            lemma_numel_parts(self@.shape);
            vstd::arithmetic::div_mod::lemma_div_multiples_vanish(self@.rows(), self@.cols());
            assert(self@.rows() * self@.cols() == self@.cols() * self@.rows())
                by (nonlinear_arith);
        }
        self.data.len() / self.cols()
    }

    /// The scalars in row-major order.
    pub fn to_vec(&self) -> (v: Vec<i32>)
        ensures
            v@ == self@.data,
    {
        let mut v: Vec<i32> = Vec::new();
        let mut i: usize = 0;
        while i < self.data.len()
            invariant
                i <= self.data.len(),
                v@ == self.data@.take(i as int),
            decreases self.data.len() - i,
        {
            v.push(self.data[i]);
            assert(v@ =~= self.data@.take(i + 1));
            i = i + 1;
        }
        assert(self.data@.take(self.data.len() as int) =~= self.data@);
        v
    }

    /// The storage that this handle refers to.
    pub fn storage(&self) -> (s: &Rc<Vec<i32>>)
        ensures
            s@ == self@.data,
    {
        &self.data
    }

    /// The device that the tensor lives on.
    pub fn device(&self) -> (d: Device)
        ensures
            d == self@.device,
    {
        self.device
    }

    /// The layout that the tensor is in.
    pub fn layout(&self) -> (l: Layout)
        ensures
            l == self@.layout,
    {
        self.layout
    }

    /// Tells whether the tensor is in the accelerated layout.
    pub fn is_mkldnn(&self) -> (b: bool)
        ensures
            b == (self@.layout == Layout::Mkldnn),
    {
        match self.layout {
            Layout::Mkldnn => true,
            Layout::Dense => false,
        }
    }

    /// A second handle to the same tensor.
    pub fn shallow_clone(&self) -> (t: Tensor)
        ensures
            t@ == self@,
    {
        proof {
            use_type_invariant(self);
        }
        Tensor {
            dims: copy_dims(self.dims.as_slice()),
            data: self.data.clone(),
            layout: self.layout,
            device: self.device,
        }
    }

    /// The same tensor in the accelerated layout.
    pub fn to_mkldnn(&self) -> (t: Tensor)
        ensures
            t@ == self@.with_layout(Layout::Mkldnn),
    {
        proof {
            use_type_invariant(self);
        }
        Tensor {
            dims: copy_dims(self.dims.as_slice()),
            data: self.data.clone(),
            layout: Layout::Mkldnn,
            device: self.device,
        }
    }

    /// The same tensor in the dense layout.
    pub fn to_dense(&self) -> (t: Tensor)
        ensures
            t@ == self@.with_layout(Layout::Dense),
    {
        proof {
            use_type_invariant(self);
        }
        Tensor {
            dims: copy_dims(self.dims.as_slice()),
            data: self.data.clone(),
            layout: Layout::Dense,
            device: self.device,
        }
    }
}

/// Entry `i` of the transpose of the matrix `a`.
pub open spec fn tr_entry(a: TensorView, i: int) -> i32 {
    a.data[(i % (a.shape[0] as int)) * a.shape[1] + i / (a.shape[0] as int)]
}

/// What `Tensor::tr` returns: the transpose of a dense matrix.
pub open spec fn tr_spec(a: TensorView) -> Result<TensorView, TensorError> {
    if a.layout != Layout::Dense {
        Err(TensorError::IncompatibleLayouts)
    } else if a.shape.len() != 2 {
        Err(TensorError::IncompatibleShapes)
    } else {
        Ok(
            TensorView {
                shape: seq![a.shape[1], a.shape[0]],
                data: Seq::new(a.data.len(), |i: int| tr_entry(a, i)),
                layout: Layout::Dense,
                device: a.device,
            },
        )
    }
}

/// Entry `i` of the product of `a` with the matrix `b`: the rescaled inner
/// product of a row of `a` with a column of `b`.
pub open spec fn matmul_entry(a: TensorView, b: TensorView, i: int) -> i32 {
    rescale(dot(a.row(i / b.cols()), b.col(i % b.cols()))) as i32
}

/// What `Tensor::matmul` returns: every row of `a` times the matrix `b`.
pub open spec fn matmul_spec(a: TensorView, b: TensorView) -> Result<TensorView, TensorError> {
    if a.layout != Layout::Dense || b.layout != Layout::Dense {
        Err(TensorError::IncompatibleLayouts)
    } else if a.device != b.device {
        Err(TensorError::IncompatibleDevices)
    } else if b.shape.len() != 2 || a.shape.last() != b.shape[0] {
        Err(TensorError::IncompatibleShapes)
    } else {
        Ok(
            TensorView {
                shape: a.shape.drop_last().push(b.shape[1]),
                data: Seq::new((a.rows() * b.cols()) as nat, |i: int| matmul_entry(a, b, i)),
                layout: Layout::Dense,
                device: a.device,
            },
        )
    }
}

/// `s` is the trailing part of `of`.
pub open spec fn is_suffix(s: Seq<i64>, of: Seq<i64>) -> bool {
    &&& s.len() <= of.len()
    &&& forall|i: int| 0 <= i < s.len() ==> s[i] == of[of.len() - s.len() + i]
}

/// Entry `i` of the sum of `a` and `b`, with `b` repeated over the leading
/// dimensions of `a`.
pub open spec fn add_entry(a: TensorView, b: TensorView, i: int) -> i32 {
    sat(a.data[i] + b.data[i % (b.data.len() as int)]) as i32
}

/// What `Tensor::add` returns: the saturated sum of `a` and `b`, where the
/// shape of `b` is the trailing part of the shape of `a`.
pub open spec fn add_spec(a: TensorView, b: TensorView) -> Result<TensorView, TensorError> {
    if a.layout != Layout::Dense || b.layout != Layout::Dense {
        Err(TensorError::IncompatibleLayouts)
    } else if a.device != b.device {
        Err(TensorError::IncompatibleDevices)
    } else if !is_suffix(b.shape, a.shape) {
        Err(TensorError::IncompatibleShapes)
    } else {
        Ok(
            TensorView {
                shape: a.shape,
                data: Seq::new(a.data.len(), |i: int| add_entry(a, b, i)),
                layout: Layout::Dense,
                device: a.device,
            },
        )
    }
}

/// Entry `i` of the fused affine map: row `i / out` of `x` against row
/// `i % out` of `w`, plus entry `i % out` of the bias where there is one.
pub open spec fn linear_entry(x: TensorView, w: TensorView, b: Option<TensorView>, i: int) -> i32 {
    let out = w.shape[0] as int;
    match b {
        Some(bias) => affine_entry(x.row(i / out), w.row(i % out), bias.data[i % out] as int) as i32,
        None => rescale(dot(x.row(i / out), w.row(i % out))) as i32,
    }
}

/// What `Tensor::mkldnn_linear` returns: `x * w^T + b` on operands in the
/// accelerated layout.
pub open spec fn mkldnn_linear_spec(x: TensorView, w: TensorView, b: Option<TensorView>) -> Result<
    TensorView,
    TensorError,
> {
    if x.layout != Layout::Mkldnn || w.layout != Layout::Mkldnn || (b matches Some(bias)
        && bias.layout != Layout::Mkldnn) {
        Err(TensorError::IncompatibleLayouts)
    } else if x.device != w.device || (b matches Some(bias) && bias.device != x.device) {
        Err(TensorError::IncompatibleDevices)
    } else if w.shape.len() != 2 || x.shape.last() != w.shape[1] || (b matches Some(bias) && (
    bias.shape.len() != 1 || bias.shape[0] != w.shape[0])) {
        Err(TensorError::IncompatibleShapes)
    } else {
        Ok(
            TensorView {
                shape: x.shape.drop_last().push(w.shape[0]),
                data: Seq::new((x.rows() * w.shape[0]) as nat, |i: int| linear_entry(x, w, b, i)),
                layout: Layout::Mkldnn,
                device: x.device,
            },
        )
    }
}

/// The value of an optional operand.
pub open spec fn option_view(t: Option<&Tensor>) -> Option<TensorView> {
    match t {
        Some(t) => Some(t@),
        None => None,
    }
}

/// Place `j` of row `r` sits at index `r * cols + j` of the data.
pub proof fn lemma_row_entry(v: TensorView, r: int, j: int)
    requires
        v.wf(),
        0 <= r < v.rows(),
        0 <= j < v.cols(),
    ensures
        0 <= r * v.cols() <= r * v.cols() + j < v.data.len(),
        v.row(r).len() == v.cols(),
        v.row(r)[j] == v.data[r * v.cols() + j],
{
    lemma_numel_parts(v.shape);
    lemma_grid_place(r, j, v.cols(), v.rows());
}

/// Place `j` of column `c` sits at index `j * cols + c` of the data.
pub proof fn lemma_col_entry(v: TensorView, j: int, c: int)
    requires
        v.wf(),
        0 <= j < v.rows(),
        0 <= c < v.cols(),
    ensures
        0 <= j * v.cols() <= j * v.cols() + c < v.data.len(),
        v.col(c).len() == v.rows(),
        v.col(c)[j] == v.data[j * v.cols() + c],
{
    lemma_numel_parts(v.shape);
    lemma_grid_place(j, c, v.cols(), v.rows());
}

/// Column `c` of the transpose of a matrix is row `c` of the matrix.
pub proof fn lemma_tr_col(a: TensorView, c: int)
    requires
        a.wf(),
        a.layout == Layout::Dense,
        a.shape.len() == 2,
        0 <= c < a.shape[0],
    ensures
        tr_spec(a) is Ok,
        tr_spec(a)->Ok_0.wf(),
        tr_spec(a)->Ok_0.col(c) == a.row(c),
{
    let t = tr_spec(a)->Ok_0;
    let m: int = a.shape[0] as int;
    let n: int = a.shape[1] as int;
    lemma_numel_small(a.shape);
    lemma_numel_small(t.shape);
    lemma_numel_parts(a.shape);
    assert(n * m == m * n) by (nonlinear_arith);
    assert(t.rows() == n && t.cols() == m);
    assert(a.rows() == m && a.cols() == n);
    assert forall|j: int| 0 <= j < n implies t.col(c)[j] == a.row(c)[j] by {
        lemma_grid_place(j, c, m, n);
        lemma_row_entry(a, c, j);
    }
    lemma_row_entry(a, c, 0);
    assert(t.col(c) =~= a.row(c));
}

fn replace_last(dims: &Vec<i64>, last: i64) -> (v: Vec<i64>)
    requires
        dims.len() >= 1,
    ensures
        v@ == dims@.drop_last().push(last),
{
    let mut v: Vec<i64> = Vec::new();
    let mut i: usize = 0;
    while i + 1 < dims.len()
        invariant
            i + 1 <= dims.len(),
            v@ == dims@.take(i as int),
        decreases dims.len() - i,
    {
        v.push(dims[i]);
        assert(v@ =~= dims@.take(i + 1));
        i = i + 1;
    }
    assert(dims@.take(dims.len() - 1) =~= dims@.drop_last());
    v.push(last);
    v
}

fn has_suffix(of: &Vec<i64>, s: &Vec<i64>) -> (b: bool)
    ensures
        b == is_suffix(s@, of@),
{
    if s.len() > of.len() {
        return false;
    }
    let skip: usize = of.len() - s.len();
    let mut i: usize = 0;
    while i < s.len()
        invariant
            i <= s.len(),
            skip + s.len() == of.len(),
            forall|k: int| 0 <= k < i ==> s@[k] == of@[of.len() - s.len() + k],
        decreases s.len() - i,
    {
        if s[i] != of[skip + i] {
            return false;
        }
        i = i + 1;
    }
    true
}

/// The rescaled inner product of `k` scalars of `x` from `xs` on with `k`
/// scalars of `w` from `ws` on.
fn inner(x: &Vec<i32>, xs: usize, w: &Vec<i32>, ws: usize, step: usize, k: usize) -> (r: i32)
    requires
        xs + k <= x.len(),
        k >= 1,
        step >= 1,
        ws + (k - 1) * step < w.len(),
    ensures
        r == rescale(
            dot(
                x@.subrange(xs as int, xs + k),
                Seq::new(k as nat, |j: int| w@[ws + j * step]),
            ),
        ),
{
    let ghost a: Seq<i32> = x@.subrange(xs as int, xs + k);
    let ghost b: Seq<i32> = Seq::new(k as nat, |j: int| w@[ws + j * step]);
    let mut acc: i128 = 0;
    let mut j: usize = 0;
    let mut at: usize = ws;
    while j < k
        invariant
            j <= k,
            xs + k <= x.len(),
            step >= 1,
            ws + (k - 1) * step < w.len(),
            j < k ==> at == ws + j * step,
            acc == dot_upto(a, b, j as nat),
            a == x@.subrange(xs as int, xs + k),
            b == Seq::new(k as nat, |j: int| w@[ws + j * step]),
        decreases k - j,
    {
        proof {
            lemma_dot_bound(a, b, j as nat);
            assert(j * step <= (k - 1) * step) by (nonlinear_arith)
                requires
                    j <= k - 1,
                    step >= 1,
            ;
        }
        let p: i32 = x[xs + j];
        let q: i32 = w[at];
        assert(-0x4000_0000_0000_0000 <= p * q <= 0x4000_0000_0000_0000) by (nonlinear_arith)
            requires
                -0x8000_0000 <= p <= 0x7fff_ffff,
                -0x8000_0000 <= q <= 0x7fff_ffff,
        ;
        assert(j * 0x4000_0000_0000_0000 <= 0xffff_ffff_ffff_ffff * 0x4000_0000_0000_0000)
            by (nonlinear_arith)
            requires
                j <= 0xffff_ffff_ffff_ffff,
        ;
        acc = acc + (p as i128) * (q as i128);
        j = j + 1;
        if j < k {
            assert((j - 1) * step + step == j * step) by (nonlinear_arith);
            assert(j * step <= (k - 1) * step) by (nonlinear_arith)
                requires
                    j <= k - 1,
                    step >= 1,
            ;
            at = at + step;
        }
    }
    rescale_sum(acc)
}

impl Tensor {
    /// The transpose of a dense matrix.
    pub fn tr(&self) -> (r: Result<Tensor, TensorError>)
        ensures
            result_view(r) == tr_spec(self@),
    {
        proof {
            use_type_invariant(self);
        }
        if self.is_mkldnn() {
            return Err(TensorError::IncompatibleLayouts);
        }
        if self.dims.len() != 2 {
            return Err(TensorError::IncompatibleShapes);
        }
        proof {
            lemma_numel_small(self@.shape);
            lemma_numel_parts(self@.shape);
        }
        let m: usize = self.dims[0] as usize;
        let n: usize = self.dims[1] as usize;
        let len: usize = self.data.len();
        let mut out: Vec<i32> = Vec::new();
        let mut i: usize = 0;
        while i < len
            invariant
                i <= len,
                len == self.data@.len(),
                len == n * m,
                m == self@.shape[0],
                n == self@.shape[1],
                m >= 1,
                n >= 1,
                out@.len() == i,
                forall|k: int| 0 <= k < i ==> out@[k] == tr_entry(self@, k),
            decreases len - i,
        {
            proof {
                lemma_grid_index(i as int, m as int, n as int);
                lemma_grid_place((i % m) as int, (i / m) as int, n as int, m as int);
                assert(m * n == n * m) by (nonlinear_arith);
            }
            out.push(self.data[(i % m) * n + i / m]);
            i = i + 1;
        }
        let mut dims: Vec<i64> = Vec::new();
        dims.push(self.dims[1]);
        dims.push(self.dims[0]);
        proof {
            assert(dims@ =~= seq![self@.shape[1], self@.shape[0]]);
            lemma_numel_small(dims@);
            assert(n * m == m * n) by (nonlinear_arith);
            assert(out@ =~= Seq::new(self@.data.len(), |i: int| tr_entry(self@, i)));
        }
        Ok(Tensor { dims, data: Rc::new(out), layout: Layout::Dense, device: self.device })
    }

    /// The product of every row of `self` with the matrix `other`.
    pub fn matmul(&self, other: &Tensor) -> (r: Result<Tensor, TensorError>)
        requires
            result_fits(matmul_spec(self@, other@)),
        ensures
            result_view(r) == matmul_spec(self@, other@),
    {
        proof {
            use_type_invariant(self);
            use_type_invariant(other);
        }
        if self.is_mkldnn() || other.is_mkldnn() {
            return Err(TensorError::IncompatibleLayouts);
        }
        if self.device != other.device {
            return Err(TensorError::IncompatibleDevices);
        }
        let rank: usize = self.dims.len();
        if other.dims.len() != 2 || self.dims[rank - 1] != other.dims[0] {
            return Err(TensorError::IncompatibleShapes);
        }
        proof {
            lemma_numel_parts(self@.shape);
            lemma_numel_parts(other@.shape);
            lemma_numel_small(other@.shape);
            lemma_numel_replace_last(self@.shape, other@.shape[1]);
        }
        let len: usize = self.data.len();
        let other_len: usize = other.data.len();
        let k: usize = other.dims[0] as usize;
        let n: usize = other.dims[1] as usize;
        proof {
            vstd::arithmetic::div_mod::lemma_div_multiples_vanish(self@.rows(), k as int);
            assert(self@.rows() * k == k * self@.rows()) by (nonlinear_arith);
            assert(len / k == self@.rows());
            assert(matmul_spec(self@, other@) is Ok);
            assert(matmul_spec(self@, other@)->Ok_0.data.len() == self@.rows() * n);
        }
        let total: usize = (len / k) * n;
        let mut out: Vec<i32> = Vec::new();
        let mut i: usize = 0;
        while i < total
            invariant
                i <= total,
                self@.wf(),
                other@.wf(),
                other@.shape.len() == 2,
                len == self@.data.len(),
                other_len == other@.data.len(),
                total == self@.rows() * n,
                k == self@.cols(),
                k == other@.rows(),
                n == other@.cols(),
                k >= 1,
                n >= 1,
                out@.len() == i,
                forall|e: int| 0 <= e < i ==> out@[e] == matmul_entry(self@, other@, e),
            decreases total - i,
        {
            let row: usize = i / n;
            let col: usize = i % n;
            proof {
                lemma_grid_index(i as int, n as int, self@.rows());
                lemma_row_entry(self@, row as int, 0);
                lemma_row_entry(self@, row as int, k - 1);
                lemma_col_entry(other@, k - 1, col as int);
                assert(row * k == row * self@.cols());
                assert((k - 1) * n == (k - 1) * other@.cols());
                assert((row + 1) * k == row * k + k) by (nonlinear_arith);
            }
            let v: i32 = inner(&self.data, row * k, &other.data, col, n, k);
            proof {
                assert(Seq::new(k as nat, |j: int| other.data@[col + j * n]) =~= other@.col(
                    col as int,
                ));
                assert(self.data@.subrange(row * k, row * k + k) =~= self@.row(row as int));
            }
            out.push(v);
            i = i + 1;
        }
        let dims: Vec<i64> = replace_last(&self.dims, other.dims[1]);
        proof {
            assert(out@ =~= Seq::new(
                (self@.rows() * other@.cols()) as nat,
                |i: int| matmul_entry(self@, other@, i),
            ));
        }
        Ok(Tensor { dims, data: Rc::new(out), layout: Layout::Dense, device: self.device })
    }

    /// The saturated sum of `self` and `other`, `other` repeated over the
    /// leading dimensions of `self`.
    pub fn add(&self, other: &Tensor) -> (r: Result<Tensor, TensorError>)
        ensures
            result_view(r) == add_spec(self@, other@),
    {
        proof {
            use_type_invariant(self);
            use_type_invariant(other);
        }
        if self.is_mkldnn() || other.is_mkldnn() {
            return Err(TensorError::IncompatibleLayouts);
        }
        if self.device != other.device {
            return Err(TensorError::IncompatibleDevices);
        }
        if !has_suffix(&self.dims, &other.dims) {
            return Err(TensorError::IncompatibleShapes);
        }
        proof {
            lemma_numel_parts(other@.shape);
        }
        let len: usize = self.data.len();
        let period: usize = other.data.len();
        let mut out: Vec<i32> = Vec::new();
        let mut i: usize = 0;
        while i < len
            invariant
                i <= len,
                len == self@.data.len(),
                period == other@.data.len(),
                period >= 1,
                out@.len() == i,
                forall|e: int| 0 <= e < i ==> out@[e] == add_entry(self@, other@, e),
            decreases len - i,
        {
            out.push(add_sat(self.data[i], other.data[i % period]));
            i = i + 1;
        }
        proof {
            assert(out@ =~= Seq::new(self@.data.len(), |i: int| add_entry(self@, other@, i)));
        }
        Ok(
            Tensor {
                dims: copy_dims(self.dims.as_slice()),
                data: Rc::new(out),
                layout: Layout::Dense,
                device: self.device,
            },
        )
    }

    /// The fused affine map `self * weight^T + bias` of the accelerated
    /// backend.
    pub fn mkldnn_linear(&self, weight: &Tensor, bias: Option<&Tensor>) -> (r: Result<
        Tensor,
        TensorError,
    >)
        requires
            result_fits(mkldnn_linear_spec(self@, weight@, option_view(bias))),
        ensures
            result_view(r) == mkldnn_linear_spec(self@, weight@, option_view(bias)),
    {
        proof {
            use_type_invariant(self);
            use_type_invariant(weight);
        }
        if !self.is_mkldnn() || !weight.is_mkldnn() {
            return Err(TensorError::IncompatibleLayouts);
        }
        match bias {
            Some(b) => {
                if !b.is_mkldnn() {
                    return Err(TensorError::IncompatibleLayouts);
                }
            },
            None => {},
        }
        if self.device != weight.device {
            return Err(TensorError::IncompatibleDevices);
        }
        match bias {
            Some(b) => {
                if b.device != self.device {
                    return Err(TensorError::IncompatibleDevices);
                }
            },
            None => {},
        }
        let rank: usize = self.dims.len();
        if weight.dims.len() != 2 || self.dims[rank - 1] != weight.dims[1] {
            return Err(TensorError::IncompatibleShapes);
        }
        match bias {
            Some(b) => {
                if b.dims.len() != 1 || b.dims[0] != weight.dims[0] {
                    return Err(TensorError::IncompatibleShapes);
                }
                proof {
                    use_type_invariant(b);
                    lemma_numel_small(b@.shape);
                }
            },
            None => {},
        }
        proof {
            lemma_numel_parts(self@.shape);
            lemma_numel_parts(weight@.shape);
            lemma_numel_small(weight@.shape);
            lemma_numel_replace_last(self@.shape, weight@.shape[0]);
        }
        let len: usize = self.data.len();
        let weight_len: usize = weight.data.len();
        let k: usize = weight.dims[1] as usize;
        let n: usize = weight.dims[0] as usize;
        proof {
            vstd::arithmetic::div_mod::lemma_div_multiples_vanish(self@.rows(), k as int);
            assert(self@.rows() * k == k * self@.rows()) by (nonlinear_arith);
            assert(len / k == self@.rows());
            assert(mkldnn_linear_spec(self@, weight@, option_view(bias)) is Ok);
            assert(mkldnn_linear_spec(self@, weight@, option_view(bias))->Ok_0.data.len()
                == self@.rows() * n);
        }
        let total: usize = (len / k) * n;
        let mut out: Vec<i32> = Vec::new();
        let mut i: usize = 0;
        while i < total
            invariant
                i <= total,
                self@.wf(),
                weight@.wf(),
                weight@.shape.len() == 2,
                len == self@.data.len(),
                weight_len == weight@.data.len(),
                total == self@.rows() * n,
                k == self@.cols(),
                k == weight@.cols(),
                n == weight@.rows(),
                n == weight@.shape[0],
                k >= 1,
                n >= 1,
                bias matches Some(b) ==> b@.data.len() == n,
                out@.len() == i,
                forall|e: int|
                    0 <= e < i ==> out@[e] == linear_entry(self@, weight@, option_view(bias), e),
            decreases total - i,
        {
            let row: usize = i / n;
            let col: usize = i % n;
            proof {
                lemma_grid_index(i as int, n as int, self@.rows());
                lemma_row_entry(self@, row as int, 0);
                lemma_row_entry(self@, row as int, k - 1);
                lemma_row_entry(weight@, col as int, 0);
                lemma_row_entry(weight@, col as int, k - 1);
                assert(row * k == row * self@.cols());
                assert(col * k == col * weight@.cols());
                assert((row + 1) * k == row * k + k) by (nonlinear_arith);
                assert((col + 1) * k == col * k + k) by (nonlinear_arith);
            }
            let product: i32 = inner(&self.data, row * k, &weight.data, col * k, 1, k);
            proof {
                assert(Seq::new(k as nat, |j: int| weight.data@[col * k + j * 1]) =~= weight@.row(
                    col as int,
                ));
                assert(self.data@.subrange(row * k, row * k + k) =~= self@.row(row as int));
            }
            let v: i32 = match bias {
                Some(b) => add_sat(product, b.data[col]),
                None => product,
            };
            out.push(v);
            i = i + 1;
        }
        let dims: Vec<i64> = replace_last(&self.dims, weight.dims[0]);
        proof {
            assert(out@ =~= Seq::new(
                (self@.rows() * weight@.shape[0]) as nat,
                |i: int| linear_entry(self@, weight@, option_view(bias), i),
            ));
        }
        Ok(Tensor { dims, data: Rc::new(out), layout: Layout::Mkldnn, device: self.device })
    }
}

} // verus!
