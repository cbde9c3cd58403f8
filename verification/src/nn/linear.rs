//! A linear fully-connected layer.
use crate::error::TensorError;
use crate::fixed::{affine_entry, inv_sqrt, inv_sqrt_spec, lemma_inv_sqrt_exists};
use crate::nn::init::{all_within, lemma_init_in_range, Init};
use crate::nn::var_store::{
    lemma_full_names_differ, lemma_var_effect, lemma_var_failure_is_local, lemma_var_idempotent,
    var_spec, VarStore, VarStoreView,
};
use crate::shape::{
    lemma_grid_index, lemma_numel_parts, lemma_numel_replace_last, lemma_numel_small,
};
use crate::tensor::{
    add_spec, full_spec, lemma_tr_col, matmul_spec, mkldnn_linear_spec, result_view, tr_spec,
    Layout, Tensor, TensorView,
};
use vstd::prelude::*;

verus! {

/// Configuration for a linear layer.
#[derive(Debug, Clone, Copy)]
pub struct LinearConfig {
    /// How the weight is initialised.
    pub ws_init: Init,
    /// How the bias is initialised; where unset, uniformly between
    /// `-1 / sqrt(in_dim)` and `1 / sqrt(in_dim)`.
    pub bs_init: Option<Init>,
    /// Whether the layer has a trained bias.
    pub bias: bool,
}

impl Default for LinearConfig {
    fn default() -> (c: Self)
        ensures
            c == (LinearConfig { ws_init: Init::KaimingUniform, bs_init: None, bias: true }),
    {
        LinearConfig { ws_init: Init::KaimingUniform, bs_init: None, bias: true }
    }
}

/// A linear fully-connected layer.
#[derive(Debug)]
pub struct Linear {
    /// The weight, of shape `[out_dim, in_dim]`.
    pub ws: Tensor,
    /// The bias, of shape `[out_dim]`; all zeros in a layer without a
    /// trained bias.
    pub bs: Tensor,
}

/// The mathematical value of a layer.
pub struct LinearView {
    pub ws: TensorView,
    pub bs: TensorView,
}

impl View for Linear {
    type V = LinearView;

    open spec fn view(&self) -> LinearView {
        LinearView { ws: self.ws@, bs: self.bs@ }
    }
}

impl LinearView {
    /// The weight is a matrix, the bias has one scalar for each row of it,
    /// and both are in the same layout on the same device.
    pub open spec fn wf(self) -> bool {
        &&& self.ws.wf()
        &&& self.bs.wf()
        &&& self.ws.shape.len() == 2
        &&& self.bs.shape.len() == 1
        &&& self.bs.shape[0] == self.ws.shape[0]
        &&& self.ws.layout == self.bs.layout
        &&& self.ws.device == self.bs.device
    }

    /// The length of an input row.
    pub open spec fn in_dim(self) -> int {
        self.ws.shape[1] as int
    }

    /// The length of an output row.
    pub open spec fn out_dim(self) -> int {
        self.ws.shape[0] as int
    }

    /// `usize` can count the scalars of the layer's output for `xs`: one for
    /// each row of `xs` and row of the weight.
    pub open spec fn output_fits(self, xs: TensorView) -> bool {
        xs.rows() * self.ws.shape[0] <= usize::MAX
    }

    /// The layer with both parameters in the accelerated layout.
    pub open spec fn to_mkldnn(self) -> LinearView {
        LinearView {
            ws: self.ws.with_layout(Layout::Mkldnn),
            bs: self.bs.with_layout(Layout::Mkldnn),
        }
    }

    /// What `Linear::forward` returns, as the kernels give it: on a dense
    /// weight the product with the transposed weight plus the bias, on a
    /// weight in the accelerated layout the fused kernel on the converted
    /// input, converted back to the layout that the input came in.
    pub open spec fn forward(self, xs: TensorView) -> Result<TensorView, TensorError> {
        if self.ws.layout == Layout::Mkldnn {
            match mkldnn_linear_spec(xs.with_layout(Layout::Mkldnn), self.ws, Some(self.bs)) {
                Ok(y) => Ok(y.with_layout(xs.layout)),
                Err(e) => Err(e),
            }
        } else {
            match tr_spec(self.ws) {
                Ok(wt) => match matmul_spec(xs, wt) {
                    Ok(m) => add_spec(m, self.bs),
                    Err(e) => Err(e),
                },
                Err(e) => Err(e),
            }
        }
    }

    /// Scalar `i` of the affine map of `xs`: row `i / out_dim` of the input
    /// against row `i % out_dim` of the weight, plus the bias of that row.
    pub open spec fn affine_at(self, xs: TensorView, i: int) -> i32 {
        affine_entry(
            xs.row(i / self.out_dim()),
            self.ws.row(i % self.out_dim()),
            self.bs.data[i % self.out_dim()] as int,
        ) as i32
    }

    /// The affine map `xs * ws^T + bs` of every row of `xs`, in the layout
    /// and on the device of `xs`.
    pub open spec fn affine(self, xs: TensorView) -> TensorView {
        TensorView {
            shape: xs.shape.drop_last().push(self.ws.shape[0]),
            data: Seq::new((xs.rows() * self.out_dim()) as nat, |i: int| self.affine_at(xs, i)),
            layout: xs.layout,
            device: xs.device,
        }
    }

    /// What a well-formed layer returns for `xs`: the affine map of `xs`
    /// where its rows have the length `in_dim`, it lives on the layer's
    /// device and, for a dense layer, is dense; an error of the kernels
    /// otherwise.
    pub open spec fn apply(self, xs: TensorView) -> Result<TensorView, TensorError> {
        if self.ws.layout == Layout::Dense && xs.layout != Layout::Dense {
            Err(TensorError::IncompatibleLayouts)
        } else if xs.device != self.ws.device {
            Err(TensorError::IncompatibleDevices)
        } else if xs.shape.last() != self.ws.shape[1] {
            Err(TensorError::IncompatibleShapes)
        } else {
            Ok(self.affine(xs))
        }
    }
}

/// The policy that the bias of a layer with `in_dim` inputs is made with.
pub open spec fn bias_policy(c: LinearConfig, in_dim: i64) -> Init {
    match c.bs_init {
        Some(policy) => policy,
        None => Init::Uniform {
            lo: (-inv_sqrt_spec(in_dim as int)) as i32,
            up: inv_sqrt_spec(in_dim as int) as i32,
        },
    }
}

/// What `linear` returns for a store of value `s`: the layer and the value
/// that the store is left with.
pub open spec fn linear_spec(s: VarStoreView, in_dim: i64, out_dim: i64, c: LinearConfig) -> Result<
    (LinearView, VarStoreView),
    TensorError,
> {
    if in_dim <= 0 || out_dim <= 0 {
        Err(TensorError::InvalidShape)
    } else {
        let bias = if c.bias {
            var_spec(s, "bias"@, seq![out_dim], bias_policy(c, in_dim))
        } else {
            match full_spec(seq![out_dim], 0, s.device) {
                Ok(zeros) => Ok((zeros, s)),
                Err(e) => Err(e),
            }
        };
        match bias {
            Ok((bs, with_bias)) => match var_spec(
                with_bias,
                "weight"@,
                seq![out_dim, in_dim],
                c.ws_init,
            ) {
                Ok((ws, with_both)) => Ok((LinearView { ws, bs }, with_both)),
                Err(e) => Err(e),
            },
            Err(e) => Err(e),
        }
    }
}

/// The error that `linear` fails with on a store of value `s`, if it fails:
/// `InvalidShape` for a dimension below one; else `ShapeMismatch` for a
/// registered bias of another shape, or `InvalidRange` for a bias that has
/// to be made from uniform bounds out of order; else the same two for the
/// weight. A layer without a trained bias asks nothing of the bias.
pub open spec fn linear_failure(s: VarStoreView, in_dim: i64, out_dim: i64, c: LinearConfig) -> Option<
    TensorError,
> {
    let bias = s.key("bias"@);
    let weight = s.key("weight"@);
    if in_dim <= 0 || out_dim <= 0 {
        Some(TensorError::InvalidShape)
    } else if c.bias && s.vars.contains_key(bias) && s.vars[bias].shape != seq![out_dim] {
        Some(TensorError::ShapeMismatch)
    } else if c.bias && !s.vars.contains_key(bias) && (c.bs_init matches Some(
        Init::Uniform { lo, up },
    ) && lo > up) {
        Some(TensorError::InvalidRange)
    } else if s.vars.contains_key(weight) && s.vars[weight].shape != seq![out_dim, in_dim] {
        Some(TensorError::ShapeMismatch)
    } else if !s.vars.contains_key(weight) && (c.ws_init matches Init::Uniform { lo, up } && lo
        > up) {
        Some(TensorError::InvalidRange)
    } else {
        None
    }
}

/// Creates a new linear layer in the current scope of `vs`.
///
/// The bias is the variable `bias` of shape `[out_dim]`, made with
/// `c.bs_init` or, where that is unset, uniformly between
/// `-1 / sqrt(in_dim)` and `1 / sqrt(in_dim)`; with `c.bias` unset it is a
/// tensor of zeros that is not registered. The weight is the variable
/// `weight` of shape `[out_dim, in_dim]`, made with `c.ws_init`. Variables
/// that the store holds already are reused.
///
/// Fails with `InvalidShape` where a dimension is below one, with
/// `ShapeMismatch` where the store holds a variable of one of the two names
/// with another shape, and with `InvalidRange` where a variable has to be
/// made from a uniform policy whose bounds are out of order. A failed call
/// leaves the store as it was.
pub fn linear(vs: &mut VarStore, in_dim: i64, out_dim: i64, c: LinearConfig) -> (r: Result<
    Linear,
    TensorError,
>)
    requires
        in_dim >= 1 && out_dim >= 1 ==> out_dim * in_dim <= usize::MAX,
    ensures
        match linear_spec(old(vs)@, in_dim, out_dim, c) {
            Ok((l, s)) => r matches Ok(made) && made@ == l && final(vs)@ == s,
            Err(e) => r matches Err(x) && x == e && final(vs)@ == old(vs)@,
        },
        r matches Ok(made) ==> made@.wf() && made@.in_dim() == in_dim && made@.out_dim() == out_dim,
        match linear_failure(old(vs)@, in_dim, out_dim, c) {
            Some(e) => r matches Err(x) && x == e,
            None => r is Ok,
        },
{
    proof {
        lemma_linear_failure(vs@, in_dim, out_dim, c);
    }
    if in_dim <= 0 || out_dim <= 0 {
        return Err(TensorError::InvalidShape);
    }
    let bs_init: Init = match c.bs_init {
        Some(policy) => policy,
        None => {
            let bound: i32 = inv_sqrt(in_dim as u64);
            Init::Uniform { lo: -bound, up: bound }
        },
    };
    let mut bias_dims: Vec<i64> = Vec::new();
    bias_dims.push(out_dim);
    let mut weight_dims: Vec<i64> = Vec::new();
    weight_dims.push(out_dim);
    weight_dims.push(in_dim);
    let ghost before = vs@;
    proof {
        use_type_invariant(&*vs);
        assert(bias_dims@ =~= seq![out_dim]);
        assert(weight_dims@ =~= seq![out_dim, in_dim]);
        lemma_numel_small(bias_dims@);
        lemma_numel_small(weight_dims@);
        assert(out_dim <= out_dim * in_dim) by (nonlinear_arith)
            requires
                out_dim >= 1,
                in_dim >= 1,
        ;
        lemma_parameter_names(before.path);
        if linear_spec(before, in_dim, out_dim, c) is Ok {
            lemma_linear_makes_layer(before, in_dim, out_dim, c);
        }
    }
    if c.bias {
        match vs.check_var("bias", bias_dims.as_slice(), bs_init) {
            Ok(_) => {},
            Err(e) => {
                return Err(e);
            },
        }
        proof {
            lemma_var_effect(before, "bias"@, bias_dims@, bs_init);
            let with_bias = var_spec(before, "bias"@, bias_dims@, bs_init)->Ok_0.1;
            lemma_var_failure_is_local(before, with_bias, "weight"@, weight_dims@, c.ws_init);
        }
    }
    match vs.check_var("weight", weight_dims.as_slice(), c.ws_init) {
        Ok(_) => {},
        Err(e) => {
            return Err(e);
        },
    }
    // Both requests were checked above, so from here on nothing fails and
    // the store is never left with one parameter of the two.
    let bs: Tensor = if c.bias {
        match vs.var("bias", bias_dims.as_slice(), bs_init) {
            Ok(bs) => bs,
            Err(e) => {
                assert(false);
                return Err(e);
            },
        }
    } else {
        match Tensor::zeros(bias_dims.as_slice(), vs.device()) {
            Ok(bs) => bs,
            Err(e) => {
                assert(false);
                return Err(e);
            },
        }
    };
    match vs.var("weight", weight_dims.as_slice(), c.ws_init) {
        Ok(ws) => Ok(Linear { ws, bs }),
        Err(e) => {
            assert(false);
            Err(e)
        },
    }
}

impl Linear {
    /// Applies the layer to every row of `xs`.
    ///
    /// With a dense weight the result is `xs.matmul(ws.tr()) + bs`. With a
    /// weight in the accelerated layout the input is converted to that
    /// layout unless it is in it already, the fused kernel is run, and the
    /// result is converted back to the layout that the input came in. An
    /// error of a kernel is returned as it is.
    pub fn forward(&self, xs: &Tensor) -> (r: Result<Tensor, TensorError>)
        requires
            self@.output_fits(xs@),
        ensures
            result_view(r) == self@.forward(xs@),
            self@.wf() ==> result_view(r) == self@.apply(xs@),
    {
        proof {
            use_type_invariant(xs);
            use_type_invariant(&self.ws);
            use_type_invariant(&self.bs);
            if self@.wf() {
                lemma_forward_is_affine(self@, xs@);
            }
            lemma_numel_parts(xs@.shape);
            lemma_numel_parts(self@.ws.shape);
            assert(xs@.rows() * self@.ws.shape[0] >= 0) by (nonlinear_arith)
                requires
                    xs@.rows() >= 1,
                    self@.ws.shape[0] >= 1,
            ;
        }
        if self.ws.is_mkldnn() {
            let input_is_mkldnn: bool = xs.is_mkldnn();
            let input: Tensor = if input_is_mkldnn {
                xs.shallow_clone()
            } else {
                xs.to_mkldnn()
            };
            assert(input@ == xs@.with_layout(Layout::Mkldnn));
            assert(input@.rows() == xs@.rows());
            match input.mkldnn_linear(&self.ws, Some(&self.bs)) {
                Ok(output) => {
                    if input_is_mkldnn {
                        Ok(output)
                    } else {
                        Ok(output.to_dense())
                    }
                },
                Err(e) => Err(e),
            }
        } else {
            let wt: Tensor = match self.ws.tr() {
                Ok(wt) => wt,
                Err(e) => {
                    return Err(e);
                },
            };
            assert(wt@.cols() == self@.ws.shape[0]);
            let product: Tensor = match xs.matmul(&wt) {
                Ok(product) => product,
                Err(e) => {
                    return Err(e);
                },
            };
            product.add(&self.bs)
        }
    }

    /// Tells whether `usize` can count the scalars of the layer's output for
    /// `xs`.
    pub fn output_fits(&self, xs: &Tensor) -> (b: bool)
        ensures
            b == self@.output_fits(xs@),
    {
        proof {
            use_type_invariant(&self.ws);
        }
        let dims: Vec<i64> = self.ws.size();
        let rows: usize = xs.rows();
        let out: u64 = dims[0] as u64;
        if out > usize::MAX as u64 {
            assert(rows * out >= out) by (nonlinear_arith)
                requires
                    rows >= 1,
                    out >= 1,
            ;
            return false;
        }
        rows.checked_mul(out as usize).is_some()
    }

    /// A layer whose weight and bias are in the accelerated layout; `self`
    /// is left as it is.
    pub fn to_mkldnn(&self) -> (l: Linear)
        ensures
            l@ == self@.to_mkldnn(),
    {
        Linear { ws: self.ws.to_mkldnn(), bs: self.bs.to_mkldnn() }
    }
}

/// A well-formed layer returns the affine map of every input that it
/// takes, in the layout that the input came in, whichever layout its own
/// parameters are in; and it refuses every other input.
pub proof fn lemma_forward_is_affine(l: LinearView, xs: TensorView)
    requires
        l.wf(),
        xs.wf(),
    ensures
        l.forward(xs) == l.apply(xs),
        l.apply(xs) matches Ok(y) ==> y.wf(),
{
    let out: int = l.out_dim();
    lemma_numel_small(l.ws.shape);
    lemma_numel_small(l.bs.shape);
    lemma_numel_parts(l.ws.shape);
    lemma_numel_parts(xs.shape);
    lemma_numel_replace_last(xs.shape, l.ws.shape[0]);
    if l.apply(xs) is Ok {
        let goal = l.affine(xs);
        if l.ws.layout == Layout::Mkldnn {
            let xm = xs.with_layout(Layout::Mkldnn);
            let y = mkldnn_linear_spec(xm, l.ws, Some(l.bs))->Ok_0;
            assert(y.data =~= goal.data);
        } else {
            let wt = tr_spec(l.ws)->Ok_0;
            lemma_tr_col(l.ws, 0);
            lemma_numel_small(wt.shape);
            let m = matmul_spec(xs, wt)->Ok_0;
            assert(m.shape.last() == l.ws.shape[0]);
            let y = add_spec(m, l.bs)->Ok_0;
            assert forall|i: int| 0 <= i < goal.data.len() implies y.data[i] == goal.data[i] by {
                lemma_grid_index(i, out, xs.rows());
                lemma_tr_col(l.ws, i % out);
            }
            assert(y.data =~= goal.data);
        }
    }
}

/// `linear` fails exactly where `linear_failure` names an error, and with
/// that error.
pub proof fn lemma_linear_failure(s: VarStoreView, in_dim: i64, out_dim: i64, c: LinearConfig)
    ensures
        match linear_failure(s, in_dim, out_dim, c) {
            Some(e) => linear_spec(s, in_dim, out_dim, c) == Err::<
                (LinearView, VarStoreView),
                TensorError,
            >(e),
            None => linear_spec(s, in_dim, out_dim, c) is Ok,
        },
{
    if in_dim >= 1 && out_dim >= 1 {
        lemma_inv_sqrt_exists(in_dim as int);
        lemma_parameter_names(s.path);
        if c.bias {
            let bias = var_spec(s, "bias"@, seq![out_dim], bias_policy(c, in_dim));
            if bias is Ok {
                lemma_var_failure_is_local(
                    s,
                    bias->Ok_0.1,
                    "weight"@,
                    seq![out_dim, in_dim],
                    c.ws_init,
                );
            }
        }
    }
}

/// The weight and the bias of a layer have different full names.
proof fn lemma_parameter_names(path: Seq<Seq<char>>)
    ensures
        crate::nn::var_store::full_name(path, "bias"@) != crate::nn::var_store::full_name(
            path,
            "weight"@,
        ),
{
    reveal_strlit("bias");
    reveal_strlit("weight");
    lemma_full_names_differ(path, "bias"@, "weight"@);
}

/// A layer that `linear` makes from a well-formed store is well formed: its
/// weight has the shape `[out_dim, in_dim]`, its bias the shape `[out_dim]`,
/// both are dense and on the store's device, and without a trained bias the
/// bias is all zeros. The store stays well formed, in the same scope.
pub proof fn lemma_linear_makes_layer(s: VarStoreView, in_dim: i64, out_dim: i64, c: LinearConfig)
    requires
        s.wf(),
        linear_spec(s, in_dim, out_dim, c) is Ok,
    ensures
        ({
            let (l, t) = linear_spec(s, in_dim, out_dim, c)->Ok_0;
            &&& l.wf()
            &&& l.ws.shape == seq![out_dim, in_dim]
            &&& l.bs.shape == seq![out_dim]
            &&& l.ws.layout == Layout::Dense
            &&& l.ws.device == s.device
            &&& !c.bias ==> forall|i: int| 0 <= i < l.bs.data.len() ==> l.bs.data[i] == 0
            &&& t.wf()
            &&& t.path == s.path
            &&& t.device == s.device
        }),
{
    let (l, t) = linear_spec(s, in_dim, out_dim, c)->Ok_0;
    lemma_numel_small(seq![out_dim]);
    if c.bias {
        lemma_var_effect(s, "bias"@, seq![out_dim], bias_policy(c, in_dim));
        let with_bias = var_spec(s, "bias"@, seq![out_dim], bias_policy(c, in_dim))->Ok_0.1;
        lemma_var_effect(with_bias, "weight"@, seq![out_dim, in_dim], c.ws_init);
    } else {
        lemma_var_effect(s, "weight"@, seq![out_dim, in_dim], c.ws_init);
    }
}

/// Making the same layer twice from one store gives the same layer: the
/// second call returns the variables that the first one registered and
/// leaves the store as the first one left it.
pub proof fn lemma_linear_idempotent(s: VarStoreView, in_dim: i64, out_dim: i64, c: LinearConfig)
    requires
        linear_spec(s, in_dim, out_dim, c) is Ok,
    ensures
        ({
            let (l, t) = linear_spec(s, in_dim, out_dim, c)->Ok_0;
            linear_spec(t, in_dim, out_dim, c) == Ok::<(LinearView, VarStoreView), TensorError>(
                (l, t),
            )
        }),
{
    let (l, t) = linear_spec(s, in_dim, out_dim, c)->Ok_0;
    lemma_var_idempotent(t, "weight"@, seq![out_dim, in_dim], c.ws_init);
    if c.bias {
        let policy = bias_policy(c, in_dim);
        let with_bias = var_spec(s, "bias"@, seq![out_dim], policy)->Ok_0.1;
        lemma_parameter_names(s.path);
        lemma_var_idempotent(s, "bias"@, seq![out_dim], policy);
        lemma_var_idempotent(with_bias, "weight"@, seq![out_dim, in_dim], c.ws_init);
        assert(t.vars.contains_key(t.key("bias"@)));
        assert(t.vars[t.key("bias"@)] == l.bs);
    }
}

/// A layer made by `linear` takes every dense input of shape
/// `[batch, in_dim]` on the store's device and returns an output of shape
/// `[batch, out_dim]`.
pub proof fn lemma_forward_shape(
    s: VarStoreView,
    in_dim: i64,
    out_dim: i64,
    c: LinearConfig,
    xs: TensorView,
    batch: i64,
)
    requires
        s.wf(),
        linear_spec(s, in_dim, out_dim, c) is Ok,
        xs.wf(),
        xs.shape == seq![batch, in_dim],
        xs.layout == Layout::Dense,
        xs.device == s.device,
    ensures
        ({
            let l = linear_spec(s, in_dim, out_dim, c)->Ok_0.0;
            &&& l.forward(xs) is Ok
            &&& l.forward(xs)->Ok_0.shape == seq![batch, out_dim]
            &&& l.forward(xs)->Ok_0.wf()
        }),
{
    let l = linear_spec(s, in_dim, out_dim, c)->Ok_0.0;
    lemma_linear_makes_layer(s, in_dim, out_dim, c);
    lemma_forward_is_affine(l, xs);
    assert(xs.shape.drop_last().push(out_dim) =~= seq![batch, out_dim]);
}

/// The two paths agree: a layer converted to the accelerated layout returns
/// for every input what the dense layer returns for the same input in the
/// dense layout, scalar for scalar, in the layout that the input came in.
pub proof fn lemma_paths_agree(l: LinearView, xs: TensorView)
    requires
        l.wf(),
        xs.wf(),
        l.ws.layout == Layout::Dense,
    ensures
        xs.layout == Layout::Dense ==> l.to_mkldnn().forward(xs) == l.forward(xs),
        l.to_mkldnn().forward(xs) == match l.forward(xs.with_layout(Layout::Dense)) {
            Ok(y) => Ok::<TensorView, TensorError>(y.with_layout(xs.layout)),
            Err(e) => Err(e),
        },
{
    let dense = xs.with_layout(Layout::Dense);
    lemma_forward_is_affine(l, dense);
    lemma_forward_is_affine(l.to_mkldnn(), xs);
    if l.apply(dense) is Ok {
        assert(l.to_mkldnn().affine(xs).data =~= l.affine(dense).data);
    }
    if xs.layout == Layout::Dense {
        assert(dense == xs);
    }
}

/// With an all-zero bias a dense layer returns the product of the input
/// with the transposed weight, exactly.
pub proof fn lemma_zero_bias_is_matmul(l: LinearView, xs: TensorView)
    requires
        l.wf(),
        xs.wf(),
        l.ws.layout == Layout::Dense,
        forall|i: int| 0 <= i < l.bs.data.len() ==> l.bs.data[i] == 0,
    ensures
        tr_spec(l.ws) is Ok,
        l.forward(xs) == matmul_spec(xs, tr_spec(l.ws)->Ok_0),
{
    let wt = tr_spec(l.ws)->Ok_0;
    lemma_tr_col(l.ws, 0);
    lemma_numel_small(l.ws.shape);
    lemma_numel_small(l.bs.shape);
    lemma_numel_small(wt.shape);
    lemma_numel_parts(xs.shape);
    if matmul_spec(xs, wt) is Ok {
        let m = matmul_spec(xs, wt)->Ok_0;
        let y = add_spec(m, l.bs)->Ok_0;
        assert(m.shape.last() == l.ws.shape[0]);
        assert forall|i: int| 0 <= i < m.data.len() implies y.data[i] == m.data[i] by {
            lemma_grid_index(i, l.out_dim(), xs.rows());
        }
        assert(y.data =~= m.data);
    }
}

/// A layer made without a trained bias returns the product of the input
/// with the transposed weight, exactly.
pub proof fn lemma_no_bias_is_matmul(
    s: VarStoreView,
    in_dim: i64,
    out_dim: i64,
    c: LinearConfig,
    xs: TensorView,
)
    requires
        s.wf(),
        !c.bias,
        linear_spec(s, in_dim, out_dim, c) is Ok,
        xs.wf(),
    ensures
        ({
            let l = linear_spec(s, in_dim, out_dim, c)->Ok_0.0;
            &&& tr_spec(l.ws) is Ok
            &&& l.forward(xs) == matmul_spec(xs, tr_spec(l.ws)->Ok_0)
        }),
{
    let l = linear_spec(s, in_dim, out_dim, c)->Ok_0.0;
    lemma_linear_makes_layer(s, in_dim, out_dim, c);
    lemma_zero_bias_is_matmul(l, xs);
}

/// Where the configuration names no policy for the bias and the store
/// holds no bias yet, every scalar of the new bias lies between
/// `-1 / sqrt(in_dim)` and `1 / sqrt(in_dim)`.
pub proof fn lemma_default_bias_range(s: VarStoreView, in_dim: i64, out_dim: i64, c: LinearConfig)
    requires
        c.bias,
        c.bs_init is None,
        !s.vars.contains_key(s.key("bias"@)),
        linear_spec(s, in_dim, out_dim, c) is Ok,
    ensures
        all_within(
            linear_spec(s, in_dim, out_dim, c)->Ok_0.0.bs.data,
            (-inv_sqrt_spec(in_dim as int), inv_sqrt_spec(in_dim as int)),
        ),
{
    lemma_inv_sqrt_exists(in_dim as int);
    lemma_init_in_range(s.rng, seq![out_dim], s.device, bias_policy(c, in_dim));
}

/// A layer in the accelerated layout takes inputs in either layout: it
/// succeeds exactly on the inputs on its device whose rows have the length
/// `in_dim`, and its result has the layout of the input and one row of
/// length `out_dim` for each row of the input.
pub proof fn lemma_accelerated_keeps_layout(l: LinearView, xs: TensorView)
    requires
        l.wf(),
        xs.wf(),
        l.ws.layout == Layout::Mkldnn,
    ensures
        l.forward(xs) is Ok <==> xs.device == l.ws.device && xs.shape.last() == l.ws.shape[1],
        l.forward(xs) matches Ok(y) ==> {
            &&& y.wf()
            &&& y.layout == xs.layout
            &&& y.shape == xs.shape.drop_last().push(l.ws.shape[0])
        },
{
    lemma_forward_is_affine(l, xs);
}

} // verus!
