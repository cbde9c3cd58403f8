//! Initialisation policies for parameters.
use crate::error::TensorError;
use crate::fixed::{inv_sqrt, inv_sqrt_spec, lemma_inv_sqrt_exists};
use crate::rng::{draw, lemma_uniform_in_range, skip, uniform_value, Rng};
use crate::shape::{
    checked_numel, is_valid_shape, lemma_numel_parts, shape_fan_in, shape_fits, shape_numel,
    shape_valid,
};
use crate::tensor::{result_view, Device, Layout, Tensor, TensorView};
use vstd::prelude::*;

verus! {

/// How the scalars of a new parameter are chosen.
#[derive(Debug, Clone, Copy, PartialEq, Eq)]
pub enum Init {
    /// Every scalar is the given constant.
    Const(i32),
    /// Scalars drawn uniformly between `lo` and `up`, both ends counted.
    Uniform { lo: i32, up: i32 },
    /// Scalars drawn uniformly between `-b` and `b`, where `b` is
    /// `1 / sqrt(fan_in)` and the fan-in is the product of all dimensions
    /// but the first.
    KaimingUniform,
}

/// The least and the greatest scalar that `policy` can give to a parameter
/// of shape `shape`.
pub open spec fn init_range(policy: Init, shape: Seq<i64>) -> (int, int) {
    match policy {
        Init::Const(v) => (v as int, v as int),
        Init::Uniform { lo, up } => (lo as int, up as int),
        Init::KaimingUniform => (
            -inv_sqrt_spec(shape_fan_in(shape)),
            inv_sqrt_spec(shape_fan_in(shape)),
        ),
    }
}

/// The number of draws that `policy` makes for a parameter of shape `shape`.
pub open spec fn init_draws(policy: Init, shape: Seq<i64>) -> nat {
    match policy {
        Init::Const(_) => 0,
        _ => shape_numel(shape) as nat,
    }
}

/// Scalar `i` of a parameter of shape `shape` that `policy` fills from a
/// generator in state `seed`.
pub open spec fn init_entry(policy: Init, shape: Seq<i64>, seed: u64, i: int) -> i32 {
    match policy {
        Init::Const(v) => v,
        _ => uniform_value(
            init_range(policy, shape).0,
            init_range(policy, shape).1,
            draw(skip(seed, i as nat)),
        ) as i32,
    }
}

/// What `init` returns from a generator in state `seed`: the new tensor and
/// the state that the generator is left in.
pub open spec fn init_spec(seed: u64, shape: Seq<i64>, device: Device, policy: Init) -> Result<
    (TensorView, u64),
    TensorError,
> {
    if !shape_valid(shape) {
        Err(TensorError::InvalidShape)
    } else if policy matches Init::Uniform { lo, up } && lo > up {
        Err(TensorError::InvalidRange)
    } else {
        Ok(
            (
                TensorView {
                    shape,
                    data: Seq::new(
                        shape_numel(shape) as nat,
                        |i: int| init_entry(policy, shape, seed, i),
                    ),
                    layout: Layout::Dense,
                    device,
                },
                skip(seed, init_draws(policy, shape)),
            ),
        )
    }
}

/// Every scalar lies between `range.0` and `range.1`.
pub open spec fn all_within(data: Seq<i32>, range: (int, int)) -> bool {
    forall|i: int| 0 <= i < data.len() ==> range.0 <= #[trigger] data[i] <= range.1
}

/// A successful initialisation gives a well-formed dense tensor of the
/// requested shape on the requested device, with every scalar inside the
/// range of the policy.
pub proof fn lemma_init_in_range(seed: u64, shape: Seq<i64>, device: Device, policy: Init)
    requires
        init_spec(seed, shape, device, policy) is Ok,
    ensures
        ({
            let t = init_spec(seed, shape, device, policy)->Ok_0.0;
            &&& t.wf()
            &&& t.shape == shape
            &&& t.layout == Layout::Dense
            &&& t.device == device
            &&& all_within(t.data, init_range(policy, shape))
            &&& init_range(policy, shape).0 <= init_range(policy, shape).1
            &&& i32::MIN <= init_range(policy, shape).0
            &&& init_range(policy, shape).1 <= i32::MAX
        }),
{
    let t = init_spec(seed, shape, device, policy)->Ok_0.0;
    let range = init_range(policy, shape);
    lemma_numel_parts(shape);
    if policy is KaimingUniform {
        lemma_inv_sqrt_exists(shape_fan_in(shape));
    }
    assert forall|i: int| 0 <= i < t.data.len() implies range.0 <= #[trigger] t.data[i]
        <= range.1 by {
        if !(policy is Const) {
            lemma_uniform_in_range(range.0, range.1, draw(skip(seed, i as nat)));
        }
    }
}

/// Makes a tensor of shape `dims` on `device` and fills it as `policy` says,
/// drawing from `rng`.
///
/// Fails with `InvalidShape` where `dims` is empty or has a dimension below
/// one, and with `InvalidRange` where the policy is a uniform distribution
/// whose lower bound lies above its upper bound; a failed call draws
/// nothing.
pub fn init(rng: &mut Rng, dims: &[i64], device: Device, policy: Init) -> (r: Result<
    Tensor,
    TensorError,
>)
    requires
        shape_fits(dims@),
    ensures
        match init_spec(old(rng)@, dims@, device, policy) {
            Ok((t, state)) => result_view(r) == Ok::<TensorView, TensorError>(t) && final(rng)@
                == state,
            Err(e) => result_view(r) == Err::<TensorView, TensorError>(e) && final(rng)@ == old(
                rng,
            )@,
        },
        r matches Ok(t) ==> all_within(t@.data, init_range(policy, dims@)),
{
    if !is_valid_shape(dims) {
        return Err(TensorError::InvalidShape);
    }
    let n: usize = match checked_numel(dims) {
        Some(n) => n,
        None => {
            assert(false);
            return Err(TensorError::InvalidShape);
        },
    };
    proof {
        lemma_numel_parts(dims@);
    }
    let (lo, up): (i32, i32) = match policy {
        Init::Const(v) => {
            let filled = Tensor::full(dims, v, device);
            proof {
                lemma_init_in_range(rng@, dims@, device, policy);
                assert(result_view(filled)->Ok_0.data =~= init_spec(
                    rng@,
                    dims@,
                    device,
                    policy,
                )->Ok_0.0.data);
            }
            return filled;
        },
        Init::Uniform { lo, up } => {
            if lo > up {
                return Err(TensorError::InvalidRange);
            }
            (lo, up)
        },
        Init::KaimingUniform => {
            let first: usize = dims[0] as usize;
            proof {
                vstd::arithmetic::div_mod::lemma_div_multiples_vanish(
                    shape_fan_in(dims@),
                    first as int,
                );
            }
            let fan_in: usize = n / first;
            let bound: i32 = inv_sqrt(fan_in as u64);
            (-bound, bound)
        },
    };
    proof {
        lemma_init_in_range(rng@, dims@, device, policy);
    }
    let ghost seed: u64 = rng@;
    let mut data: Vec<i32> = Vec::new();
    let mut i: usize = 0;
    while i < n
        invariant
            i <= n,
            lo <= up,
            lo == init_range(policy, dims@).0,
            up == init_range(policy, dims@).1,
            !(policy is Const),
            rng@ == skip(seed, i as nat),
            data@.len() == i,
            forall|k: int| 0 <= k < i ==> data@[k] == init_entry(policy, dims@, seed, k),
        decreases n - i,
    {
        let v: i32 = rng.uniform(lo, up);
        data.push(v);
        i = i + 1;
    }
    proof {
        assert(data@ =~= init_spec(seed, dims@, device, policy)->Ok_0.0.data);
    }
    Tensor::from_vec(dims, data, device)
}

} // verus!
