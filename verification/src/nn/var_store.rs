//! The parameter scope: a store of named variables.
//!
//! A store owns the variables of a model, each under a hierarchical name,
//! and the random source that new variables are drawn from. A layer asks the
//! store for its parameters by name: the first request makes the variable,
//! later requests return a handle to the same variable.
use crate::error::TensorError;
use crate::nn::init::{init, init_spec, lemma_init_in_range, Init};
use crate::rng::Rng;
use crate::shape::{is_valid_shape, shape_fits};
use crate::tensor::{result_view, Device, Layout, Tensor, TensorView};
use vstd::prelude::*;

verus! {

/// The mathematical value of a store.
pub struct VarStoreView {
    /// The device that the variables live on.
    pub device: Device,
    /// The scope that requests are made in, outermost component first.
    pub path: Seq<Seq<char>>,
    /// The variables by their full names.
    pub vars: Map<Seq<char>, TensorView>,
    /// The state of the random source.
    pub rng: u64,
}

/// The text that the scope `path` puts before a name: each component
/// followed by a dot.
pub open spec fn scope_prefix(path: Seq<Seq<char>>) -> Seq<char>
    decreases path.len(),
{
    if path.len() == 0 {
        Seq::empty()
    } else {
        scope_prefix(path.drop_last()) + path.last() + seq!['.']
    }
}

/// The full name of the variable `name` in the scope `path`.
pub open spec fn full_name(path: Seq<Seq<char>>, name: Seq<char>) -> Seq<char> {
    scope_prefix(path) + name
}

impl VarStoreView {
    /// Every variable is a well-formed dense tensor on the store's device.
    pub open spec fn wf(self) -> bool {
        &&& self.vars.dom().finite()
        &&& forall|k: Seq<char>| #[trigger]
            self.vars.contains_key(k) ==> {
                &&& self.vars[k].wf()
                &&& self.vars[k].layout == Layout::Dense
                &&& self.vars[k].device == self.device
            }
    }

    /// The full name of `name` in the current scope.
    pub open spec fn key(self, name: Seq<char>) -> Seq<char> {
        full_name(self.path, name)
    }
}

/// What `VarStore::var` returns for a store of value `s`: the variable and
/// the value that the store is left with.
pub open spec fn var_spec(s: VarStoreView, name: Seq<char>, shape: Seq<i64>, policy: Init) -> Result<
    (TensorView, VarStoreView),
    TensorError,
> {
    let key = s.key(name);
    if s.vars.contains_key(key) {
        if s.vars[key].shape == shape {
            Ok((s.vars[key], s))
        } else {
            Err(TensorError::ShapeMismatch)
        }
    } else {
        match init_spec(s.rng, shape, s.device, policy) {
            Ok((t, rng)) => Ok((t, VarStoreView { vars: s.vars.insert(key, t), rng, ..s })),
            Err(e) => Err(e),
        }
    }
}

/// A request that succeeds returns a well-formed dense tensor of the
/// requested shape on the store's device, leaves it registered under the
/// requested name, and touches no other variable, nor the scope, nor the
/// device.
pub proof fn lemma_var_effect(s: VarStoreView, name: Seq<char>, shape: Seq<i64>, policy: Init)
    requires
        s.wf(),
        var_spec(s, name, shape, policy) is Ok,
    ensures
        ({
            let (v, t) = var_spec(s, name, shape, policy)->Ok_0;
            &&& v.wf()
            &&& v.shape == shape
            &&& v.layout == Layout::Dense
            &&& v.device == s.device
            &&& t.wf()
            &&& t.path == s.path
            &&& t.device == s.device
            &&& t.vars == s.vars.insert(s.key(name), v)
        }),
{
    let (v, t) = var_spec(s, name, shape, policy)->Ok_0;
    let key = s.key(name);
    if s.vars.contains_key(key) {
        assert(s.vars.insert(key, v) =~= s.vars);
    } else {
        lemma_init_in_range(s.rng, shape, s.device, policy);
        assert forall|k: Seq<char>| #[trigger] t.vars.contains_key(k) implies {
            &&& t.vars[k].wf()
            &&& t.vars[k].layout == Layout::Dense
            &&& t.vars[k].device == t.device
        } by {
            if k != key {
                assert(s.vars.contains_key(k));
            }
        }
    }
}

/// A request that succeeded succeeds again: the second answer is the
/// variable that the first one gave, and the store stays as the first
/// request left it.
pub proof fn lemma_var_idempotent(s: VarStoreView, name: Seq<char>, shape: Seq<i64>, policy: Init)
    requires
        var_spec(s, name, shape, policy) is Ok,
    ensures
        ({
            let (v, t) = var_spec(s, name, shape, policy)->Ok_0;
            var_spec(t, name, shape, policy) == Ok::<(TensorView, VarStoreView), TensorError>(
                (v, t),
            )
        }),
{
}

/// Whether a request fails, and with which error, depends on nothing in the
/// store but the scope and the variable of the requested name.
pub proof fn lemma_var_failure_is_local(
    s: VarStoreView,
    t: VarStoreView,
    name: Seq<char>,
    shape: Seq<i64>,
    policy: Init,
)
    requires
        t.path == s.path,
        t.vars.contains_key(s.key(name)) == s.vars.contains_key(s.key(name)),
        s.vars.contains_key(s.key(name)) ==> t.vars[s.key(name)].shape == s.vars[s.key(
            name,
        )].shape,
    ensures
        var_spec(s, name, shape, policy) is Err <==> var_spec(t, name, shape, policy) is Err,
        var_spec(s, name, shape, policy) is Err ==> var_spec(s, name, shape, policy)->Err_0
            == var_spec(t, name, shape, policy)->Err_0,
{
}

/// In one scope, names of different lengths have different full names.
pub proof fn lemma_full_names_differ(path: Seq<Seq<char>>, a: Seq<char>, b: Seq<char>)
    requires
        a.len() != b.len(),
    ensures
        full_name(path, a) != full_name(path, b),
{
    assert(full_name(path, a).len() == scope_prefix(path).len() + a.len());
    assert(full_name(path, b).len() == scope_prefix(path).len() + b.len());
}

/// A named variable.
#[derive(Debug)]
struct Variable {
    name: String,
    tensor: Tensor,
}

/// The map that binds each of `keys` to the value at the same place.
spec fn bind(keys: Seq<Seq<char>>, vals: Seq<TensorView>) -> Map<Seq<char>, TensorView>
    decreases keys.len(),
{
    if keys.len() == 0 {
        Map::empty()
    } else {
        bind(keys.drop_last(), vals.drop_last()).insert(keys.last(), vals.last())
    }
}

spec fn names_of(vars: Seq<Variable>) -> Seq<Seq<char>> {
    Seq::new(vars.len(), |i: int| vars[i].name@)
}

spec fn values_of(vars: Seq<Variable>) -> Seq<TensorView> {
    Seq::new(vars.len(), |i: int| vars[i].tensor@)
}

spec fn distinct(keys: Seq<Seq<char>>) -> bool {
    forall|i: int, j: int| 0 <= i < j < keys.len() ==> keys[i] != keys[j]
}

/// The keys of `bind` are the keys given; where they are distinct, each is
/// bound to its own value and there are as many bindings as keys.
proof fn lemma_bind(keys: Seq<Seq<char>>, vals: Seq<TensorView>)
    requires
        keys.len() == vals.len(),
    ensures
        bind(keys, vals).dom().finite(),
        forall|k: Seq<char>| #[trigger]
            bind(keys, vals).contains_key(k) <==> exists|i: int|
                0 <= i < keys.len() && keys[i] == k,
        distinct(keys) ==> bind(keys, vals).dom().len() == keys.len(),
        distinct(keys) ==> forall|i: int|
            0 <= i < keys.len() ==> bind(keys, vals)[#[trigger] keys[i]] == vals[i],
    decreases keys.len(),
{
    if keys.len() > 0 {
        let front_keys = keys.drop_last();
        let front_vals = vals.drop_last();
        let front = bind(front_keys, front_vals);
        lemma_bind(front_keys, front_vals);
        assert forall|k: Seq<char>| #[trigger]
            bind(keys, vals).contains_key(k) <==> exists|i: int|
                0 <= i < keys.len() && keys[i] == k by {
            if bind(keys, vals).contains_key(k) {
                if k == keys.last() {
                    assert(keys[keys.len() - 1] == k);
                } else {
                    assert(front.contains_key(k));
                    let i = choose|i: int| 0 <= i < front_keys.len() && front_keys[i] == k;
                    assert(keys[i] == k);
                }
            }
            if exists|i: int| 0 <= i < keys.len() && keys[i] == k {
                let i = choose|i: int| 0 <= i < keys.len() && keys[i] == k;
                if i < keys.len() - 1 {
                    assert(front_keys[i] == k);
                    assert(front.contains_key(k));
                }
            }
        }
        if distinct(keys) {
            assert(distinct(front_keys)) by {
                assert forall|i: int, j: int| 0 <= i < j < front_keys.len() implies front_keys[i]
                    != front_keys[j] by {
                    assert(keys[i] != keys[j]);
                }
            }
            assert(!front.contains_key(keys.last())) by {
                if front.contains_key(keys.last()) {
                    let i = choose|i: int|
                        0 <= i < front_keys.len() && front_keys[i] == keys.last();
                    assert(keys[i] != keys[keys.len() - 1]);
                }
            }
            assert forall|i: int| 0 <= i < keys.len() implies bind(keys, vals)[#[trigger] keys[i]]
                == vals[i] by {
                if i < keys.len() - 1 {
                    assert(keys[i] != keys[keys.len() - 1]);
                    assert(front[front_keys[i]] == front_vals[i]);
                }
            }
        }
    }
}

/// A store of named variables.
#[derive(Debug)]
pub struct VarStore {
    device: Device,
    path: Vec<String>,
    vars: Vec<Variable>,
    rng: Rng,
}

impl View for VarStore {
    type V = VarStoreView;

    closed spec fn view(&self) -> VarStoreView {
        VarStoreView {
            device: self.device,
            path: Seq::new(self.path@.len(), |i: int| self.path@[i]@),
            vars: bind(names_of(self.vars@), values_of(self.vars@)),
            rng: self.rng@,
        }
    }
}

impl VarStore {
    /// No two variables have the same name.
    pub closed spec fn names_distinct(&self) -> bool {
        distinct(names_of(self.vars@))
    }

    #[verifier::type_invariant]
    pub open spec fn inv(&self) -> bool {
        &&& self.names_distinct()
        &&& self@.wf()
    }

    /// An empty store on `device`, in its outermost scope, whose random
    /// source starts from `seed`.
    pub fn new(device: Device, seed: u64) -> (vs: VarStore)
        ensures
            vs@ == (VarStoreView {
                device,
                path: Seq::empty(),
                vars: Map::empty(),
                rng: seed,
            }),
    {
        let vs = VarStore { device, path: Vec::new(), vars: Vec::new(), rng: Rng::new(seed) };
        assert(vs@.path =~= Seq::empty());
        assert(names_of(vs.vars@) =~= Seq::empty());
        assert(vs@.vars.dom() =~= Set::empty());
        vs
    }

    /// The device that the variables live on.
    pub fn device(&self) -> (d: Device)
        ensures
            d == self@.device,
    {
        self.device
    }

    /// The number of variables.
    pub fn len(&self) -> (n: usize)
        ensures
            n == self@.vars.dom().len(),
    {
        proof {
            use_type_invariant(self);
            lemma_bind(names_of(self.vars@), values_of(self.vars@));
        }
        self.vars.len()
    }

    /// Enters the scope `name` inside the current scope.
    pub fn enter(&mut self, name: &str)
        ensures
            final(self)@ == (VarStoreView { path: old(self)@.path.push(name@), ..old(self)@ }),
    {
        proof {
            use_type_invariant(&*self);
        }
        // The path is taken out of the store while it changes, so that the
        // store's invariant holds at every step.
        let mut path: Vec<String> = Vec::new();
        std::mem::swap(&mut self.path, &mut path);
        path.push(String::from_str(name));
        std::mem::swap(&mut self.path, &mut path);
        assert(self@.path =~= old(self)@.path.push(name@));
    }

    /// Leaves the current scope for the one around it; in the outermost
    /// scope nothing changes.
    pub fn leave(&mut self)
        ensures
            final(self)@ == (VarStoreView {
                path: if old(self)@.path.len() > 0 {
                    old(self)@.path.drop_last()
                } else {
                    old(self)@.path
                },
                ..old(self)@
            }),
    {
        proof {
            use_type_invariant(&*self);
        }
        let mut path: Vec<String> = Vec::new();
        std::mem::swap(&mut self.path, &mut path);
        path.pop();
        std::mem::swap(&mut self.path, &mut path);
        proof {
            if old(self)@.path.len() > 0 {
                assert(self@.path =~= old(self)@.path.drop_last());
            } else {
                assert(self@.path =~= old(self)@.path);
            }
        }
    }

    fn key(&self, name: &str) -> (key: String)
        ensures
            key@ == self@.key(name@),
    {
        let ghost path = self@.path;
        let mut key: String = String::new();
        let mut i: usize = 0;
        assert(path.take(0).len() == 0);
        while i < self.path.len()
            invariant
                i <= self.path.len(),
                path == self@.path,
                path.len() == self.path@.len(),
                key@ == scope_prefix(path.take(i as int)),
            decreases self.path.len() - i,
        {
            proof {
                reveal_strlit(".");
                assert(path.take(i + 1).drop_last() =~= path.take(i as int));
                assert(path.take(i + 1).last() == self.path@[i as int]@);
                assert("."@ =~= seq!['.']);
            }
            key.append(self.path[i].as_str());
            key.append(".");
            i = i + 1;
        }
        assert(path.take(path.len() as int) =~= path);
        key.append(name);
        key
    }

    fn find(&self, key: &String) -> (at: Option<usize>)
        ensures
            at matches Some(i) ==> i < self.vars@.len() && self.vars@[i as int].name@ == key@,
            at is None ==> forall|i: int| 0 <= i < self.vars@.len() ==> self.vars@[i].name@ != key@,
    {
        let mut i: usize = 0;
        while i < self.vars.len()
            invariant
                i <= self.vars.len(),
                forall|k: int| 0 <= k < i ==> self.vars@[k].name@ != key@,
            decreases self.vars.len() - i,
        {
            if self.vars[i].name == *key {
                return Some(i);
            }
            i = i + 1;
        }
        None
    }

    /// A handle to the variable `name` of the current scope, if there is
    /// one.
    pub fn get(&self, name: &str) -> (r: Option<Tensor>)
        ensures
            r is Some <==> self@.vars.contains_key(self@.key(name@)),
            r matches Some(t) ==> t@ == self@.vars[self@.key(name@)],
    {
        proof {
            use_type_invariant(&*self);
            lemma_bind(names_of(self.vars@), values_of(self.vars@));
        }
        let key: String = self.key(name);
        match self.find(&key) {
            Some(i) => {
                assert(names_of(self.vars@)[i as int] == key@);
                Some(self.vars[i].tensor.shallow_clone())
            },
            None => None,
        }
    }

    /// Tells what `var` would answer to the same request, without making
    /// anything.
    pub fn check_var(&self, name: &str, dims: &[i64], policy: Init) -> (r: Result<(), TensorError>)
        ensures
            match var_spec(self@, name@, dims@, policy) {
                Ok(_) => r is Ok,
                Err(e) => r == Err::<(), TensorError>(e),
            },
    {
        proof {
            use_type_invariant(&*self);
            lemma_bind(names_of(self.vars@), values_of(self.vars@));
        }
        let key: String = self.key(name);
        match self.find(&key) {
            Some(i) => {
                assert(names_of(self.vars@)[i as int] == key@);
                if self.vars[i].tensor.has_shape(dims) {
                    Ok(())
                } else {
                    Err(TensorError::ShapeMismatch)
                }
            },
            None => {
                if !is_valid_shape(dims) {
                    return Err(TensorError::InvalidShape);
                }
                match policy {
                    Init::Uniform { lo, up } => {
                        if lo > up {
                            return Err(TensorError::InvalidRange);
                        }
                    },
                    _ => {},
                }
                Ok(())
            },
        }
    }

    /// The variable `name` of the current scope, of shape `dims`.
    ///
    /// Where the store holds no variable of that name, one is made as
    /// `policy` says, registered, and a handle to it returned. Where it holds
    /// one of shape `dims`, a handle to that variable is returned and nothing
    /// is drawn. Where it holds one of another shape, the request fails with
    /// `ShapeMismatch`. A failed request leaves the store as it was.
    pub fn var(&mut self, name: &str, dims: &[i64], policy: Init) -> (r: Result<
        Tensor,
        TensorError,
    >)
        requires
            shape_fits(dims@),
        ensures
            match var_spec(old(self)@, name@, dims@, policy) {
                Ok((t, s)) => result_view(r) == Ok::<TensorView, TensorError>(t) && final(self)@
                    == s,
                Err(e) => result_view(r) == Err::<TensorView, TensorError>(e) && final(self)@
                    == old(self)@,
            },
    {
        proof {
            use_type_invariant(&*self);
            lemma_bind(names_of(self.vars@), values_of(self.vars@));
        }
        let key: String = self.key(name);
        match self.find(&key) {
            Some(i) => {
                assert(names_of(self.vars@)[i as int] == key@);
                if self.vars[i].tensor.has_shape(dims) {
                    Ok(self.vars[i].tensor.shallow_clone())
                } else {
                    Err(TensorError::ShapeMismatch)
                }
            },
            None => {
                let ghost before = self@;
                let ghost seed = self.rng@;
                let mut rng: Rng = self.rng;
                match init(&mut rng, dims, self.device, policy) {
                    Ok(tensor) => {
                        let handle: Tensor = tensor.shallow_clone();
                        // The variables are taken out of the store while the
                        // new one is added, so that the store's invariant
                        // holds at every step.
                        let mut vars: Vec<Variable> = Vec::new();
                        std::mem::swap(&mut self.vars, &mut vars);
                        vars.push(Variable { name: key, tensor });
                        proof {
                            lemma_init_in_range(seed, dims@, self.device, policy);
                            let keys = names_of(vars@);
                            let vals = values_of(vars@);
                            assert(keys.drop_last() =~= names_of(old(self).vars@));
                            assert(vals.drop_last() =~= values_of(old(self).vars@));
                            assert(bind(keys, vals) == before.vars.insert(key@, handle@));
                            assert(distinct(keys)) by {
                                assert forall|i: int, j: int|
                                    0 <= i < j < keys.len() implies keys[i] != keys[j] by {
                                    if j < keys.len() - 1 {
                                        assert(names_of(old(self).vars@)[i] != names_of(
                                            old(self).vars@,
                                        )[j]);
                                    } else {
                                        assert(old(self).vars@[i].name@ != key@);
                                    }
                                }
                            }
                            assert forall|k: Seq<char>| #[trigger]
                                bind(keys, vals).contains_key(k) implies {
                                &&& bind(keys, vals)[k].wf()
                                &&& bind(keys, vals)[k].layout == Layout::Dense
                                &&& bind(keys, vals)[k].device == before.device
                            } by {
                                if k != key@ {
                                    assert(before.vars.contains_key(k));
                                }
                            }
                        }
                        self.rng = rng;
                        std::mem::swap(&mut self.vars, &mut vars);
                        proof {
                            let keys = names_of(self.vars@);
                            let vals = values_of(self.vars@);
                            assert(keys.drop_last() =~= names_of(old(self).vars@));
                            assert(vals.drop_last() =~= values_of(old(self).vars@));
                            assert(self@.path =~= before.path);
                        }
                        Ok(handle)
                    },
                    Err(e) => {
                        assert(self@.path =~= before.path);
                        Err(e)
                    },
                }
            },
        }
    }
}

} // verus!
