//! A QUEST+ session: the domains, the likelihood tensor built once, the
//! posterior over the parameter grid and the record of trials.
//!
//! The posterior changes only through `commit_update`, and only when the
//! staged posterior is complete; a rejected update leaves the session as it
//! was. Stimulus selection and the mode estimate read the session alone.
use vstd::prelude::*;

use crate::domain::{ParameterDomain, StimulusDomain};
use crate::error::QuestPlusError;
use crate::select::{
    argmax_first, argmin_first, first_max_index, first_min_index, is_first_max, is_first_min,
    lemma_first_max_unique, lemma_first_min_unique,
};
use crate::shape::{
    all_positive, flat_offset, grid_size, in_bounds, lemma_offset_bound, lemma_offset_concat,
    lemma_offset_order, lemma_unravel, lex_lt, unravel, Shape,
};
use crate::tensor::Tensor;

verus! {

/// Scale on which stimulus values are given.
#[derive(Debug, Clone, Copy, PartialEq, Eq, Structural)]
pub enum StimScale {
    Linear,
    Log10,
    Decibel,
}

/// How the next stimulus is chosen.
#[derive(Debug, Clone, Copy, PartialEq, Eq, Structural)]
pub enum StimSelectionMethod {
    /// The candidate with the least expected posterior entropy, the first one
    /// on a tie.
    MinEntropy,
}

/// How a point estimate is read off the posterior.
#[derive(Debug, Clone, Copy, PartialEq, Eq, Structural)]
pub enum ParamEstimationMethod {
    /// The grid cell of largest posterior probability.
    Mode,
    /// The posterior mean of each parameter, from its marginal.
    Mean,
}

/// One trial: the stimulus presented, by position, and the outcome observed.
#[derive(Debug, Clone, Copy, PartialEq, Eq, Structural)]
pub struct TrialRecord {
    pub stimulus_index: usize,
    pub outcome: usize,
}

/// Extents of the likelihood tensor: outcome, stimulus, then each parameter.
pub open spec fn likelihood_dims(n_outcomes: usize, n_stimuli: usize, param_dims: Seq<usize>) -> Seq<
    usize,
> {
    seq![n_outcomes, n_stimuli] + param_dims
}

/// Position in the likelihood buffer of outcome `o`, stimulus `s` and
/// parameter cell `p` (a row-major position in the parameter grid).
pub open spec fn likelihood_pos(n_stimuli: nat, n_cells: nat, o: nat, s: nat, p: nat) -> nat {
    (o * n_stimuli + s) * n_cells + p
}

/// The extents `[n_outcomes, n_stimuli] + param_dims` as a vector.
fn likelihood_dims_vec(n_outcomes: usize, n_stimuli: usize, param_dims: &Vec<usize>) -> (r: Vec<
    usize,
>)
    ensures
        r@ == likelihood_dims(n_outcomes, n_stimuli, param_dims@),
{
    let mut dims: Vec<usize> = Vec::new();
    dims.push(n_outcomes);
    dims.push(n_stimuli);
    let mut k: usize = 0;
    while k < param_dims.len()
        invariant
            k <= param_dims@.len(),
            dims@ =~= seq![n_outcomes, n_stimuli] + param_dims@.subrange(0, k as int),
        decreases param_dims@.len() - k,
    {
        dims.push(param_dims[k]);
        k = k + 1;
    }
    assert(param_dims@.subrange(0, param_dims@.len() as int) =~= param_dims@);
    dims
}

/// The shape of the likelihood tensor for `n_outcomes` outcomes over the given
/// domains. Fails with `EmptyDomain` when there is no outcome, and with
/// `ShapeInvariantViolation` when the tensor has more cells than `usize` counts.
pub fn likelihood_shape<T>(
    n_outcomes: usize,
    stimuli: &StimulusDomain<T>,
    params: &ParameterDomain<T>,
) -> (r: Result<Shape, QuestPlusError>)
    requires
        params.wf(),
    ensures
        r is Ok <==> (all_positive(likelihood_dims(n_outcomes, stimuli.view().len() as usize, params.dims()))
            && grid_size(likelihood_dims(n_outcomes, stimuli.view().len() as usize, params.dims()))
            <= usize::MAX),
        r is Ok ==> (r->Ok_0.wf() && r->Ok_0@ == likelihood_dims(
            n_outcomes,
            stimuli.view().len() as usize,
            params.dims(),
        )),
        r is Err ==> (r->Err_0 == QuestPlusError::EmptyDomain || r->Err_0
            == QuestPlusError::ShapeInvariantViolation),
{
    let dims = likelihood_dims_vec(n_outcomes, stimuli.len(), params.shape().dims());
    Shape::new(dims)
}

fn same_dims(a: &Vec<usize>, b: &Vec<usize>) -> (r: bool)
    ensures
        r == (a@ == b@),
{
    if a.len() != b.len() {
        return false;
    }
    let mut k: usize = 0;
    while k < a.len()
        invariant
            a@.len() == b@.len(),
            k <= a@.len(),
            forall|j: int| 0 <= j < k ==> a@[j] == b@[j],
        decreases a@.len() - k,
    {
        if a[k] != b[k] {
            return false;
        }
        k = k + 1;
    }
    assert(a@ =~= b@);
    true
}

/// The mode is determined by the posterior: two in-bounds cells that both
/// hold the first greatest key (in row-major order) are the same cell, and by
/// `lemma_offset_order` no lexicographically smaller cell holds as great a key.
pub proof fn lemma_mode_unique(dims: Seq<usize>, keys: Seq<u64>, a: Seq<usize>, b: Seq<usize>)
    requires
        in_bounds(dims, a),
        in_bounds(dims, b),
        is_first_max(keys, flat_offset(dims, a) as int),
        is_first_max(keys, flat_offset(dims, b) as int),
    ensures
        a == b,
{
    lemma_first_max_unique(keys, flat_offset(dims, a) as int, flat_offset(dims, b) as int);
    lemma_offset_order(dims, a, b);
}

/// One adaptive-testing run.
pub struct Session<T> {
    stimuli: StimulusDomain<T>,
    params: ParameterDomain<T>,
    likelihood: Tensor<T>,
    posterior: Tensor<T>,
    trials: Vec<TrialRecord>,
    selection: StimSelectionMethod,
    estimation: ParamEstimationMethod,
}

impl<T> Session<T> {
    /// Candidate stimulus values.
    pub closed spec fn stimuli(&self) -> Seq<T> {
        self.stimuli.view()
    }

    /// Extents of the parameter grid.
    pub closed spec fn param_dims(&self) -> Seq<usize> {
        self.params.dims()
    }

    /// Number of outcomes of a trial.
    pub closed spec fn outcome_count(&self) -> nat {
        self.likelihood.dims()[0] as nat
    }

    /// Number of cells of the parameter grid.
    pub open spec fn cell_count(&self) -> nat {
        grid_size(self.param_dims())
    }

    /// The likelihood buffer, laid out as `likelihood_pos` says.
    pub closed spec fn likelihood(&self) -> Seq<T> {
        self.likelihood.cells()
    }

    /// The posterior over the parameter grid, row-major.
    pub closed spec fn posterior(&self) -> Seq<T> {
        self.posterior.cells()
    }

    /// The trials committed so far, in order.
    pub closed spec fn trial_seq(&self) -> Seq<TrialRecord> {
        self.trials@
    }

    /// The configured selection method.
    pub closed spec fn selection_config(&self) -> StimSelectionMethod {
        self.selection
    }

    /// The configured estimation method.
    pub closed spec fn estimation_config(&self) -> ParamEstimationMethod {
        self.estimation
    }

    /// The tensors fit the domains.
    pub closed spec fn wf(&self) -> bool {
        &&& self.params.wf()
        &&& self.stimuli.wf()
        &&& self.likelihood.wf()
        &&& self.posterior.wf()
        &&& self.likelihood.dims().len() >= 2
        &&& self.likelihood.dims() == likelihood_dims(
            self.likelihood.dims()[0],
            self.stimuli.view().len() as usize,
            self.params.dims(),
        )
        &&& self.posterior.dims() == self.params.dims()
    }

    /// A session over the given domains that starts from `prior`. Fails with
    /// `ShapeInvariantViolation` unless the likelihood is laid out as (outcome,
    /// stimulus, parameters...) over these domains and the prior over the
    /// parameter grid.
    pub fn new(
        stimuli: StimulusDomain<T>,
        params: ParameterDomain<T>,
        likelihood: Tensor<T>,
        prior: Tensor<T>,
        selection: StimSelectionMethod,
        estimation: ParamEstimationMethod,
    ) -> (r: Result<Session<T>, QuestPlusError>)
        requires
            stimuli.wf(),
            params.wf(),
            likelihood.wf(),
            prior.wf(),
        ensures
            r is Ok <==> (likelihood.dims().len() >= 2 && likelihood.dims() == likelihood_dims(
                likelihood.dims()[0],
                stimuli.view().len() as usize,
                params.dims(),
            ) && prior.dims() == params.dims()),
            r is Err ==> r->Err_0 == QuestPlusError::ShapeInvariantViolation,
            r is Ok ==> {
                let s = r->Ok_0;
                &&& s.wf()
                &&& s.stimuli() == stimuli.view()
                &&& s.param_dims() == params.dims()
                &&& s.param_dims().len() == params.grids().len()
                &&& forall|k: int|
                    0 <= k < params.grids().len() ==> #[trigger] s.parameter_grid(k)
                        == params.grids()[k]@
                &&& s.selection_config() == selection
                &&& s.estimation_config() == estimation
                &&& s.outcome_count() == likelihood.dims()[0]
                &&& s.likelihood() == likelihood.cells()
                &&& s.posterior() == prior.cells()
                &&& s.trial_seq().len() == 0
            },
    {
        let pdims = params.shape().dims();
        let ldims = likelihood.shape().dims();
        if ldims.len() < 2 || !same_dims(prior.shape().dims(), pdims) {
            return Err(QuestPlusError::ShapeInvariantViolation);
        }
        let expected = likelihood_dims_vec(ldims[0], stimuli.len(), pdims);
        if !same_dims(ldims, &expected) {
            return Err(QuestPlusError::ShapeInvariantViolation);
        }
        Ok(
            Session {
                stimuli,
                params,
                likelihood,
                posterior: prior,
                trials: Vec::new(),
                selection,
                estimation,
            },
        )
    }

    /// The stimulus domain.
    pub fn stimulus_domain(&self) -> (r: &StimulusDomain<T>)
        ensures
            r.view() == self.stimuli(),
    {
        &self.stimuli
    }

    /// The parameter domain.
    pub fn parameter_domain(&self) -> (r: &ParameterDomain<T>)
        requires
            self.wf(),
        ensures
            r.wf(),
            r.dims() == self.param_dims(),
            forall|k: int| 0 <= k < r.grids().len() ==> r.grids()[k]@ == #[trigger] self.parameter_grid(k),
    {
        &self.params
    }

    /// The posterior tensor over the parameter grid.
    pub fn posterior_tensor(&self) -> (r: &Tensor<T>)
        requires
            self.wf(),
        ensures
            r.wf(),
            r.dims() == self.param_dims(),
            r.cells() == self.posterior(),
    {
        &self.posterior
    }

    /// The likelihood tensor, indexed by (outcome, stimulus, parameters...).
    pub fn likelihood_tensor(&self) -> (r: &Tensor<T>)
        requires
            self.wf(),
        ensures
            r.wf(),
            r.dims() == likelihood_dims(
                self.outcome_count() as usize,
                self.stimuli().len() as usize,
                self.param_dims(),
            ),
            r.cells() == self.likelihood(),
    {
        &self.likelihood
    }

    /// The trials committed so far.
    pub fn trials(&self) -> (r: &Vec<TrialRecord>)
        ensures
            r@ == self.trial_seq(),
    {
        &self.trials
    }

    /// The configured selection method.
    pub fn selection_method(&self) -> (r: StimSelectionMethod)
        ensures
            r == self.selection_config(),
    {
        self.selection
    }

    /// The configured estimation method.
    pub fn estimation_method(&self) -> (r: ParamEstimationMethod)
        ensures
            r == self.estimation_config(),
    {
        self.estimation
    }

    /// Number of outcomes of a trial.
    pub fn n_outcomes(&self) -> (r: usize)
        requires
            self.wf(),
        ensures
            r == self.outcome_count(),
    {
        self.likelihood.shape().dim(0)
    }

    /// Number of candidate stimuli.
    pub fn n_stimuli(&self) -> (r: usize)
        ensures
            r == self.stimuli().len(),
    {
        self.stimuli.len()
    }

    /// Number of cells of the parameter grid.
    pub fn n_cells(&self) -> (r: usize)
        requires
            self.wf(),
        ensures
            r == self.cell_count(),
            r == self.posterior().len(),
    {
        self.posterior.len()
    }

    proof fn lemma_likelihood_layout(&self, o: nat, s: nat, p: nat)
        requires
            self.wf(),
            o < self.outcome_count(),
            s < self.stimuli().len(),
            p < self.cell_count(),
        ensures
            likelihood_pos(self.stimuli().len(), self.cell_count(), o, s, p) < self.likelihood().len(),
            self.likelihood().len() <= usize::MAX,
            self.posterior().len() == self.cell_count(),
            o * self.stimuli().len() + s <= likelihood_pos(
                self.stimuli().len(),
                self.cell_count(),
                o,
                s,
                p,
            ),
    {
        let pd = self.param_dims();
        let head = seq![self.likelihood.dims()[0], self.stimuli.view().len() as usize];
        let hi = seq![o as usize, s as usize];
        let pi = unravel(pd, p);
        self.params.lemma_wf();
        self.likelihood.lemma_wf();
        self.posterior.lemma_wf();
        assert(head[0] == self.likelihood.dims()[0]);
        assert(head[1] == self.stimuli.view().len());
        assert(hi[0] == o && hi[1] == s);
        assert(hi[0] < head[0] && hi[1] < head[1]);
        assert(hi.drop_last() =~= seq![o as usize]);
        assert(head.drop_last() =~= seq![self.likelihood.dims()[0]]);
        lemma_unravel(pd, p);
        lemma_offset_concat(head, pd, hi, pi);
        assert(head + pd == self.likelihood.dims());
        assert(hi.drop_last().drop_last() =~= Seq::<usize>::empty());
        assert(head.drop_last().drop_last() =~= Seq::<usize>::empty());
        let h1 = head.drop_last();
        let i1 = hi.drop_last();
        assert(h1.len() == 1 && i1.len() == 1 && i1.last() == o);
        assert(h1.drop_last().len() == 0);
        assert(flat_offset(h1.drop_last(), i1.drop_last()) == 0);
        assert(flat_offset(h1, i1) == 0 * (h1.last() as nat) + o);
        assert(flat_offset(head.drop_last(), hi.drop_last()) == o);
        assert(flat_offset(head, hi) == o * self.stimuli().len() + s);
        lemma_offset_bound(head + pd, hi + pi);
        let a = o * self.stimuli().len() + s;
        let c = self.cell_count();
        assert(a <= a * c + p) by (nonlinear_arith)
            requires
                c >= 1,
        {
        }
    }

    /// Position in the likelihood buffer of outcome `o`, stimulus `s` and
    /// parameter cell `p`.
    pub fn likelihood_index(&self, o: usize, s: usize, p: usize) -> (r: usize)
        requires
            self.wf(),
            o < self.outcome_count(),
            s < self.stimuli().len(),
            p < self.cell_count(),
        ensures
            r == likelihood_pos(self.stimuli().len(), self.cell_count(), o as nat, s as nat, p as nat),
            r < self.likelihood().len(),
    {
        proof {
            self.lemma_likelihood_layout(o as nat, s as nat, p as nat);
        }
        let n_stim = self.stimuli.len();
        let n_cells = self.posterior.len();
        assert(o * n_stim <= o * n_stim + s);
        let row = o * n_stim + s;
        row * n_cells + p
    }

    /// Probability of outcome `o` at stimulus `s` under parameter cell `p`.
    pub fn likelihood_at(&self, o: usize, s: usize, p: usize) -> (r: &T)
        requires
            self.wf(),
            o < self.outcome_count(),
            s < self.stimuli().len(),
            p < self.cell_count(),
        ensures
            *r == self.likelihood()[likelihood_pos(
                self.stimuli().len(),
                self.cell_count(),
                o as nat,
                s as nat,
                p as nat,
            ) as int],
    {
        let f = self.likelihood_index(o, s, p);
        self.likelihood.get_flat(f)
    }

    /// Posterior probability of parameter cell `p`.
    pub fn posterior_at(&self, p: usize) -> (r: &T)
        requires
            self.wf(),
            p < self.cell_count(),
        ensures
            *r == self.posterior()[p as int],
    {
        proof {
            self.posterior.lemma_wf();
        }
        self.posterior.get_flat(p)
    }

    /// Position of the stimulus to present next, given the order key of each
    /// candidate's expected posterior entropy: the first candidate of least
    /// key. Fails with `ShapeInvariantViolation` unless there is one key per
    /// candidate.
    pub fn select_stimulus(&self, expected_entropy: &Vec<u64>) -> (r: Result<usize, QuestPlusError>)
        requires
            self.wf(),
        ensures
            r is Ok <==> expected_entropy@.len() == self.stimuli().len(),
            r is Ok ==> is_first_min(expected_entropy@, r->Ok_0 as int),
            r is Ok ==> r->Ok_0 as int == first_min_index(expected_entropy@),
            r is Err ==> r->Err_0 == QuestPlusError::ShapeInvariantViolation,
    {
        if expected_entropy.len() != self.stimuli.len() {
            return Err(QuestPlusError::ShapeInvariantViolation);
        }
        match argmin_first(expected_entropy) {
            Some(i) => {
                proof {
                    lemma_first_min_unique(
                        expected_entropy@,
                        i as int,
                        first_min_index(expected_entropy@),
                    );
                }
                Ok(i)
            },
            None => Err(QuestPlusError::ShapeInvariantViolation),
        }
    }

    /// Commits the outcome of a trial. `staged` is the normalised posterior
    /// computed from the current one and the likelihood of the observation, or
    /// `None` when its normaliser was zero or not finite.
    ///
    /// Fails with `ShapeInvariantViolation` when the stimulus or the outcome is
    /// out of range or the staged posterior has the wrong length, and
    /// otherwise with `NumericalDegeneracy` when nothing was staged. On failure
    /// the session is left as it was; on success the posterior is the staged
    /// one and the trial is appended to the record.
    pub fn commit_update(
        &mut self,
        stimulus_index: usize,
        outcome: usize,
        staged: Option<Vec<T>>,
    ) -> (r: Result<(), QuestPlusError>)
        requires
            old(self).wf(),
        ensures
            final(self).wf(),
            r is Ok <==> (stimulus_index < old(self).stimuli().len() && outcome < old(
                self,
            ).outcome_count() && staged is Some && staged->Some_0@.len() == old(self).cell_count()),
            r == Err::<(), QuestPlusError>(QuestPlusError::NumericalDegeneracy) <==> (stimulus_index
                < old(self).stimuli().len() && outcome < old(self).outcome_count() && staged is None),
            r is Err ==> (r->Err_0 == QuestPlusError::NumericalDegeneracy || r->Err_0
                == QuestPlusError::ShapeInvariantViolation),
            r is Err ==> *final(self) == *old(self),
            r is Ok ==> {
                &&& final(self).posterior() == staged->Some_0@
                &&& final(self).trial_seq() == old(self).trial_seq().push(
                    TrialRecord { stimulus_index, outcome },
                )
                &&& final(self).stimuli() == old(self).stimuli()
                &&& final(self).param_dims() == old(self).param_dims()
                &&& final(self).outcome_count() == old(self).outcome_count()
                &&& final(self).likelihood() == old(self).likelihood()
                &&& forall|k: int| #[trigger] final(self).parameter_grid(k) == old(self).parameter_grid(k)
                &&& final(self).selection_config() == old(self).selection_config()
                &&& final(self).estimation_config() == old(self).estimation_config()
            },
    {
        if stimulus_index >= self.stimuli.len() || outcome >= self.n_outcomes() {
            return Err(QuestPlusError::ShapeInvariantViolation);
        }
        match staged {
            None => Err(QuestPlusError::NumericalDegeneracy),
            Some(data) => {
                if data.len() != self.posterior.len() {
                    return Err(QuestPlusError::ShapeInvariantViolation);
                }
                self.posterior.assign(data);
                self.trials.push(TrialRecord { stimulus_index, outcome });
                Ok(())
            },
        }
    }

    /// Index tuple of the mode of the posterior, given the order key of each
    /// cell's probability (row-major): a cell of greatest key, the
    /// lexicographically smallest on a tie. Fails with
    /// `ShapeInvariantViolation` unless there is one key per cell.
    pub fn mode_index(&self, posterior_keys: &Vec<u64>) -> (r: Result<Vec<usize>, QuestPlusError>)
        requires
            self.wf(),
        ensures
            r is Ok <==> posterior_keys@.len() == self.cell_count(),
            r is Err ==> r->Err_0 == QuestPlusError::ShapeInvariantViolation,
            r is Ok ==> {
                let idx = r->Ok_0@;
                let pd = self.param_dims();
                &&& in_bounds(pd, idx)
                &&& idx == unravel(pd, first_max_index(posterior_keys@) as nat)
                &&& is_first_max(posterior_keys@, flat_offset(pd, idx) as int)
                &&& forall|j: Seq<usize>|
                    #![trigger flat_offset(pd, j)]
                    in_bounds(pd, j) ==> posterior_keys@[flat_offset(pd, j) as int]
                        <= posterior_keys@[flat_offset(pd, idx) as int]
                &&& forall|j: Seq<usize>|
                    #![trigger flat_offset(pd, j)]
                    in_bounds(pd, j) && lex_lt(j, idx) ==> posterior_keys@[flat_offset(pd, j) as int]
                        < posterior_keys@[flat_offset(pd, idx) as int]
            },
    {
        proof {
            self.params.lemma_wf();
        }
        if posterior_keys.len() != self.posterior.len() {
            return Err(QuestPlusError::ShapeInvariantViolation);
        }
        match argmax_first(posterior_keys) {
            None => Err(QuestPlusError::ShapeInvariantViolation),
            Some(i) => {
                proof {
                    lemma_first_max_unique(posterior_keys@, i as int, first_max_index(posterior_keys@));
                }
                let shape = self.params.shape();
                let idx = shape.unravel(i);
                let ghost pd = self.param_dims();
                assert forall|j: Seq<usize>|
                    #![trigger flat_offset(pd, j)]
                    in_bounds(pd, j) implies posterior_keys@[flat_offset(pd, j) as int]
                        <= posterior_keys@[i as int] && (lex_lt(j, idx@)
                        ==> posterior_keys@[flat_offset(pd, j) as int]
                        < posterior_keys@[i as int]) by {
                    lemma_offset_bound(pd, j);
                    lemma_offset_order(pd, j, idx@);
                }
                Ok(idx)
            },
        }
    }
}

impl<T: Copy> Session<T> {
    /// Grid values of the mode of the posterior, one per parameter (see
    /// `mode_index`).
    pub fn mode_values(&self, posterior_keys: &Vec<u64>) -> (r: Result<Vec<T>, QuestPlusError>)
        requires
            self.wf(),
        ensures
            r is Ok <==> posterior_keys@.len() == self.cell_count(),
            r is Err ==> r->Err_0 == QuestPlusError::ShapeInvariantViolation,
            r is Ok ==> {
                let idx = unravel(self.param_dims(), first_max_index(posterior_keys@) as nat);
                &&& in_bounds(self.param_dims(), idx)
                &&& is_first_max(posterior_keys@, flat_offset(self.param_dims(), idx) as int)
                &&& forall|j: Seq<usize>|
                    #![trigger flat_offset(self.param_dims(), j)]
                    in_bounds(self.param_dims(), j) && lex_lt(j, idx)
                        ==> posterior_keys@[flat_offset(self.param_dims(), j) as int]
                        < posterior_keys@[flat_offset(self.param_dims(), idx) as int]
                &&& r->Ok_0@.len() == idx.len()
                &&& forall|k: int|
                    0 <= k < idx.len() ==> r->Ok_0@[k] == self.parameter_grid(k)[idx[k] as int]
            },
    {
        let idx = self.mode_index(posterior_keys)?;
        let v = self.params.values_at(&idx);
        Ok(v)
    }
}

impl<T> Session<T> {
    /// Grid of parameter `k`.
    pub closed spec fn parameter_grid(&self, k: int) -> Seq<T> {
        self.params.grids()[k]@
    }
}

} // verus!
