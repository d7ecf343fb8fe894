use statrs::distribution::{ContinuousCDF, Normal};

use quest_plus::{
    likelihood_shape, ParamEstimationMethod, ParameterDomain, QuestPlusError, Session,
    StimSelectionMethod, StimulusDomain, Tensor, TrialRecord,
};

// Two outcomes, three stimuli, parameter grid 2 x 1. The likelihood of
// outcome 0 at stimulus s under cell p is given by `correct`.
fn correct(s: usize, p: usize) -> f64 {
    [[0.2, 0.6], [0.5, 0.5], [0.9, 0.1]][s][p]
}

fn small_session() -> Session<f64> {
    let stimuli = StimulusDomain::new(vec![0.0, 1.0, 2.0]).unwrap();
    let params = ParameterDomain::new(vec![vec![10.0, 20.0], vec![0.5]]).unwrap();
    let shape = likelihood_shape(2, &stimuli, &params).unwrap();
    let mut data = Vec::new();
    for o in 0..2 {
        for s in 0..3 {
            for p in 0..2 {
                let c = correct(s, p);
                data.push(if o == 0 { c } else { 1.0 - c });
            }
        }
    }
    let likelihood = Tensor::from_shape_vec(shape, data).unwrap();
    let prior_shape = quest_plus::Shape::new(vec![2, 1]).unwrap();
    let prior = Tensor::from_shape_vec(prior_shape, vec![0.5, 0.5]).unwrap();
    Session::new(
        stimuli,
        params,
        likelihood,
        prior,
        StimSelectionMethod::MinEntropy,
        ParamEstimationMethod::Mode,
    )
    .unwrap()
}

#[test]
fn stimulus_domain_must_not_be_empty() {
    assert!(matches!(
        StimulusDomain::<f64>::new(vec![]),
        Err(QuestPlusError::EmptyDomain)
    ));
    let d = StimulusDomain::new(vec![3.0, 4.0]).unwrap();
    assert_eq!(d.len(), 2);
    assert_eq!(*d.value(1), 4.0);
}

#[test]
fn parameter_grids_must_not_be_empty() {
    assert!(matches!(
        ParameterDomain::<f64>::new(vec![vec![1.0], vec![]]),
        Err(QuestPlusError::EmptyDomain)
    ));
    let d = ParameterDomain::new(vec![vec![1.0, 2.0], vec![3.0, 4.0, 5.0]]).unwrap();
    assert_eq!(d.rank(), 2);
    assert_eq!(d.shape().size(), 6);
    assert_eq!(d.values_at(&vec![1, 2]), vec![2.0, 5.0]);
}

#[test]
fn prior_weight_lengths_are_checked() {
    let d = ParameterDomain::new(vec![vec![1.0, 2.0], vec![3.0, 4.0, 5.0]]).unwrap();
    assert_eq!(d.check_prior_weights::<f64>(&vec![None, None]), Ok(()));
    assert_eq!(d.check_prior_weights(&vec![Some(vec![1.0, 1.0]), Some(vec![1.0, 2.0, 3.0])]), Ok(()));
    assert_eq!(
        d.check_prior_weights(&vec![None, Some(vec![1.0, 2.0])]),
        Err(QuestPlusError::ParameterLengthMismatch { dimension: 1, expected: 3, found: 2 })
    );
    assert_eq!(
        d.check_prior_weights(&vec![Some(vec![1.0]), Some(vec![1.0])]),
        Err(QuestPlusError::ParameterLengthMismatch { dimension: 0, expected: 2, found: 1 })
    );
    assert_eq!(
        d.check_prior_weights::<f64>(&vec![None]),
        Err(QuestPlusError::ShapeInvariantViolation)
    );
}

#[test]
fn likelihood_shape_puts_outcome_and_stimulus_first() {
    let stimuli = StimulusDomain::new(vec![0.0, 1.0, 2.0]).unwrap();
    let params = ParameterDomain::new(vec![vec![7.0, 8.0], vec![7.0, 7.5], vec![0.5], vec![0.01]]).unwrap();
    let shape = likelihood_shape(2, &stimuli, &params).unwrap();
    assert_eq!(shape.dims(), &vec![2, 3, 2, 2, 1, 1]);
    assert!(matches!(
        likelihood_shape(0, &stimuli, &params),
        Err(QuestPlusError::EmptyDomain)
    ));
}

#[test]
fn session_rejects_mismatched_tensors() {
    let stimuli = StimulusDomain::new(vec![0.0, 1.0]).unwrap();
    let params = ParameterDomain::new(vec![vec![1.0, 2.0]]).unwrap();
    // likelihood laid out for three stimuli instead of two
    let bad = quest_plus::Shape::new(vec![2, 3, 2]).unwrap();
    let likelihood = Tensor::from_shape_vec(bad, vec![0.5; 12]).unwrap();
    let prior = Tensor::from_shape_vec(quest_plus::Shape::new(vec![2]).unwrap(), vec![0.5, 0.5]).unwrap();
    let r = Session::new(
        stimuli,
        params,
        likelihood,
        prior,
        StimSelectionMethod::MinEntropy,
        ParamEstimationMethod::Mean,
    );
    assert!(matches!(r, Err(QuestPlusError::ShapeInvariantViolation)));

    let stimuli = StimulusDomain::new(vec![0.0, 1.0]).unwrap();
    let params = ParameterDomain::new(vec![vec![1.0, 2.0]]).unwrap();
    let good = quest_plus::Shape::new(vec![2, 2, 2]).unwrap();
    let likelihood = Tensor::from_shape_vec(good, vec![0.5; 8]).unwrap();
    // prior over a grid of three cells
    let prior = Tensor::from_shape_vec(quest_plus::Shape::new(vec![3]).unwrap(), vec![0.3, 0.3, 0.4]).unwrap();
    let r = Session::new(
        stimuli,
        params,
        likelihood,
        prior,
        StimSelectionMethod::MinEntropy,
        ParamEstimationMethod::Mean,
    );
    assert!(matches!(r, Err(QuestPlusError::ShapeInvariantViolation)));
}

#[test]
fn session_reports_its_configuration() {
    let s = small_session();
    assert_eq!(s.n_outcomes(), 2);
    assert_eq!(s.n_stimuli(), 3);
    assert_eq!(s.n_cells(), 2);
    assert_eq!(s.selection_method(), StimSelectionMethod::MinEntropy);
    assert_eq!(s.estimation_method(), ParamEstimationMethod::Mode);
    assert!(s.trials().is_empty());
    assert_eq!(*s.stimulus_domain().value(2), 2.0);
    assert_eq!(s.parameter_domain().rank(), 2);
    assert_eq!(s.likelihood_tensor().len(), 12);
    assert_eq!(s.posterior_tensor().as_vec(), &vec![0.5, 0.5]);
}

#[test]
fn likelihood_index_formula() {
    let s = small_session();
    // (o * 3 + s) * 2 + p
    assert_eq!(s.likelihood_index(0, 0, 0), 0);
    assert_eq!(s.likelihood_index(0, 2, 1), 5);
    assert_eq!(s.likelihood_index(1, 1, 0), 8);
    assert_eq!(s.likelihood_index(1, 2, 1), 11);
    assert_eq!(*s.likelihood_at(0, 2, 0), 0.9);
    assert!((*s.likelihood_at(1, 2, 0) - 0.1).abs() < 1e-12);
    assert_eq!(*s.posterior_at(1), 0.5);
}

#[test]
fn select_stimulus_takes_first_least_key() {
    let s = small_session();
    let keys = vec![7, 3, 3];
    assert_eq!(s.select_stimulus(&keys), Ok(1));
    // the same state gives the same choice
    assert_eq!(s.select_stimulus(&keys), Ok(1));
    assert_eq!(
        s.select_stimulus(&vec![1, 2]),
        Err(QuestPlusError::ShapeInvariantViolation)
    );
}

#[test]
fn commit_update_replaces_posterior_and_records_trial() {
    let mut s = small_session();
    assert_eq!(s.commit_update(2, 0, Some(vec![0.9, 0.1])), Ok(()));
    assert_eq!(s.posterior_tensor().as_vec(), &vec![0.9, 0.1]);
    assert_eq!(s.trials(), &vec![TrialRecord { stimulus_index: 2, outcome: 0 }]);
    assert_eq!(s.commit_update(0, 1, Some(vec![0.8, 0.2])), Ok(()));
    assert_eq!(s.trials().len(), 2);
    assert_eq!(s.trials()[1], TrialRecord { stimulus_index: 0, outcome: 1 });
}

#[test]
fn degenerate_update_leaves_session_unchanged() {
    let mut s = small_session();
    assert_eq!(s.commit_update(1, 0, None), Err(QuestPlusError::NumericalDegeneracy));
    assert_eq!(s.posterior_tensor().as_vec(), &vec![0.5, 0.5]);
    assert!(s.trials().is_empty());
}

#[test]
fn out_of_range_update_is_rejected() {
    let mut s = small_session();
    assert_eq!(
        s.commit_update(3, 0, Some(vec![0.5, 0.5])),
        Err(QuestPlusError::ShapeInvariantViolation)
    );
    assert_eq!(
        s.commit_update(0, 2, None),
        Err(QuestPlusError::ShapeInvariantViolation)
    );
    assert_eq!(
        s.commit_update(0, 0, Some(vec![1.0])),
        Err(QuestPlusError::ShapeInvariantViolation)
    );
    assert_eq!(s.posterior_tensor().as_vec(), &vec![0.5, 0.5]);
    assert!(s.trials().is_empty());
}

#[test]
fn mode_ties_go_to_lexicographically_smallest_cell() {
    let stimuli = StimulusDomain::new(vec![0.0]).unwrap();
    let params = ParameterDomain::new(vec![vec![1.0, 2.0], vec![10.0, 20.0, 30.0]]).unwrap();
    let shape = likelihood_shape(2, &stimuli, &params).unwrap();
    let likelihood = Tensor::from_shape_vec(shape, vec![0.5; 12]).unwrap();
    let prior_shape = quest_plus::Shape::new(vec![2, 3]).unwrap();
    let prior = Tensor::from_shape_vec(prior_shape, vec![0.1, 0.1, 0.3, 0.1, 0.3, 0.1]).unwrap();
    let s = Session::new(
        stimuli,
        params,
        likelihood,
        prior,
        StimSelectionMethod::MinEntropy,
        ParamEstimationMethod::Mode,
    )
    .unwrap();
    let keys: Vec<u64> = s
        .posterior_tensor()
        .as_vec()
        .iter()
        .map(|x: &f64| quest_plus::float_order_key(x.to_bits()))
        .collect();
    assert_eq!(s.mode_index(&keys), Ok(vec![0, 2]));
    assert_eq!(s.mode_index(&keys), Ok(vec![0, 2]));
    assert_eq!(s.mode_values(&keys), Ok(vec![1.0, 30.0]));
    assert_eq!(s.mode_index(&vec![1, 2]), Err(QuestPlusError::ShapeInvariantViolation));
}

#[test]
fn norm_cdf_likelihood_slice_at_first_stimulus() {
    let intensity: Vec<f64> = (0..50).map(|i| i as f64).collect();
    let grids = vec![vec![7.0, 8.0], vec![7.0, 7.5], vec![0.5], vec![0.01]];
    let stimuli = StimulusDomain::new(intensity.clone()).unwrap();
    let params = ParameterDomain::new(grids.clone()).unwrap();
    let shape = likelihood_shape(2, &stimuli, &params).unwrap();
    let size = shape.size();
    let mut data = Vec::with_capacity(size);
    for f in 0..size {
        let idx = shape.unravel(f);
        let x = intensity[idx[1]];
        let (m, sd, la, lr) = (grids[0][idx[2]], grids[1][idx[3]], grids[2][idx[4]], grids[3][idx[5]]);
        let c = la + (1.0 - la - lr) * Normal::new(m, sd).unwrap().cdf(x);
        data.push(if idx[0] == 0 { c } else { 1.0 - c });
    }
    let likelihood = Tensor::from_shape_vec(shape, data).unwrap();
    let prior = Tensor::from_shape_vec(quest_plus::Shape::new(params.shape().dims().clone()).unwrap(), vec![0.25; 4]).unwrap();
    let s = Session::new(
        stimuli,
        params,
        likelihood,
        prior,
        StimSelectionMethod::MinEntropy,
        ParamEstimationMethod::Mean,
    )
    .unwrap();
    let want = [
        (0, [0.577741074426414, 0.5859087329775925, 0.5620089876920433, 0.5700999841757994]),
        (7, [0.745, 0.745, 0.7171687365599306, 0.7190127928544292]),
        (20, [0.9744937461028305, 0.9696560723524983, 0.9688133149540519, 0.9631483470672166]),
        (49, [0.989999999516572, 0.9899999947483807, 0.9899999988462997, 0.9899999887648576]),
    ];
    for (x, row) in want.iter() {
        for p in 0..4 {
            assert!((*s.likelihood_at(0, *x, p) - row[p]).abs() < 1e-8);
            assert!((*s.likelihood_at(0, *x, p) + *s.likelihood_at(1, *x, p) - 1.0).abs() < 1e-12);
        }
    }
}

#[test]
fn uniform_prior_mode_is_first_value_of_each_grid() {
    let grids = vec![vec![7.0, 8.0], vec![7.0, 7.5], vec![0.5], vec![0.01]];
    let stimuli = StimulusDomain::new(vec![0.0, 1.0]).unwrap();
    let params = ParameterDomain::new(grids.clone()).unwrap();
    let shape = likelihood_shape(2, &stimuli, &params).unwrap();
    let likelihood = Tensor::from_shape_vec(shape, vec![0.5; 16]).unwrap();
    let prior_shape = quest_plus::Shape::new(vec![2, 2, 1, 1]).unwrap();
    let prior = Tensor::from_shape_vec(prior_shape, vec![0.25; 4]).unwrap();
    let s = Session::new(
        stimuli,
        params,
        likelihood,
        prior,
        StimSelectionMethod::MinEntropy,
        ParamEstimationMethod::Mean,
    )
    .unwrap();
    assert_eq!(s.estimation_method(), ParamEstimationMethod::Mean);
    for k in 0..4 {
        assert_eq!(s.parameter_domain().grid(k), &grids[k]);
    }
    let keys: Vec<u64> = s
        .posterior_tensor()
        .as_vec()
        .iter()
        .map(|x: &f64| quest_plus::float_order_key(x.to_bits()))
        .collect();
    assert_eq!(s.mode_index(&keys), Ok(vec![0, 0, 0, 0]));
    assert_eq!(s.mode_values(&keys), Ok(vec![7.0, 7.0, 0.5, 0.01]));
}
