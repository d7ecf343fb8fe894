//! A verified core for QUEST+, the Bayesian adaptive procedure that picks the
//! stimulus expected to shrink the posterior entropy most and estimates the
//! parameters of a psychometric function from the posterior.
//!
//! The library holds the discrete part of the procedure: domains and their
//! validation, the row-major tensor layout of the parameter grid and of the
//! likelihood, the Bayesian commit discipline of a session, and the selection
//! rules (first minimum, lexicographically first maximum). The arithmetic on
//! probabilities is done by the caller over the element type it chooses.
pub mod domain;
pub mod error;
pub mod select;
pub mod session;
pub mod shape;
pub mod tensor;

pub use domain::{ParameterDomain, StimulusDomain};
pub use error::QuestPlusError;
pub use select::{argmax_first, argmin_first, float_order_key};
pub use session::{
    likelihood_shape, ParamEstimationMethod, Session, StimScale, StimSelectionMethod, TrialRecord,
};
pub use shape::Shape;
pub use tensor::Tensor;
