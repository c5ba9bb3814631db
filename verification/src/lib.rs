//! Core machinery for evolving simple steering agents: a deterministic
//! pseudo-random generator with derived distributions, a generic genetic
//! algorithm, a feed-forward neural network with a flat weight encoding,
//! and an angular sensor model.
//!
//! Every quantity that the algorithms treat as a real number is carried by
//! [`fixed::Real`], a saturating fixed-point value, so that each operation
//! has an exact arithmetic meaning that the contracts can state.

pub mod chromosome;
pub mod creature_individual;
pub mod crossover;
pub mod entropy;
pub mod eye;
pub mod fixed;
pub mod ga;
pub mod gen;
pub mod geometry;
pub mod individual;
pub mod mutation;
pub mod network;
pub mod rng;
pub mod selection;
pub mod statistics;

pub use chromosome::Chromosome;
pub use creature_individual::CreatureIndividual;
pub use crossover::{CrossoverMethod, UniformCrossover};
pub use eye::{Eye, Pos2, Pose};
pub use fixed::Real;
pub use ga::GeneticAlgorithm;
pub use gen::WyRand;
pub use individual::{Individual, TestIndividual};
pub use mutation::{GaussianMutation, MutationMethod};
pub use network::{Network, Neuron};
pub use rng::PetriRand;
pub use selection::{RouletteWheelSelection, SelectionMethod};
pub use statistics::{Statistics, StatisticsBuilder};
