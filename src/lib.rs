//! Evolution of neural controllers for a population of track-driving vehicles:
//! network shapes and crossover, mutation decisions, the selection rules of the
//! sensor model and the generational controller.

pub mod mutation;
pub mod network;
pub mod population;
pub mod random;
pub mod sensor;
