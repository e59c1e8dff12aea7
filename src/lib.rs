pub mod algorithms;
pub mod dictionary;
pub mod feedback;
pub mod game;
pub mod guess;
pub mod laws;

pub use feedback::Correctness;
pub use game::{Guesser, Rejection, Wordle};
pub use guess::Guess;
