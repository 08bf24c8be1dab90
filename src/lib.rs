//! A number-guessing session: a secret drawn from a fixed range, lines of
//! text read as guesses, and a three-way verdict on each until the secret
//! is hit.

pub mod guess;
pub mod session;
