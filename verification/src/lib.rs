//! Career simulation rules: the state of a trainee across a career, the
//! actions that can be taken each turn and how they change that state.

pub mod career;
pub mod chance;
pub mod support_cards;
pub mod mcts;
