//! Local-search engine for the symmetric travelling salesman problem:
//! packed triangular cost storage, tour construction and moves, tabu search
//! and simulated annealing, with every decision proved against its contract.

pub mod triangular;
pub mod tour;
pub mod construction;
pub mod frequency;
pub mod taboo_list;
pub mod tabu;
pub mod annealing;
pub mod replay;
pub mod cost_text;
pub mod hill_climbing;
