//! Solver configuration and the bookkeeping that solvers share.

pub mod built_in;
pub mod clp_status;
pub mod col_edge_map;
pub mod settings;
