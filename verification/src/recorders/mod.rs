//! What recorders store about the metrics they save.

pub mod aggregator;
pub mod csv;
pub mod event;
pub mod hdf;
pub mod metric_set;
pub mod periodic;
