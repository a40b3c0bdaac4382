//! An in-memory, column-oriented analytical store with scenario overlays.
//!
//! A base dataset is loaded in full; each named scenario stores only the
//! cells that differ from the base. A query engine answers GROUP-BY / SUM
//! queries whose grouping set may include the virtual `scenario` dimension,
//! resolving each read through the overlay or falling through to the base.

pub mod aggregator;
pub mod bitmap;
pub mod bitmap_row_iterable_provider;
pub mod chunk_array;
pub mod datastore;
pub mod dictionary_provider;
pub mod point_dictionary;
pub mod point_list_aggregates_result;
pub mod query;
pub mod query_engine;
pub mod row_iterable_provider;
pub mod row_mapping;
pub mod types;
