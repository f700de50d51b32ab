//! A node store and an index pipeline for DiskANN graphs.
//!
//! The store keeps the vectors and the edges of a graph in the records of one
//! local file: [`layout`] says where things are in a record, [`record`] and
//! [`node_record`] read and write one, [`mapping`] finds it in the file,
//! [`nodes`] says which node owns it, and [`store`] puts them together.
//! [`interleaving`] states what holds when its users take turns.
//!
//! The pipeline takes an index from the first scan of a table to serving
//! searches: [`params`] says what it is built with, [`dataset`] what it is built
//! from, [`build_plan`] what it is built into, [`actor`] what it does when, and
//! [`hits`] what becomes of a search's results; [`context`] words what DiskANN
//! refuses. Its files stay in one directory: see [`scope`] and [`ssd`].
//! [`hybrid`] is a graph whose vectors are fetched on demand.

pub mod actor;
pub mod adjacency;
pub mod build_plan;
pub mod codec;
pub mod context;
pub mod dataset;
pub mod hits;
pub mod hybrid;
pub mod hybrid_error;
pub mod interleaving;
pub mod layout;
pub mod mapping;
pub mod node_record;
pub mod nodes;
pub mod params;
pub mod record;
pub mod scope;
pub mod ssd;
pub mod store;
pub mod text;
