//! What holds of the library as a whole: laws that relate several of its
//! functions, each proved over the models that their contracts use.

pub mod band;
pub mod bridge;
pub mod colors;
pub mod columns;
pub mod figures;
pub mod flush;
pub mod graphs;
pub mod header;
pub mod hosts;
pub mod listing;
pub mod paging;
pub mod pictures;
pub mod samples;
pub mod screen;
pub mod sensors;
pub mod status;
pub mod storage;
pub mod texts;
pub mod turning;
pub mod warnings;
