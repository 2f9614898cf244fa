//! What holds of the library as a whole: of what goes into it, of what it asks
//! for and writes, and of whole deploys and recoveries.

pub mod deploys;
pub mod effects;
pub mod entries;
pub mod evidence;
pub mod host;
pub mod inputs;
pub mod ledger;
pub mod outside;
pub mod recovery;
pub mod reservations;
pub mod restart;
pub mod script;
pub mod story;
pub mod views;
pub mod vocabulary;
pub mod words;
