//! The decisions and outputs of each envlock command, apart from the files
//! and processes that the command line handles.

pub mod check;
pub mod ci_export;
pub mod ci_run;
pub mod ci_seal;
pub mod common;
pub mod decrypt;
pub mod diff;
pub mod doctor;
pub mod edit;
pub mod encrypt;
pub mod hook;
pub mod rotate;
pub mod run;
pub mod recipients;
