//! Decision logic for running pipelined CNN inference on a big.LITTLE board:
//! frequency tables, command lines, parsing of the pipeline's report, and the
//! search and benchmark strategies.
pub mod consts;
pub mod hardware;
pub mod numeral;
pub mod pipe_all;
pub mod strategies;
pub mod text;
