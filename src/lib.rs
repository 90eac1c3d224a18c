//! An ordered forest of labelled items, stored as a size-augmented
//! left-child/right-sibling binary tree and edited through a zipper.

pub mod commands;
pub mod display;
pub mod forest;
pub mod laws;
pub mod select;
pub mod traverse;
pub mod zipper;
