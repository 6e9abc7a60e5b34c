//! A small virtual machine for a Scheme-like language in which every value
//! is either a machine integer or a reference to a three-field heap cell, the
//! *rib*.
//!
//! A program text is decoded into a symbol table and an instruction graph on
//! the rib heap ([`decode`]). The machine then runs one instruction at a time
//! ([`interp`], [`prims`]) and collects the heap when it has more than
//! doubled ([`gc`], [`run`]). Input and output are not done here: an
//! instruction that reads is handed the byte, and one that writes hands the
//! character out.

pub mod field;
pub mod order;
pub mod error;
pub mod heap;
pub mod stack;
pub mod reach;
pub mod gc;
pub mod gc_laws;
pub mod gc_again;
pub mod machine;
pub mod reader;
pub mod shape;
pub mod decode;
pub mod prims;
pub mod interp;
pub mod run;
pub mod text;
pub mod show;
pub mod trace;
pub mod laws;
