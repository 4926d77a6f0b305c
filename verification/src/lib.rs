//! A compiler for a Tiger-like language, from the syntax tree to the
//! listing for the assembler.
//!
//! Declarations of types and classes enter the table of types (`declare`,
//! `types`). Which variables escape is found by a walk over the program
//! (`walk`, `escape`). The analyser (`analysis`) checks a program against
//! its types and the names in scope (`env`) and gives, in the same pass,
//! the trees (`ir`) of its functions, built with the rules of
//! `translate`; what is wrong with a program is said by `error` and
//! `diagnostic`; `program` puts the strings, the tables of methods and
//! the functions of a program together. Each function is made canonical
//! (`canon`), cut into basic blocks (`blocks`) and put in trace order
//! (`trace`); instructions over temporaries are selected (`gen`); control
//! flow (`flow`), liveness (`liveness`) and interference (`interference`)
//! are worked out; the temporaries get registers by iterated coalescing
//! and colouring (`coalesce`, `colour`), with spilling where registers
//! run out (`spill`, `allocate`); and the listing for the assembler is
//! written with the table of live pointers for the collector
//! (`pointers`, `emit`, `compile`). `script` prints the trees and reads
//! them back.

pub mod allocate;
pub mod analysis;
pub mod apply;
pub mod assembly;
pub mod blocks;
pub mod canon;
pub mod coalesce;
pub mod colour;
pub mod compile;
pub mod declare;
pub mod diagnostic;
pub mod driver;
pub mod emit;
pub mod env;
pub mod error;
pub mod escape;
pub mod flow;
pub mod frame;
pub mod gen;
pub mod interference;
pub mod ir;
pub mod liveness;
pub mod marks;
pub mod notation;
pub mod pointers;
pub mod program;
pub mod script;
pub mod spill;
pub mod symbol;
pub mod temp;
pub mod terminal;
pub mod text;
pub mod trace;
pub mod translate;
pub mod types;
pub mod vectors;
pub mod walk;
