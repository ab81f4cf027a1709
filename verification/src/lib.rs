//! Instrumentation of WebAssembly modules for a metered, multi-tenant sandbox.
//!
//! The passes in this crate rewrite a parsed module so that
//!
//! * a global counter is decremented by the cost of the executed instructions
//!   on every control path, and a host function is called when it goes
//!   negative;
//! * every `memory.grow` is followed by a call that lets the host veto it;
//! * optionally, every store marks the written page in a byte-per-page memory;
//! * optionally, a second, 64-bit addressed memory with its own page bytemap
//!   is added.
//!
//! Every pass is an executable function whose contract equates its result with
//! a specification function over the mathematical view of the module.
//!
//! * [`model`] holds the module and its view.
//! * [`analysis`] finds the basic blocks of a function body and their costs;
//!   [`metering`] inserts the code that charges them.
//! * [`memory_grow`] and [`write_barrier`] guard the growth of the heap and
//!   mark written pages.
//! * [`renumber`] renumbers functions; [`host_imports`] imports the host
//!   functions that the inserted code calls; [`exports`] sees to the exports
//!   and memories that the host expects; [`support`] adds the counters and
//!   the functions that the inserted code calls; [`replacements`] puts
//!   functions of the module in the place of host functions.
//! * [`data`] takes the initial contents of the heap out of the module;
//!   [`cost`] estimates the cost of compilation.
//! * [`instrument`] runs all of it on a module; [`integrity`] shows that the
//!   function indices of the instrumented module name functions of it.
//! * [`semantics`] and [`structured`] model the machine that runs the code;
//!   [`inserted_code`] states what the inserted pieces of code do on it;
//!   [`accounting`] shows that metered code keeps exact account of the cost
//!   of the blocks that are entered, and changes nothing else.

pub mod accounting;
pub mod analysis;
pub mod cost;
pub mod data;
pub mod error;
pub mod exports;
pub mod host_imports;
pub mod inserted_code;
pub mod instrument;
pub mod integrity;
pub mod memory_grow;
pub mod metering;
pub mod model;
pub mod renumber;
pub mod replacements;
pub mod semantics;
pub mod structured;
pub mod support;
pub mod write_barrier;
