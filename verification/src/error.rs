//! The ways in which the instrumentation of a module fails.

use vstd::prelude::*;

verus! {

/// Why a module could not be instrumented.
#[derive(Clone, Debug, PartialEq, Eq)]
pub enum WasmInstrumentationError {
    /// The module holds something that cannot be read: the text says what.
    WasmDeserializeError(String),
    /// The module has more memories than the instrumentation allows.
    IncorrectNumberMemorySections { expected: usize, got: usize },
    /// A data segment does not fit into the initial memory.
    InvalidDataSegment { offset: usize, len: usize },
    /// An index of the module names nothing, or the instrumented module
    /// would have more items of a kind than an index can name.
    InconsistentModule,
}

/// The view of an error: its texts as sequences of characters.
pub enum WasmInstrumentationErrorView {
    WasmDeserializeError(Seq<char>),
    IncorrectNumberMemorySections { expected: usize, got: usize },
    InvalidDataSegment { offset: usize, len: usize },
    InconsistentModule,
}

impl View for WasmInstrumentationError {
    type V = WasmInstrumentationErrorView;

    open spec fn view(&self) -> WasmInstrumentationErrorView {
        match self {
            WasmInstrumentationError::WasmDeserializeError(text) => {
                WasmInstrumentationErrorView::WasmDeserializeError(text@)
            },
            WasmInstrumentationError::IncorrectNumberMemorySections { expected, got } => {
                WasmInstrumentationErrorView::IncorrectNumberMemorySections {
                    expected: *expected,
                    got: *got,
                }
            },
            WasmInstrumentationError::InvalidDataSegment { offset, len } => {
                WasmInstrumentationErrorView::InvalidDataSegment { offset: *offset, len: *len }
            },
            WasmInstrumentationError::InconsistentModule => {
                WasmInstrumentationErrorView::InconsistentModule
            },
        }
    }
}

} // verus!
