//! Market data: call quotes, option chains at one maturity and option books.
pub mod book;
pub mod chain;
pub mod completion;
pub mod slice_completion;
pub mod quote;

pub use book::OptionBook;
pub use chain::OptionChain;
pub use quote::CallQuote;
pub use completion::{CompletionConfig, CompletionHardCaps};
pub use slice_completion::{
    complete_slice_remark_2_8, CompletedSlice, CompletionDiagnostics, validate_internal_slice,
};
