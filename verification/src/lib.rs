//! A buffered reading adapter that keeps a configured minimum number of bytes
//! ("ensured size") available for lookahead, as long as the underlying byte
//! source can still supply them.

mod reader;
mod source;
mod stream_ops;

pub use reader::EnsuredBufReader;
pub use reader::ExpectedSizeTooLargeError;
pub use reader::FillError;
pub use reader::DEFAULT_BUFFER_SIZE;
pub use reader::DEFAULT_ENSURED_BYTES;
pub use source::ByteSource;
pub use source::SliceSource;
pub use source::SourceError;
pub use stream_ops::apply_op;
pub use stream_ops::consumed_total;
pub use stream_ops::lemma_ops_leave_suffix;
pub use stream_ops::ops_in_bounds;
pub use stream_ops::stream_after_ops;
pub use stream_ops::EngineOp;
