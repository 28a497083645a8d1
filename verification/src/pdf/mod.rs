//! Where PDF attachments are kept, and what is read out of them.
pub mod extractor;
pub mod storage;
