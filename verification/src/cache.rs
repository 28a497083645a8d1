//! Paths of the mail cache: where a message's PDF is stored, with the home
//! directory expanded.
use crate::pdf::storage::{attachment_path, min_len, path_for};
use crate::util::{expand_home, expanded};
use vstd::prelude::*;
use vstd::string::StringSliceAdditionalSpecFns;
use vstd::utf8::is_char_boundary;

verus! {

/// Where the PDF attachment `filename` of `message_id` is saved.
pub fn pdf_path(pdf_dir: &str, message_id: &str, filename: &str) -> (r: String)
    requires
        is_char_boundary(message_id.spec_bytes(), min_len(16, message_id.spec_bytes().len()) as int),
    ensures
        r@ == attachment_path(pdf_dir@, message_id@, filename@),
{
    path_for(pdf_dir, message_id, filename)
}

/// Expands a leading `~/` with the home directory `home`.
pub fn expand(path: &str, home: &str) -> (r: String)
    ensures
        r@ == expanded(path@, home@),
{
    expand_home(path, home)
}

} // verus!
