//! Trust action queue: the queue name and how failure messages are stored.
use vstd::prelude::*;
use vstd::string::StrSliceExecFns;

verus! {

/// Name of the message queue that carries trust actions to the worker.
pub const QUEUE_NAME: &'static str = "trust__actions";

/// Maximum length (in Unicode scalar values) stored in the `error_message` column.
///
/// Error strings sourced from database drivers or nested engine errors can include full
/// query text and driver context, easily exceeding kilobytes. Truncating keeps rows
/// bounded without a schema migration.
pub const ERROR_MESSAGE_MAX_LEN: usize = 1024;

/// The first `ERROR_MESSAGE_MAX_LEN` characters of `error` (all of it when shorter).
pub open spec fn truncated_error(error: Seq<char>) -> Seq<char> {
    if error.len() <= ERROR_MESSAGE_MAX_LEN {
        error
    } else {
        error.take(ERROR_MESSAGE_MAX_LEN as int)
    }
}

/// Truncate `error` to at most [`ERROR_MESSAGE_MAX_LEN`] Unicode scalar values,
/// always cutting at a character boundary to avoid splitting multi-byte sequences.
pub fn truncate_error_message(error: &str) -> (r: &str)
    ensures
        r@ == truncated_error(error@),
{
    let n = error.unicode_len();
    if n <= ERROR_MESSAGE_MAX_LEN {
        error
    } else {
        error.substring_char(0, ERROR_MESSAGE_MAX_LEN)
    }
}

/// A truncated message is a prefix of the full message, at most
/// `ERROR_MESSAGE_MAX_LEN` characters long, and only shorter than the full
/// message when that exceeded the limit.
pub proof fn lemma_truncated_error_is_bounded_prefix(error: Seq<char>)
    ensures
        truncated_error(error).len() <= ERROR_MESSAGE_MAX_LEN,
        truncated_error(error) =~= error.take(truncated_error(error).len() as int),
        truncated_error(error).len() < error.len() ==> truncated_error(error).len()
            == ERROR_MESSAGE_MAX_LEN,
{
}

} // verus!
