//! Retrieval: the query text built for a command's output, and stored-chunk timestamps.
use vstd::prelude::*;
use vstd::string::{StringExecFns, StringSliceAdditionalSpecFns};
use vstd::utf8::{decode_utf8, encode_utf8_decode_utf8, is_char_boundary};

verus! {

/// How many bytes of the clean output go into a retrieval query.
pub open spec fn query_output_bytes(clean: &str) -> int {
    if clean.spec_bytes().len() < 512 {
        clean.spec_bytes().len() as int
    } else {
        512
    }
}

/// The retrieval query for a command: `Command: `, the command, a newline, then the first
/// 512 bytes of its clean output (all of it when shorter). The cut must fall on a character
/// boundary.
pub fn query_text(cmd: &str, clean: &str) -> (q: String)
    requires
        clean.spec_bytes().len() <= usize::MAX,
        is_char_boundary(clean.spec_bytes(), query_output_bytes(clean)),
    ensures
        q@ == "Command: "@ + cmd@ + "\n"@ + decode_utf8(
            clean.spec_bytes().take(query_output_bytes(clean)),
        ),
{
    let len = clean.len();
    let cut: usize = if len < 512 {
        len
    } else {
        512
    };
    let (head, _) = clean.split_at(cut);
    proof {
        encode_utf8_decode_utf8(head@);
        assert(clean.spec_bytes().take(cut as int) == clean.spec_bytes().subrange(0, cut as int));
    }
    let mut q = String::from_str("Command: ");
    q.append(cmd);
    q.append("\n");
    q.append(head);
    q
}

/// A millisecond-precision Unix timestamp.
pub fn now_millis() -> (ms: i64)
    ensures
        exists|m: Option<u128>| ms == #[trigger] crate::ingest::epoch_millis_i64(m),
{
    crate::ingest::now_millis()
}

} // verus!
