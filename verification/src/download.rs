//! The decisions of the HTTP fetcher: what range to ask for, and what to do
//! with the answer so that a resumed download ends with the same bytes as a
//! fresh one.

use crate::text::{
    decimal, last_index_of, parse_u64, parse_u64_text, rfind_char, substring, to_chars,
    u64_to_string,
};
use vstd::prelude::*;
use vstd::string::*;

verus! {

/// The value of the `Range` header that asks for everything from byte
/// `existing` on: `bytes=<existing>-`.
pub open spec fn range_value(existing: u64) -> Seq<char> {
    "bytes="@ + decimal(existing as nat) + "-"@
}

/// The `Range` header value to resume a staging file of `existing` bytes.
pub fn range_header(existing: u64) -> (r: String)
    ensures
        r@ == range_value(existing),
{
    let mut r = "bytes=".to_owned();
    let n = u64_to_string(existing);
    r.append(n.as_str());
    r.append("-");
    assert(r@ =~= range_value(existing));
    r
}

/// What the server said, as far as the fetcher looks at it.
#[derive(Debug, Clone, Copy, PartialEq, Eq, Structural)]
pub struct ResponseHead {
    /// The status code.
    pub status: u16,
    /// The `Content-Length`, where the server gave one.
    pub content_length: Option<u64>,
    /// The length of the whole artifact, where a `Content-Range` gave it.
    pub total_length: Option<u64>,
}

/// What to do with the body of a response.
#[derive(Debug, Clone, Copy, PartialEq, Eq, Structural)]
pub enum DownloadDecision {
    /// The server sent the rest: append the body to the staging file.
    /// `total` is the size of the whole artifact, where it is known.
    Append { total: Option<u64> },
    /// The server sent the whole artifact: empty the staging file, then
    /// write the body to it.
    Restart { total: Option<u64> },
    /// The staging file holds the whole artifact: nothing is left to fetch.
    Complete,
    /// The staging file reaches past the end of the artifact, or the end is
    /// not known: empty it and ask again from the beginning.
    Discard,
    /// The request failed with this status.
    Fail { status: u16 },
}

/// Whether a status code reports success.
pub open spec fn is_success(status: u16) -> bool {
    200 <= status < 300
}

/// The sum of two sizes, or `u64::MAX` where it does not fit.
pub open spec fn capped_sum(a: u64, b: u64) -> u64 {
    if a + b > u64::MAX {
        u64::MAX
    } else {
        (a + b) as u64
    }
}

/// The rule for a response to a request that asked for everything from byte
/// `existing` on.
///
/// - `206 Partial Content` carries the rest and is appended.
/// - Any other success carries the whole artifact, so the download starts
///   over, whatever the staging file holds.
/// - `416 Range Not Satisfiable` for a staging file that is not empty means
///   that it is no shorter than the artifact. If it is exactly as long it is
///   complete; otherwise it is discarded.
/// - Everything else is a failure that carries the status.
pub open spec fn response_rule(existing: u64, head: ResponseHead) -> DownloadDecision {
    if head.status == 206 {
        DownloadDecision::Append {
            total: match head.content_length {
                Some(n) => Some(capped_sum(existing, n)),
                None => None,
            },
        }
    } else if is_success(head.status) {
        DownloadDecision::Restart { total: head.content_length }
    } else if head.status == 416 && existing > 0 {
        if head.total_length == Some(existing) {
            DownloadDecision::Complete
        } else {
            DownloadDecision::Discard
        }
    } else {
        DownloadDecision::Fail { status: head.status }
    }
}

/// Decides what to do with the response to a ranged request.
pub fn on_response(existing: u64, head: ResponseHead) -> (r: DownloadDecision)
    ensures
        r == response_rule(existing, head),
{
    if head.status == 206 {
        DownloadDecision::Append {
            total: match head.content_length {
                Some(n) => Some(existing.saturating_add(n)),
                None => None,
            },
        }
    } else if head.status >= 200 && head.status < 300 {
        DownloadDecision::Restart { total: head.content_length }
    } else if head.status == 416 && existing > 0 {
        match head.total_length {
            Some(n) => if n == existing {
                DownloadDecision::Complete
            } else {
                DownloadDecision::Discard
            },
            None => DownloadDecision::Discard,
        }
    } else {
        DownloadDecision::Fail { status: head.status }
    }
}

/// Decides whether a whole-object request succeeded: `Ok` with the length the
/// server announced for a success, else the status as the error.
pub fn check_response(head: ResponseHead) -> (r: Result<Option<u64>, u16>)
    ensures
        match r {
            Ok(length) => is_success(head.status) && length == head.content_length,
            Err(status) => !is_success(head.status) && status == head.status,
        },
{
    if head.status >= 200 && head.status < 300 {
        Ok(head.content_length)
    } else {
        Err(head.status)
    }
}

/// What the staging file holds once a decision was carried out on a body.
pub open spec fn staged_after(staged: Seq<u8>, decision: DownloadDecision, body: Seq<u8>) -> Seq<
    u8,
> {
    match decision {
        DownloadDecision::Append { .. } => staged + body,
        DownloadDecision::Restart { .. } => body,
        DownloadDecision::Discard => Seq::empty(),
        DownloadDecision::Complete => staged,
        DownloadDecision::Fail { .. } => staged,
    }
}

/// The body of the response of a server that holds `artifact` to a request
/// for everything from byte `from` on: the rest where it honours the range,
/// else everything.
pub open spec fn served_body(artifact: Seq<u8>, from: int, honours_range: bool) -> Seq<u8> {
    if honours_range {
        artifact.skip(from)
    } else {
        artifact
    }
}

/// The status of that response.
pub open spec fn served_status(honours_range: bool) -> u16 {
    if honours_range {
        206
    } else {
        200
    }
}

/// A download that was interrupted and is resumed ends with the bytes of
/// the artifact, whether or not the server honours the range: if the staging
/// file holds a proper start of the artifact, then carrying out the decision
/// on the server's answer leaves exactly the artifact.
pub proof fn lemma_resume_yields_artifact(
    artifact: Seq<u8>,
    staged: Seq<u8>,
    honours_range: bool,
    content_length: Option<u64>,
    total_length: Option<u64>,
)
    requires
        staged.len() <= u64::MAX,
        staged.len() < artifact.len(),
        staged == artifact.take(staged.len() as int),
    ensures
        staged_after(
            staged,
            response_rule(
                staged.len() as u64,
                ResponseHead {
                    status: served_status(honours_range),
                    content_length,
                    total_length,
                },
            ),
            served_body(artifact, staged.len() as int, honours_range),
        ) == artifact,
{
    assert(artifact.take(staged.len() as int) + artifact.skip(staged.len() as int) =~= artifact);
}

/// A staging file that is longer than the artifact is thrown away, and one
/// that is exactly as long is kept as it is: when the server cannot satisfy
/// the range, the download starts over unless nothing is missing.
pub proof fn lemma_oversized_staging_restarts(
    existing: u64,
    content_length: Option<u64>,
    artifact_length: u64,
)
    requires
        existing > 0,
    ensures
        existing != artifact_length ==> response_rule(
            existing,
            ResponseHead { status: 416, content_length, total_length: Some(artifact_length) },
        ) == DownloadDecision::Discard,
        existing == artifact_length ==> response_rule(
            existing,
            ResponseHead { status: 416, content_length, total_length: Some(artifact_length) },
        ) == DownloadDecision::Complete,
        forall|staged: Seq<u8>, body: Seq<u8>|
            #[trigger] staged_after(staged, DownloadDecision::Discard, body) == Seq::<u8>::empty(),
{
}

/// The length of the whole artifact that a `Content-Range` header states:
/// the number after its last slash, as in `bytes 100-999/1000` or
/// `bytes */1000`. A header without a slash, or with anything but a number
/// after it, states none.
pub open spec fn stated_total(content_range: Seq<char>) -> Option<u64> {
    let slash = last_index_of(content_range, '/');
    if slash < 0 {
        None
    } else {
        parse_u64_text(content_range.skip(slash + 1))
    }
}

/// Reads the length of the whole artifact from a `Content-Range` header.
pub fn total_length(content_range: &str) -> (r: Option<u64>)
    ensures
        r == stated_total(content_range@),
{
    let text = to_chars(content_range);
    match rfind_char(text.as_slice(), '/') {
        None => None,
        Some(slash) => {
            let tail = to_chars(substring(text.as_slice(), slash + 1, text.len()).as_str());
            assert(tail@ =~= content_range@.skip(slash + 1));
            parse_u64(tail.as_slice())
        },
    }
}

} // verus!
