//! What the sink answers, and what that means for delivery.

use vstd::prelude::*;
use crate::text::{from_chars, to_chars};

verus! {

/// The result of one delivery, as the shipper sees it.
#[derive(Debug, PartialEq, Eq)]
pub enum DeliveryOutcome {
    /// The batch was taken; `next_token` goes with the next one.
    Delivered { next_token: String },
    /// The token was stale; the same content is to be sent again with
    /// `corrected_token`.
    Conflict { corrected_token: String },
    /// Nothing more can be done for this file.
    Fatal { cause: String },
}

/// The answer of the sink to a batch, in plain values.
#[derive(Debug, PartialEq, Eq)]
pub enum SinkReply {
    /// The batch was accepted.
    Accepted { next_token: Option<String> },
    /// The sink refused the sequence token.
    InvalidSequenceToken { message: String },
    /// The sink refused the request for another reason, or was not reached.
    Failed { message: String },
}

/// The answer of the sink to a request to create a group or a stream.
#[derive(Debug, PartialEq, Eq)]
pub enum CreateReply {
    Created,
    AlreadyExists,
    Failed { message: String },
}

/// The phrase behind which a refusal names the token that the sink expects.
pub open spec fn token_marker() -> Seq<char> {
    "expected sequenceToken is: "@
}

/// `pattern` stands in `text` at position `at`.
pub open spec fn occurs_at(text: Seq<char>, pattern: Seq<char>, at: int) -> bool {
    0 <= at && at + pattern.len() <= text.len() && text.subrange(at, at + pattern.len()) == pattern
}

/// `at` is the first position of `text` at which `pattern` stands.
pub open spec fn is_first_occurrence(text: Seq<char>, pattern: Seq<char>, at: int) -> bool {
    occurs_at(text, pattern, at) && forall|j: int| 0 <= j < at ==> !occurs_at(text, pattern, j)
}

/// `pattern` stands nowhere in `text`.
pub open spec fn absent(text: Seq<char>, pattern: Seq<char>) -> bool {
    forall|j: int| !occurs_at(text, pattern, j)
}

/// The token that the refusal `message` names: what follows the first
/// occurrence of the marker, if the marker occurs.
pub open spec fn named_token(message: Seq<char>) -> Option<Seq<char>> {
    if exists|at: int| is_first_occurrence(message, token_marker(), at) {
        let at = choose|at: int| is_first_occurrence(message, token_marker(), at);
        Some(message.subrange(at + token_marker().len(), message.len() as int))
    } else {
        None
    }
}

/// The first occurrence is the only first occurrence.
pub proof fn lemma_first_occurrence_unique(text: Seq<char>, pattern: Seq<char>, a: int, b: int)
    requires
        is_first_occurrence(text, pattern, a),
        is_first_occurrence(text, pattern, b),
    ensures
        a == b,
{
    if a < b {
        assert(!occurs_at(text, pattern, a));
    } else if b < a {
        assert(!occurs_at(text, pattern, b));
    }
}

fn matches_at(text: &[char], pattern: &[char], at: usize) -> (r: bool)
    requires
        at + pattern@.len() <= text@.len(),
    ensures
        r == occurs_at(text@, pattern@, at as int),
{
    let n: usize = text.len();
    let mut k: usize = 0;
    while k < pattern.len()
        invariant
            k <= pattern@.len(),
            at + pattern@.len() <= text@.len() == n,
            forall|j: int| 0 <= j < k ==> text@[at + j] == pattern@[j],
        decreases pattern@.len() - k,
    {
        if text[at + k] != pattern[k] {
            proof {
                let part = text@.subrange(at as int, at + pattern@.len());
                assert(part[k as int] == text@[at + k]);
            }
            return false;
        }
        k += 1;
    }
    proof {
        assert(text@.subrange(at as int, at + pattern@.len()) =~= pattern@);
    }
    true
}

/// Finds the first position of `text` at which `pattern` stands.
pub fn find(text: &[char], pattern: &[char]) -> (r: Option<usize>)
    ensures
        r is Some ==> is_first_occurrence(text@, pattern@, r->Some_0 as int),
        r is None ==> absent(text@, pattern@),
{
    if pattern.len() > text.len() {
        return None;
    }
    let last: usize = text.len() - pattern.len();
    let mut at: usize = 0;
    loop
        invariant
            at <= last,
            last + pattern@.len() == text@.len(),
            forall|j: int| 0 <= j < at ==> !occurs_at(text@, pattern@, j),
        decreases last - at,
    {
        if matches_at(text, pattern, at) {
            return Some(at);
        }
        if at == last {
            return None;
        }
        at += 1;
    }
}

/// Reads the token that the sink expects out of the refusal `message`.
pub fn corrected_token(message: &str) -> (r: Option<String>)
    ensures
        r is Some <==> named_token(message@) is Some,
        r is Some ==> r->Some_0@ == named_token(message@)->Some_0,
{
    let text = to_chars(message);
    let marker = to_chars("expected sequenceToken is: ");
    match find(text.as_slice(), marker.as_slice()) {
        None => {
            proof {
                assert forall|at: int| !is_first_occurrence(message@, token_marker(), at) by {
                    assert(!occurs_at(message@, token_marker(), at));
                }
            }
            None
        },
        Some(at) => {
            proof {
                assert(is_first_occurrence(message@, token_marker(), at as int));
                let chosen = choose|c: int| is_first_occurrence(message@, token_marker(), c);
                lemma_first_occurrence_unique(message@, token_marker(), at as int, chosen);
                assert(at + marker@.len() <= text@.len());
            }
            let n: usize = text.len();
            Some(from_chars(text.as_slice(), at + marker.len(), n))
        },
    }
}

/// What is said of a batch that the sink accepted without naming the next
/// token.
pub open spec fn missing_token_cause() -> Seq<char> {
    "the sink accepted the batch without a next sequence token"@
}

/// Whether `outcome` is what the answer `reply` means for delivery: an
/// accepted batch is delivered where the sink names the next token; a
/// refused token is a conflict where the refusal names the expected one;
/// everything else is fatal.
pub open spec fn is_outcome_of(reply: SinkReply, outcome: DeliveryOutcome) -> bool {
    match reply {
        SinkReply::Accepted { next_token: Some(token) } => outcome == (DeliveryOutcome::Delivered {
            next_token: token,
        }),
        SinkReply::Accepted { next_token: None } => {
            &&& outcome is Fatal
            &&& outcome->cause@ == missing_token_cause()
        },
        SinkReply::InvalidSequenceToken { message } => match named_token(message@) {
            Some(token) => {
                &&& outcome is Conflict
                &&& outcome->corrected_token@ == token
            },
            None => outcome == (DeliveryOutcome::Fatal { cause: message }),
        },
        SinkReply::Failed { message } => outcome == (DeliveryOutcome::Fatal { cause: message }),
    }
}

/// Tells what the answer `reply` means for delivery.
pub fn outcome_of(reply: SinkReply) -> (outcome: DeliveryOutcome)
    ensures
        is_outcome_of(reply, outcome),
{
    match reply {
        SinkReply::Accepted { next_token } => match next_token {
            Some(token) => DeliveryOutcome::Delivered { next_token: token },
            None => DeliveryOutcome::Fatal {
                cause: "the sink accepted the batch without a next sequence token".to_owned(),
            },
        },
        SinkReply::InvalidSequenceToken { message } => match corrected_token(message.as_str()) {
            Some(token) => DeliveryOutcome::Conflict { corrected_token: token },
            None => DeliveryOutcome::Fatal { cause: message },
        },
        SinkReply::Failed { message } => DeliveryOutcome::Fatal { cause: message },
    }
}

impl CreateReply {
    /// Whether the destination exists after this answer.
    pub open spec fn exists_spec(self) -> bool {
        self is Created || self is AlreadyExists
    }

    /// Whether the destination exists after this answer: it was created, or
    /// it was there already.
    pub fn destination_exists(&self) -> (r: bool)
        ensures
            r == self.exists_spec(),
    {
        match self {
            CreateReply::Created => true,
            CreateReply::AlreadyExists => true,
            CreateReply::Failed { .. } => false,
        }
    }
}

} // verus!
