//! The interactive client's line handling: what a typed line means before
//! it is sent (or not sent) to the server.

use vstd::prelude::*;
use vstd::string::StringSliceAdditionalSpecFns;
use vstd::utf8::is_ascii_chars;
use crate::request::to_lower;

verus! {

/// What the client does with a typed line.
#[derive(Clone, Copy, Debug, PartialEq, Eq, Structural)]
pub enum ReplAction {
    /// Wipe the editor's history; nothing is sent.
    ClearHistory,
    /// An empty line; nothing is sent.
    Skip,
    /// Non-ASCII input is refused; nothing is sent.
    NotAscii,
    /// Send the line, stop the database process, and leave.
    Stop,
    /// Send the line and leave.
    Exit,
    /// Send the line and wait for the response.
    Query,
}

/// Each byte mapped to its ASCII lower-case form.
pub open spec fn lower_bytes(s: Seq<u8>) -> Seq<u8> {
    s.map_values(|b: u8| to_lower(b))
}

/// The line asks, in any ASCII case, for the history to be cleared.
pub open spec fn is_clear_history(msg: &str) -> bool {
    ||| lower_bytes(msg.spec_bytes()) == "clear history".spec_bytes()
    ||| lower_bytes(msg.spec_bytes()) == "clear_history".spec_bytes()
}

/// What a typed line means: the history commands come first, then the empty
/// and non-ASCII guards, then the two leaving commands; everything else is a
/// query for the server.
pub open spec fn spec_classify_line(msg: &str) -> ReplAction {
    if is_clear_history(msg) {
        ReplAction::ClearHistory
    } else if msg@.len() == 0 {
        ReplAction::Skip
    } else if !is_ascii_chars(msg@) {
        ReplAction::NotAscii
    } else if msg.spec_bytes() == "stop".spec_bytes() {
        ReplAction::Stop
    } else if msg.spec_bytes() == "exit".spec_bytes() {
        ReplAction::Exit
    } else {
        ReplAction::Query
    }
}

/// Whether the two byte strings are equal.
fn eq_bytes(a: &[u8], b: &[u8]) -> (r: bool)
    ensures
        r == (a@ == b@),
{
    let n = a.len();
    if n != b.len() {
        proof {
            assert(a@.len() != b@.len());
        }
        return false;
    }
    let mut i: usize = 0;
    while i < n
        invariant
            i <= n,
            n == a@.len(),
            n == b@.len(),
            forall|j: int| 0 <= j < i ==> a@[j] == b@[j],
        decreases n - i,
    {
        if a[i] != b[i] {
            return false;
        }
        i = i + 1;
    }
    proof {
        assert(a@ =~= b@);
    }
    true
}

/// Whether `a`, brought to ASCII lower case, equals `b`.
fn eq_lower(a: &[u8], b: &[u8]) -> (r: bool)
    ensures
        r == (lower_bytes(a@) == b@),
{
    let n = a.len();
    if n != b.len() {
        proof {
            assert(lower_bytes(a@).len() != b@.len());
        }
        return false;
    }
    let mut i: usize = 0;
    while i < n
        invariant
            i <= n,
            n == a@.len(),
            n == b@.len(),
            forall|j: int| 0 <= j < i ==> #[trigger] lower_bytes(a@)[j] == b@[j],
        decreases n - i,
    {
        if crate::request::to_lower_byte(a[i]) != b[i] {
            proof {
                assert(lower_bytes(a@)[i as int] == to_lower(a@[i as int]));
            }
            return false;
        }
        proof {
            assert(lower_bytes(a@)[i as int] == to_lower(a@[i as int]));
        }
        i = i + 1;
    }
    proof {
        assert(lower_bytes(a@) =~= b@);
    }
    true
}

/// Classifies a typed line.
pub fn classify_line(msg: &str) -> (r: ReplAction)
    ensures
        r == spec_classify_line(msg),
{
    let mb = msg.as_bytes();
    if eq_lower(mb, "clear history".as_bytes()) || eq_lower(mb, "clear_history".as_bytes()) {
        return ReplAction::ClearHistory;
    }
    if msg.is_empty() {
        return ReplAction::Skip;
    }
    if !msg.is_ascii() {
        return ReplAction::NotAscii;
    }
    if eq_bytes(mb, "stop".as_bytes()) {
        return ReplAction::Stop;
    }
    if eq_bytes(mb, "exit".as_bytes()) {
        return ReplAction::Exit;
    }
    ReplAction::Query
}

} // verus!
