//! Byte-level request handling: trailing-whitespace trimming and the
//! case-insensitive close keyword.
//!
//! The wire protocol carries newline-free UTF-8 text.  A request whose
//! trimmed text contains the keyword `exit` (compared without regard to ASCII
//! case) asks the server to close the connection.
//!
//! Trimming and case folding are deliberately ASCII: the close keyword is
//! ASCII, and the interactive client refuses non-ASCII lines outright, so
//! the protocol's text is ASCII in practice.  A non-ASCII whitespace
//! character at the end of a request is treated as request text and reaches
//! the processor; folding never turns a non-ASCII character into part of
//! the keyword.

use vstd::prelude::*;

verus! {

/// ASCII whitespace, as trimmed from the end of a request.  Whitespace
/// beyond ASCII is left alone, on purpose (see the module note).
pub open spec fn is_space(b: u8) -> bool {
    b == 0x20 || b == 0x09 || b == 0x0a || b == 0x0b || b == 0x0c || b == 0x0d
}

/// The request with all trailing ASCII whitespace removed.
pub open spec fn trim_end(s: Seq<u8>) -> Seq<u8>
    decreases s.len(),
{
    if s.len() == 0 {
        s
    } else if is_space(s[s.len() - 1]) {
        trim_end(s.drop_last())
    } else {
        s
    }
}

/// Length of the request once trailing ASCII whitespace is removed.
pub fn trimmed_len(data: &[u8]) -> (n: usize)
    ensures
        n <= data@.len(),
        trim_end(data@) == data@.subrange(0, n as int),
{
    let mut n: usize = data.len();
    proof {
        assert(data@.subrange(0, n as int) =~= data@);
    }
    while n > 0 && is_space_byte(data[n - 1])
        invariant
            n <= data@.len(),
            trim_end(data@) == trim_end(data@.subrange(0, n as int)),
        decreases n,
    {
        proof {
            assert(data@.subrange(0, n as int).drop_last() =~= data@.subrange(0, n - 1));
        }
        n = n - 1;
    }
    proof {
        let prefix = data@.subrange(0, n as int);
        if n > 0 {
            assert(prefix[prefix.len() - 1] == data@[n - 1]);
        }
        assert(trim_end(prefix) == prefix);
    }
    n
}

/// Whether a byte is ASCII whitespace.
pub fn is_space_byte(b: u8) -> (r: bool)
    ensures
        r == is_space(b),
{
    b == 0x20 || b == 0x09 || b == 0x0a || b == 0x0b || b == 0x0c || b == 0x0d
}

/// A byte mapped to its ASCII lower-case form.
pub open spec fn to_lower(b: u8) -> u8 {
    if 0x41 <= b && b <= 0x5a {
        (b + 0x20) as u8
    } else {
        b
    }
}

/// The ASCII lower-case form of a byte.
pub fn to_lower_byte(b: u8) -> (r: u8)
    ensures
        r == to_lower(b),
{
    if 0x41 <= b && b <= 0x5a {
        b + 0x20
    } else {
        b
    }
}

/// The close keyword `exit` stands at position `i` of `s`, compared without
/// regard to ASCII case.
pub open spec fn is_exit_at(s: Seq<u8>, i: int) -> bool {
    &&& 0 <= i
    &&& i + 4 <= s.len()
    &&& to_lower(s[i]) == 0x65
    &&& to_lower(s[i + 1]) == 0x78
    &&& to_lower(s[i + 2]) == 0x69
    &&& to_lower(s[i + 3]) == 0x74
}

/// The close keyword occurs somewhere in `s`.
pub open spec fn contains_exit(s: Seq<u8>) -> bool {
    exists|i: int| is_exit_at(s, i)
}

/// Searches the first `n` bytes of a request for the close keyword.
pub fn contains_exit_up_to(data: &[u8], n: usize) -> (r: bool)
    requires
        n <= data@.len(),
    ensures
        r == contains_exit(data@.subrange(0, n as int)),
{
    let ghost prefix = data@.subrange(0, n as int);
    if n < 4 {
        proof {
            assert(forall|i: int| !is_exit_at(prefix, i)) by {
                assert forall|i: int| !is_exit_at(prefix, i) by {
                    assert(prefix.len() < 4);
                }
            }
        }
        return false;
    }
    let mut i: usize = 0;
    while i <= n - 4
        invariant
            n <= data@.len(),
            4 <= n,
            i <= n - 3,
            prefix == data@.subrange(0, n as int),
            forall|j: int| 0 <= j < i ==> !is_exit_at(prefix, j),
        decreases n - i,
    {
        if to_lower_byte(data[i]) == 0x65 && to_lower_byte(data[i + 1]) == 0x78
            && to_lower_byte(data[i + 2]) == 0x69 && to_lower_byte(data[i + 3]) == 0x74 {
            proof {
                assert(prefix[i as int] == data@[i as int]);
                assert(prefix[i + 1] == data@[i + 1]);
                assert(prefix[i + 2] == data@[i + 2]);
                assert(prefix[i + 3] == data@[i + 3]);
                assert(is_exit_at(prefix, i as int));
            }
            return true;
        }
        i = i + 1;
    }
    proof {
        assert(forall|j: int| !is_exit_at(prefix, j)) by {
            assert forall|j: int| !is_exit_at(prefix, j) by {
                if 0 <= j && j + 4 <= prefix.len() {
                    assert(j < i);
                }
            }
        }
    }
    false
}

/// A continuation byte of a multi-byte UTF-8 sequence.
pub open spec fn is_cont(b: u8) -> bool {
    0x80 <= b && b <= 0xbf
}

/// The bytes of `s` from position `i` on form well-formed UTF-8.
pub open spec fn valid_utf8_from(s: Seq<u8>, i: int) -> bool
    decreases s.len() - i,
{
    if i >= s.len() {
        true
    } else {
        let b = s[i];
        if b < 0x80 {
            valid_utf8_from(s, i + 1)
        } else if 0xc2 <= b && b <= 0xdf {
            i + 2 <= s.len() && is_cont(s[i + 1]) && valid_utf8_from(s, i + 2)
        } else if b == 0xe0 {
            i + 3 <= s.len() && 0xa0 <= s[i + 1] && s[i + 1] <= 0xbf && is_cont(s[i + 2])
                && valid_utf8_from(s, i + 3)
        } else if b == 0xed {
            i + 3 <= s.len() && 0x80 <= s[i + 1] && s[i + 1] <= 0x9f && is_cont(s[i + 2])
                && valid_utf8_from(s, i + 3)
        } else if 0xe1 <= b && b <= 0xef {
            i + 3 <= s.len() && is_cont(s[i + 1]) && is_cont(s[i + 2]) && valid_utf8_from(s, i + 3)
        } else if b == 0xf0 {
            i + 4 <= s.len() && 0x90 <= s[i + 1] && s[i + 1] <= 0xbf && is_cont(s[i + 2])
                && is_cont(s[i + 3]) && valid_utf8_from(s, i + 4)
        } else if b == 0xf4 {
            i + 4 <= s.len() && 0x80 <= s[i + 1] && s[i + 1] <= 0x8f && is_cont(s[i + 2])
                && is_cont(s[i + 3]) && valid_utf8_from(s, i + 4)
        } else if 0xf1 <= b && b <= 0xf3 {
            i + 4 <= s.len() && is_cont(s[i + 1]) && is_cont(s[i + 2]) && is_cont(s[i + 3])
                && valid_utf8_from(s, i + 4)
        } else {
            false
        }
    }
}

/// The whole of `s` is well-formed UTF-8.
pub open spec fn valid_utf8(s: Seq<u8>) -> bool {
    valid_utf8_from(s, 0)
}

/// Checks that a request is well-formed UTF-8.
pub fn is_valid_utf8(data: &[u8]) -> (r: bool)
    ensures
        r == valid_utf8(data@),
{
    let n = data.len();
    let mut i: usize = 0;
    loop
        invariant
            i <= n,
            n == data@.len(),
            valid_utf8(data@) == valid_utf8_from(data@, i as int),
        decreases n - i,
    {
        if i >= n {
            return true;
        }
        let b = data[i];
        let rem = n - i;
        if b < 0x80 {
            i = i + 1;
        } else if 0xc2 <= b && b <= 0xdf {
            if rem < 2 || !is_cont_byte(data[i + 1]) {
                return false;
            }
            i = i + 2;
        } else if b == 0xe0 {
            if rem < 3 || !(0xa0 <= data[i + 1] && data[i + 1] <= 0xbf)
                || !is_cont_byte(data[i + 2]) {
                return false;
            }
            i = i + 3;
        } else if b == 0xed {
            if rem < 3 || !(0x80 <= data[i + 1] && data[i + 1] <= 0x9f)
                || !is_cont_byte(data[i + 2]) {
                return false;
            }
            i = i + 3;
        } else if 0xe1 <= b && b <= 0xef {
            if rem < 3 || !is_cont_byte(data[i + 1]) || !is_cont_byte(data[i + 2]) {
                return false;
            }
            i = i + 3;
        } else if b == 0xf0 {
            if rem < 4 || !(0x90 <= data[i + 1] && data[i + 1] <= 0xbf)
                || !is_cont_byte(data[i + 2]) || !is_cont_byte(data[i + 3]) {
                return false;
            }
            i = i + 4;
        } else if b == 0xf4 {
            if rem < 4 || !(0x80 <= data[i + 1] && data[i + 1] <= 0x8f)
                || !is_cont_byte(data[i + 2]) || !is_cont_byte(data[i + 3]) {
                return false;
            }
            i = i + 4;
        } else if 0xf1 <= b && b <= 0xf3 {
            if rem < 4 || !is_cont_byte(data[i + 1]) || !is_cont_byte(data[i + 2])
                || !is_cont_byte(data[i + 3]) {
                return false;
            }
            i = i + 4;
        } else {
            return false;
        }
    }
}

/// Whether a byte is a UTF-8 continuation byte.
pub fn is_cont_byte(b: u8) -> (r: bool)
    ensures
        r == is_cont(b),
{
    0x80 <= b && b <= 0xbf
}

/// What the reactor does with a freshly read request.
#[derive(Clone, Copy, Debug, PartialEq, Eq, Structural)]
pub enum RequestClass {
    /// Not UTF-8: dropped silently, the connection stays open.
    Invalid,
    /// Contains the close keyword: the connection is to be closed.
    Close,
    /// Anything else: handed to the external processor.
    Dispatch,
}

/// How a request is classified: non-UTF-8 payloads are invalid; a trimmed
/// request containing the close keyword closes the connection; everything
/// else is dispatched.
pub open spec fn classify(s: Seq<u8>) -> RequestClass {
    if !valid_utf8(s) {
        RequestClass::Invalid
    } else if contains_exit(trim_end(s)) {
        RequestClass::Close
    } else {
        RequestClass::Dispatch
    }
}

/// Classifies a request.
pub fn classify_request(data: &[u8]) -> (c: RequestClass)
    ensures
        c == classify(data@),
{
    if !is_valid_utf8(data) {
        return RequestClass::Invalid;
    }
    let n = trimmed_len(data);
    if contains_exit_up_to(data, n) {
        RequestClass::Close
    } else {
        RequestClass::Dispatch
    }
}

/// The request text that is handed to the processor: the bytes with trailing
/// ASCII whitespace removed.
pub fn request_payload(data: &[u8]) -> (p: Vec<u8>)
    ensures
        p@ == trim_end(data@),
{
    let n = trimmed_len(data);
    let mut p: Vec<u8> = Vec::new();
    let mut i: usize = 0;
    while i < n
        invariant
            i <= n,
            n <= data@.len(),
            trim_end(data@) == data@.subrange(0, n as int),
            p@ == data@.subrange(0, i as int),
        decreases n - i,
    {
        p.push(data[i]);
        proof {
            assert(p@ =~= data@.subrange(0, i + 1));
        }
        i = i + 1;
    }
    proof {
        assert(p@ =~= data@.subrange(0, n as int));
    }
    p
}

} // verus!
