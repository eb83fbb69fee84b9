//! Command hints for the interactive client: a fixed table of commands, and
//! the rule that picks the hint shown for a partly typed line.
//!
//! Hints are ASCII throughout, which makes byte positions and character
//! positions agree; the contracts say so once and the proofs lean on it.

use vstd::prelude::*;
use vstd::string::StringSliceAdditionalSpecFns;
use vstd::utf8::{
    encode_utf8, encode_utf8_decode_utf8, encode_utf8_valid_utf8, is_ascii_chars,
    is_ascii_chars_encode_utf8, is_char_boundary, is_char_boundary_iff_not_is_continuation_byte,
    is_char_boundary_start_end_of_seq,
};

verus! {

/// One hint: the full command text, and how many of its leading bytes a
/// completion inserts.
pub struct CommandHint {
    /// The full command text shown to the user.
    pub display: String,
    /// Completion takes this many leading bytes of `display`.
    pub complete_up_to: usize,
}

/// Every position of an ASCII character sequence is a boundary of its
/// UTF-8 encoding.
proof fn lemma_ascii_boundary(chars: Seq<char>, k: int)
    requires
        is_ascii_chars(chars),
        0 <= k <= chars.len(),
    ensures
        is_char_boundary(encode_utf8(chars), k),
        encode_utf8(chars).len() == chars.len(),
{
    let bytes = encode_utf8(chars);
    is_ascii_chars_encode_utf8(chars);
    encode_utf8_valid_utf8(chars);
    if k == 0 || k == chars.len() {
        is_char_boundary_start_end_of_seq(bytes);
    } else {
        assert(bytes[k] == chars[k] as u8);
        assert(chars[k] <= '\u{7f}');
        assert(bytes[k] < 0x80);
        is_char_boundary_iff_not_is_continuation_byte(bytes, k);
    }
}

/// Encoding commutes with taking a subrange of an ASCII sequence.
proof fn lemma_ascii_encode_subrange(chars: Seq<char>, lo: int, hi: int)
    requires
        is_ascii_chars(chars),
        0 <= lo <= hi <= chars.len(),
    ensures
        is_ascii_chars(chars.subrange(lo, hi)),
        encode_utf8(chars).subrange(lo, hi) == encode_utf8(chars.subrange(lo, hi)),
{
    is_ascii_chars_encode_utf8(chars);
    let sub = chars.subrange(lo, hi);
    assert(is_ascii_chars(sub)) by {
        assert forall|i: int| 0 <= i < sub.len() implies '\0' <= #[trigger] sub[i] <= '\u{7f}' by {
            assert(sub[i] == chars[lo + i]);
        }
    }
    is_ascii_chars_encode_utf8(sub);
    assert(encode_utf8(chars).subrange(lo, hi) =~= encode_utf8(sub));
}

/// Two ASCII character sequences with the same encoding are the same.
proof fn lemma_encode_injective(a: Seq<char>, b: Seq<char>)
    requires
        encode_utf8(a) == encode_utf8(b),
    ensures
        a == b,
{
    encode_utf8_decode_utf8(a);
    encode_utf8_decode_utf8(b);
}

impl CommandHint {
    /// A hint is ASCII text, and its completion length lies within it.
    pub open spec fn wf(self) -> bool {
        &&& is_ascii_chars(self.display@)
        &&& self.display@.len() <= usize::MAX
        &&& self.complete_up_to <= self.display@.len()
    }

    /// Builds a hint from its text and the prefix that completion inserts.
    pub fn new(text: &str, complete_up_to: &str) -> (h: CommandHint)
        requires
            is_ascii_chars(text@),
            text@.len() <= usize::MAX,
            complete_up_to@.len() <= text@.len(),
            complete_up_to@ == text@.subrange(0, complete_up_to@.len() as int),
        ensures
            h.wf(),
            h.display@ == text@,
            h.complete_up_to == complete_up_to@.len(),
    {
        proof {
            assert(is_ascii_chars(complete_up_to@)) by {
                assert forall|i: int|
                    0 <= i < complete_up_to@.len() implies '\0' <= #[trigger] complete_up_to@[i]
                    <= '\u{7f}' by {
                    assert(complete_up_to@[i] == text@[i]);
                }
            }
            is_ascii_chars_encode_utf8(complete_up_to@);
        }
        CommandHint { display: text.to_owned(), complete_up_to: complete_up_to.len() }
    }

    /// The full command text.
    pub fn display(&self) -> (r: &str)
        ensures
            r@ == self.display@,
    {
        self.display.as_str()
    }

    /// What completion inserts: the leading part of the text, when there is
    /// one to insert.
    pub fn completion(&self) -> (r: Option<String>)
        requires
            self.wf(),
        ensures
            r is Some <==> self.complete_up_to > 0,
            r matches Some(v) ==> v@ == self.display@.subrange(0, self.complete_up_to as int),
    {
        if self.complete_up_to > 0 {
            proof {
                lemma_ascii_boundary(self.display@, self.complete_up_to as int);
            }
            let s = self.display.as_str();
            let (pre, _) = s.split_at(self.complete_up_to);
            proof {
                lemma_ascii_encode_subrange(self.display@, 0, self.complete_up_to as int);
                lemma_encode_injective(
                    pre@,
                    self.display@.subrange(0, self.complete_up_to as int),
                );
            }
            Some(pre.to_owned())
        } else {
            None
        }
    }

    /// The hint with its first `strip_chars` bytes removed; the completion
    /// length shrinks accordingly, never below zero.
    pub fn suffix(&self, strip_chars: usize) -> (h: CommandHint)
        requires
            self.wf(),
            strip_chars <= self.display@.len(),
        ensures
            h.wf(),
            h.display@ == self.display@.subrange(
                strip_chars as int,
                self.display@.len() as int,
            ),
            h.complete_up_to == (if strip_chars <= self.complete_up_to {
                (self.complete_up_to - strip_chars) as int
            } else {
                0int
            }),
    {
        proof {
            lemma_ascii_boundary(self.display@, strip_chars as int);
        }
        let s = self.display.as_str();
        let (_, suf) = s.split_at(strip_chars);
        proof {
            lemma_ascii_encode_subrange(
                self.display@,
                strip_chars as int,
                self.display@.len() as int,
            );
            lemma_encode_injective(
                suf@,
                self.display@.subrange(strip_chars as int, self.display@.len() as int),
            );
        }
        let complete_up_to = if strip_chars <= self.complete_up_to {
            self.complete_up_to - strip_chars
        } else {
            0
        };
        CommandHint { display: suf.to_owned(), complete_up_to }
    }
}

/// The hint fits the typed line: the line is a prefix of its text.
pub open spec fn hint_matches(h: CommandHint, line: Seq<char>) -> bool {
    line.len() <= h.display@.len() && h.display@.subrange(0, line.len() as int) == line
}

/// Position of the first hint that fits the line, or `-1` when none does.
pub open spec fn first_hit(hs: Seq<CommandHint>, line: Seq<char>) -> int
    decreases hs.len(),
{
    if hs.len() == 0 {
        -1
    } else if hint_matches(hs[0], line) {
        0
    } else {
        let r = first_hit(hs.drop_first(), line);
        if r < 0 {
            -1
        } else {
            1 + r
        }
    }
}

/// When everything before `i` misses and `i` fits, `i` is the first hit.
proof fn lemma_first_hit_found(hs: Seq<CommandHint>, line: Seq<char>, i: int)
    requires
        0 <= i < hs.len(),
        forall|j: int| 0 <= j < i ==> !hint_matches(#[trigger] hs[j], line),
        hint_matches(hs[i], line),
    ensures
        first_hit(hs, line) == i,
    decreases i,
{
    if i > 0 {
        assert(forall|j: int|
            0 <= j < i - 1 ==> !hint_matches(#[trigger] hs.drop_first()[j], line));
        lemma_first_hit_found(hs.drop_first(), line, i - 1);
    }
}

/// When every hint misses, there is no hit.
proof fn lemma_first_hit_none(hs: Seq<CommandHint>, line: Seq<char>)
    requires
        forall|j: int| 0 <= j < hs.len() ==> !hint_matches(#[trigger] hs[j], line),
    ensures
        first_hit(hs, line) == -1,
    decreases hs.len(),
{
    if hs.len() > 0 {
        assert(forall|j: int|
            0 <= j < hs.len() - 1 ==> !hint_matches(#[trigger] hs.drop_first()[j], line));
        lemma_first_hit_none(hs.drop_first(), line);
    }
}

/// Whether `p` is a prefix of `s`.
pub fn starts_with_bytes(s: &[u8], p: &[u8]) -> (r: bool)
    ensures
        r == (p@.len() <= s@.len() && s@.subrange(0, p@.len() as int) == p@),
{
    let np = p.len();
    if np > s.len() {
        return false;
    }
    let mut i: usize = 0;
    while i < np
        invariant
            i <= np,
            np == p@.len(),
            np <= s@.len(),
            forall|j: int| 0 <= j < i ==> s@[j] == p@[j],
        decreases np - i,
    {
        if s[i] != p[i] {
            proof {
                assert(s@.subrange(0, np as int)[i as int] != p@[i as int]);
            }
            return false;
        }
        i = i + 1;
    }
    proof {
        assert(s@.subrange(0, np as int) =~= p@);
    }
    true
}

/// The hint offered for a typed line: nothing while the cursor is not at the
/// end of a non-empty line; otherwise, what remains of the first hint whose
/// text starts with the line.
pub fn hint(hints: &Vec<CommandHint>, line: &str, pos: usize) -> (r: Option<CommandHint>)
    requires
        forall|i: int| 0 <= i < hints@.len() ==> (#[trigger] hints@[i]).wf(),
        is_ascii_chars(line@),
        line@.len() <= usize::MAX,
        pos <= line@.len(),
    ensures
        (line@.len() == 0 || pos < line@.len()) ==> r is None,
        (line@.len() > 0 && pos == line@.len() && first_hit(hints@, line@) < 0) ==> r is None,
        (line@.len() > 0 && pos == line@.len() && first_hit(hints@, line@) >= 0) ==> (r matches
            Some(h) && ({
            let m = hints@[first_hit(hints@, line@)];
            &&& h.wf()
            &&& h.display@ == m.display@.subrange(pos as int, m.display@.len() as int)
            &&& h.complete_up_to == (if pos <= m.complete_up_to {
                (m.complete_up_to - pos) as int
            } else {
                0int
            })
        })),
{
    proof {
        is_ascii_chars_encode_utf8(line@);
    }
    if line.is_empty() {
        return None;
    }
    if pos < line.len() {
        return None;
    }
    let lb = line.as_bytes();
    let n = hints.len();
    let mut i: usize = 0;
    while i < n
        invariant
            i <= n,
            n == hints@.len(),
            forall|i2: int| 0 <= i2 < hints@.len() ==> (#[trigger] hints@[i2]).wf(),
            is_ascii_chars(line@),
            line@.len() <= usize::MAX,
            line@.len() > 0,
            pos == line@.len(),
            lb@ == encode_utf8(line@),
            lb@.len() == line@.len(),
            forall|j: int| 0 <= j < i ==> !hint_matches(#[trigger] hints@[j], line@),
        decreases n - i,
    {
        let h = &hints[i];
        let db = h.display.as_str().as_bytes();
        proof {
            is_ascii_chars_encode_utf8(h.display@);
        }
        if starts_with_bytes(db, lb) {
            proof {
                lemma_ascii_encode_subrange(h.display@, 0, line@.len() as int);
                lemma_encode_injective(h.display@.subrange(0, line@.len() as int), line@);
                assert(hint_matches(hints@[i as int], line@));
                lemma_first_hit_found(hints@, line@, i as int);
            }
            return Some(h.suffix(pos));
        }
        proof {
            if hint_matches(hints@[i as int], line@) {
                lemma_ascii_encode_subrange(h.display@, 0, line@.len() as int);
                assert(db@.subrange(0, lb@.len() as int) == lb@);
            }
        }
        i = i + 1;
    }
    proof {
        lemma_first_hit_none(hints@, line@);
    }
    None
}

/// The table of command hints offered by the interactive client.
pub fn diy_hints() -> (v: Vec<CommandHint>)
    ensures
        v@.len() == 8,
        forall|i: int| 0 <= i < v@.len() ==> (#[trigger] v@[i]).wf(),
        v@[0].display@ == "exit"@ && v@[0].complete_up_to == 4,
        v@[1].display@ == "stop"@ && v@[1].complete_up_to == 4,
        v@[2].display@ == "SHOW DATABASES;"@ && v@[2].complete_up_to == 15,
        v@[3].display@ == "SHOW DATABASE database;"@ && v@[3].complete_up_to == 14,
        v@[4].display@ == "SHOW TABLE database.table;"@ && v@[4].complete_up_to == 11,
        v@[5].display@ == "SHOW COLUMN database table.column;"@ && v@[5].complete_up_to == 12,
        v@[6].display@ == "SHOW FROM database.table;"@ && v@[6].complete_up_to == 10,
        v@[7].display@ == "SHOW FROM database table.column;"@ && v@[7].complete_up_to == 10,
{
    let mut v: Vec<CommandHint> = Vec::new();
    proof {
        reveal_strlit("exit");
        reveal_strlit("stop");
        reveal_strlit("SHOW DATABASES;");
        reveal_strlit("SHOW DATABASE database;");
        reveal_strlit("SHOW DATABASE ");
        reveal_strlit("SHOW TABLE database.table;");
        reveal_strlit("SHOW TABLE ");
        reveal_strlit("SHOW COLUMN database table.column;");
        reveal_strlit("SHOW COLUMN ");
        reveal_strlit("SHOW FROM database.table;");
        reveal_strlit("SHOW FROM database table.column;");
        reveal_strlit("SHOW FROM ");
        assert("exit"@ =~= "exit"@.subrange(0, 4));
        assert("stop"@ =~= "stop"@.subrange(0, 4));
        assert("SHOW DATABASES;"@ =~= "SHOW DATABASES;"@.subrange(0, 15));
        assert("SHOW DATABASE "@ =~= "SHOW DATABASE database;"@.subrange(0, 14));
        assert("SHOW TABLE "@ =~= "SHOW TABLE database.table;"@.subrange(0, 11));
        assert("SHOW COLUMN "@ =~= "SHOW COLUMN database table.column;"@.subrange(0, 12));
        assert("SHOW FROM "@ =~= "SHOW FROM database.table;"@.subrange(0, 10));
        assert("SHOW FROM "@ =~= "SHOW FROM database table.column;"@.subrange(0, 10));
    }
    v.push(CommandHint::new("exit", "exit"));
    v.push(CommandHint::new("stop", "stop"));
    v.push(CommandHint::new("SHOW DATABASES;", "SHOW DATABASES;"));
    v.push(CommandHint::new("SHOW DATABASE database;", "SHOW DATABASE "));
    v.push(CommandHint::new("SHOW TABLE database.table;", "SHOW TABLE "));
    v.push(CommandHint::new("SHOW COLUMN database table.column;", "SHOW COLUMN "));
    v.push(CommandHint::new("SHOW FROM database.table;", "SHOW FROM "));
    v.push(CommandHint::new("SHOW FROM database table.column;", "SHOW FROM "));
    v
}

} // verus!
