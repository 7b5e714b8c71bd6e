//! Text shaping for the command line.
use vstd::prelude::*;
use vstd::string::StringSliceAdditionalSpecFns;

use crate::text::{push_str, to_string};

verus! {

/// `s` if it has at most `max` bytes; otherwise its first `max - 1` bytes and `…`.
pub open spec fn truncate_spec(s: Seq<char>, max: nat) -> Seq<char> {
    let b = vstd::utf8::encode_utf8(s);
    if b.len() <= max {
        s
    } else {
        vstd::utf8::decode_utf8(b.subrange(0, max - 1)) + "…"@
    }
}

/// Cutting `s` to `max - 1` bytes does not panic: it has at most `max` bytes,
/// or `max` is at least 1 and byte `max - 1` starts a character.
pub open spec fn truncate_ok(s: Seq<char>, max: nat) -> bool {
    let b = vstd::utf8::encode_utf8(s);
    b.len() <= max || (max >= 1 && vstd::utf8::is_char_boundary(b, max - 1))
}

/// Shortens `s` to `max` bytes for a table column, ending with `…` when cut.
pub fn truncate(s: &str, max: usize) -> (res: String)
    requires
        truncate_ok(s@, max as nat),
    ensures
        res@ == truncate_spec(s@, max as nat),
{
    let n = s.as_bytes().len();
    if n <= max {
        to_string(s)
    } else {
        proof {
            assert(s.spec_bytes() == vstd::utf8::encode_utf8(s@));
        }
        let (a, _) = s.split_at(max - 1);
        proof {
            assert(a.spec_bytes() == vstd::utf8::encode_utf8(a@));
            vstd::utf8::encode_utf8_decode_utf8(a@);
        }
        let mut out = to_string(a);
        push_str(&mut out, "…");
        out
    }
}

} // verus!
