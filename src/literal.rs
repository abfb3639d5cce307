//! The surface form `/body/flags` of a literal: where the body ends and what
//! the flags are.
use vstd::prelude::*;
use crate::error::ErrorKind;
use crate::flags::{flags_from, no_flags, RegExFlags};
use crate::text::utf8_len;

verus! {

/// The index of the last `/` among `s[..i]`, or -1 where there is none.
pub open spec fn last_slash_before(s: Seq<char>, i: int) -> int
    decreases i,
{
    if i <= 0 || i > s.len() {
        -1
    } else if s[i - 1] == '/' {
        i - 1
    } else {
        last_slash_before(s, i - 1)
    }
}

/// The index of the last `/` in `s`, or -1.
pub open spec fn last_slash(s: Seq<char>) -> int {
    last_slash_before(s, s.len() as int)
}

/// A literal split into its body, its flag text and its flags; or the first
/// defect, with its byte offset into the literal. The body lies between the
/// first character, which must be `/`, and the last `/`, which must be
/// another one; the body may not be empty; the flags follow the last `/`,
/// each named at most once.
pub open spec fn split_literal(js: Seq<char>) -> Result<(Seq<char>, Seq<char>, RegExFlags), (ErrorKind, int)> {
    if js.len() == 0 || js[0] != '/' {
        Err((ErrorKind::MissingOpeningSlash, 0))
    } else {
        let k = last_slash(js);
        if k <= 0 {
            Err((ErrorKind::MissingClosingSlash, 0))
        } else if k == 1 {
            Err((ErrorKind::EmptyBody, 0))
        } else {
            let f = js.subrange(k + 1, js.len() as int);
            match flags_from(no_flags(), f, 0) {
                Err((kind, i)) => Err((kind, utf8_len(js.subrange(0, k)) + 1 + i)),
                Ok(flags) => Ok((js.subrange(1, k), f, flags)),
            }
        }
    }
}

/// The index of the last `/` in `s`.
pub fn last_slash_index(s: &Vec<char>) -> (r: Option<usize>)
    ensures
        match r {
            Some(k) => k as int == last_slash(s@) && k < s@.len(),
            None => last_slash(s@) == -1,
        },
{
    let mut i = s.len();
    while i > 0
        invariant
            i <= s@.len(),
            last_slash(s@) == last_slash_before(s@, i as int),
        decreases i,
    {
        if s[i - 1] == '/' {
            return Some(i - 1);
        }
        i = i - 1;
    }
    None
}

} // verus!
