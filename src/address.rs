//! Rendering of peer addresses for logs.

use vstd::prelude::*;
use vstd::string::{StrSliceExecFns, StringExecFns};

verus! {

/// The character shown in place of `c` when addresses are scrubbed:
/// separators stay, everything else becomes `x`.
pub open spec fn scrub_char(c: char) -> char {
    if c == '.' || c == ':' {
        c
    } else {
        'x'
    }
}

/// What `scrub_address` prints for `ip`.
pub open spec fn scrubbed(ip: Seq<char>, scrub: bool) -> Seq<char> {
    if scrub {
        ip.map_values(|c: char| scrub_char(c))
    } else {
        ip
    }
}

/// Hides the digits of an address when `scrub` is set, keeping its shape
/// (`127.0.0.1:25565` becomes `xxx.x.x.x:xxxxx`).
pub fn scrub_address(ip: &str, scrub: bool) -> (r: String)
    ensures
        r@ == scrubbed(ip@, scrub),
{
    if !scrub {
        return ip.to_owned();
    }
    let n = ip.unicode_len();
    let mut out = String::new();
    let mut i: usize = 0;
    while i < n
        invariant
            n == ip@.len(),
            i <= n,
            out@ == ip@.subrange(0, i as int).map_values(|c: char| scrub_char(c)),
        decreases n - i,
    {
        let c = ip.get_char(i);
        if c == '.' || c == ':' {
            let one = ip.substring_char(i, i + 1);
            assert(one@ =~= seq![c]);
            out.append(one);
        } else {
            out.append("x");
            proof {
                reveal_strlit("x");
            }
            assert("x"@ =~= seq!['x']);
        }
        assert(ip@.subrange(0, i + 1) == ip@.subrange(0, i as int).push(c));
        assert(ip@.subrange(0, i + 1).map_values(|c: char| scrub_char(c)) =~= ip@.subrange(
            0,
            i as int,
        ).map_values(|c: char| scrub_char(c)).push(scrub_char(c)));
        i = i + 1;
    }
    assert(ip@.subrange(0, n as int) == ip@);
    out
}

} // verus!
