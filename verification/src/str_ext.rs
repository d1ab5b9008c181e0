//! Repeating and centring of strings.

use vstd::prelude::*;
use vstd::string::StringExecFns;
use vstd::string::StrSliceExecFns;
use crate::text::push_run;
use crate::text::repeat_text;
use crate::text::run_of;

verus! {

/// How often `str_repeat` repeats for a count of `n`: a negative count
/// repeats as zero does.
pub open spec fn repeat_count(n: i32) -> nat {
    if n <= 0 {
        0
    } else {
        n as nat
    }
}

/// `s`, `n` times in a row; the empty string where `n` is zero or less.
pub fn str_repeat(s: &str, n: i32) -> (out: String)
    ensures
        out@ == repeat_text(s@, repeat_count(n)),
{
    let mut out = String::new();
    if n <= 0 {
        return out;
    }
    let mut i: i32 = 0;
    while i < n
        invariant
            0 <= i <= n,
            out@ == repeat_text(s@, i as nat),
        decreases n - i,
    {
        out.append(s);
        i = i + 1;
    }
    out
}

/// The spaces that centring `len` characters in a field of `width` puts
/// in front of them and behind them. Where the spaces cannot be shared
/// evenly, the one more goes behind.
pub open spec fn center_padding(len: nat, width: i32) -> (nat, nat) {
    if width <= len {
        (0, 0)
    } else {
        let total = width - len;
        ((total / 2) as nat, (total - total / 2) as nat)
    }
}

/// `s` with spaces on both sides, so that it stands in the middle of
/// `width` characters.
pub open spec fn centered(s: Seq<char>, width: i32) -> Seq<char> {
    let (left, right) = center_padding(s.len(), width);
    run_of(' ', left) + s + run_of(' ', right)
}

/// `s`, centred in a field of `width` characters by spaces on both sides.
/// A string that is as wide as the field or wider comes back as it is,
/// and so does every string where `width` is zero or less.
pub fn str_pad_center(s: &str, width: i32) -> (out: String)
    ensures
        out@ == centered(s@, width),
{
    let len: usize = s.unicode_len();
    let width: usize = if width <= 0 {
        0usize
    } else {
        width as usize
    };
    if len >= width {
        let out = String::from_str(s);
        assert(out@ =~= run_of(' ', 0) + s@ + run_of(' ', 0));
        return out;
    }
    let total_pad: usize = width - len;
    let left: usize = total_pad / 2;
    let right: usize = total_pad - left;
    let mut out = String::new();
    push_run(&mut out, ' ', left);
    out.append(s);
    push_run(&mut out, ' ', right);
    assert(out@ =~= run_of(' ', left as nat) + s@ + run_of(' ', right as nat));
    out
}

} // verus!
