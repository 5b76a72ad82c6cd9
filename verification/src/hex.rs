use vstd::prelude::*;
use vstd::string::{StrSliceExecFns, StringExecFns};

verus! {

/// The lower-case hexadecimal digit for `d`, where `0 <= d < 16`.
pub open spec fn hex_digit(d: int) -> char {
    "0123456789abcdef"@[d]
}

/// `n` in lower-case hexadecimal, most significant digit first, without
/// leading zeros; `0` is the single digit `0`.
pub open spec fn hex_text(n: nat) -> Seq<char>
    decreases n,
{
    if n < 16 {
        seq![hex_digit(n as int)]
    } else {
        hex_text(n / 16).push(hex_digit((n % 16) as int))
    }
}

/// Appends `n` in hexadecimal to `out`.
pub fn write_hex(n: u128, out: &mut String)
    ensures
        final(out)@ == old(out)@ + hex_text(n as nat),
    decreases n,
{
    let alphabet = "0123456789abcdef";
    proof {
        reveal_strlit("0123456789abcdef");
    }
    if n >= 16 {
        write_hex(n / 16, out);
    }
    let d: usize = (n % 16) as usize;
    out.append(alphabet.substring_char(d, d + 1));
    proof {
        assert(alphabet@.subrange(d as int, d as int + 1) =~= seq![hex_digit(d as int)]);
        assert(out@ =~= old(out)@ + hex_text(n as nat));
    }
}

/// `n` in hexadecimal.
pub fn to_hex(n: u128) -> (res: String)
    ensures
        res@ == hex_text(n as nat),
{
    let mut out = String::new();
    write_hex(n, &mut out);
    assert(out@ =~= hex_text(n as nat));
    out
}

} // verus!
