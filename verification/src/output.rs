//! Rendering of a match as the bytes of `Match <index>: <line>`, with the
//! match index written in decimal.

use vstd::prelude::*;

verus! {

/// The decimal digits of `n`, most significant first, as ASCII bytes.
pub open spec fn decimal_rep(n: nat) -> Seq<u8>
    decreases n,
{
    if n < 10 {
        seq![(n + 48) as u8]
    } else {
        decimal_rep(n / 10).push(((n % 10) + 48) as u8)
    }
}

/// The bytes of the label `"Match "`.
pub open spec fn match_label() -> Seq<u8> {
    seq![77u8, 97u8, 116u8, 99u8, 104u8, 32u8]
}

/// The bytes of the separator `": "`.
pub open spec fn index_separator() -> Seq<u8> {
    seq![58u8, 32u8]
}

/// The bytes of the whole output line for the match of `line` with the
/// zero-based match index `index`: `Match <index>: <line>`.
pub open spec fn format_spec(index: nat, line: Seq<u8>) -> Seq<u8> {
    match_label() + decimal_rep(index) + index_separator() + line
}

/// Writes `n` in decimal, most significant digit first.
pub fn u64_to_decimal(n: u64) -> (r: Vec<u8>)
    ensures
        r@ == decimal_rep(n as nat),
{
    let mut digits: Vec<u8> = Vec::new();
    let mut m: u64 = n;
    while m >= 10
        invariant
            decimal_rep(n as nat) == decimal_rep(m as nat) + digits@,
        decreases m,
    {
        let d: u8 = (m % 10) as u8 + 48;
        let ghost before = digits@;
        digits.insert(0, d);
        proof {
            assert(digits@ =~= seq![d] + before);
            assert(decimal_rep(m as nat) == decimal_rep((m as nat) / 10).push(d));
            assert(decimal_rep((m as nat) / 10) + digits@ =~= decimal_rep(m as nat) + before);
            assert((m / 10) as nat == (m as nat) / 10);
        }
        m = m / 10;
    }
    let d: u8 = m as u8 + 48;
    let ghost before = digits@;
    digits.insert(0, d);
    proof {
        assert(decimal_rep(m as nat) =~= seq![d]);
        assert(digits@ =~= seq![d] + before);
        assert(digits@ =~= decimal_rep(n as nat));
    }
    digits
}

/// Builds the output line `Match <index>: <line>` for one match.
pub fn format_match(index: u64, line: &Vec<u8>) -> (r: Vec<u8>)
    ensures
        r@ == format_spec(index as nat, line@),
{
    let mut r: Vec<u8> = Vec::new();
    r.push(77u8);
    r.push(97u8);
    r.push(116u8);
    r.push(99u8);
    r.push(104u8);
    r.push(32u8);
    proof {
        assert(r@ =~= match_label());
    }
    let mut digits = u64_to_decimal(index);
    r.append(&mut digits);
    proof {
        assert(r@ == match_label() + decimal_rep(index as nat));
    }
    r.push(58u8);
    r.push(32u8);
    let ghost with_sep = r@;
    proof {
        assert(with_sep =~= match_label() + decimal_rep(index as nat) + index_separator());
    }
    let n: usize = line.len();
    let mut i: usize = 0;
    while i < n
        invariant
            n == line@.len(),
            0 <= i <= n,
            r@ == with_sep + line@.subrange(0, i as int),
            with_sep == match_label() + decimal_rep(index as nat) + index_separator(),
        decreases n - i,
    {
        r.push(line[i]);
        proof {
            assert(r@ =~= with_sep + line@.subrange(0, i + 1));
        }
        i += 1;
    }
    proof {
        assert(line@.subrange(0, n as int) =~= line@);
        assert(r@ =~= format_spec(index as nat, line@));
    }
    r
}

} // verus!
