//! Writing tuned weights out as text.
use vstd::prelude::*;

use crate::evaluate::Score;

verus! {

/// The decimal digits of `n`, most significant first.
pub open spec fn digits_of(n: nat) -> Seq<u8>
    decreases n,
{
    if n < 10 {
        seq![(48 + n) as u8]
    } else {
        digits_of(n / 10).push((48 + n % 10) as u8)
    }
}

/// `x` in decimal, with a leading `-` when negative.
pub open spec fn decimal(x: int) -> Seq<u8> {
    if x < 0 {
        seq![45u8] + digits_of((-x) as nat)
    } else {
        digits_of(x as nat)
    }
}

/// The text of a score as the source of a table writes it: `s!(mg, eg)`.
pub open spec fn score_text(s: Score) -> Seq<u8> {
    seq![115u8, 33u8, 40u8] + decimal(s.mg as int) + seq![44u8, 32u8] + decimal(s.eg as int) + seq![41u8]
}

/// Every byte of `s` is ASCII.
pub open spec fn ascii(s: Seq<u8>) -> bool {
    forall|i: int| 0 <= i < s.len() ==> #[trigger] s[i] < 128
}

/// The characters of an ASCII text.
pub open spec fn chars_of(s: Seq<u8>) -> Seq<char> {
    s.map_values(|b: u8| b as char)
}

proof fn lemma_digits_ascii(n: nat)
    ensures
        ascii(digits_of(n)),
    decreases n,
{
    if n >= 10 {
        lemma_digits_ascii(n / 10);
    }
}

/// Appends the decimal digits of `n`.
fn push_digits(out: &mut Vec<u8>, n: u64)
    ensures
        final(out)@ == old(out)@ + digits_of(n as nat),
    decreases n,
{
    if n >= 10 {
        push_digits(out, n / 10);
    }
    let ghost before = out@;
    out.push(48 + (n % 10) as u8);
    proof {
        if n >= 10 {
            assert(digits_of(n as nat) == digits_of((n / 10) as nat).push((48 + n % 10) as u8));
        }
        assert(out@ =~= old(out)@ + digits_of(n as nat));
    }
}

/// Appends `x` in decimal; see `decimal`.
pub(crate) fn push_decimal(out: &mut Vec<u8>, x: i32)
    ensures
        final(out)@ == old(out)@ + decimal(x as int),
{
    let ghost before = out@;
    if x < 0 {
        out.push(45);
        let m = (0i64 - x as i64) as u64;
        push_digits(out, m);
        assert(out@ =~= before + decimal(x as int));
    } else {
        push_digits(out, x as u64);
    }
}

/// The characters of the ASCII bytes `bytes`, as a `String` (`std::string::String::from_utf8`).
#[verifier::external_body]
fn ascii_string(bytes: Vec<u8>) -> (r: String)
    requires
        ascii(bytes@),
    ensures
        r@ == chars_of(bytes@),
{
    match String::from_utf8(bytes) {
        Ok(s) => s,
        Err(_) => String::new(),
    }
}

/// The bytes of `score_text`.
pub fn score_bytes(s: Score) -> (r: Vec<u8>)
    ensures
        r@ == score_text(s),
{
    let mut out: Vec<u8> = vec![115u8, 33, 40];
    push_decimal(&mut out, s.mg);
    out.push(44);
    out.push(32);
    push_decimal(&mut out, s.eg);
    out.push(41);
    assert(out@ =~= score_text(s));
    out
}

/// A score as the source of a table writes it, `s!(mg, eg)`; see `score_text`.
pub fn fmt_score(s: Score) -> (r: String)
    ensures
        r@ == chars_of(score_text(s)),
{
    let bytes = score_bytes(s);
    proof {
        lemma_digits_ascii(if s.mg < 0 { (-s.mg) as nat } else { s.mg as nat });
        lemma_digits_ascii(if s.eg < 0 { (-s.eg) as nat } else { s.eg as nat });
        assert(ascii(bytes@));
    }
    ascii_string(bytes)
}

} // verus!
