//! The line formats of sample files. A sample line is a FEN, a space, and the game's result in
//! double quotes followed by a semicolon, as in `<fen> "1/2-1/2";`. An EPD line is the four
//! first FEN fields, a space, and operations whose first double-quoted text is the result.
use vstd::prelude::*;

use crate::tuning::pgn::{result_of_bytes, result_of_tag, GameResult};

verus! {

/// Why a line of a sample file cannot be read.
#[derive(Copy, Clone, Debug, PartialEq, Eq, Structural)]
pub enum SampleError {
    /// No space followed by a double quote.
    NoResult,
    /// The result does not end with a double quote and a semicolon.
    BadSuffix,
    /// The quoted text names no result.
    BadResult,
    /// Fewer than four spaces: an EPD field or the operations are missing.
    MissingField,
}

/// `s[k]` is a space and `s[k + 1]` a double quote: a place where the result may start.
pub open spec fn result_mark(s: Seq<u8>, k: int) -> bool {
    0 <= k && k + 1 < s.len() && s[k] == 32u8 && s[k + 1] == 34u8
}

/// The last result mark of `s` at or before `k`, or -1 when there is none.
pub open spec fn last_mark(s: Seq<u8>, k: int) -> int
    decreases k + 1,
{
    if k < 0 {
        -1
    } else if result_mark(s, k) {
        k
    } else {
        last_mark(s, k - 1)
    }
}

/// A sample line read: the length of its FEN (the text before the last result mark) and the
/// result, or why it cannot be read.
pub open spec fn sample_line(s: Seq<u8>) -> Result<(int, GameResult), SampleError> {
    let k = last_mark(s, s.len() - 2);
    if k < 0 {
        Err(SampleError::NoResult)
    } else {
        let tail = s.subrange(k + 2, s.len() as int);
        if tail.len() < 2 || tail[tail.len() - 2] != 34u8 || tail[tail.len() - 1] != 59u8 {
            Err(SampleError::BadSuffix)
        } else {
            match result_of_tag(tail.subrange(0, tail.len() - 2)) {
                Some(g) => Ok((k, g)),
                None => Err(SampleError::BadResult),
            }
        }
    }
}

proof fn lemma_last_mark_range(s: Seq<u8>, k: int)
    ensures
        last_mark(s, k) == -1 || (0 <= last_mark(s, k) <= k && result_mark(s, last_mark(s, k))),
    decreases k + 1,
{
    if k >= 0 && !result_mark(s, k) {
        lemma_last_mark_range(s, k - 1);
    }
}

/// Reads a line of a sample file (see `sample_line`): the FEN is `line[..r.0]`.
pub fn parse_sample_line(line: &[u8]) -> (r: Result<(usize, GameResult), SampleError>)
    ensures
        r == (match sample_line(line@) {
            Ok((k, g)) => Ok::<(usize, GameResult), SampleError>((k as usize, g)),
            Err(e) => Err(e),
        }),
{
    let n = line.len();
    proof {
        lemma_last_mark_range(line@, n - 2);
    }
    if n < 2 {
        return Err(SampleError::NoResult);
    }
    let mut k: usize = n - 1;
    let mut found = false;
    while k > 0 && !found
        invariant
            n == line@.len(),
            n >= 2,
            k <= n - 1,
            found ==> k < n - 1 && result_mark(line@, k as int) && last_mark(line@, n - 2) == k,
            !found ==> last_mark(line@, n - 2) == last_mark(line@, k - 1),
        decreases k, (if found { 0int } else { 1int }),
    {
        if line[k - 1] == 32u8 && line[k] == 34u8 {
            k = k - 1;
            found = true;
        } else {
            k = k - 1;
        }
    }
    if !found {
        assert(last_mark(line@, -1) == -1);
        return Err(SampleError::NoResult);
    }
    let start = k + 2;
    if n - start < 2 || line[n - 2] != 34u8 || line[n - 1] != 59u8 {
        return Err(SampleError::BadSuffix);
    }
    let tag = &line[start..n - 2];
    proof {
        assert(tag@ =~= line@.subrange(start as int, n as int).subrange(0, (n - start - 2) as int));
    }
    match result_of_bytes(tag) {
        Some(g) => Ok((k, g)),
        None => Err(SampleError::BadResult),
    }
}

/// The first index at or after `i` where `s` holds `c`, or the length of `s`.
pub open spec fn next_byte(s: Seq<u8>, c: u8, i: int) -> int
    decreases s.len() - i,
{
    if i >= s.len() {
        s.len() as int
    } else if i >= 0 && s[i] == c {
        i
    } else {
        next_byte(s, c, if i < 0 { 0 } else { i + 1 })
    }
}

proof fn lemma_next_byte(s: Seq<u8>, c: u8, i: int)
    requires
        0 <= i,
    ensures
        i <= next_byte(s, c, i) || next_byte(s, c, i) == s.len(),
        next_byte(s, c, i) <= s.len(),
        next_byte(s, c, i) < s.len() ==> s[next_byte(s, c, i)] == c && i <= next_byte(s, c, i),
    decreases s.len() - i,
{
    if i < s.len() && s[i] != c {
        lemma_next_byte(s, c, i + 1);
    }
}

/// An EPD line read: the FEN it stands for (its four fields, then a halfmove clock of 0 and
/// move number 1) and the result, or why it cannot be read.
pub open spec fn epd_line(s: Seq<u8>) -> Result<(Seq<u8>, GameResult), SampleError> {
    let s1 = next_byte(s, 32u8, 0);
    let s2 = next_byte(s, 32u8, s1 + 1);
    let s3 = next_byte(s, 32u8, s2 + 1);
    let s4 = next_byte(s, 32u8, s3 + 1);
    if s4 >= s.len() {
        Err(SampleError::MissingField)
    } else {
        let q1 = next_byte(s, 34u8, s4 + 1);
        let q2 = next_byte(s, 34u8, q1 + 1);
        if q2 >= s.len() {
            Err(SampleError::NoResult)
        } else {
            match result_of_tag(s.subrange(q1 + 1, q2)) {
                Some(g) => Ok((s.subrange(0, s4) + seq![32u8, 48u8, 32u8, 49u8], g)),
                None => Err(SampleError::BadResult),
            }
        }
    }
}

/// The first index at or after `i` where `s` holds `c`, or the length of `s`.
fn find_from(s: &[u8], c: u8, i: usize) -> (r: usize)
    ensures
        r == next_byte(s@, c, i as int),
{
    let mut j = i;
    while j < s.len()
        invariant
            i <= j,
            next_byte(s@, c, i as int) == next_byte(s@, c, j as int),
        decreases s@.len() - j,
    {
        if s[j] == c {
            return j;
        }
        j = j + 1;
    }
    s.len()
}

/// Reads a line of an EPD sample file (see `epd_line`), already trimmed of surrounding
/// whitespace.
pub fn parse_epd_line(line: &[u8]) -> (r: Result<(Vec<u8>, GameResult), SampleError>)
    ensures
        match (r, epd_line(line@)) {
            (Ok((f, g)), Ok((f2, g2))) => f@ == f2 && g == g2,
            (Err(e), Err(e2)) => e == e2,
            _ => false,
        },
{
    let n = line.len();
    let s1 = find_from(line, 32u8, 0);
    if s1 >= n {
        return Err(SampleError::MissingField);
    }
    let s2 = find_from(line, 32u8, s1 + 1);
    if s2 >= n {
        return Err(SampleError::MissingField);
    }
    let s3 = find_from(line, 32u8, s2 + 1);
    if s3 >= n {
        return Err(SampleError::MissingField);
    }
    let s4 = find_from(line, 32u8, s3 + 1);
    if s4 >= n {
        return Err(SampleError::MissingField);
    }
    proof {
        lemma_next_byte(line@, 32u8, 0);
        lemma_next_byte(line@, 32u8, s1 + 1);
        lemma_next_byte(line@, 32u8, s2 + 1);
        lemma_next_byte(line@, 32u8, s3 + 1);
        lemma_next_byte(line@, 34u8, s4 + 1);
    }
    let q1 = find_from(line, 34u8, s4 + 1);
    if q1 >= n {
        proof {
            assert(next_byte(line@, 34u8, q1 + 1) == n);
        }
        return Err(SampleError::NoResult);
    }
    proof {
        lemma_next_byte(line@, 34u8, q1 + 1);
    }
    let q2 = find_from(line, 34u8, q1 + 1);
    if q2 >= n {
        return Err(SampleError::NoResult);
    }
    match result_of_bytes(&line[q1 + 1..q2]) {
        Some(g) => {
            let mut fen: Vec<u8> = Vec::new();
            let mut i: usize = 0;
            while i < s4
                invariant
                    i <= s4,
                    s4 < n,
                    n == line@.len(),
                    fen@ == line@.subrange(0, i as int),
                decreases s4 - i,
            {
                fen.push(line[i]);
                i = i + 1;
                assert(fen@ =~= line@.subrange(0, i as int));
            }
            fen.push(32u8);
            fen.push(48u8);
            fen.push(32u8);
            fen.push(49u8);
            assert(fen@ =~= line@.subrange(0, s4 as int) + seq![32u8, 48u8, 32u8, 49u8]);
            Ok((fen, g))
        },
        None => Err(SampleError::BadResult),
    }
}

} // verus!
