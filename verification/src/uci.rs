//! The UCI protocol's text: words of a command, the `go` options and their numbers, and moves
//! in long algebraic notation.
use vstd::prelude::*;
use vstd::string::StringSliceAdditionalSpecFns;

use crate::bitboard::Bitboards;
use crate::fen::{
    all_digits, digits_value, field_spans, fields, lemma_digits_value_nonneg, lemma_fields, spans,
};
use crate::movegen::{gen_ok, generate_legal, legal_mode, legal_of, MoveList};
use crate::position::Position;
use crate::types::{uci_text, Colour, Move};

verus! {

/// The value `str::parse` gives `s` for a signed integer: an optional `+` or `-` followed by
/// at least one decimal digit.
pub open spec fn signed_value(s: Seq<u8>) -> Option<int> {
    if s.len() > 0 && s[0] == 45 {
        let d = s.drop_first();
        if d.len() > 0 && all_digits(d) {
            Some(-digits_value(d))
        } else {
            None
        }
    } else {
        let d = if s.len() > 0 && s[0] == 43 {
            s.drop_first()
        } else {
            s
        };
        if d.len() > 0 && all_digits(d) {
            Some(digits_value(d))
        } else {
            None
        }
    }
}

/// The index of the first word from `i` on equal to `key`, or the number of words.
pub open spec fn find_word(words: Seq<Seq<u8>>, key: Seq<u8>, i: int) -> int
    decreases words.len() - i,
{
    if i >= words.len() {
        words.len() as int
    } else if words[i] == key {
        i
    } else {
        find_word(words, key, i + 1)
    }
}

/// The word after the first `key` past the command name of a `go` command: `None` when the
/// command is not `go`, has no `key`, or ends at it.
pub open spec fn go_value(cmd: Seq<u8>, key: Seq<u8>) -> Option<Seq<u8>> {
    let w = fields(cmd);
    if w.len() == 0 || w[0] != seq![103u8, 111u8] {
        None
    } else {
        let i = find_word(w, key, 1);
        if i + 1 < w.len() {
            Some(w[i + 1])
        } else {
            None
        }
    }
}

/// A `go` option's number as `u64`: `None` when it is missing or not a number that fits.
pub open spec fn go_u64_spec(cmd: Seq<u8>, key: Seq<u8>) -> Option<u64> {
    match go_value(cmd, key) {
        Some(v) => match signed_value(v) {
            Some(n) => if v.len() > 0 && v[0] != 45 && 0 <= n <= u64::MAX {
                Some(n as u64)
            } else {
                None
            },
            None => None,
        },
        None => None,
    }
}

/// The word `depth`, `movetime`, and the clock words.
pub open spec fn word_depth() -> Seq<u8> {
    seq![100u8, 101u8, 112u8, 116u8, 104u8]
}

pub open spec fn word_movetime() -> Seq<u8> {
    seq![109u8, 111u8, 118u8, 101u8, 116u8, 105u8, 109u8, 101u8]
}

/// Whether the bytes `s[a..b]` are `key`.
fn span_is(s: &[u8], a: usize, b: usize, key: &[u8]) -> (r: bool)
    requires
        a <= b <= s@.len(),
    ensures
        r == (s@.subrange(a as int, b as int) == key@),
{
    if b - a != key.len() {
        return false;
    }
    let mut i: usize = 0;
    while i < key.len()
        invariant
            i <= key@.len(),
            b - a == key@.len(),
            a <= b <= s@.len(),
            forall|k: int| 0 <= k < i ==> s@[a + k] == key@[k],
        decreases key@.len() - i,
    {
        if s[a + i] != key[i] {
            assert(s@.subrange(a as int, b as int)[i as int] != key@[i as int]);
            return false;
        }
        i = i + 1;
    }
    assert(s@.subrange(a as int, b as int) =~= key@);
    true
}

/// The digits `s[a..b]` as a `u64`, or `None` when one is not a digit or the value does not
/// fit; `a < b`.
fn digits_u64(s: &[u8], a: usize, b: usize) -> (r: Option<u64>)
    requires
        a < b <= s@.len(),
    ensures
        r == (if all_digits(s@.subrange(a as int, b as int)) && digits_value(
            s@.subrange(a as int, b as int),
        ) <= u64::MAX {
            Some(digits_value(s@.subrange(a as int, b as int)) as u64)
        } else {
            None
        }),
{
    let mut acc: u64 = 0;
    let mut big = false;
    let mut i = a;
    while i < b
        invariant
            a <= i <= b <= s@.len(),
            all_digits(s@.subrange(a as int, i as int)),
            digits_value(s@.subrange(a as int, i as int)) >= 0,
            !big ==> acc == digits_value(s@.subrange(a as int, i as int)),
            big ==> digits_value(s@.subrange(a as int, i as int)) > u64::MAX,
        decreases b - i,
    {
        let c = s[i];
        let p = Ghost(s@.subrange(a as int, i as int));
        let q = Ghost(s@.subrange(a as int, i + 1));
        proof {
            assert(q@.drop_last() =~= p@);
            assert(q@.last() == c);
        }
        if c < 48 || c > 57 {
            assert(!all_digits(s@.subrange(a as int, b as int))) by {
                assert(s@.subrange(a as int, b as int)[i - a] == c);
            }
            return None;
        }
        let d = (c - 48) as u64;
        proof {
            assert(all_digits(q@)) by {
                assert forall|k: int| 0 <= k < q@.len() implies 48 <= #[trigger] q@[k] <= 57 by {
                    if k < q@.len() - 1 {
                        assert(q@[k] == p@[k]);
                    }
                }
            }
            assert(digits_value(q@) == digits_value(p@) * 10 + d);
        }
        if !big {
            if acc > (u64::MAX - d) / 10 {
                big = true;
            } else {
                acc = acc * 10 + d;
            }
        }
        i = i + 1;
    }
    if big {
        None
    } else {
        Some(acc)
    }
}

/// The word `s[a..b]` as a `u64` the way `str::parse` reads one.
fn word_u64(s: &[u8], a: usize, b: usize) -> (r: Option<u64>)
    requires
        a < b <= s@.len(),
    ensures
        r == (match signed_value(s@.subrange(a as int, b as int)) {
            Some(n) => if s@[a as int] != 45 && 0 <= n <= u64::MAX {
                Some(n as u64)
            } else {
                None
            },
            None => None,
        }),
{
    let ghost w = s@.subrange(a as int, b as int);
    assert(w[0] == s@[a as int]);
    if s[a] == 45 {
        return None;
    }
    let start = if s[a] == 43 {
        a + 1
    } else {
        a
    };
    assert(w.drop_first() =~= s@.subrange(a + 1, b as int));
    if start == b {
        return None;
    }
    let r = digits_u64(s, start, b);
    proof {
        let d = s@.subrange(start as int, b as int);
        if all_digits(d) {
            lemma_digits_value_nonneg(d);
        }
    }
    r
}

/// The word `s[a..b]` as an `i32` the way `str::parse` reads one.
fn word_i32(s: &[u8], a: usize, b: usize) -> (r: Option<i32>)
    requires
        a < b <= s@.len(),
    ensures
        r == (match signed_value(s@.subrange(a as int, b as int)) {
            Some(n) => if i32::MIN <= n <= i32::MAX {
                Some(n as i32)
            } else {
                None
            },
            None => None,
        }),
{
    let ghost w = s@.subrange(a as int, b as int);
    assert(w[0] == s@[a as int]);
    assert(w.drop_first() =~= s@.subrange(a + 1, b as int));
    let negative = s[a] == 45;
    let start = if s[a] == 45 || s[a] == 43 {
        a + 1
    } else {
        a
    };
    if start == b {
        return None;
    }
    proof {
        let d = s@.subrange(start as int, b as int);
        if all_digits(d) {
            lemma_digits_value_nonneg(d);
        }
    }
    match digits_u64(s, start, b) {
        None => {
            None
        },
        Some(m) => {
            if negative {
                if m <= 2147483648 {
                    Some((-(m as i64)) as i32)
                } else {
                    None
                }
            } else if m <= 2147483647 {
                Some(m as i32)
            } else {
                None
            }
        },
    }
}

/// Finds the word after the first `key` (past the command name) of a `go` command.
fn go_value_span(s: &[u8], key: &[u8]) -> (r: Option<(usize, usize)>)
    ensures
        r matches Some(p) ==> p.0 < p.1 <= s@.len() && go_value(s@, key@) == Some(
            s@.subrange(p.0 as int, p.1 as int),
        ),
        r is None ==> go_value(s@, key@) is None,
{
    let sp = field_spans(s);
    proof {
        lemma_fields(s@);
    }
    let ghost w = fields(s@);
    let go_word: [u8; 2] = [103, 111];
    if sp.len() == 0 || !span_is(s, sp[0].0, sp[0].1, &go_word) {
        proof {
            if sp@.len() > 0 {
                assert(w[0] == s@.subrange(sp@[0].0 as int, sp@[0].1 as int));
                assert(go_word@ =~= seq![103u8, 111u8]);
            }
        }
        return None;
    }
    proof {
        assert(go_word@ =~= seq![103u8, 111u8]);
        assert(w[0] == s@.subrange(sp@[0].0 as int, sp@[0].1 as int));
    }
    let mut i: usize = 1;
    while i < sp.len()
        invariant
            1 <= i <= sp@.len(),
            w == fields(s@),
            w.len() == sp@.len(),
            forall|k: int|
                0 <= k < w.len() ==> #[trigger] w[k] == s@.subrange(sp@[k].0 as int, sp@[k].1 as int),
            forall|k: int| 0 <= k < sp@.len() ==> (#[trigger] sp@[k]).0 < sp@[k].1 <= s@.len(),
            find_word(w, key@, 1) == find_word(w, key@, i as int),
            w[0] == seq![103u8, 111u8],
        decreases sp@.len() - i,
    {
        let hit = span_is(s, sp[i].0, sp[i].1, key);
        proof {
            assert(w[i as int] == s@.subrange(sp@[i as int].0 as int, sp@[i as int].1 as int));
        }
        if hit {
            proof {
                assert(find_word(w, key@, i as int) == i);
            }
            if i + 1 < sp.len() {
                proof {
                    assert(w[i + 1] == s@.subrange(sp@[i + 1].0 as int, sp@[i + 1].1 as int));
                }
                return Some(sp[i + 1]);
            }
            return None;
        }
        proof {
            assert(find_word(w, key@, i as int) == find_word(w, key@, i + 1));
        }
        i = i + 1;
    }
    None
}

/// The search depth of a `go` command: its `depth` option when that is a positive `i32`.
pub fn parse_go_depth(command: &str) -> (r: Option<i32>)
    ensures
        r == (match go_value(command.spec_bytes(), word_depth()) {
            Some(v) => match signed_value(v) {
                Some(n) => if 0 < n <= i32::MAX {
                    Some(n as i32)
                } else {
                    None
                },
                None => None,
            },
            None => None,
        }),
{
    let s = command.as_bytes();
    let key: [u8; 5] = [100, 101, 112, 116, 104];
    assert(key@ =~= word_depth());
    match go_value_span(s, &key) {
        None => None,
        Some(p) => match word_i32(s, p.0, p.1) {
            Some(d) => if d > 0 {
                Some(d)
            } else {
                None
            },
            None => None,
        },
    }
}

/// A `go` option `key`'s number as a `u64`; see `go_u64_spec`.
pub fn parse_go_u64(command: &str, key: &str) -> (r: Option<u64>)
    ensures
        r == go_u64_spec(command.spec_bytes(), key.spec_bytes()),
{
    let s = command.as_bytes();
    match go_value_span(s, key.as_bytes()) {
        None => None,
        Some(p) => word_u64(s, p.0, p.1),
    }
}

/// The time of a `go` command's `movetime` option, in milliseconds.
pub fn parse_go_movetime(command: &str) -> (r: Option<u64>)
    ensures
        r == go_u64_spec(command.spec_bytes(), word_movetime()),
{
    let s = command.as_bytes();
    let key: [u8; 8] = [109, 111, 118, 101, 116, 105, 109, 101];
    assert(key@ =~= word_movetime());
    match go_value_span(s, &key) {
        None => None,
        Some(p) => word_u64(s, p.0, p.1),
    }
}

/// The time to think from the clock: a twentieth of the time left plus half the increment
/// (adding at most up to `u64::MAX`), less a 10 ms margin, at least 5 ms.
pub open spec fn think_time(time_ms: u64, inc_ms: u64) -> u64 {
    let t = time_ms / 20 + inc_ms / 2;
    let think = if t > u64::MAX {
        u64::MAX as int
    } else {
        t
    };
    let less = if think >= 10 {
        think - 10
    } else {
        0
    };
    (if less > 5 {
        less
    } else {
        5
    }) as u64
}

/// The clock words of a side: its time and its increment.
pub open spec fn clock_words(c: Colour) -> (Seq<u8>, Seq<u8>) {
    if c == Colour::White {
        (seq![119u8, 116u8, 105u8, 109u8, 101u8], seq![119u8, 105u8, 110u8, 99u8])
    } else {
        (seq![98u8, 116u8, 105u8, 109u8, 101u8], seq![98u8, 105u8, 110u8, 99u8])
    }
}

/// The time to think from a `go` command's clock for the side to move (see `think_time`):
/// `None` without that side's time; a missing increment counts as zero.
pub fn parse_go_clock_time(command: &str, pos: &Position) -> (r: Option<u64>)
    ensures
        r == (match go_u64_spec(command.spec_bytes(), clock_words(pos.side_to_move).0) {
            Some(t) => Some(
                think_time(
                    t,
                    match go_u64_spec(command.spec_bytes(), clock_words(pos.side_to_move).1) {
                        Some(i) => i,
                        None => 0,
                    },
                ),
            ),
            None => None,
        }),
{
    let s = command.as_bytes();
    let wt: [u8; 5] = [119, 116, 105, 109, 101];
    let wi: [u8; 4] = [119, 105, 110, 99];
    let bt: [u8; 5] = [98, 116, 105, 109, 101];
    let bi: [u8; 4] = [98, 105, 110, 99];
    assert(wt@ =~= clock_words(Colour::White).0);
    assert(wi@ =~= clock_words(Colour::White).1);
    assert(bt@ =~= clock_words(Colour::Black).0);
    assert(bi@ =~= clock_words(Colour::Black).1);
    let (time_span, inc_span) = match pos.side_to_move {
        Colour::White => (go_value_span(s, &wt), go_value_span(s, &wi)),
        Colour::Black => (go_value_span(s, &bt), go_value_span(s, &bi)),
    };
    let time_ms = match time_span {
        None => {
            return None;
        },
        Some(p) => match word_u64(s, p.0, p.1) {
            None => {
                return None;
            },
            Some(t) => t,
        },
    };
    let inc_ms = match inc_span {
        None => 0,
        Some(p) => match word_u64(s, p.0, p.1) {
            None => 0,
            Some(i) => i,
        },
    };
    let think = (time_ms / 20).saturating_add(inc_ms / 2);
    let less = think.saturating_sub(10);
    Some(
        if less > 5 {
            less
        } else {
            5
        },
    )
}

/// Whether two byte strings are equal.
fn bytes_eq(a: &[u8], b: &[u8]) -> (r: bool)
    ensures
        r == (a@ == b@),
{
    if a.len() != b.len() {
        return false;
    }
    let mut i: usize = 0;
    while i < a.len()
        invariant
            i <= a@.len(),
            a@.len() == b@.len(),
            forall|k: int| 0 <= k < i ==> a@[k] == b@[k],
        decreases a@.len() - i,
    {
        if a[i] != b[i] {
            return false;
        }
        i = i + 1;
    }
    assert(a@ =~= b@);
    true
}

/// The legal move whose long algebraic notation is `text`, if there is one.
pub fn parse_uci_move(pos: &Position, bbs: &Bitboards, text: &str) -> (r: Option<Move>)
    requires
        bbs.wf(),
        gen_ok(*pos, legal_mode(*pos)),
    ensures
        r matches Some(m) ==> legal_of(*pos, legal_mode(*pos), m) && uci_text(m) == text.spec_bytes(),
        r is None ==> forall|m: Move|
            legal_of(*pos, legal_mode(*pos), m) ==> #[trigger] uci_text(m) != text.spec_bytes(),
{
    let mut moves = MoveList::new();
    generate_legal(pos, bbs, &mut moves);
    let t = text.as_bytes();
    let n = moves.len();
    let mut i: usize = 0;
    while i < n
        invariant
            i <= n,
            n == moves@.len(),
            t@ == text.spec_bytes(),
            forall|m: Move| #[trigger] moves@.contains(m) <==> legal_of(*pos, legal_mode(*pos), m),
            forall|k: int| 0 <= k < i ==> uci_text(#[trigger] moves@[k]) != t@,
        decreases n - i,
    {
        let mv = moves.get(i);
        let name = mv.uci_bytes();
        if bytes_eq(name.as_slice(), t) {
            proof {
                assert(moves@[i as int] == mv);
                assert(moves@.contains(mv));
            }
            return Some(mv);
        }
        i = i + 1;
    }
    proof {
        assert forall|m: Move| legal_of(*pos, legal_mode(*pos), m) implies #[trigger] uci_text(m)
            != text.spec_bytes() by {
            assert(moves@.contains(m));
            let k = choose|k: int| 0 <= k < moves@.len() && moves@[k] == m;
            assert(uci_text(moves@[k]) != t@);
        }
    }
    None
}

} // verus!
