//! Reading games in portable game notation: splitting a file into games, reading a game's
//! result tag, and cutting its movetext into move tokens with their comments.
use vstd::prelude::*;
use vstd::string::StringSliceAdditionalSpecFns;

verus! {

/// The result of a game.
#[derive(Copy, Clone, Debug, PartialEq, Eq, Structural)]
pub enum GameResult {
    BlackWin,
    Draw,
    WhiteWin,
}

/// The result a PGN result tag names: `0-1`, `1-0` or `1/2-1/2` (`*` and anything else name
/// none).
pub open spec fn result_of_tag(tag: Seq<u8>) -> Option<GameResult> {
    if tag == seq![48u8, 45u8, 49u8] {
        Some(GameResult::BlackWin)
    } else if tag == seq![49u8, 45u8, 48u8] {
        Some(GameResult::WhiteWin)
    } else if tag == seq![49u8, 47u8, 50u8, 45u8, 49u8, 47u8, 50u8] {
        Some(GameResult::Draw)
    } else {
        None
    }
}

/// The tag of a result, as PGN writes it.
pub open spec fn tag_of(r: GameResult) -> Seq<u8> {
    match r {
        GameResult::BlackWin => seq![48u8, 45u8, 49u8],
        GameResult::WhiteWin => seq![49u8, 45u8, 48u8],
        GameResult::Draw => seq![49u8, 47u8, 50u8, 45u8, 49u8, 47u8, 50u8],
    }
}

/// Whether two byte strings are equal.
fn same_bytes(a: &[u8], b: &[u8]) -> (r: bool)
    ensures
        r == (a@ == b@),
{
    if a.len() != b.len() {
        return false;
    }
    let mut i: usize = 0;
    while i < a.len()
        invariant
            i <= a@.len(),
            a@.len() == b@.len(),
            forall|k: int| 0 <= k < i ==> a@[k] == b@[k],
        decreases a@.len() - i,
    {
        if a[i] != b[i] {
            return false;
        }
        i = i + 1;
    }
    assert(a@ =~= b@);
    true
}

/// The result named by the bytes `t`; see `result_of_tag`.
pub fn result_of_bytes(t: &[u8]) -> (r: Option<GameResult>)
    ensures
        r == result_of_tag(t@),
{
    let black: [u8; 3] = [48, 45, 49];
    let white: [u8; 3] = [49, 45, 48];
    let draw: [u8; 7] = [49, 47, 50, 45, 49, 47, 50];
    assert(black@ =~= seq![48u8, 45u8, 49u8]);
    assert(white@ =~= seq![49u8, 45u8, 48u8]);
    assert(draw@ =~= seq![49u8, 47u8, 50u8, 45u8, 49u8, 47u8, 50u8]);
    if same_bytes(t, &black) {
        Some(GameResult::BlackWin)
    } else if same_bytes(t, &white) {
        Some(GameResult::WhiteWin)
    } else if same_bytes(t, &draw) {
        Some(GameResult::Draw)
    } else {
        None
    }
}

impl GameResult {
    /// The result a PGN result tag names; see `result_of_tag`.
    pub fn from_pgn_tag(tag: &str) -> (r: Option<GameResult>)
        ensures
            r == result_of_tag(tag.spec_bytes()),
    {
        result_of_bytes(tag.as_bytes())
    }

    /// The result's tag, as PGN writes it.
    pub fn tag(&self) -> (r: Vec<u8>)
        ensures
            r@ == tag_of(*self),
    {
        let r = match self {
            GameResult::BlackWin => vec![48u8, 45, 49],
            GameResult::WhiteWin => vec![49u8, 45, 48],
            GameResult::Draw => vec![49u8, 47, 50, 45, 49, 47, 50],
        };
        assert(r@ =~= tag_of(*self));
        r
    }
}

/// Reading back the tag of a result gives the result.
pub proof fn lemma_tag_round_trip(r: GameResult)
    ensures
        result_of_tag(tag_of(r)) == Some(r),
{
    let b = seq![48u8, 45u8, 49u8];
    let w = seq![49u8, 45u8, 48u8];
    let d = seq![49u8, 47u8, 50u8, 45u8, 49u8, 47u8, 50u8];
    assert(b[0] != w[0]);
    assert(b.len() != d.len());
    assert(w.len() != d.len());
}

/// Whether the position before the move at `ply` (counted from 1) is kept for tuning: after
/// the first twelve plies.
pub fn keep_position(ply: usize) -> (r: bool)
    ensures
        r == (ply > 12),
{
    ply > 12
}

/// A move token of the movetext: its text and the last comment that followed it.
pub struct PgnToken {
    pub san: Vec<u8>,
    pub comment: Option<Vec<u8>>,
}

/// A token as plain values.
pub open spec fn token_view(t: PgnToken) -> (Seq<u8>, Option<Seq<u8>>) {
    (
        t.san@,
        match t.comment {
            Some(c) => Some(c@),
            None => None,
        },
    )
}

pub open spec fn tokens_view(v: Seq<PgnToken>) -> Seq<(Seq<u8>, Option<Seq<u8>>)> {
    v.map_values(|t: PgnToken| token_view(t))
}

/// Whether `c` is ASCII whitespace (space, tab, line feed, form feed, carriage return).
pub open spec fn is_space(c: u8) -> bool {
    c == 32 || c == 9 || c == 10 || c == 12 || c == 13
}

/// `s` without its trailing `!` and `?` marks.
pub open spec fn drop_marks(s: Seq<u8>) -> Seq<u8>
    decreases s.len(),
{
    if s.len() > 0 && (s.last() == 33 || s.last() == 63) {
        drop_marks(s.drop_last())
    } else {
        s
    }
}

/// A move number such as `12.` or `12...`: it ends with a dot, or holds only digits and dots.
pub open spec fn is_move_number(t: Seq<u8>) -> bool {
    (t.len() > 0 && t.last() == 46) || forall|i: int| 0 <= i < t.len() ==> (48 <= #[trigger] t[i]
        <= 57 || t[i] == 46)
}

/// A game result token: `1-0`, `0-1`, `1/2-1/2` or `*`.
pub open spec fn is_result_token(t: Seq<u8>) -> bool {
    result_of_tag(t) is Some || t == seq![42u8]
}

/// The tokens after the pending text `buf` ends: it is added without its marks unless it is
/// empty, a move number, an annotation glyph (`$...`) or a result.
pub open spec fn push_tok(out: Seq<(Seq<u8>, Option<Seq<u8>>)>, buf: Seq<u8>) -> Seq<(Seq<u8>, Option<Seq<u8>>)> {
    let t = drop_marks(buf);
    if t.len() > 0 && !is_move_number(t) && t[0] != 36 && !is_result_token(t) {
        out.push((t, None))
    } else {
        out
    }
}

/// The tokens with the last one given the comment `c` (none when there is no token yet).
pub open spec fn attach(out: Seq<(Seq<u8>, Option<Seq<u8>>)>, c: Seq<u8>) -> Seq<(Seq<u8>, Option<Seq<u8>>)> {
    if out.len() > 0 {
        out.update(out.len() - 1, (out.last().0, Some(c)))
    } else {
        out
    }
}

/// The tokenizer's state: tokens so far, the pending text, the depth of the variation being
/// skipped, whether a `;` comment runs to the end of the line, and the text of an open `{}`
/// comment.
pub type TokState = (Seq<(Seq<u8>, Option<Seq<u8>>)>, Seq<u8>, nat, bool, Option<Seq<u8>>);

/// One byte of movetext read in state `st`.
pub open spec fn tok_step(st: TokState, c: u8) -> TokState {
    let (out, buf, depth, semi, comment) = st;
    if comment is Some {
        if c == 125 {
            (attach(out, comment->0), buf, depth, semi, None)
        } else {
            (out, buf, depth, semi, Some(comment->0.push(c)))
        }
    } else if semi {
        if c == 10 {
            (out, buf, depth, false, None)
        } else {
            st
        }
    } else if depth > 0 {
        if c == 40 {
            (out, buf, depth + 1, semi, None)
        } else if c == 41 {
            (out, buf, (depth - 1) as nat, semi, None)
        } else {
            st
        }
    } else if c == 123 {
        (push_tok(out, buf), Seq::empty(), depth, semi, Some(Seq::empty()))
    } else if c == 40 {
        (push_tok(out, buf), Seq::empty(), 1, semi, None)
    } else if c == 59 {
        (push_tok(out, buf), Seq::empty(), depth, true, None)
    } else if is_space(c) {
        (push_tok(out, buf), Seq::empty(), depth, semi, None)
    } else {
        (out, buf.push(c), depth, semi, None)
    }
}

/// The state after reading the first `n` bytes of `text`.
pub open spec fn tok_run(text: Seq<u8>, n: int) -> TokState
    decreases n,
{
    if n <= 0 {
        (Seq::empty(), Seq::empty(), 0, false, None)
    } else {
        tok_step(tok_run(text, n - 1), text[n - 1])
    }
}

/// The move tokens of a movetext, each with the last `{}` comment after it; `;` comments run
/// to the end of the line and `(...)` variations are skipped. `None` when a `{` comment is
/// never closed.
pub open spec fn tokens_of(text: Seq<u8>) -> Option<Seq<(Seq<u8>, Option<Seq<u8>>)>> {
    let st = tok_run(text, text.len() as int);
    if st.4 is Some {
        None
    } else {
        Some(push_tok(st.0, st.1))
    }
}

/// The tokenizer's state after reading `s` from the state `st`.
pub open spec fn tok_fold(st: TokState, s: Seq<u8>) -> TokState
    decreases s.len(),
{
    if s.len() == 0 {
        st
    } else {
        tok_step(tok_fold(st, s.drop_last()), s.last())
    }
}

/// The nesting of parentheses at the end of `s`: the opening ones less the closing ones.
pub open spec fn paren_balance(s: Seq<u8>) -> int
    decreases s.len(),
{
    if s.len() == 0 {
        0
    } else {
        paren_balance(s.drop_last()) + (if s.last() == 40 {
            1int
        } else if s.last() == 41 {
            -1int
        } else {
            0int
        })
    }
}

/// `s` is balanced: no prefix closes more parentheses than it opened, and the whole closes all
/// it opened.
pub open spec fn balanced(s: Seq<u8>) -> bool {
    &&& forall|k: int| 0 <= k <= s.len() ==> paren_balance(#[trigger] s.take(k)) >= 0
    &&& paren_balance(s) == 0
}

/// Reading `x` then `y` is reading `x + y`.
proof fn lemma_fold_concat(st: TokState, x: Seq<u8>, y: Seq<u8>)
    ensures
        tok_fold(st, x + y) == tok_fold(tok_fold(st, x), y),
    decreases y.len(),
{
    if y.len() == 0 {
        assert(x + y =~= x);
    } else {
        assert((x + y).drop_last() =~= x + y.drop_last());
        assert((x + y).last() == y.last());
        lemma_fold_concat(st, x, y.drop_last());
    }
}

/// The state after the first `n` bytes of `text` is the reading of those bytes from the start.
proof fn lemma_run_fold(text: Seq<u8>, n: int)
    requires
        0 <= n <= text.len(),
    ensures
        tok_run(text, n) == tok_fold((Seq::empty(), Seq::empty(), 0, false, None), text.take(n)),
    decreases n,
{
    if n > 0 {
        assert(text.take(n).drop_last() =~= text.take(n - 1));
        assert(text.take(n).last() == text[n - 1]);
        lemma_run_fold(text, n - 1);
    } else {
        assert(text.take(0) =~= Seq::<u8>::empty());
    }
}

/// Inside a variation, outside comments, text whose prefixes never close more parentheses than
/// they open only changes the depth, by its balance.
proof fn lemma_inside_variation(st: TokState, v: Seq<u8>)
    requires
        st.4 is None,
        !st.3,
        st.2 >= 1,
        forall|k: int| 0 <= k <= v.len() ==> paren_balance(#[trigger] v.take(k)) >= 0,
    ensures
        tok_fold(st, v) == (st.0, st.1, (st.2 + paren_balance(v)) as nat, false, None::<Seq<u8>>),
    decreases v.len(),
{
    if v.len() > 0 {
        let d = v.drop_last();
        assert forall|k: int| 0 <= k <= d.len() implies paren_balance(#[trigger] d.take(k)) >= 0 by {
            assert(d.take(k) =~= v.take(k));
        }
        lemma_inside_variation(st, d);
        assert(v.take(d.len() as int) =~= d);
        assert(v.take(v.len() as int) =~= v);
        assert(paren_balance(d) >= 0);
    }
}

/// A variation is skipped whole, nested ones included: reading `(`, a balanced text, then `)`
/// outside comments and variations does what reading a space does.
pub proof fn lemma_variation_skipped(st: TokState, v: Seq<u8>)
    requires
        st.4 is None,
        !st.3,
        st.2 == 0,
        balanced(v),
    ensures
        tok_fold(st, seq![40u8] + v + seq![41u8]) == tok_step(st, 32u8),
{
    lemma_fold_concat(st, seq![40u8] + v, seq![41u8]);
    lemma_fold_concat(st, seq![40u8], v);
    assert(seq![40u8].drop_last() =~= Seq::<u8>::empty());
    assert(tok_fold(st, Seq::<u8>::empty()) == st);
    assert(tok_fold(st, seq![40u8]) == tok_step(tok_fold(st, seq![40u8].drop_last()), 40u8));
    let s1 = tok_fold(st, seq![40u8]);
    assert(s1 == (push_tok(st.0, st.1), Seq::<u8>::empty(), 1nat, false, None::<Seq<u8>>));
    lemma_inside_variation(s1, v);
    assert(v.take(v.len() as int) =~= v);
    let s2 = tok_fold(s1, v);
    assert(s2 == (push_tok(st.0, st.1), Seq::<u8>::empty(), 1nat, false, None::<Seq<u8>>));
    assert(seq![41u8].drop_last() =~= Seq::<u8>::empty());
    assert(tok_fold(s2, Seq::<u8>::empty()) == s2);
    assert(tok_fold(s2, seq![41u8]) == tok_step(tok_fold(s2, seq![41u8].drop_last()), 41u8));
    assert(tok_step(st, 32u8) == (push_tok(st.0, st.1), Seq::<u8>::empty(), 0nat, false, None::<Seq<u8>>));
}

/// The tokens of a movetext do not see a variation: with the text `a` read outside comments
/// and variations, `a`, a parenthesised balanced text, then `b` has the tokens of `a`, a space,
/// then `b`.
pub proof fn lemma_variation_tokens(a: Seq<u8>, v: Seq<u8>, b: Seq<u8>)
    requires
        tok_run(a, a.len() as int).2 == 0,
        !tok_run(a, a.len() as int).3,
        tok_run(a, a.len() as int).4 is None,
        balanced(v),
    ensures
        tokens_of(a + (seq![40u8] + v + seq![41u8]) + b) == tokens_of(a + seq![32u8] + b),
{
    let init: TokState = (Seq::empty(), Seq::empty(), 0, false, None);
    let w = seq![40u8] + v + seq![41u8];
    let t1 = a + w + b;
    let t2 = a + seq![32u8] + b;
    lemma_run_fold(a, a.len() as int);
    assert(a.take(a.len() as int) =~= a);
    let sa = tok_fold(init, a);
    lemma_variation_skipped(sa, v);
    lemma_fold_concat(init, a, w);
    lemma_fold_concat(init, a + w, b);
    lemma_fold_concat(init, a, seq![32u8]);
    lemma_fold_concat(init, a + seq![32u8], b);
    assert(seq![32u8].drop_last() =~= Seq::<u8>::empty());
    assert(tok_fold(sa, Seq::<u8>::empty()) == sa);
    assert(tok_fold(sa, seq![32u8]) == tok_step(tok_fold(sa, seq![32u8].drop_last()), 32u8));
    assert(tok_fold(sa, w) == tok_fold(sa, seq![32u8]));
    assert(tok_fold(init, a + w) == tok_fold(init, a + seq![32u8]));
    lemma_run_fold(t1, t1.len() as int);
    assert(t1.take(t1.len() as int) =~= t1);
    lemma_run_fold(t2, t2.len() as int);
    assert(t2.take(t2.len() as int) =~= t2);
}

/// Inside a `{}` comment every byte but `}` is comment text.
proof fn lemma_in_comment(st: TokState, c: Seq<u8>)
    requires
        st.4 is Some,
        forall|i: int| 0 <= i < c.len() ==> c[i] != 125,
    ensures
        tok_fold(st, c) == (st.0, st.1, st.2, st.3, Some(st.4->0 + c)),
    decreases c.len(),
{
    if c.len() > 0 {
        lemma_in_comment(st, c.drop_last());
        assert(st.4->0 + c =~= (st.4->0 + c.drop_last()).push(c.last()));
    } else {
        assert(st.4->0 + c =~= st.4->0);
    }
}

/// A `{}` comment read outside comments and variations ends the pending token and goes, whole,
/// to the last token read (when there is one); the other tokens stay as they were.
pub proof fn lemma_comment_attached(st: TokState, c: Seq<u8>)
    requires
        st.4 is None,
        !st.3,
        st.2 == 0,
        forall|i: int| 0 <= i < c.len() ==> c[i] != 125,
    ensures
        ({
            let o = push_tok(st.0, st.1);
            let r = tok_fold(st, seq![123u8] + c + seq![125u8]);
            &&& r.1 == Seq::<u8>::empty()
            &&& r.2 == 0
            &&& !r.3
            &&& r.4 is None
            &&& r.0.len() == o.len()
            &&& forall|i: int| 0 <= i < o.len() - 1 ==> r.0[i] == o[i]
            &&& o.len() > 0 ==> r.0[o.len() - 1] == (o[o.len() - 1].0, Some(c))
        }),
{
    lemma_fold_concat(st, seq![123u8] + c, seq![125u8]);
    lemma_fold_concat(st, seq![123u8], c);
    assert(seq![123u8].drop_last() =~= Seq::<u8>::empty());
    assert(tok_fold(st, Seq::<u8>::empty()) == st);
    assert(tok_fold(st, seq![123u8]) == tok_step(tok_fold(st, seq![123u8].drop_last()), 123u8));
    let s1 = tok_fold(st, seq![123u8]);
    assert(s1 == (push_tok(st.0, st.1), Seq::<u8>::empty(), 0nat, false, Some(Seq::<u8>::empty())));
    lemma_in_comment(s1, c);
    assert(Seq::<u8>::empty() + c =~= c);
    let s2 = tok_fold(s1, c);
    assert(seq![125u8].drop_last() =~= Seq::<u8>::empty());
    assert(tok_fold(s2, Seq::<u8>::empty()) == s2);
    assert(tok_fold(s2, seq![125u8]) == tok_step(tok_fold(s2, seq![125u8].drop_last()), 125u8));
}

/// Why a game record could not be read.
#[derive(Copy, Clone, Debug, PartialEq, Eq, Structural)]
pub enum PgnError {
    /// A `{` comment is never closed.
    UnterminatedComment,
    /// The headers name no result, or one that is not `1-0`, `0-1` or `1/2-1/2`.
    MissingResult,
    /// The game has headers but no movetext.
    NoMovetext,
}

/// Whether the token `t` is a move number; see `is_move_number`.
fn move_number(t: &[u8]) -> (r: bool)
    ensures
        r == is_move_number(t@),
{
    let n = t.len();
    if n > 0 && t[n - 1] == 46 {
        return true;
    }
    let mut i: usize = 0;
    while i < n
        invariant
            n == t@.len(),
            i <= n,
            !(n > 0 && t@[n - 1] == 46),
            forall|k: int| 0 <= k < i ==> (48 <= #[trigger] t@[k] <= 57 || t@[k] == 46),
        decreases n - i,
    {
        if !(48 <= t[i] && t[i] <= 57) && t[i] != 46 {
            assert(!(48 <= t@[i as int] <= 57 || t@[i as int] == 46));
            return false;
        }
        i = i + 1;
    }
    true
}

/// Ends the pending text `buf`: adds it to `out` as `push_tok` says.
fn push_token(buf: &Vec<u8>, out: &mut Vec<PgnToken>)
    ensures
        tokens_view(final(out)@) == push_tok(tokens_view(old(out)@), buf@),
{
    let mut n = buf.len();
    assert(buf@.subrange(0, n as int) =~= buf@);
    while n > 0 && (buf[n - 1] == 33 || buf[n - 1] == 63)
        invariant
            n <= buf@.len(),
            drop_marks(buf@.subrange(0, n as int)) == drop_marks(buf@),
        decreases n,
    {
        assert(buf@.subrange(0, n as int).drop_last() =~= buf@.subrange(0, n - 1));
        n = n - 1;
    }
    let t = &buf.as_slice()[0..n];
    assert(t@ == drop_marks(buf@));
    if n == 0 || move_number(t) || t[0] == 36 {
        return;
    }
    let star: [u8; 1] = [42];
    assert(star@ =~= seq![42u8]);
    if result_of_bytes(t).is_some() || same_bytes(t, &star) {
        return;
    }
    let tok = PgnToken { san: vstd::slice::slice_to_vec(t), comment: None };
    let ghost before = out@;
    out.push(tok);
    assert(tokens_view(out@) =~= tokens_view(before).push(token_view(tok)));
}

/// The move tokens of a movetext, each with the last comment after it; see `tokens_of`.
pub fn tokenize_moves(movetext: &str) -> (r: Result<Vec<PgnToken>, PgnError>)
    ensures
        match tokens_of(movetext.spec_bytes()) {
            Some(v) => r is Ok && tokens_view(r->Ok_0@) == v,
            None => r == Err::<Vec<PgnToken>, PgnError>(PgnError::UnterminatedComment),
        },
{
    let text = movetext.as_bytes();
    let mut out: Vec<PgnToken> = Vec::new();
    let mut buf: Vec<u8> = Vec::new();
    let mut depth: usize = 0;
    let mut semi = false;
    let mut in_comment = false;
    let mut com: Vec<u8> = Vec::new();
    let mut i: usize = 0;
    assert(tokens_view(out@) =~= Seq::empty());
    while i < text.len()
        invariant
            i <= text@.len(),
            depth <= i,
            text@ == movetext.spec_bytes(),
            tok_run(text@, i as int) == (tokens_view(out@), buf@, depth as nat, semi, if in_comment {
                Some(com@)
            } else {
                None::<Seq<u8>>
            }),
        decreases text@.len() - i,
    {
        let c = text[i];
        if in_comment {
            if c == 125 {
                let n = out.len();
                if n > 0 {
                    let ghost before = out@;
                    let last = out.pop().unwrap();
                    let tok = PgnToken { san: last.san, comment: Some(com) };
                    out.push(tok);
                    assert(tokens_view(out@) =~= attach(tokens_view(before), com@));
                }
                com = Vec::new();
                in_comment = false;
            } else {
                com.push(c);
            }
        } else if semi {
            if c == 10 {
                semi = false;
            }
        } else if depth > 0 {
            if c == 40 {
                depth = depth + 1;
            } else if c == 41 {
                depth = depth - 1;
            }
        } else if c == 123 {
            push_token(&buf, &mut out);
            buf = Vec::new();
            in_comment = true;
            com = Vec::new();
        } else if c == 40 {
            push_token(&buf, &mut out);
            buf = Vec::new();
            depth = 1;
        } else if c == 59 {
            push_token(&buf, &mut out);
            buf = Vec::new();
            semi = true;
        } else if c == 32 || c == 9 || c == 10 || c == 12 || c == 13 {
            push_token(&buf, &mut out);
            buf = Vec::new();
        } else {
            buf.push(c);
        }
        proof {
            assert(buf@ =~= tok_run(text@, i + 1).1);
        }
        i = i + 1;
    }
    if in_comment {
        return Err(PgnError::UnterminatedComment);
    }
    push_token(&buf, &mut out);
    Ok(out)
}

/// The span `[a, b)` of `s` without its leading and trailing ASCII whitespace.
pub open spec fn trim_span(s: Seq<u8>, a: int, b: int) -> (int, int)
    decreases b - a,
{
    if a < b && is_space(s[a]) {
        trim_span(s, a + 1, b)
    } else if a < b && is_space(s[b - 1]) {
        trim_span(s, a, b - 1)
    } else {
        (a, b)
    }
}

/// The span `[a, b)` of `s` trimmed; see `trim_span`.
fn trim(s: &[u8], a: usize, b: usize) -> (r: (usize, usize))
    requires
        a <= b <= s@.len(),
    ensures
        (r.0 as int, r.1 as int) == trim_span(s@, a as int, b as int),
        a <= r.0 <= r.1 <= b,
{
    let mut x = a;
    let mut y = b;
    while x < y && (s[x] == 32 || s[x] == 9 || s[x] == 10 || s[x] == 12 || s[x] == 13)
        invariant
            a <= x <= y <= b <= s@.len(),
            trim_span(s@, x as int, y as int) == trim_span(s@, a as int, b as int),
            y == b,
        decreases y - x,
    {
        x = x + 1;
    }
    while x < y && (s[y - 1] == 32 || s[y - 1] == 9 || s[y - 1] == 10 || s[y - 1] == 12 || s[y - 1] == 13)
        invariant
            a <= x <= y <= b <= s@.len(),
            trim_span(s@, x as int, y as int) == trim_span(s@, a as int, b as int),
            x < y ==> !is_space(s@[x as int]),
        decreases y - x,
    {
        y = y - 1;
    }
    (x, y)
}

/// Whether `[Event ` starts at `i` in `s`.
pub open spec fn event_at(s: Seq<u8>, i: int) -> bool {
    0 <= i && i + 7 <= s.len() && s.subrange(i, i + 7) == seq![91u8, 69u8, 118u8, 101u8, 110u8, 116u8, 32u8]
}

/// The games of `s` from byte `i` on, the last `[Event ` before it having been at `prev`: each
/// game runs from one `[Event ` to the next (or the end), trimmed, empty ones left out; text
/// before the first `[Event ` belongs to no game.
pub open spec fn games_from(s: Seq<u8>, i: int, prev: Option<int>) -> Seq<(int, int)>
    decreases s.len() - i,
{
    if i >= s.len() {
        match prev {
            Some(p) => {
                let t = trim_span(s, p, s.len() as int);
                if t.0 < t.1 {
                    seq![t]
                } else {
                    Seq::empty()
                }
            },
            None => Seq::empty(),
        }
    } else if event_at(s, i) {
        let head = match prev {
            Some(p) => {
                let t = trim_span(s, p, i);
                if t.0 < t.1 {
                    seq![t]
                } else {
                    Seq::empty()
                }
            },
            None => Seq::empty(),
        };
        head + games_from(s, i + 1, Some(i))
    } else {
        games_from(s, i + 1, prev)
    }
}

/// Whether `[Event ` starts at `i`; see `event_at`.
fn event_starts(s: &[u8], i: usize) -> (r: bool)
    requires
        i <= s@.len(),
    ensures
        r == event_at(s@, i as int),
{
    if s.len() - i < 7 {
        return false;
    }
    let pat: [u8; 7] = [91, 69, 118, 101, 110, 116, 32];
    let mut k: usize = 0;
    while k < 7
        invariant
            k <= 7,
            i + 7 <= s.len(),
            pat@ == seq![91u8, 69u8, 118u8, 101u8, 110u8, 116u8, 32u8],
            forall|j: int| 0 <= j < k ==> s@[i + j] == pat@[j],
        decreases 7 - k,
    {
        if s[i + k] != pat[k] {
            assert(s@.subrange(i as int, i + 7)[k as int] != pat@[k as int]);
            return false;
        }
        k = k + 1;
    }
    assert(s@.subrange(i as int, i + 7) =~= pat@);
    true
}

/// The spans of the games of a PGN text, in order; see `games_from`.
pub fn split_games(text: &str) -> (r: Vec<(usize, usize)>)
    ensures
        r@.map_values(|g: (usize, usize)| (g.0 as int, g.1 as int)) == games_from(text.spec_bytes(), 0, None),
{
    let s = text.as_bytes();
    let mut out: Vec<(usize, usize)> = Vec::new();
    let mut prev: Option<usize> = None;
    let mut i: usize = 0;
    while i < s.len()
        invariant
            i <= s@.len(),
            s@ == text.spec_bytes(),
            prev matches Some(p) ==> p < i,
            out@.map_values(|g: (usize, usize)| (g.0 as int, g.1 as int)) + games_from(
                s@,
                i as int,
                match prev {
                    Some(p) => Some(p as int),
                    None => None,
                },
            ) == games_from(s@, 0, None),
        decreases s@.len() - i,
    {
        if event_starts(s, i) {
            let ghost before = out@;
            if let Some(p) = prev {
                let t = trim(s, p, i);
                if t.0 < t.1 {
                    out.push(t);
                }
            }
            proof {
                let f = |g: (usize, usize)| (g.0 as int, g.1 as int);
                assert(out@.map_values(f) =~= before.map_values(f) + (match prev {
                    Some(p) => {
                        let t = trim_span(s@, p as int, i as int);
                        if t.0 < t.1 {
                            seq![t]
                        } else {
                            Seq::empty()
                        }
                    },
                    None => Seq::empty(),
                }));
            }
            prev = Some(i);
        }
        i = i + 1;
    }
    let ghost before = out@;
    if let Some(p) = prev {
        let t = trim(s, p, s.len());
        if t.0 < t.1 {
            out.push(t);
        }
    }
    proof {
        let f = |g: (usize, usize)| (g.0 as int, g.1 as int);
        assert(out@.map_values(f) =~= before.map_values(f) + games_from(
            s@,
            i as int,
            match prev {
                Some(p) => Some(p as int),
                None => None,
            },
        ));
    }
    out
}

/// The index of the first line feed at or after `i` in `s`, or its length.
pub open spec fn line_end(s: Seq<u8>, i: int) -> int
    decreases s.len() - i,
{
    if i >= s.len() || s[i] == 10 {
        i
    } else {
        line_end(s, i + 1)
    }
}

/// The tag of a header line `[Result "..."]`, if `t` is one.
pub open spec fn result_tag(t: Seq<u8>) -> Option<Seq<u8>> {
    if t.len() >= 11 && t.subrange(0, 9) == seq![91u8, 82u8, 101u8, 115u8, 117u8, 108u8, 116u8, 32u8, 34u8]
        && t.subrange(t.len() - 2, t.len() as int) == seq![34u8, 93u8] {
        Some(t.subrange(9, t.len() - 2))
    } else {
        None
    }
}

/// Reading the lines of the game `g` from byte `start` on, `offset` counting the bytes of the
/// lines read so far (each line without its line ending, plus one) and `result` the result
/// named so far: header lines (starting with `[`) may name the result, blank lines are
/// skipped, and the first other line starts the movetext, which runs from `offset` to the end
/// of the game, trimmed.
pub open spec fn headers_from(g: Seq<u8>, start: int, offset: int, result: Option<GameResult>) -> Result<(GameResult, (int, int)), PgnError>
    decreases g.len() - start,
{
    if start >= g.len() || start < 0 {
        Err(PgnError::NoMovetext)
    } else {
        proof {
            lemma_line_end(g, start);
        }
        let e = line_end(g, start);
        let le = if e < g.len() && e > start && g[e - 1] == 13 {
            e - 1
        } else {
            e
        };
        let t = trim_span(g, start, le);
        let line = g.subrange(t.0, t.1);
        let next = offset + (le - start) + 1;
        if line.len() > 0 && line[0] == 91 {
            let r2 = match result_tag(line) {
                Some(tag) => result_of_tag(tag),
                None => result,
            };
            if e >= g.len() {
                Err(PgnError::NoMovetext)
            } else {
                headers_from(g, e + 1, next, r2)
            }
        } else if line.len() == 0 {
            if e >= g.len() {
                Err(PgnError::NoMovetext)
            } else {
                headers_from(g, e + 1, next, result)
            }
        } else {
            match result {
                None => Err(PgnError::MissingResult),
                Some(r) => Ok((r, trim_span(g, offset, g.len() as int))),
            }
        }
    }
}

pub proof fn lemma_line_end(s: Seq<u8>, i: int)
    requires
        0 <= i <= s.len(),
    ensures
        i <= line_end(s, i) <= s.len(),
        line_end(s, i) < s.len() ==> s[line_end(s, i)] == 10,
    decreases s.len() - i,
{
    if i < s.len() && s[i] != 10 {
        lemma_line_end(s, i + 1);
    }
}

proof fn lemma_trim_span(s: Seq<u8>, a: int, b: int)
    requires
        0 <= a <= b <= s.len(),
    ensures
        a <= trim_span(s, a, b).0 <= trim_span(s, a, b).1 <= b,
    decreases b - a,
{
    if a < b && is_space(s[a]) {
        lemma_trim_span(s, a + 1, b);
    } else if a < b && is_space(s[b - 1]) {
        lemma_trim_span(s, a, b - 1);
    }
}

/// The result of a game and the span of its movetext; see `headers_from`.
pub fn parse_headers_and_moves(game: &[u8]) -> (r: Result<(GameResult, (usize, usize)), PgnError>)
    ensures
        match headers_from(game@, 0, 0, None) {
            Ok(v) => r matches Ok(x) && x.0 == v.0 && x.1.0 == v.1.0 && x.1.1 == v.1.1,
            Err(e) => r == Err::<(GameResult, (usize, usize)), PgnError>(e),
        },
{
    let n = game.len();
    let mut start: usize = 0;
    let mut offset: usize = 0;
    let mut result: Option<GameResult> = None;
    while start < n
        invariant
            n == game@.len(),
            start <= n,
            offset <= start,
            headers_from(game@, start as int, offset as int, result) == headers_from(game@, 0, 0, None),
        decreases n - start,
    {
        let mut e = start;
        while e < n && game[e] != 10
            invariant
                start <= e <= n,
                n == game@.len(),
                line_end(game@, e as int) == line_end(game@, start as int),
            decreases n - e,
        {
            e = e + 1;
        }
        let le = if e < n && e > start && game[e - 1] == 13 {
            e - 1
        } else {
            e
        };
        let (a, b) = trim(game, start, le);
        let ghost line = game@.subrange(a as int, b as int);
        if b > a && game[a] == 91 {
            let pre: [u8; 9] = [91, 82, 101, 115, 117, 108, 116, 32, 34];
            let post: [u8; 2] = [34, 93];
            assert(pre@ =~= seq![91u8, 82u8, 101u8, 115u8, 117u8, 108u8, 116u8, 32u8, 34u8]);
            assert(post@ =~= seq![34u8, 93u8]);
            if b - a >= 11 && same_bytes(&game[a..a + 9], &pre) && same_bytes(&game[b - 2..b], &post) {
                proof {
                    assert(line.subrange(0, 9) =~= game@.subrange(a as int, a + 9));
                    assert(line.subrange(line.len() - 2, line.len() as int) =~= game@.subrange(b - 2, b as int));
                    assert(line.subrange(9, line.len() - 2) =~= game@.subrange(a + 9, b - 2));
                }
                result = result_of_bytes(&game[a + 9..b - 2]);
            } else {
                proof {
                    if b - a >= 11 {
                        assert(line.subrange(0, 9) =~= game@.subrange(a as int, a + 9));
                        assert(line.subrange(line.len() - 2, line.len() as int) =~= game@.subrange(b - 2, b as int));
                    }
                }
            }
        } else if b == a {
        } else {
            return match result {
                None => Err(PgnError::MissingResult),
                Some(r) => Ok((r, trim(game, offset, n))),
            };
        }
        if e >= n {
            return Err(PgnError::NoMovetext);
        }
        offset = offset + (le - start) + 1;
        start = e + 1;
    }
    Err(PgnError::NoMovetext)
}

} // verus!
