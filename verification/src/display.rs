//! A text diagram of the board, white at the bottom.
use vstd::prelude::*;

use crate::position::Position;
use crate::types::{Colour, Piece, PieceCode, Square};

verus! {

/// The figurine of a piece: the filled set for white, the outlined set for black.
pub open spec fn figurine(c: Colour, p: Piece) -> char {
    match (c, p) {
        (Colour::White, Piece::Pawn) => '\u{265F}',
        (Colour::White, Piece::Knight) => '\u{265E}',
        (Colour::White, Piece::Bishop) => '\u{265D}',
        (Colour::White, Piece::Rook) => '\u{265C}',
        (Colour::White, Piece::Queen) => '\u{265B}',
        (Colour::White, Piece::King) => '\u{265A}',
        (Colour::Black, Piece::Pawn) => '\u{2659}',
        (Colour::Black, Piece::Knight) => '\u{2658}',
        (Colour::Black, Piece::Bishop) => '\u{2657}',
        (Colour::Black, Piece::Rook) => '\u{2656}',
        (Colour::Black, Piece::Queen) => '\u{2655}',
        (Colour::Black, Piece::King) => '\u{2654}',
    }
}

/// What a square shows: `.` when empty, the piece's figurine otherwise.
pub open spec fn cell(pc: PieceCode) -> char {
    match (pc.colour_of(), pc.piece_of()) {
        (Some(c), Some(p)) => figurine(c, p),
        _ => '.',
    }
}

/// The first `n` squares of rank `r`, each followed by a space.
pub open spec fn cells(b: Seq<PieceCode>, r: int, n: int) -> Seq<char>
    decreases n,
{
    if n <= 0 {
        Seq::empty()
    } else {
        cells(b, r, n - 1) + seq![cell(b[r * 8 + n - 1]), ' ']
    }
}

/// The line of rank `r`: its number, a bar, its squares from the a-file, a bar.
pub open spec fn rank_line(b: Seq<PieceCode>, r: int) -> Seq<char> {
    seq![(49 + r) as char, ' ', '|', ' '] + cells(b, r, 8) + seq!['|', '\n']
}

/// The lines of the top `n` ranks, the eighth first.
pub open spec fn rank_lines(b: Seq<PieceCode>, n: int) -> Seq<char>
    decreases n,
{
    if n <= 0 {
        Seq::empty()
    } else {
        rank_lines(b, n - 1) + rank_line(b, 8 - n)
    }
}

/// The frame line above and below the board.
pub open spec fn frame() -> Seq<char> {
    seq![' ', ' ', '+', '-', '-', '-', '-', '-', '-', '-', '-', '-', '-', '-', '-', '-', '-', '-', '-', '-', '+', '\n']
}

/// The file letters under the board.
pub open spec fn files_line() -> Seq<char> {
    seq![' ', ' ', ' ', ' ', 'a', ' ', 'b', ' ', 'c', ' ', 'd', ' ', 'e', ' ', 'f', ' ', 'g', ' ', 'h', '\n']
}

/// The whole diagram: a blank line, the frame, the ranks from the eighth down, the frame and
/// the file letters.
pub open spec fn diagram(b: Seq<PieceCode>) -> Seq<char> {
    seq!['\n'] + frame() + rank_lines(b, 8) + frame() + files_line()
}

fn push_all(out: &mut Vec<char>, s: &[char])
    ensures
        final(out)@ == old(out)@ + s@,
{
    let mut i: usize = 0;
    while i < s.len()
        invariant
            i <= s@.len(),
            out@ == old(out)@ + s@.subrange(0, i as int),
        decreases s@.len() - i,
    {
        out.push(s[i]);
        i = i + 1;
        assert(out@ =~= old(out)@ + s@.subrange(0, i as int));
    }
    assert(s@.subrange(0, i as int) =~= s@);
}

fn figurine_of(c: Colour, p: Piece) -> (r: char)
    ensures
        r == figurine(c, p),
{
    match (c, p) {
        (Colour::White, Piece::Pawn) => '\u{265F}',
        (Colour::White, Piece::Knight) => '\u{265E}',
        (Colour::White, Piece::Bishop) => '\u{265D}',
        (Colour::White, Piece::Rook) => '\u{265C}',
        (Colour::White, Piece::Queen) => '\u{265B}',
        (Colour::White, Piece::King) => '\u{265A}',
        (Colour::Black, Piece::Pawn) => '\u{2659}',
        (Colour::Black, Piece::Knight) => '\u{2658}',
        (Colour::Black, Piece::Bishop) => '\u{2657}',
        (Colour::Black, Piece::Rook) => '\u{2656}',
        (Colour::Black, Piece::Queen) => '\u{2655}',
        (Colour::Black, Piece::King) => '\u{2654}',
    }
}

impl Position {
    /// The board as a text diagram, white at the bottom; see `diagram`.
    pub fn diagram(&self) -> (r: Vec<char>)
        ensures
            r@ == diagram(self.mailbox@),
    {
        let b = &self.mailbox;
        let top: [char; 22] = [' ', ' ', '+', '-', '-', '-', '-', '-', '-', '-', '-', '-', '-', '-', '-', '-', '-', '-', '-', '-', '+', '\n'];
        let letters: [char; 20] = [' ', ' ', ' ', ' ', 'a', ' ', 'b', ' ', 'c', ' ', 'd', ' ', 'e', ' ', 'f', ' ', 'g', ' ', 'h', '\n'];
        assert(top@ =~= frame());
        assert(letters@ =~= files_line());
        let mut out: Vec<char> = vec!['\n'];
        push_all(&mut out, &top);
        let ghost head = out@;
        let mut k: u8 = 0;
        while k < 8
            invariant
                k <= 8,
                head == seq!['\n'] + frame(),
                out@ == head + rank_lines(b@, k as int),
                b@.len() == 64,
            decreases 8 - k,
        {
            let r: u8 = 7 - k;
            let ghost before = out@;
            out.push((49 + r) as char);
            out.push(' ');
            out.push('|');
            out.push(' ');
            let ghost row_start = out@;
            let mut f: u8 = 0;
            while f < 8
                invariant
                    f <= 8,
                    r < 8,
                    b@.len() == 64,
                    out@ == row_start + cells(b@, r as int, f as int),
                decreases 8 - f,
            {
                let pc = b.piece_code_at(Square::from_coords(r, f));
                let shown = match (pc.colour(), pc.piece()) {
                    (Some(c), Some(p)) => figurine_of(c, p),
                    _ => '.',
                };
                out.push(shown);
                out.push(' ');
                f = f + 1;
                assert(out@ =~= row_start + cells(b@, r as int, f as int));
            }
            out.push('|');
            out.push('\n');
            k = k + 1;
            assert(out@ =~= head + rank_lines(b@, k as int));
        }
        push_all(&mut out, &top);
        push_all(&mut out, &letters);
        assert(out@ =~= diagram(b@));
        out
    }
}

} // verus!
