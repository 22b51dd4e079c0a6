//! Chess moves in the notation of the Universal Chess Interface.

use vstd::prelude::*;

verus! {

/// A move as the engine writes it. A square is its number, counted from a1 by
/// files and then by ranks; a piece is its English letter in lower case.
#[derive(Clone, Copy, PartialEq, Eq, Debug)]
pub enum UciMove {
    /// A move from one square to another, e.g. `e2e4` or `h2h1q`.
    Normal { from: u8, to: u8, promotion: Option<char> },
    /// A piece that is put on the board, e.g. `Q@f7`.
    Put { role: char, to: u8 },
    /// The null move, `0000`.
    Null,
}

/// Whether `c` is the lower-case letter of a piece.
pub open spec fn is_role(c: char) -> bool {
    c == 'p' || c == 'n' || c == 'b' || c == 'r' || c == 'q' || c == 'k'
}

/// The upper-case letter of a piece.
pub open spec fn upper(role: char) -> char {
    (role as u32 - 'a' as u32 + 'A' as u32) as char
}

/// The piece that a letter stands for, in either case.
pub open spec fn role_of(c: char) -> Option<char> {
    if is_role(c) {
        Some(c)
    } else if 'A' <= c <= 'Z' && is_role((c as u32 - 'A' as u32 + 'a' as u32) as char) {
        Some((c as u32 - 'A' as u32 + 'a' as u32) as char)
    } else {
        None
    }
}

/// The name of a square: the letter of its file and the number of its rank.
pub open spec fn square_name(square: u8) -> Seq<char> {
    seq![('a' as u32 + square as u32 % 8) as char, ('1' as u32 + square as u32 / 8) as char]
}

/// The square that the two characters name.
pub open spec fn square_of(file: char, rank: char) -> Option<u8> {
    if 'a' <= file <= 'h' && '1' <= rank <= '8' {
        Some((8 * (rank as u32 - '1' as u32) + (file as u32 - 'a' as u32)) as u8)
    } else {
        None
    }
}

impl View for UciMove {
    type V = UciMove;

    open spec fn view(&self) -> UciMove {
        *self
    }
}

impl UciMove {
    /// Squares are on the board and pieces are pieces.
    pub open spec fn wf(self) -> bool {
        match self {
            UciMove::Normal { from, to, promotion } => from < 64 && to < 64 && (
            promotion matches Some(role) ==> is_role(role)),
            UciMove::Put { role, to } => is_role(role) && to < 64,
            UciMove::Null => true,
        }
    }

    /// Tells whether squares are on the board and pieces are pieces.
    pub fn is_valid(&self) -> (valid: bool)
        ensures
            valid == self.wf(),
    {
        match *self {
            UciMove::Normal { from, to, promotion } => from < 64 && to < 64 && match promotion {
                Some(role) => is_role_letter(role),
                None => true,
            },
            UciMove::Put { role, to } => is_role_letter(role) && to < 64,
            UciMove::Null => true,
        }
    }

    /// How the move is written.
    pub open spec fn notation(self) -> Seq<char> {
        match self {
            UciMove::Normal { from, to, promotion } => {
                let plain = square_name(from) + square_name(to);
                match promotion {
                    Some(role) => plain.push(role),
                    None => plain,
                }
            },
            UciMove::Put { role, to } => seq![upper(role), '@'] + square_name(to),
            UciMove::Null => seq!['0', '0', '0', '0'],
        }
    }
}

/// The move that `text` stands for: two squares, two squares and a piece, a
/// piece and a square with `@` between them, or four zeros.
pub open spec fn move_of(text: Seq<char>) -> Option<UciMove> {
    if text == seq!['0', '0', '0', '0'] {
        Some(UciMove::Null)
    } else if text.len() == 4 && text[1] == '@' {
        match (role_of(text[0]), square_of(text[2], text[3])) {
            (Some(role), Some(to)) => Some(UciMove::Put { role, to }),
            _ => None,
        }
    } else if text.len() == 4 || text.len() == 5 {
        match (square_of(text[0], text[1]), square_of(text[2], text[3])) {
            (Some(from), Some(to)) => if text.len() == 4 {
                Some(UciMove::Normal { from, to, promotion: None })
            } else if role_of(text[4]) is Some {
                Some(UciMove::Normal { from, to, promotion: role_of(text[4]) })
            } else {
                None
            },
            _ => None,
        }
    } else {
        None
    }
}

/// The moves that `words` stand for: nothing if one of the words is not a move.
pub open spec fn moves_of(words: Seq<Seq<char>>) -> Option<Seq<UciMove>>
    decreases words.len(),
{
    if words.len() == 0 {
        Some(Seq::empty())
    } else {
        match (moves_of(words.drop_last()), move_of(words.last())) {
            (Some(before), Some(last)) => Some(before.push(last)),
            _ => None,
        }
    }
}

/// Tells whether `c` is the lower-case letter of a piece.
fn is_role_letter(c: char) -> (yes: bool)
    ensures
        yes == is_role(c),
{
    c == 'p' || c == 'n' || c == 'b' || c == 'r' || c == 'q' || c == 'k'
}

/// Reads a move with `shakmaty::uci::UciMove`'s `FromStr`, which goes by the
/// bytes of the text: it takes two square names, the same with the letter of a
/// piece behind them, the letter of a piece, `@` and a square name, or four
/// zeros, and nothing else. Letters of pieces count in either case.
#[verifier::external_body]
pub(crate) fn read_move(text: &str) -> (m: Option<UciMove>)
    ensures
        m == move_of(text@),
{
    match text.parse::<shakmaty::uci::UciMove>() {
        Ok(shakmaty::uci::UciMove::Normal { from, to, promotion }) => Some(UciMove::Normal {
            from: from.into(),
            to: to.into(),
            promotion: promotion.map(|role| role.char()),
        }),
        Ok(shakmaty::uci::UciMove::Put { role, to }) => Some(UciMove::Put {
            role: role.char(),
            to: to.into(),
        }),
        Ok(shakmaty::uci::UciMove::Null) => Some(UciMove::Null),
        Err(_) => None,
    }
}

/// Writes a move with `shakmaty::uci::UciMove`'s `Display`: the names of the
/// two squares and the lower-case letter of the promotion, if any; the
/// upper-case letter of a piece, `@` and a square name; or four zeros.
#[verifier::external_body]
pub(crate) fn write_move(m: UciMove) -> (text: String)
    requires
        m.wf(),
    ensures
        text@ == m.notation(),
{
    match m {
        UciMove::Normal { from, to, promotion } => shakmaty::uci::UciMove::Normal {
            from: shakmaty::Square::new(from.into()),
            to: shakmaty::Square::new(to.into()),
            promotion: promotion.and_then(shakmaty::Role::from_char),
        }.to_string(),
        UciMove::Put { role, to } => shakmaty::uci::UciMove::Put {
            role: shakmaty::Role::from_char(role).expect("the letter of a piece"),
            to: shakmaty::Square::new(to.into()),
        }.to_string(),
        UciMove::Null => shakmaty::uci::UciMove::Null.to_string(),
    }
}

/// Reads `text` as a move.
pub fn parse_move(text: &str) -> (m: Option<UciMove>)
    ensures
        m == move_of(text@),
        m matches Some(m) ==> m.wf(),
{
    let m = read_move(text);
    proof {
        law_moves_that_are_read_are_valid(text@);
    }
    m
}

/// The notations of `moves`.
pub fn move_texts(moves: &Vec<UciMove>) -> (list: Vec<String>)
    requires
        forall|i: int| 0 <= i < moves.len() ==> (#[trigger] moves[i]).wf(),
    ensures
        crate::text::texts(list@) == moves@.map_values(|m: UciMove| m.notation()),
{
    let mut list: Vec<String> = Vec::new();
    let mut i: usize = 0;
    while i < moves.len()
        invariant
            i <= moves.len(),
            list.len() == i,
            forall|j: int| 0 <= j < moves.len() ==> (#[trigger] moves[j]).wf(),
            forall|j: int| 0 <= j < i ==> (#[trigger] list[j])@ == moves[j].notation(),
        decreases moves.len() - i,
    {
        list.push(write_move(moves[i]));
        i = i + 1;
    }
    assert(crate::text::texts(list@) == moves@.map_values(|m: UciMove| m.notation()));
    list
}

/// A move that has been read is a valid move.
pub proof fn law_moves_that_are_read_are_valid(text: Seq<char>)
    ensures
        move_of(text) matches Some(m) ==> m.wf(),
{
}

/// A valid move that is written out is read back as the same move.
pub proof fn law_written_move_is_read_back(m: UciMove)
    requires
        m.wf(),
    ensures
        move_of(m.notation()) == Some(m),
{
    let text = m.notation();
    match m {
        UciMove::Normal { from, to, promotion } => {
            lemma_square_is_read_back(from);
            lemma_square_is_read_back(to);
            assert(text[0] == square_name(from)[0]);
            assert(text[0] != '0');
        },
        UciMove::Put { role, to } => {
            lemma_square_is_read_back(to);
            assert(text[1] == '@');
        },
        UciMove::Null => {},
    }
}

/// The name of a square is read back as the square, and holds no `@`.
proof fn lemma_square_is_read_back(square: u8)
    requires
        square < 64,
    ensures
        square_of(square_name(square)[0], square_name(square)[1]) == Some(square),
        square_name(square)[0] != '0',
        square_name(square)[1] != '@',
{
}

/// A move is valid if its squares are among the 64 of the board and its piece,
/// if any, is a pawn, a knight, a bishop, a rook, a queen or a king.
pub proof fn law_valid_moves(from: u8, to: u8, role: char)
    ensures
        UciMove::Null.wf(),
        (UciMove::Normal { from, to, promotion: None }).wf() <==> from < 64 && to < 64,
        (UciMove::Normal { from, to, promotion: Some(role) }).wf() <==> from < 64 && to < 64
            && "pnbrqk"@.contains(role),
        (UciMove::Put { role, to }).wf() <==> to < 64 && "pnbrqk"@.contains(role),
{
    reveal_strlit("pnbrqk");
    let letters = "pnbrqk"@;
    assert(letters[0] == 'p' && letters[1] == 'n' && letters[2] == 'b' && letters[3] == 'r'
        && letters[4] == 'q' && letters[5] == 'k');
}

/// A square is written as the letter of its file and the number of its rank, a
/// promotion as the small letter of the piece behind the squares, a piece that
/// is put on the board as its capital letter and `@` before the square, and the
/// null move as four zeros.
pub proof fn law_notation(file: int, rank: int, to_file: int, to_rank: int, piece: int)
    requires
        0 <= file < 8,
        0 <= rank < 8,
        0 <= to_file < 8,
        0 <= to_rank < 8,
        0 <= piece < 6,
    ensures
        ({
            let from = (8 * rank + file) as u8;
            let to = (8 * to_rank + to_file) as u8;
            let role = "pnbrqk"@[piece];
            let from_name = seq!["abcdefgh"@[file], "12345678"@[rank]];
            let to_name = seq!["abcdefgh"@[to_file], "12345678"@[to_rank]];
            &&& (UciMove::Normal { from, to, promotion: None }).notation() == from_name + to_name
            &&& (UciMove::Normal { from, to, promotion: Some(role) }).notation() == from_name
                + to_name + seq![role]
            &&& (UciMove::Put { role, to }).notation() == seq!["PNBRQK"@[piece], '@'] + to_name
            &&& UciMove::Null.notation() == "0000"@
        }),
{
    reveal_strlit("abcdefgh");
    reveal_strlit("12345678");
    reveal_strlit("pnbrqk");
    reveal_strlit("PNBRQK");
    reveal_strlit("0000");
    let from = (8 * rank + file) as u8;
    let to = (8 * to_rank + to_file) as u8;
    let role = "pnbrqk"@[piece];
    let from_name = seq!["abcdefgh"@[file], "12345678"@[rank]];
    let to_name = seq!["abcdefgh"@[to_file], "12345678"@[to_rank]];
    assert("abcdefgh"@[file] == ('a' as u32 + file) as char);
    assert("abcdefgh"@[to_file] == ('a' as u32 + to_file) as char);
    assert("12345678"@[rank] == ('1' as u32 + rank) as char);
    assert("12345678"@[to_rank] == ('1' as u32 + to_rank) as char);
    assert(square_name(from) =~= from_name);
    assert(square_name(to) =~= to_name);
    assert("PNBRQK"@[piece] == upper(role));
    assert((UciMove::Normal { from, to, promotion: Some(role) }).notation() =~= from_name + to_name
        + seq![role]);
    assert(UciMove::Null.notation() =~= "0000"@);
}

/// What is read as a move is written like it, except that the letter of a piece
/// may be a capital or a small one, and either one is read.
pub proof fn law_only_notation_is_read(text: Seq<char>, m: UciMove)
    ensures
        move_of(text) == Some(m) ==> match m {
            UciMove::Normal { promotion: Some(role), .. } => text.len() == 5 && text.take(4)
                == m.notation().take(4) && (text[4] == role || text[4] == upper(role)),
            UciMove::Put { role, .. } => text.len() == 4 && text.skip(1) == m.notation().skip(1) && (
            text[0] == role || text[0] == upper(role)),
            _ => text == m.notation(),
        },
        m.wf() ==> match m {
            UciMove::Normal { promotion: Some(role), .. } => move_of(
                m.notation().update(4, upper(role)),
            ) == Some(m),
            UciMove::Put { role, .. } => move_of(m.notation().update(0, role)) == Some(m),
            _ => true,
        },
{
    let written = m.notation();
    if move_of(text) == Some(m) {
        match m {
            UciMove::Normal { from, to, promotion } => {
                assert(square_name(from) =~= seq![text[0], text[1]]);
                assert(square_name(to) =~= seq![text[2], text[3]]);
                assert(text.take(4) =~= written.take(4));
                if promotion is None {
                    assert(text =~= written);
                }
            },
            UciMove::Put { role, to } => {
                assert(square_name(to) =~= seq![text[2], text[3]]);
                assert(text.skip(1) =~= written.skip(1));
            },
            UciMove::Null => {},
        }
    }
    if m.wf() {
        match m {
            UciMove::Normal { from, to, promotion: Some(role) } => {
                lemma_square_is_read_back(from);
                lemma_square_is_read_back(to);
                let other = written.update(4, upper(role));
                assert(other[0] == square_name(from)[0] && other[1] == square_name(from)[1]);
                assert(other[2] == square_name(to)[0] && other[3] == square_name(to)[1]);
                assert(role_of(other[4]) == Some(role));
            },
            UciMove::Put { role, to } => {
                lemma_square_is_read_back(to);
                let other = written.update(0, role);
                assert(other[2] == square_name(to)[0] && other[3] == square_name(to)[1]);
                assert(other[1] == '@');
            },
            _ => {},
        }
    }
}

/// The moves of a row of words are the moves of its words, one for each, in
/// their order, and there are none if a word is not a move.
pub proof fn law_words_are_read_one_by_one(words: Seq<Seq<char>>)
    ensures
        moves_of(words) is Some <==> forall|i: int|
            0 <= i < words.len() ==> move_of(#[trigger] words[i]) is Some,
        moves_of(words) matches Some(moves) ==> moves.len() == words.len() && forall|i: int|
            0 <= i < words.len() ==> Some(#[trigger] moves[i]) == move_of(words[i]),
    decreases words.len(),
{
    if words.len() > 0 {
        let before = words.drop_last();
        law_words_are_read_one_by_one(before);
        if moves_of(words) is Some {
            assert forall|i: int| 0 <= i < words.len() implies move_of(
                #[trigger] words[i],
            ) is Some by {
                if i < before.len() {
                    assert(before[i] == words[i]);
                }
            }
        }
        if forall|i: int| 0 <= i < words.len() ==> move_of(#[trigger] words[i]) is Some {
            assert forall|i: int| 0 <= i < before.len() implies move_of(
                #[trigger] before[i],
            ) is Some by {
                assert(before[i] == words[i]);
            }
            assert(move_of(words[words.len() - 1]) is Some);
        }
    }
}

} // verus!
