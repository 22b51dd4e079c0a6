//! Text as a sequence of characters: cutting it into words, trimming it and
//! putting it together again.

use vstd::prelude::*;

verus! {

/// `String::push` appends one character to the end of the string.
pub assume_specification[ String::push ](s: &mut String, c: char)
    ensures
        final(s)@ == old(s)@.push(c),
;

/// The pieces of `s` between the separators: one more piece than there are
/// separators, so that two adjacent separators have an empty piece between
/// them and the empty text is one empty piece.
pub open spec fn split(s: Seq<char>, sep: char) -> Seq<Seq<char>>
    decreases s.len(),
{
    if s.len() == 0 {
        seq![Seq::empty()]
    } else {
        let before = split(s.drop_last(), sep);
        if s.last() == sep {
            before.push(Seq::empty())
        } else {
            before.drop_last().push(before.last().push(s.last()))
        }
    }
}

/// The pieces, one after the other, with `sep` between them.
pub open spec fn join(pieces: Seq<Seq<char>>, sep: char) -> Seq<char>
    decreases pieces.len(),
{
    if pieces.len() == 0 {
        Seq::empty()
    } else if pieces.len() == 1 {
        pieces[0]
    } else {
        join(pieces.drop_last(), sep).push(sep) + pieces.last()
    }
}

/// The views of a list of strings.
pub open spec fn texts(list: Seq<String>) -> Seq<Seq<char>> {
    list.map_values(|s: String| s@)
}

/// The characters that Unicode calls white space.
pub open spec fn is_space(c: char) -> bool {
    let n = c as u32;
    ||| 0x9 <= n <= 0xd
    ||| n == 0x20
    ||| n == 0x85
    ||| n == 0xa0
    ||| n == 0x1680
    ||| 0x2000 <= n <= 0x200a
    ||| n == 0x2028
    ||| n == 0x2029
    ||| n == 0x202f
    ||| n == 0x205f
    ||| n == 0x3000
}

/// What may be taken off the ends of a text.
#[derive(Clone, Copy, PartialEq, Eq, Debug, Structural)]
pub enum Margin {
    /// White space.
    Space,
    /// Single and double quotation marks.
    Quotes,
}

impl Margin {
    /// Whether `c` is taken off.
    pub open spec fn holds(self, c: char) -> bool {
        match self {
            Margin::Space => is_space(c),
            Margin::Quotes => c == '"' || c == '\'',
        }
    }
}

/// `s` without the characters of `margin` that it starts with.
pub open spec fn trim_start(s: Seq<char>, margin: Margin) -> Seq<char>
    decreases s.len(),
{
    if s.len() > 0 && margin.holds(s[0]) {
        trim_start(s.skip(1), margin)
    } else {
        s
    }
}

/// `s` without the characters of `margin` that it ends with.
pub open spec fn trim_end(s: Seq<char>, margin: Margin) -> Seq<char>
    decreases s.len(),
{
    if s.len() > 0 && margin.holds(s.last()) {
        trim_end(s.drop_last(), margin)
    } else {
        s
    }
}

/// `s` without the characters of `margin` at either end.
pub open spec fn trim(s: Seq<char>, margin: Margin) -> Seq<char> {
    trim_end(trim_start(s, margin), margin)
}

/// The characters of `text`.
pub fn chars_of(text: &str) -> (chars: Vec<char>)
    ensures
        chars@ == text@,
{
    let mut chars: Vec<char> = Vec::new();
    for c in it: text.chars()
        invariant
            it.seq() == text@,
            chars@ == text@.take(it.index()),
    {
        chars.push(c);
        assert(text@.take(it.index() + 1) == text@.take(it.index()).push(c));
    }
    assert(text@.take(text@.len() as int) == text@);
    chars
}

/// The text that `chars` spell from `from` up to `to`.
pub fn spell(chars: &Vec<char>, from: usize, to: usize) -> (text: String)
    requires
        from <= to <= chars.len(),
    ensures
        text@ == chars@.subrange(from as int, to as int),
{
    let mut text = String::new();
    let mut i: usize = from;
    while i < to
        invariant
            from <= i <= to <= chars.len(),
            text@ == chars@.subrange(from as int, i as int),
        decreases to - i,
    {
        text.push(chars[i]);
        i = i + 1;
        assert(chars@.subrange(from as int, i as int) == chars@.subrange(
            from as int,
            i - 1,
        ).push(chars@[i - 1]));
    }
    text
}

/// Whether two texts are the same.
pub fn same_text(a: &str, b: &str) -> (same: bool)
    ensures
        same == (a@ == b@),
{
    let x = chars_of(a);
    let y = chars_of(b);
    x.len() == y.len() && agrees(&x, &y)
}

/// Whether `text` starts with `prefix`.
pub fn starts_with(text: &str, prefix: &str) -> (starts: bool)
    ensures
        starts == prefix@.is_prefix_of(text@),
{
    let x = chars_of(text);
    let y = chars_of(prefix);
    y.len() <= x.len() && agrees(&x, &y)
}

/// Whether `x` starts with all of `y`, which is no longer.
fn agrees(x: &Vec<char>, y: &Vec<char>) -> (same: bool)
    requires
        y.len() <= x.len(),
    ensures
        same == (x@.take(y.len() as int) == y@),
        same == y@.is_prefix_of(x@),
        x.len() == y.len() ==> same == (x@ == y@),
{
    let mut i: usize = 0;
    while i < y.len()
        invariant
            i <= y.len() <= x.len(),
            forall|j: int| 0 <= j < i ==> x[j] == y[j],
        decreases y.len() - i,
    {
        if x[i] != y[i] {
            assert(x@.take(y.len() as int)[i as int] != y@[i as int]);
            return false;
        }
        i = i + 1;
    }
    assert(x@.take(y.len() as int) == y@);
    proof {
        if x.len() == y.len() {
            assert(x@.take(y.len() as int) == x@);
        }
    }
    true
}

/// Cuts `text` at every `sep`.
pub fn split_at_each(text: &str, sep: char) -> (pieces: Vec<String>)
    ensures
        texts(pieces@) == split(text@, sep),
        pieces.len() > 0,
{
    let chars = chars_of(text);
    let mut pieces: Vec<String> = Vec::new();
    let mut piece = String::new();
    let mut i: usize = 0;
    proof {
        assert(chars@.take(0) == Seq::<char>::empty());
        assert(texts(pieces@).push(piece@) == split(Seq::empty(), sep));
    }
    while i < chars.len()
        invariant
            i <= chars.len(),
            texts(pieces@).push(piece@) == split(chars@.take(i as int), sep),
        decreases chars.len() - i,
    {
        let c = chars[i];
        let ghost before = texts(pieces@).push(piece@);
        proof {
            assert(chars@.take(i + 1).drop_last() == chars@.take(i as int));
            assert(before.drop_last() == texts(pieces@));
        }
        if c == sep {
            pieces.push(piece);
            piece = String::new();
            assert(texts(pieces@) == before);
        } else {
            piece.push(c);
        }
        i = i + 1;
    }
    assert(chars@.take(chars.len() as int) == chars@);
    let ghost before = texts(pieces@).push(piece@);
    pieces.push(piece);
    assert(texts(pieces@) == before);
    pieces
}

/// Puts `pieces` together with single spaces between them.
pub fn join_with_spaces(pieces: &Vec<String>) -> (text: String)
    ensures
        text@ == join(texts(pieces@), ' '),
{
    let mut text = String::new();
    let mut i: usize = 0;
    assert(texts(pieces@).take(0) == Seq::<Seq<char>>::empty());
    while i < pieces.len()
        invariant
            i <= pieces.len(),
            text@ == join(texts(pieces@).take(i as int), ' '),
        decreases pieces.len() - i,
    {
        let ghost done = texts(pieces@).take(i + 1);
        proof {
            assert(done.drop_last() == texts(pieces@).take(i as int));
            assert(done.last() == pieces@[i as int]@);
        }
        if i > 0 {
            text.push(' ');
        }
        text.append(pieces[i].as_str());
        i = i + 1;
    }
    assert(texts(pieces@).take(pieces.len() as int) == texts(pieces@));
    text
}

/// Whether `c` is in `margin`.
pub fn in_margin(margin: Margin, c: char) -> (holds: bool)
    ensures
        holds == margin.holds(c),
{
    match margin {
        Margin::Space => {
            let n: u32 = c as u32;
            (0x9 <= n && n <= 0xd) || n == 0x20 || n == 0x85 || n == 0xa0 || n == 0x1680 || (0x2000
                <= n && n <= 0x200a) || n == 0x2028 || n == 0x2029 || n == 0x202f || n == 0x205f
                || n == 0x3000
        },
        Margin::Quotes => c == '"' || c == '\'',
    }
}

/// Takes the characters of `margin` off the start of `text`.
pub fn trimmed_start(text: &str, margin: Margin) -> (rest: String)
    ensures
        rest@ == trim_start(text@, margin),
{
    let chars = chars_of(text);
    let mut from: usize = 0;
    assert(chars@.skip(0) == chars@);
    while from < chars.len() && in_margin(margin, chars[from])
        invariant
            from <= chars.len(),
            trim_start(chars@, margin) == trim_start(chars@.skip(from as int), margin),
        decreases chars.len() - from,
    {
        assert(chars@.skip(from as int).skip(1) == chars@.skip(from + 1));
        from = from + 1;
    }
    assert(chars@.subrange(from as int, chars.len() as int) == chars@.skip(from as int));
    spell(&chars, from, chars.len())
}

/// Takes the characters of `margin` off the end of `text`.
pub fn trimmed_end(text: &str, margin: Margin) -> (rest: String)
    ensures
        rest@ == trim_end(text@, margin),
{
    let chars = chars_of(text);
    let mut to: usize = chars.len();
    assert(chars@.take(to as int) == chars@);
    while to > 0 && in_margin(margin, chars[to - 1])
        invariant
            to <= chars.len(),
            trim_end(chars@, margin) == trim_end(chars@.take(to as int), margin),
        decreases to,
    {
        assert(chars@.take(to as int).drop_last() == chars@.take(to - 1));
        to = to - 1;
    }
    assert(chars@.subrange(0, to as int) == chars@.take(to as int));
    spell(&chars, 0, to)
}

/// Takes the characters of `margin` off both ends of `text`.
pub fn trimmed(text: &str, margin: Margin) -> (rest: String)
    ensures
        rest@ == trim(text@, margin),
{
    trimmed_end(trimmed_start(text, margin).as_str(), margin)
}

/// Cutting a text at a separator and putting the pieces together again with
/// that separator gives the text back, and no piece holds the separator.
pub proof fn law_split_loses_nothing(s: Seq<char>, sep: char)
    ensures
        split(s, sep).len() > 0,
        join(split(s, sep), sep) == s,
        forall|i: int| 0 <= i < split(s, sep).len() ==> !(#[trigger] split(s, sep)[i]).contains(sep),
    decreases s.len(),
{
    if s.len() > 0 {
        let before = split(s.drop_last(), sep);
        let after = split(s, sep);
        law_split_loses_nothing(s.drop_last(), sep);
        if s.last() == sep {
            assert(after.drop_last() == before);
            assert(join(after, sep) == s);
        } else {
            assert(after.drop_last() == before.drop_last());
            if before.len() > 1 {
                assert(join(after, sep) == join(before, sep).push(s.last()));
            }
            assert forall|i: int| 0 <= i < after.len() implies !(#[trigger] after[i]).contains(
                sep,
            ) by {
                assert(!before[i].contains(sep));
                if i == after.len() - 1 && after[i].contains(sep) {
                    let k = choose|k: int| 0 <= k < after[i].len() && after[i][k] == sep;
                    assert(before[i][k] == sep);
                }
            }
        }
        assert(s == s.drop_last().push(s.last()));
    }
}

/// Pieces without the separator that are put together with it are the pieces
/// that the text is cut into.
pub proof fn law_joined_pieces_are_cut_again(pieces: Seq<Seq<char>>, sep: char)
    requires
        pieces.len() > 0,
        forall|i: int| 0 <= i < pieces.len() ==> !(#[trigger] pieces[i]).contains(sep),
    ensures
        split(join(pieces, sep), sep) == pieces,
    decreases pieces.len(),
{
    let last = pieces.last();
    assert(!pieces[pieces.len() - 1].contains(sep));
    if pieces.len() == 1 {
        assert(Seq::<char>::empty() + last == last);
        lemma_piece_is_appended(Seq::empty(), last, sep);
        assert(split(last, sep) =~= pieces);
    } else {
        let before = pieces.drop_last();
        assert forall|i: int| 0 <= i < before.len() implies !(#[trigger] before[i]).contains(
            sep,
        ) by {
            assert(before[i] == pieces[i]);
        }
        law_joined_pieces_are_cut_again(before, sep);
        let opened = join(before, sep).push(sep);
        assert(opened.drop_last() == join(before, sep));
        lemma_piece_is_appended(opened, last, sep);
        assert(split(opened, sep) == before.push(Seq::empty()));
        assert(split(opened + last, sep) =~= pieces);
    }
}

/// Text without the separator makes the last piece longer.
proof fn lemma_piece_is_appended(s: Seq<char>, piece: Seq<char>, sep: char)
    requires
        !piece.contains(sep),
    ensures
        split(s, sep).len() > 0,
        split(s + piece, sep) == split(s, sep).drop_last().push(split(s, sep).last() + piece),
    decreases piece.len(),
{
    law_split_loses_nothing(s, sep);
    if piece.len() == 0 {
        assert(s + piece == s);
        assert(split(s, sep).last() + piece == split(s, sep).last());
        assert(split(s, sep) =~= split(s, sep).drop_last().push(split(s, sep).last()));
    } else {
        let shorter = piece.drop_last();
        assert forall|i: int| 0 <= i < shorter.len() implies shorter[i] != sep by {
            assert(shorter[i] == piece[i]);
        }
        lemma_piece_is_appended(s, shorter, sep);
        assert((s + piece).drop_last() == s + shorter);
        assert((s + piece).last() == piece.last());
        assert(piece.contains(piece.last()));
        assert(shorter.push(piece.last()) == piece);
        assert((split(s, sep).last() + shorter).push(piece.last()) == split(s, sep).last() + piece);
        assert(split(s + piece, sep) =~= split(s, sep).drop_last().push(
            split(s, sep).last() + piece,
        ));
    }
}

/// A text without the separator is one piece, and a separator ends a piece: the
/// pieces on its left and the pieces on its right are those of the texts there.
pub proof fn law_separator_parts_pieces(left: Seq<char>, right: Seq<char>, sep: char)
    ensures
        !left.contains(sep) ==> split(left, sep) == seq![left],
        split(left + seq![sep] + right, sep) == split(left, sep) + split(right, sep),
    decreases right.len(),
{
    if !left.contains(sep) {
        law_joined_pieces_are_cut_again(seq![left], sep);
    }
    let whole = left + seq![sep] + right;
    law_split_loses_nothing(right, sep);
    if right.len() == 0 {
        assert(whole.drop_last() == left);
        assert(split(right, sep) == seq![Seq::<char>::empty()]);
        assert(split(whole, sep) =~= split(left, sep) + split(right, sep));
    } else {
        let shorter = right.drop_last();
        law_separator_parts_pieces(left, shorter, sep);
        law_split_loses_nothing(shorter, sep);
        assert(whole.drop_last() == left + seq![sep] + shorter);
        assert(whole.last() == right.last());
        let before = split(left, sep) + split(shorter, sep);
        assert(before.last() == split(shorter, sep).last());
        assert(before.drop_last() =~= split(left, sep) + split(shorter, sep).drop_last());
        assert(split(whole, sep) =~= split(left, sep) + split(right, sep));
    }
}

/// Nothing put together is nothing, one piece is itself, and two rows of pieces
/// have one separator between them.
pub proof fn law_rows_are_joined_by_one_separator(
    left: Seq<Seq<char>>,
    right: Seq<Seq<char>>,
    sep: char,
)
    ensures
        join(Seq::empty(), sep) == Seq::<char>::empty(),
        left.len() == 1 ==> join(left, sep) == left[0],
        left.len() > 0 && right.len() > 0 ==> join(left + right, sep) == join(left, sep) + seq![sep]
            + join(right, sep),
    decreases right.len(),
{
    if left.len() > 0 && right.len() > 0 {
        let shorter = right.drop_last();
        assert((left + right).drop_last() =~= left + shorter);
        assert((left + right).last() == right.last());
        if shorter.len() == 0 {
            assert(left + shorter =~= left);
            assert(join(right, sep) == right[0]);
        } else {
            law_rows_are_joined_by_one_separator(left, shorter, sep);
        }
        assert(join(left + right, sep) =~= join(left, sep) + seq![sep] + join(right, sep));
    }
}

/// The characters that count as white space, and no others.
pub proof fn law_white_space(c: char)
    ensures
        Margin::Space.holds(c) <==> seq![
            '\t',
            '\n',
            '\u{b}',
            '\u{c}',
            '\r',
            ' ',
            '\u{85}',
            '\u{a0}',
            '\u{1680}',
            '\u{2000}',
            '\u{2001}',
            '\u{2002}',
            '\u{2003}',
            '\u{2004}',
            '\u{2005}',
            '\u{2006}',
            '\u{2007}',
            '\u{2008}',
            '\u{2009}',
            '\u{200a}',
            '\u{2028}',
            '\u{2029}',
            '\u{202f}',
            '\u{205f}',
            '\u{3000}',
        ].contains(c),
        Margin::Quotes.holds(c) <==> seq!['"', '\''].contains(c),
{
    let quotes = seq!['"', '\''];
    assert(quotes[0] == '"' && quotes[1] == '\'');
    let spaces = seq![
        '\t',
        '\n',
        '\u{b}',
        '\u{c}',
        '\r',
        ' ',
        '\u{85}',
        '\u{a0}',
        '\u{1680}',
        '\u{2000}',
        '\u{2001}',
        '\u{2002}',
        '\u{2003}',
        '\u{2004}',
        '\u{2005}',
        '\u{2006}',
        '\u{2007}',
        '\u{2008}',
        '\u{2009}',
        '\u{200a}',
        '\u{2028}',
        '\u{2029}',
        '\u{202f}',
        '\u{205f}',
        '\u{3000}',
    ];
    assert(spaces[0] == '\t' && spaces[1] == '\n' && spaces[2] == '\u{b}' && spaces[3] == '\u{c}'
        && spaces[4] == '\r' && spaces[5] == ' ' && spaces[6] == '\u{85}' && spaces[7] == '\u{a0}'
        && spaces[8] == '\u{1680}');
    assert(spaces[9] == '\u{2000}' && spaces[10] == '\u{2001}' && spaces[11] == '\u{2002}'
        && spaces[12] == '\u{2003}' && spaces[13] == '\u{2004}' && spaces[14] == '\u{2005}'
        && spaces[15] == '\u{2006}' && spaces[16] == '\u{2007}' && spaces[17] == '\u{2008}'
        && spaces[18] == '\u{2009}' && spaces[19] == '\u{200a}');
    assert(spaces[20] == '\u{2028}' && spaces[21] == '\u{2029}' && spaces[22] == '\u{202f}'
        && spaces[23] == '\u{205f}' && spaces[24] == '\u{3000}');
    if Margin::Space.holds(c) {
        assert(exists|i: int| 0 <= i < spaces.len() && spaces[i] == c);
    }
}

/// Every character is in the margin.
pub open spec fn all_in(s: Seq<char>, margin: Margin) -> bool {
    forall|i: int| 0 <= i < s.len() ==> margin.holds(#[trigger] s[i])
}

/// Margins go, whatever stands between them stays: a text that neither starts
/// nor ends with a character of the margin is what is left of it when such
/// characters are put before and behind it, and of such characters alone nothing
/// is left.
pub proof fn law_trimming_takes_margins_only(
    front: Seq<char>,
    body: Seq<char>,
    back: Seq<char>,
    margin: Margin,
)
    requires
        all_in(front, margin),
        all_in(back, margin),
        body.len() > 0 ==> !margin.holds(body[0]) && !margin.holds(body[body.len() - 1]),
    ensures
        trim_start(front + body, margin) == body,
        trim_end(body + back, margin) == body,
        trim(front + body + back, margin) == body,
{
    lemma_front_goes(front, body, margin);
    lemma_back_goes(body, back, margin);
    if body.len() > 0 {
        assert(front + body + back =~= front + (body + back));
        lemma_front_goes(front, body + back, margin);
    } else {
        let all = front + back;
        assert(front + body + back =~= all);
        assert forall|i: int| 0 <= i < all.len() implies margin.holds(#[trigger] all[i]) by {
            if i < front.len() {
                assert(margin.holds(front[i]));
            } else {
                assert(margin.holds(back[i - front.len()]));
            }
        }
        assert(all =~= all + body);
        lemma_front_goes(all, body, margin);
    }
}

/// What a text starts with of the margin goes.
proof fn lemma_front_goes(front: Seq<char>, body: Seq<char>, margin: Margin)
    requires
        all_in(front, margin),
        body.len() > 0 ==> !margin.holds(body[0]),
    ensures
        trim_start(front + body, margin) == body,
    decreases front.len(),
{
    if front.len() > 0 {
        assert(margin.holds(front[0]));
        assert forall|i: int| 0 <= i < front.skip(1).len() implies margin.holds(
            #[trigger] front.skip(1)[i],
        ) by {
            assert(margin.holds(front[i + 1]));
        }
        assert((front + body).skip(1) =~= front.skip(1) + body);
        lemma_front_goes(front.skip(1), body, margin);
    } else {
        assert(front + body =~= body);
    }
}

/// What a text ends with of the margin goes.
proof fn lemma_back_goes(body: Seq<char>, back: Seq<char>, margin: Margin)
    requires
        all_in(back, margin),
        body.len() > 0 ==> !margin.holds(body[body.len() - 1]),
    ensures
        trim_end(body + back, margin) == body,
    decreases back.len(),
{
    if back.len() > 0 {
        assert(margin.holds(back[back.len() - 1]));
        assert forall|i: int| 0 <= i < back.drop_last().len() implies margin.holds(
            #[trigger] back.drop_last()[i],
        ) by {
            assert(margin.holds(back[i]));
        }
        assert((body + back).drop_last() =~= body + back.drop_last());
        lemma_back_goes(body, back.drop_last(), margin);
    } else {
        assert(body + back =~= body);
    }
}

} // verus!
