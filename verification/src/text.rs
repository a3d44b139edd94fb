//! Small text helpers: decimal numbers, concatenation, searching.

use vstd::prelude::*;
use vstd::string::{StrSliceExecFns, StringExecFns};

verus! {

/// The decimal digit for a value below ten.
pub open spec fn digit(d: nat) -> char {
    if d == 0 {
        '0'
    } else if d == 1 {
        '1'
    } else if d == 2 {
        '2'
    } else if d == 3 {
        '3'
    } else if d == 4 {
        '4'
    } else if d == 5 {
        '5'
    } else if d == 6 {
        '6'
    } else if d == 7 {
        '7'
    } else if d == 8 {
        '8'
    } else {
        '9'
    }
}

/// A number in decimal, without leading zeros.
pub open spec fn decimal_digits(n: nat) -> Seq<char>
    decreases n,
{
    if n < 10 {
        seq![digit(n)]
    } else {
        decimal_digits(n / 10).push(digit(n % 10))
    }
}

fn digit_text(d: usize) -> (text: &'static str)
    requires
        d < 10,
    ensures
        text@ == seq![digit(d as nat)],
{
    proof {
        reveal_strlit("0");
        reveal_strlit("1");
        reveal_strlit("2");
        reveal_strlit("3");
        reveal_strlit("4");
        reveal_strlit("5");
        reveal_strlit("6");
        reveal_strlit("7");
        reveal_strlit("8");
        reveal_strlit("9");
    }
    let text: &'static str = if d == 0 {
        "0"
    } else if d == 1 {
        "1"
    } else if d == 2 {
        "2"
    } else if d == 3 {
        "3"
    } else if d == 4 {
        "4"
    } else if d == 5 {
        "5"
    } else if d == 6 {
        "6"
    } else if d == 7 {
        "7"
    } else if d == 8 {
        "8"
    } else {
        "9"
    };
    assert(text@ =~= seq![digit(d as nat)]);
    text
}

/// Writes a number in decimal.
pub fn decimal(n: usize) -> (text: String)
    ensures
        text@ == decimal_digits(n as nat),
    decreases n,
{
    if n < 10 {
        digit_text(n).to_owned()
    } else {
        let mut text = decimal(n / 10);
        let ghost before = text@;
        text.append(digit_text(n % 10));
        assert(text@ =~= before.push(digit(n as nat % 10)));
        text
    }
}

/// Appends a piece of text.
pub fn append_text(text: &mut String, piece: &str)
    ensures
        final(text)@ == old(text)@ + piece@,
{
    text.append(piece);
}

/// The contents of each text in a list.
pub open spec fn texts(list: Seq<String>) -> Seq<Seq<char>> {
    list.map_values(|s: String| s@)
}

/// The parts in order, with the separator between neighbours.
pub open spec fn joined(parts: Seq<Seq<char>>, separator: Seq<char>) -> Seq<char>
    decreases parts.len(),
{
    if parts.len() == 0 {
        Seq::empty()
    } else if parts.len() == 1 {
        parts[0]
    } else {
        joined(parts.drop_last(), separator) + separator + parts.last()
    }
}

/// Joins the parts with a separator between neighbours.
pub fn join(parts: &Vec<String>, separator: &str) -> (text: String)
    ensures
        text@ == joined(texts(parts@), separator@),
{
    let mut text = String::new();
    let mut i: usize = 0;
    assert(texts(parts@).take(0) =~= Seq::empty());
    while i < parts.len()
        invariant
            i <= parts@.len(),
            text@ == joined(texts(parts@).take(i as int), separator@),
        decreases parts@.len() - i,
    {
        proof {
            let seen = texts(parts@).take(i as int + 1);
            assert(seen.drop_last() =~= texts(parts@).take(i as int));
            assert(seen.last() == parts@[i as int]@);
            assert(Seq::<char>::empty() + parts@[i as int]@ =~= parts@[i as int]@);
        }
        if i > 0 {
            text.append(separator);
        }
        text.append(parts[i].as_str());
        i = i + 1;
    }
    assert(texts(parts@).take(i as int) =~= texts(parts@));
    text
}

/// A text in lower case.
pub uninterp spec fn lowercase_of(text: Seq<char>) -> Seq<char>;

/// Calls `str::to_lowercase`: the result is that text in lower case, which
/// depends on the characters alone.
#[verifier::external_body]
pub(crate) fn lowercase(text: &str) -> (lower: String)
    ensures
        lower@ == lowercase_of(text@),
{
    text.to_lowercase()
}

/// A text in upper case.
pub uninterp spec fn uppercase_of(text: Seq<char>) -> Seq<char>;

/// Calls `str::to_uppercase`: the result is that text in upper case, which
/// depends on the characters alone.
#[verifier::external_body]
pub(crate) fn uppercase(text: &str) -> (upper: String)
    ensures
        upper@ == uppercase_of(text@),
{
    text.to_uppercase()
}

/// Whether two texts have the same characters.
pub fn same_text(a: &str, b: &str) -> (same: bool)
    ensures
        same == (a@ == b@),
{
    let first: String = a.to_owned();
    let second: String = b.to_owned();
    first == second
}

/// The characters of a text.
pub fn letters(text: &str) -> (chars: Vec<char>)
    ensures
        chars@ == text@,
{
    let mut chars: Vec<char> = Vec::new();
    for c in it: text.chars()
        invariant
            it.seq() == text@,
            chars@ =~= text@.take(it.index() as int),
    {
        chars.push(c);
    }
    assert(text@.take(text@.len() as int) =~= text@);
    chars
}

/// The first text occurs somewhere in the second.
pub open spec fn occurs_in(piece: Seq<char>, text: Seq<char>) -> bool {
    exists|start: int| #[trigger] occurs_at(piece, text, start)
}

/// The first text occurs in the second at a place.
pub open spec fn occurs_at(piece: Seq<char>, text: Seq<char>, start: int) -> bool {
    0 <= start && start + piece.len() <= text.len() && text.subrange(start, start + piece.len()) == piece
}

/// Whether some characters occur in others.
pub fn contains_piece(text: &Vec<char>, piece: &Vec<char>) -> (found: bool)
    ensures
        found == occurs_in(piece@, text@),
{
    if piece.len() > text.len() {
        return false;
    }
    let n: usize = text.len();
    let last: usize = n - piece.len();
    let mut start: usize = 0;
    while start <= last
        invariant
            last + piece@.len() == n,
            n == text@.len(),
            start <= last + 1,
            forall|k: int| 0 <= k < start ==> !#[trigger] occurs_at(piece@, text@, k),
        decreases last + 1 - start,
    {
        let mut i: usize = 0;
        while i < piece.len() && text[start + i] == piece[i]
            invariant
                start <= last,
                last + piece@.len() == n,
                n == text@.len(),
                i <= piece@.len(),
                forall|k: int| 0 <= k < i ==> text@[start + k] == #[trigger] piece@[k],
            decreases piece@.len() - i,
        {
            i = i + 1;
        }
        if i == piece.len() {
            assert(text@.subrange(start as int, start + piece@.len()) =~= piece@);
            assert(occurs_at(piece@, text@, start as int));
            return true;
        }
        proof {
            if occurs_at(piece@, text@, start as int) {
                assert(text@.subrange(start as int, start + piece@.len())[i as int] == text@[start + i]);
            }
        }
        if start == last {
            return false;
        }
        start = start + 1;
    }
    false
}

/// Whether one of some texts occurs in another text.
pub fn contains_any(text: &str, pieces: &[&str]) -> (found: bool)
    ensures
        found == exists|i: int| 0 <= i < pieces@.len() && occurs_in(#[trigger] pieces@[i]@, text@),
{
    let chars: Vec<char> = letters(text);
    let mut i: usize = 0;
    while i < pieces.len()
        invariant
            chars@ == text@,
            i <= pieces@.len(),
            forall|k: int| 0 <= k < i ==> !occurs_in(#[trigger] pieces@[k]@, text@),
        decreases pieces@.len() - i,
    {
        let piece: Vec<char> = letters(pieces[i]);
        if contains_piece(&chars, &piece) {
            assert(occurs_in(pieces@[i as int]@, text@));
            return true;
        }
        i = i + 1;
    }
    false
}

/// The pieces of a text between separators; there is always at least one.
pub open spec fn pieces_of(text: Seq<char>, separator: char) -> Seq<Seq<char>>
    decreases text.len(),
{
    if text.len() == 0 {
        seq![Seq::empty()]
    } else {
        let before = pieces_of(text.drop_last(), separator);
        if text.last() == separator {
            before.push(Seq::empty())
        } else {
            before.drop_last().push(before.last().push(text.last()))
        }
    }
}

/// The pieces of a text between separators.
pub fn split_text(text: &str, separator: char) -> (pieces: Vec<String>)
    ensures
        texts(pieces@) == pieces_of(text@, separator),
        pieces@.len() >= 1,
{
    let chars: Vec<char> = letters(text);
    let mut pieces: Vec<String> = Vec::new();
    let mut from: usize = 0;
    let mut i: usize = 0;
    assert(chars@.take(0) =~= Seq::empty());
    assert(chars@.subrange(0, 0) =~= Seq::empty());
    assert(texts(pieces@).push(chars@.subrange(0, 0)) =~= seq![Seq::empty()]);
    while i < chars.len()
        invariant
            chars@ == text@,
            from <= i <= chars@.len(),
            texts(pieces@).push(chars@.subrange(from as int, i as int)) == pieces_of(chars@.take(i as int), separator),
        decreases chars@.len() - i,
    {
        let ghost before = pieces_of(chars@.take(i as int), separator);
        let ghost held = texts(pieces@);
        proof {
            assert(chars@.take(i as int + 1).drop_last() =~= chars@.take(i as int));
            assert(before.drop_last() =~= held);
            assert(before.last() == chars@.subrange(from as int, i as int));
        }
        if chars[i] == separator {
            let piece: String = text.substring_char(from, i).to_owned();
            pieces.push(piece);
            from = i + 1;
            proof {
                assert(chars@.subrange(from as int, i + 1) =~= Seq::empty());
                assert(texts(pieces@) =~= before);
            }
        } else {
            proof {
                assert(chars@.subrange(from as int, i + 1) =~= chars@.subrange(from as int, i as int).push(
                    chars@[i as int],
                ));
            }
        }
        i = i + 1;
    }
    assert(chars@.take(i as int) =~= chars@);
    let ghost held = texts(pieces@);
    let last: String = text.substring_char(from, i).to_owned();
    pieces.push(last);
    assert(texts(pieces@) =~= held.push(chars@.subrange(from as int, i as int)));
    pieces
}

} // verus!
