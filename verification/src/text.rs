//! Words and numbers as they are written in a config.

use vstd::prelude::*;

verus! {

/// Whether a character is white space, by the Unicode property of that name.
pub open spec fn is_white(c: char) -> bool {
    ||| '\u{9}' <= c <= '\u{D}'
    ||| c == ' '
    ||| c == '\u{85}'
    ||| c == '\u{A0}'
    ||| c == '\u{1680}'
    ||| '\u{2000}' <= c <= '\u{200A}'
    ||| c == '\u{2028}'
    ||| c == '\u{2029}'
    ||| c == '\u{202F}'
    ||| c == '\u{205F}'
    ||| c == '\u{3000}'
}

/// Whether a character is white space.
pub fn white(c: char) -> (yes: bool)
    ensures
        yes == is_white(c),
{
    ('\u{9}' <= c && c <= '\u{D}') || c == ' ' || c == '\u{85}' || c == '\u{A0}' || c == '\u{1680}'
        || ('\u{2000}' <= c && c <= '\u{200A}') || c == '\u{2028}' || c == '\u{2029}' || c
        == '\u{202F}' || c == '\u{205F}' || c == '\u{3000}'
}

/// Some text without the white space at its end.
pub open spec fn trimmed_end(s: Seq<char>) -> Seq<char>
    decreases s.len(),
{
    if s.len() > 0 && is_white(s.last()) {
        trimmed_end(s.drop_last())
    } else {
        s
    }
}

/// Some text without the white space at its start.
pub open spec fn trimmed_start(s: Seq<char>) -> Seq<char>
    decreases s.len(),
{
    if s.len() > 0 && is_white(s[0]) {
        trimmed_start(s.drop_first())
    } else {
        s
    }
}

/// Some text without the white space at either end.
pub open spec fn trimmed(s: Seq<char>) -> Seq<char> {
    trimmed_end(trimmed_start(s))
}

/// A letter of the English alphabet in its small form, and any other character
/// as it is.
pub open spec fn small(c: char) -> char {
    if 'A' <= c <= 'Z' {
        (c as u32 - 'A' as u32 + 'a' as u32) as char
    } else {
        c
    }
}

/// Some text in small letters.
pub open spec fn lowered(s: Seq<char>) -> Seq<char> {
    s.map_values(|c: char| small(c))
}

fn lower_char(c: char) -> (l: char)
    ensures
        l == small(c),
{
    if 'A' <= c && c <= 'Z' {
        ((c as u8 - 'A' as u8) + 'a' as u8) as char
    } else {
        c
    }
}

/// The characters of some text.
pub fn chars_of(s: &str) -> (chars: Vec<char>)
    ensures
        chars@ == s@,
{
    let n: usize = s.unicode_len();
    let mut chars: Vec<char> = Vec::new();
    for i in 0..n
        invariant
            n == s@.len(),
            chars@ =~= s@.take(i as int),
    {
        chars.push(s.get_char(i));
    }
    assert(s@.take(n as int) =~= s@);
    chars
}

/// Some text without the white space at either end.
pub fn trim(chars: &Vec<char>) -> (kept: Vec<char>)
    ensures
        kept@ == trimmed(chars@),
{
    let n: usize = chars.len();
    let mut from: usize = 0;
    assert(chars@.skip(0) =~= chars@);
    while from < n && white(chars[from])
        invariant
            n == chars@.len(),
            from <= n,
            trimmed_start(chars@) == trimmed_start(chars@.skip(from as int)),
        ensures
            from <= n,
            trimmed_start(chars@) == chars@.skip(from as int),
        decreases n - from,
    {
        assert(chars@.skip(from as int).drop_first() =~= chars@.skip(from + 1));
        from += 1;
    }
    let ghost rest = chars@.skip(from as int);
    let mut to: usize = n;
    assert(rest.take(to - from) =~= rest);
    while to > from && white(chars[to - 1])
        invariant
            n == chars@.len(),
            from <= to <= n,
            rest == chars@.skip(from as int),
            trimmed_end(rest) == trimmed_end(rest.take(to - from)),
        ensures
            from <= to <= n,
            trimmed_end(rest) == rest.take(to - from),
        decreases to - from,
    {
        assert(rest.take(to - from).drop_last() =~= rest.take(to - 1 - from));
        to -= 1;
    }
    let mut kept: Vec<char> = Vec::new();
    for i in from..to
        invariant
            n == chars@.len(),
            from <= to <= n,
            kept@ =~= chars@.subrange(from as int, i as int),
    {
        kept.push(chars[i]);
    }
    assert(kept@ =~= rest.take(to - from));
    kept
}

/// Some text in small letters.
pub fn lower(chars: &Vec<char>) -> (small: Vec<char>)
    ensures
        small@ == lowered(chars@),
{
    let mut small: Vec<char> = Vec::new();
    for i in 0..chars.len()
        invariant
            small@ =~= lowered(chars@).take(i as int),
    {
        small.push(lower_char(chars[i]));
    }
    assert(lowered(chars@).take(chars@.len() as int) =~= lowered(chars@));
    small
}

/// Whether some characters spell a word.
pub fn spells(chars: &Vec<char>, word: &str) -> (same: bool)
    ensures
        same == (chars@ == word@),
{
    let n: usize = word.unicode_len();
    if chars.len() != n {
        return false;
    }
    for i in 0..n
        invariant
            n == word@.len(),
            n == chars@.len(),
            chars@.take(i as int) == word@.take(i as int),
    {
        if chars[i] != word.get_char(i) {
            assert(chars@[i as int] != word@[i as int]);
            return false;
        }
        assert(chars@.take(i + 1) =~= word@.take(i + 1));
    }
    assert(chars@.take(n as int) =~= chars@);
    assert(word@.take(n as int) =~= word@);
    true
}

/// Whether two pieces of text are the same.
pub fn same(a: &str, b: &str) -> (yes: bool)
    ensures
        yes == (a@ == b@),
{
    spells(&chars_of(a), b)
}

/// Whether a character parts two steps of a path.
pub open spec fn is_separator(c: char) -> bool {
    c == '/' || c == ' ' || c == ','
}

/// The pieces of some text between its separators, empty ones included.
pub open spec fn pieces(s: Seq<char>) -> Seq<Seq<char>>
    decreases s.len(),
{
    if s.len() == 0 {
        seq![Seq::empty()]
    } else {
        let before = pieces(s.drop_last());
        if is_separator(s.last()) {
            before.push(Seq::empty())
        } else {
            before.update(before.len() - 1, before.last().push(s.last()))
        }
    }
}

pub proof fn lemma_pieces(s: Seq<char>)
    ensures
        pieces(s).len() >= 1,
    decreases s.len(),
{
    if s.len() > 0 {
        lemma_pieces(s.drop_last());
    }
}

/// A run of pieces, each as a value.
pub open spec fn piece_views(words: Seq<Vec<char>>) -> Seq<Seq<char>> {
    words.map_values(|word: Vec<char>| word@)
}

/// The pieces of some text between its separators.
pub fn split(chars: &Vec<char>) -> (words: Vec<Vec<char>>)
    ensures
        piece_views(words@) == pieces(chars@),
{
    let mut words: Vec<Vec<char>> = Vec::new();
    let mut word: Vec<char> = Vec::new();
    assert(chars@.take(0) =~= Seq::empty());
    assert(piece_views(words@).push(word@) =~= seq![Seq::empty()]);
    for i in 0..chars.len()
        invariant
            piece_views(words@).push(word@) == pieces(chars@.take(i as int)),
    {
        let c = chars[i];
        let ghost before = piece_views(words@);
        let ghost open = word@;
        let ghost prefix = chars@.take(i + 1);
        assert(prefix.drop_last() =~= chars@.take(i as int));
        if c == '/' || c == ' ' || c == ',' {
            words.push(word);
            word = Vec::new();
            assert(piece_views(words@) =~= before.push(open));
            assert(piece_views(words@).push(word@) =~= pieces(prefix));
        } else {
            word.push(c);
            assert(before.push(word@) =~= before.push(open).update(
                before.len() as int,
                open.push(c),
            ));
        }
    }
    let ghost before = piece_views(words@);
    let ghost last = word@;
    words.push(word);
    assert(piece_views(words@) =~= before.push(last));
    assert(chars@.take(chars@.len() as int) =~= chars@);
    words
}

/// Where a character first stands in some text, and the end when it does not.
pub open spec fn place_of(s: Seq<char>, c: char) -> nat
    decreases s.len(),
{
    if s.len() == 0 || s[0] == c {
        0
    } else {
        1 + place_of(s.drop_first(), c)
    }
}

/// Where a character first stands in some text, and the end when it does not.
pub fn find(chars: &Vec<char>, c: char) -> (at: usize)
    ensures
        at == place_of(chars@, c),
        at <= chars@.len(),
{
    let mut at: usize = 0;
    assert(chars@.skip(0) =~= chars@);
    while at < chars.len() && chars[at] != c
        invariant
            at <= chars@.len(),
            place_of(chars@, c) == at + place_of(chars@.skip(at as int), c),
        ensures
            at <= chars@.len(),
            place_of(chars@, c) == at,
        decreases chars@.len() - at,
    {
        assert(chars@.skip(at as int).drop_first() =~= chars@.skip(at + 1));
        at += 1;
    }
    at
}

/// Part of some text.
pub fn part(chars: &Vec<char>, from: usize, to: usize) -> (piece: Vec<char>)
    requires
        from <= to <= chars@.len(),
    ensures
        piece@ == chars@.subrange(from as int, to as int),
{
    let mut piece: Vec<char> = Vec::new();
    for i in from..to
        invariant
            from <= to <= chars@.len(),
            piece@ =~= chars@.subrange(from as int, i as int),
    {
        piece.push(chars[i]);
    }
    piece
}

} // verus!
