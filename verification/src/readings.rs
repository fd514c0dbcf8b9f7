//! How what is written is read.

use vstd::prelude::*;
use crate::at;
use crate::percent;
use crate::side::Side;
use crate::text;

verus! {

proof fn lemma_end(s: Seq<char>) -> (to: int)
    ensures
        0 <= to <= s.len(),
        text::trimmed_end(s) == s.take(to),
        forall|i: int| to <= i < s.len() ==> text::is_white(#[trigger] s[i]),
        to > 0 ==> !text::is_white(s[to - 1]),
    decreases s.len(),
{
    if s.len() > 0 && text::is_white(s.last()) {
        let rest = s.drop_last();
        let to = lemma_end(rest);
        assert(rest.take(to) =~= s.take(to));
        assert forall|i: int| to <= i < s.len() implies text::is_white(#[trigger] s[i]) by {
            if i < rest.len() {
                assert(rest[i] == s[i]);
            }
        }
        if to > 0 {
            assert(rest[to - 1] == s[to - 1]);
        }
        to
    } else {
        assert(s.take(s.len() as int) =~= s);
        s.len() as int
    }
}

proof fn lemma_start(s: Seq<char>) -> (from: int)
    ensures
        0 <= from <= s.len(),
        text::trimmed_start(s) == s.skip(from),
        forall|i: int| 0 <= i < from ==> text::is_white(#[trigger] s[i]),
        from < s.len() ==> !text::is_white(s[from]),
    decreases s.len(),
{
    if s.len() > 0 && text::is_white(s[0]) {
        let rest = s.drop_first();
        let from = lemma_start(rest);
        assert(rest.skip(from) =~= s.skip(from + 1));
        assert forall|i: int| 0 <= i < from + 1 implies text::is_white(#[trigger] s[i]) by {
            if i > 0 {
                assert(rest[i - 1] == s[i]);
            }
        }
        if from < rest.len() {
            assert(rest[from] == s[from + 1]);
        }
        from + 1
    } else {
        assert(s.skip(0) =~= s);
        0
    }
}

/// Trimming takes the white space off both ends and nothing else: what is left
/// is one stretch of the text, everything on either side of it is white, and it
/// neither starts nor ends white.
pub proof fn trimming_takes_the_white_off_both_ends(s: Seq<char>) -> (kept: (int, int))
    ensures
        0 <= kept.0 <= kept.1 <= s.len(),
        text::trimmed(s) == s.subrange(kept.0, kept.1),
        forall|i: int| 0 <= i < kept.0 ==> text::is_white(#[trigger] s[i]),
        forall|i: int| kept.1 <= i < s.len() ==> text::is_white(#[trigger] s[i]),
        kept.0 < kept.1 ==> !text::is_white(s[kept.0]) && !text::is_white(s[kept.1 - 1]),
{
    let from = lemma_start(s);
    let rest = s.skip(from);
    let to = lemma_end(rest);
    assert(rest.take(to) =~= s.subrange(from, from + to));
    assert forall|i: int| from + to <= i < s.len() implies text::is_white(#[trigger] s[i]) by {
        assert(rest[i - from] == s[i]);
    }
    if to > 0 {
        assert(rest[to - 1] == s[from + to - 1]);
        assert(rest[0] == s[from]);
    }
    (from, from + to)
}

/// Lowering changes the capitals of the English alphabet to their small letters
/// and nothing else, and lowering again changes nothing.
pub proof fn lowering_changes_capitals_alone(s: Seq<char>, i: int)
    requires
        0 <= i < s.len(),
    ensures
        text::lowered(s).len() == s.len(),
        'A' <= s[i] <= 'Z' ==> text::lowered(s)[i] as int == s[i] as int + 32,
        !('A' <= s[i] <= 'Z') ==> text::lowered(s)[i] == s[i],
        text::lowered(text::lowered(s))[i] == text::lowered(s)[i],
{
    let c = s[i];
    if 'A' <= c <= 'Z' {
        let low = c as u32 - 'A' as u32 + 'a' as u32;
        assert(97 <= low <= 122);
        assert(low as char as int == low);
    }
}

/// A character is found where it first stands, and at the end where it stands
/// nowhere.
pub proof fn a_character_is_found_where_it_first_stands(s: Seq<char>, c: char)
    ensures
        ({
            let at = text::place_of(s, c) as int;
            &&& 0 <= at <= s.len()
            &&& at < s.len() ==> s[at] == c
            &&& forall|i: int| 0 <= i < at ==> #[trigger] s[i] != c
        }),
    decreases s.len(),
{
    if s.len() > 0 && s[0] != c {
        let rest = s.drop_first();
        a_character_is_found_where_it_first_stands(rest, c);
        let at = text::place_of(rest, c) as int;
        if at < rest.len() {
            assert(rest[at] == s[at + 1]);
        }
        assert forall|i: int| 0 <= i < at + 1 implies #[trigger] s[i] != c by {
            if i > 0 {
                assert(rest[i - 1] == s[i]);
            }
        }
    }
}

/// Being one of the characters that part a path.
pub open spec fn parting() -> spec_fn(char) -> bool {
    |c: char| c == '/' || c == ' ' || c == ','
}

/// A path has one piece more than it has separators, and no piece holds one.
pub proof fn a_path_is_parted_at_its_separators(s: Seq<char>)
    ensures
        text::pieces(s).len() == s.filter(parting()).len() + 1,
        forall|i: int, k: int|
            #![trigger text::pieces(s)[i][k]]
            0 <= i < text::pieces(s).len() && 0 <= k < text::pieces(s)[i].len()
                ==> text::pieces(s)[i][k] != '/' && text::pieces(s)[i][k] != ' '
                && text::pieces(s)[i][k] != ',',
    decreases s.len(),
{
    reveal(Seq::filter);
    if s.len() > 0 {
        let rest = s.drop_last();
        a_path_is_parted_at_its_separators(rest);
        let (before, all) = (text::pieces(rest), text::pieces(s));
        assert forall|i: int, k: int|
            #![trigger all[i][k]]
            0 <= i < all.len() && 0 <= k < all[i].len() implies all[i][k] != '/' && all[i][k]
            != ' ' && all[i][k] != ',' by {
            if i < before.len() - 1 || (i < before.len() && k < before[i].len()) {
                assert(all[i][k] == before[i][k]);
            }
        }
    }
}

/// Text without a separator is one piece, itself.
pub proof fn a_word_is_one_piece(s: Seq<char>)
    requires
        forall|i: int|
            0 <= i < s.len() ==> #[trigger] s[i] != '/' && s[i] != ' ' && s[i] != ',',
    ensures
        text::pieces(s) == seq![s],
    decreases s.len(),
{
    if s.len() > 0 {
        let rest = s.drop_last();
        assert forall|i: int| 0 <= i < rest.len() implies #[trigger] rest[i] != '/' && rest[i]
            != ' ' && rest[i] != ',' by {
            assert(rest[i] == s[i]);
        }
        a_word_is_one_piece(rest);
        assert(s.last() == s[s.len() - 1]);
        assert(rest.push(s.last()) =~= s);
        assert(text::pieces(s) =~= seq![s]);
    } else {
        assert(s =~= Seq::empty());
    }
}

proof fn lemma_decimal(n: nat)
    ensures
        at::decimal(n).len() > 0,
        percent::all_digits(at::decimal(n)),
        percent::number(at::decimal(n)) == n,
    decreases n,
{
    reveal_with_fuel(percent::number, 2);
    let s = at::decimal(n);
    if n < 10 {
        assert(s.drop_last() =~= Seq::empty());
    } else {
        lemma_decimal(n / 10);
        let before = at::decimal(n / 10);
        assert(s.drop_last() =~= before);
        assert forall|i: int| 0 <= i < s.len() implies percent::is_digit(#[trigger] s[i]) by {
            if i < before.len() {
                assert(s[i] == before[i]);
            }
        }
    }
}

/// A whole number written in digits reads back as the number it is.
pub proof fn a_number_reads_as_it_was_written(n: nat)
    ensures
        at::decimal(n).len() > 0,
        percent::all_digits(at::decimal(n)),
        percent::number(at::decimal(n)) == n,
{
    lemma_decimal(n);
}

proof fn lemma_whole(digits: Seq<char>, q: int)
    requires
        percent::all_digits(digits),
        0 <= q <= digits.len(),
    ensures
        percent::whole(digits, q) == percent::number(digits.take(q)),
    decreases q,
{
    if q > 0 {
        lemma_whole(digits, q - 1);
        let s = digits.take(q);
        assert(s.drop_last() =~= digits.take(q - 1));
        assert(s.last() == digits[q - 1]);
        assert(percent::is_digit(digits[q - 1]));
    } else {
        assert(digits.take(0) =~= Seq::empty());
    }
}

proof fn lemma_absent(s: Seq<char>, c: char)
    requires
        forall|i: int| 0 <= i < s.len() ==> #[trigger] s[i] != c,
    ensures
        text::place_of(s, c) == s.len(),
{
    a_character_is_found_where_it_first_stands(s, c);
    let at = text::place_of(s, c) as int;
    if at < s.len() {
        assert(s[at] == c);
    }
}

/// A run of digits, with or without a point in it, is trimmed, signed and
/// lowered into itself, and has no exponent.
proof fn lemma_plain(s: Seq<char>)
    requires
        s.len() > 0,
        percent::is_digit(s[0]),
        percent::is_digit(s[s.len() - 1]),
        forall|i: int| 0 <= i < s.len() ==> percent::is_digit(#[trigger] s[i]) || s[i] == '.',
    ensures
        text::trimmed(s) == s,
        percent::unsigned(s) == s,
        !percent::negative(s),
        text::lowered(s) == s,
        s != "nan"@,
        s != "inf"@,
        s != "infinity"@,
        percent::exponent_at(s) == s.len(),
        percent::exponent_of(s) == Some(0int),
        s.take(s.len() as int) == s,
{
    reveal_strlit("nan");
    reveal_strlit("inf");
    reveal_strlit("infinity");
    assert(!text::is_white(s[0]) && !text::is_white(s[s.len() - 1]));
    assert(text::lowered(s) =~= s) by {
        assert forall|i: int| 0 <= i < s.len() implies text::small(#[trigger] s[i]) == s[i] by {}
    }
    lemma_absent(s, 'e');
    lemma_absent(s, 'E');
    assert(s.take(s.len() as int) =~= s);
    assert("nan"@[0] == 'n' && "inf"@[0] == 'i' && "infinity"@[0] == 'i');
}

/// A share in whole hundredths is read as it is written, however many digits it
/// has, and brought into the range a share may name.
pub proof fn a_whole_share_is_read_as_it_is_written(n: nat)
    ensures
        percent::share_of(at::decimal(n)) == Some(
            (if n < 5 {
                50_000nat
            } else if n > 95 {
                950_000
            } else {
                n * 10_000
            }) as u32,
        ),
{
    let s = at::decimal(n);
    lemma_decimal(n);
    assert(percent::is_digit(s[0]) && percent::is_digit(s[s.len() - 1]));
    lemma_plain(s);
    lemma_absent(s, '.');
    assert(percent::digits_of(s) == s);
    let len = s.len() as int;
    lemma_whole(s, len);
    reveal_with_fuel(percent::whole, 6);
    assert(percent::rounded(s, len + 4) == 10_000 * n);
}

/// A share in tenths of a hundredth is read to the tenth.
pub proof fn a_share_is_read_to_the_tenth(n: nat, tenth: char)
    requires
        5 <= n < 95,
        '0' <= tenth <= '9',
    ensures
        percent::share_of(at::decimal(n) + seq!['.', tenth]) == Some(
            (n * 10_000 + (tenth as int - '0' as int) * 1_000) as u32,
        ),
{
    let whole = at::decimal(n);
    lemma_decimal(n);
    let s = whole + seq!['.', tenth];
    let len = whole.len() as int;
    assert(s[0] == whole[0] && s[len] == '.' && s[len + 1] == tenth);
    assert forall|i: int| 0 <= i < s.len() implies percent::is_digit(#[trigger] s[i]) || s[i]
        == '.' by {
        if i < len {
            assert(s[i] == whole[i]);
        }
    }
    lemma_plain(s);
    a_character_is_found_where_it_first_stands(s, '.');
    let point = text::place_of(s, '.') as int;
    if point < len {
        assert(s[point] == whole[point]);
        assert(percent::is_digit(whole[point]));
    }
    assert(point == len);
    let digits = percent::digits_of(s);
    assert(digits =~= whole.push(tenth));
    assert(percent::all_digits(digits)) by {
        assert forall|i: int| 0 <= i < digits.len() implies percent::is_digit(
            #[trigger] digits[i],
        ) by {
            if i < len {
                assert(digits[i] == whole[i]);
            }
        }
    }
    lemma_whole(digits, len);
    assert(digits.take(len) =~= whole);
    reveal_with_fuel(percent::whole, 6);
    assert(percent::rounded(digits, len + 4) == 10_000 * n + 1_000 * (tenth as int - '0' as int));
}

/// Whatever is written, a share that is read is none at all or in the range one
/// may name, and a negative number is the least.
pub proof fn a_share_is_brought_into_range(written: Seq<char>)
    ensures
        percent::share_of(written) matches Some(share) ==> share == 0 || 50_000 <= share
            <= 950_000,
        percent::negative(text::trimmed(written)) ==> match percent::share_of(written) {
            Some(share) => share == 0 || share == 50_000,
            None => true,
        },
        text::trimmed(written).len() == 0 ==> percent::share_of(written) is None,
{
    reveal_strlit("nan");
    reveal_strlit("inf");
    reveal_strlit("infinity");
    let s = text::trimmed(written);
    if s.len() == 0 {
        assert(text::lowered(percent::unsigned(s)).len() == 0);
    }
}

/// A share is written as the whole number of hundredths nearest to it.
pub proof fn a_share_is_written_as_the_nearest_hundredth(share: nat)
    ensures
        -5_000 <= at::hundredths(share) * 10_000 - share <= 5_000,
        share % 10_000 == 0 ==> at::hundredths(share) * 10_000 == share,
{
}

/// A side goes by its short names too, in either case and with space around
/// them.
pub proof fn a_side_goes_by_its_short_names(word: Seq<char>)
    ensures
        ({
            let plain = text::lowered(text::trimmed(word));
            let side = Side::named(word);
            &&& plain == "left"@ || plain == "l"@ ==> side == Some(Side::Left)
            &&& plain == "right"@ || plain == "r"@ ==> side == Some(Side::Right)
            &&& plain == "top"@ || plain == "t"@ || plain == "up"@ ==> side == Some(Side::Top)
            &&& plain == "bottom"@ || plain == "b"@ || plain == "down"@ ==> side == Some(
                Side::Bottom,
            )
            &&& plain.len() == 0 ==> side is None
        }),
{
    reveal_strlit("left");
    reveal_strlit("l");
    reveal_strlit("right");
    reveal_strlit("r");
    reveal_strlit("top");
    reveal_strlit("t");
    reveal_strlit("up");
    reveal_strlit("bottom");
    reveal_strlit("b");
    reveal_strlit("down");
    assert("left"@[0] == 'l' && "l"@[0] == 'l' && "right"@[0] == 'r' && "r"@[0] == 'r' && "top"@[0]
        == 't' && "t"@[0] == 't' && "up"@[0] == 'u' && "bottom"@[0] == 'b' && "b"@[0] == 'b'
        && "down"@[0] == 'd');
    assert(Side::Left != Side::Right);
}

/// A placement is a path before the `@` and a share after it, and with no `@`
/// its box is sized by what it holds. Without a path, or with what does not
/// read, there is no placement.
pub proof fn a_placement_is_a_path_and_a_share(path: Seq<char>, share: Seq<char>)
    requires
        forall|i: int| 0 <= i < path.len() ==> #[trigger] path[i] != '@',
    ensures
        at::placed_at(path) == (match at::path_of(path) {
            Some(cuts) => Some((cuts, 0u32)),
            None => None,
        }),
        at::placed_at(path + seq!['@'] + share) == (match (
            at::path_of(path),
            percent::share_of(share),
        ) {
            (Some(cuts), Some(share)) => Some((cuts, share)),
            _ => None,
        }),
{
    lemma_absent(path, '@');
    assert(path.take(path.len() as int) =~= path);
    let spec = path + seq!['@'] + share;
    a_character_is_found_where_it_first_stands(spec, '@');
    let at = text::place_of(spec, '@') as int;
    assert(spec[path.len() as int] == '@');
    if at < path.len() {
        assert(spec[at] == path[at]);
    }
    assert(at == path.len());
    assert(spec.take(at) =~= path);
    assert(spec.skip(at + 1) =~= share);
}

/// A path of one word is the one cut that word names, and a path with a word
/// that names none is no path.
pub proof fn a_path_of_one_word_is_one_cut(word: Seq<char>)
    requires
        forall|i: int|
            0 <= i < word.len() ==> #[trigger] word[i] != '/' && word[i] != ' ' && word[i] != ',',
        text::trimmed(word).len() > 0,
    ensures
        at::path_of(word) == (match Side::named(word) {
            Some(side) => Some(seq![side]),
            None => None,
        }),
{
    a_word_is_one_piece(word);
    reveal_with_fuel(at::sides_of, 2);
    if let Some(side) = Side::named(word) {
        assert(Seq::<Side>::empty().push(side) =~= seq![side]);
    }
}

proof fn lemma_sides_alike(words: Seq<Seq<char>>, more: Seq<Seq<char>>, n: nat)
    requires
        n <= words.len() <= more.len(),
        forall|i: int| 0 <= i < n ==> words[i] == more[i],
    ensures
        at::sides_of(words, n) == at::sides_of(more, n),
    decreases n,
{
    if n > 0 {
        lemma_sides_alike(words, more, (n - 1) as nat);
    }
}

/// A separator at the end of a path names nothing, so it changes nothing.
pub proof fn a_separator_at_the_end_changes_nothing(path: Seq<char>, c: char)
    requires
        c == '/' || c == ' ' || c == ',',
    ensures
        at::path_of(path.push(c)) == at::path_of(path),
{
    let (words, none) = (text::pieces(path), Seq::<char>::empty());
    assert(path.push(c).drop_last() =~= path);
    assert(text::pieces(path.push(c)) =~= words.push(none));
    lemma_sides_alike(words, words.push(none), words.len());
    assert(text::trimmed_start(none) == none && text::trimmed_end(none) == none);
    assert(text::trimmed(none).len() == 0);
}

proof fn lemma_sides_read(words: Seq<Seq<char>>, n: nat)
    requires
        n <= words.len(),
    ensures
        at::sides_of(words, n) is Some <==> forall|i: int|
            0 <= i < n ==> text::trimmed(#[trigger] words[i]).len() == 0 || Side::named(
                words[i],
            ) is Some,
    decreases n,
{
    if n > 0 {
        lemma_sides_read(words, (n - 1) as nat);
        assert(words[n - 1] == words[n - 1]);
    }
}

/// A path is read whole or not at all: where a word of it is no side, none of it
/// counts.
pub proof fn a_path_is_read_whole_or_not_at_all(path: Seq<char>, i: int)
    requires
        0 <= i < text::pieces(path).len(),
        text::trimmed(text::pieces(path)[i]).len() > 0,
    ensures
        Side::named(text::pieces(path)[i]) is None ==> at::path_of(path) is None,
{
    let words = text::pieces(path);
    lemma_sides_read(words, words.len());
}

} // verus!
