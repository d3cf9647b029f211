//! Splitting a command line into words.

use vstd::prelude::*;
use vstd::utf8::{encode_scalar, encode_utf8};

use crate::os_text::{texts, OsText};

verus! {

/// The characters with the Unicode property `White_Space`.
pub open spec fn white_space(c: char) -> bool {
    ||| '\u{9}' <= c <= '\u{d}'
    ||| c == '\u{20}'
    ||| c == '\u{85}'
    ||| c == '\u{a0}'
    ||| c == '\u{1680}'
    ||| '\u{2000}' <= c <= '\u{200a}'
    ||| c == '\u{2028}'
    ||| c == '\u{2029}'
    ||| c == '\u{202f}'
    ||| c == '\u{205f}'
    ||| c == '\u{3000}'
}

/// Whether `c` is white space.
fn is_white_space(c: char) -> (blank: bool)
    ensures
        blank == white_space(c),
{
    let code: u32 = c as u32;
    (0x9 <= code && code <= 0xd) || code == 0x20 || code == 0x85 || code == 0xa0 || code == 0x1680
        || (0x2000 <= code && code <= 0x200a) || code == 0x2028 || code == 0x2029 || code == 0x202f
        || code == 0x205f || code == 0x3000
}

/// How many characters at the front of `line` are no white space.
pub open spec fn word_len(line: Seq<char>) -> nat
    decreases line.len(),
{
    if line.len() == 0 || white_space(line[0]) {
        0
    } else {
        1 + word_len(line.skip(1))
    }
}

/// The words of `line`: the longest runs of characters that are no white
/// space, from left to right. Quotes and backslashes mean nothing special.
pub open spec fn words(line: Seq<char>) -> Seq<Seq<char>>
    decreases line.len(),
{
    if line.len() == 0 {
        Seq::empty()
    } else if white_space(line[0]) {
        words(line.skip(1))
    } else {
        proof {
            lemma_word_len(line);
        }
        let n = word_len(line) as int;
        seq![line.take(n)] + words(line.skip(n))
    }
}

/// The UTF-8 encoding of each word.
pub open spec fn encoded(list: Seq<Seq<char>>) -> Seq<Seq<u8>> {
    list.map_values(|w: Seq<char>| encode_utf8(w))
}

/// A word begun as a list of words: none if it is still empty.
spec fn begun(word: Seq<char>) -> Seq<Seq<char>> {
    if word.len() == 0 {
        Seq::empty()
    } else {
        seq![word]
    }
}

/// The words still to come when `word` has been begun and `rest` follows.
spec fn words_from(word: Seq<char>, rest: Seq<char>) -> Seq<Seq<char>>
    decreases rest.len(),
{
    if rest.len() == 0 {
        begun(word)
    } else if white_space(rest[0]) {
        begun(word) + words_from(Seq::empty(), rest.skip(1))
    } else {
        words_from(word.push(rest[0]), rest.skip(1))
    }
}

/// The length of a word stays within the line.
pub proof fn lemma_word_len(line: Seq<char>)
    ensures
        word_len(line) <= line.len(),
        forall|i: int| 0 <= i < word_len(line) ==> !white_space(#[trigger] line[i]),
        word_len(line) < line.len() ==> white_space(line[word_len(line) as int]),
    decreases line.len(),
{
    if line.len() > 0 && !white_space(line[0]) {
        let rest = line.skip(1);
        lemma_word_len(rest);
        assert forall|i: int| 0 <= i < word_len(line) implies !white_space(#[trigger] line[i]) by {
            if i > 0 {
                assert(rest[i - 1] == line[i]);
            }
        }
        if word_len(line) < line.len() {
            assert(rest[word_len(rest) as int] == line[word_len(line) as int]);
        }
    }
}

/// Reading character by character finds the words.
proof fn lemma_words_from(word: Seq<char>, rest: Seq<char>)
    ensures
        word.len() == 0 ==> words_from(word, rest) == words(rest),
        word.len() > 0 ==> words_from(word, rest) == seq![word + rest.take(word_len(rest) as int)]
            + words(rest.skip(word_len(rest) as int)),
    decreases rest.len(),
{
    lemma_word_len(rest);
    let n = word_len(rest) as int;
    if rest.len() == 0 {
        assert(word + rest.take(n) == word);
        assert(begun(word) == seq![word] + words(rest.skip(n)) || word.len() == 0);
    } else if white_space(rest[0]) {
        lemma_words_from(Seq::empty(), rest.skip(1));
        assert(word + rest.take(0) == word);
        assert(rest.skip(0) == rest);
        assert(begun(Seq::empty()) + words(rest.skip(1)) == words(rest.skip(1)));
    } else {
        let next = word.push(rest[0]);
        lemma_words_from(next, rest.skip(1));
        assert(next + rest.skip(1).take(n - 1) == word + rest.take(n));
        assert(rest.skip(1).skip(n - 1) == rest.skip(n));
        if word.len() == 0 {
            assert(word + rest.take(n) == rest.take(n));
        }
    }
}

/// Encoding one more character appends its encoding.
proof fn lemma_encode_push(word: Seq<char>, c: char)
    ensures
        encode_utf8(word.push(c)) == encode_utf8(word) + encode_scalar(c as u32),
    decreases word.len(),
{
    let longer = word.push(c);
    if word.len() == 0 {
        assert(longer.drop_first() == Seq::<char>::empty());
        assert(encode_utf8(longer.drop_first()) == Seq::<u8>::empty());
        assert(encode_utf8(longer) == encode_utf8(word) + encode_scalar(c as u32));
    } else {
        lemma_encode_push(word.drop_first(), c);
        assert(longer.drop_first() == word.drop_first().push(c));
        assert(encode_utf8(longer) == encode_utf8(word) + encode_scalar(c as u32));
    }
}

/// How many bytes encode a character.
fn encoded_width(c: char) -> (width: usize)
    ensures
        width == encode_scalar(c as u32).len(),
{
    proof {
        vstd::utf8::char_is_scalar(c);
    }
    let code: u32 = c as u32;
    if code < 0x80 {
        1
    } else if code < 0x800 {
        2
    } else if code < 0x10000 {
        3
    } else {
        4
    }
}

/// Splits `line` on white space. Nothing else separates words, and quoting
/// is not interpreted.
pub fn split_words(line: &str) -> (found: Vec<OsText>)
    ensures
        texts(found@) == encoded(words(line@)),
{
    let bytes: &[u8] = line.as_bytes();
    let total: usize = bytes.len();
    let mut found: Vec<OsText> = Vec::new();
    let mut word: Vec<u8> = Vec::new();
    let mut begun_word: bool = false;
    let mut at: usize = 0;
    let ghost mut chars: Seq<char> = Seq::empty();
    let ghost mut done: Seq<Seq<char>> = Seq::empty();
    proof {
        lemma_words_from(Seq::empty(), line@);
        assert(line@.skip(0) == line@);
        assert(bytes@.skip(0) == bytes@);
        assert(texts(found@) == encoded(done));
        assert(done + words_from(chars, line@) == words(line@));
    }
    for c in it: line.chars()
        invariant
            it.seq() == line@,
            total == bytes@.len(),
            at <= total,
            bytes@.skip(at as int) == encode_utf8(line@.skip(it.index())),
            word@ == encode_utf8(chars),
            begun_word == (chars.len() > 0),
            texts(found@) == encoded(done),
            done + words_from(chars, line@.skip(it.index())) == words(line@),
    {
        let ghost rest = line@.skip(it.index());
        let width: usize = encoded_width(c);
        proof {
            assert(rest[0] == c);
            assert(rest.drop_first() == rest.skip(1));
            assert(rest.skip(1) == line@.skip(it.index() + 1));
            let tail = bytes@.skip(at as int);
            assert(tail == encode_scalar(c as u32) + encode_utf8(rest.skip(1)));
            assert(width <= tail.len());
            assert(tail.take(width as int) == encode_scalar(c as u32));
            assert(bytes@.skip(at + width) == encode_utf8(rest.skip(1))) by {
                assert(tail.skip(width as int) == encode_utf8(rest.skip(1)));
                assert(tail.skip(width as int) == bytes@.skip(at + width));
            }
        }
        if is_white_space(c) {
            if begun_word {
                let ghost next = done.push(chars);
                let ghost listed = texts(found@);
                found.push(OsText::from_bytes(word));
                word = Vec::new();
                begun_word = false;
                proof {
                    assert(texts(found@) == listed.push(encode_utf8(chars)));
                    assert(encoded(next) == encoded(done).push(encode_utf8(chars)));
                    assert(done + (begun(chars) + words_from(Seq::empty(), rest.skip(1))) == next
                        + words_from(Seq::empty(), rest.skip(1)));
                    done = next;
                    chars = Seq::empty();
                }
            } else {
                proof {
                    assert(chars == Seq::<char>::empty());
                    assert(begun(chars) + words_from(Seq::empty(), rest.skip(1)) == words_from(
                        Seq::empty(),
                        rest.skip(1),
                    ));
                }
            }
        } else {
            proof {
                lemma_encode_push(chars, c);
                assert(bytes@.subrange(at as int, at + width) == bytes@.skip(at as int).take(
                    width as int,
                ));
                chars = chars.push(c);
            }
            word.extend_from_slice(vstd::slice::slice_subrange(bytes, at, at + width));
            begun_word = true;
        }
        at += width;
    }
    proof {
        assert(line@.skip(line@.len() as int) == Seq::<char>::empty());
    }
    if begun_word {
        let ghost listed = texts(found@);
        found.push(OsText::from_bytes(word));
        assert(texts(found@) == listed.push(encode_utf8(chars)));
        assert(encoded(done.push(chars)) == encoded(done).push(encode_utf8(chars)));
        assert(done + begun(chars) == done.push(chars));
    } else {
        assert(done + begun(chars) == done);
    }
    found
}

/// Every word has a character, and none of its characters is white space.
pub proof fn law_words_are_unbroken(line: Seq<char>)
    ensures
        forall|i: int| 0 <= i < words(line).len() ==> (#[trigger] words(line)[i]).len() > 0,
        forall|i: int, j: int|
            0 <= i < words(line).len() && 0 <= j < words(line)[i].len() ==> !white_space(
                #[trigger] words(line)[i][j],
            ),
    decreases line.len(),
{
    if line.len() > 0 {
        if white_space(line[0]) {
            law_words_are_unbroken(line.skip(1));
            assert(words(line) == words(line.skip(1)));
        } else {
            lemma_word_len(line);
            let n = word_len(line) as int;
            let first = line.take(n);
            let rest = words(line.skip(n));
            law_words_are_unbroken(line.skip(n));
            assert forall|i: int| 0 <= i < words(line).len() implies (#[trigger] words(
                line,
            )[i]).len() > 0 by {
                assert(words(line)[i] == if i == 0 {
                    first
                } else {
                    rest[i - 1]
                });
            }
            assert forall|i: int, j: int|
                0 <= i < words(line).len() && 0 <= j < words(line)[i].len() implies !white_space(
                #[trigger] words(line)[i][j],
            ) by {
                if i == 0 {
                    assert(words(line)[0][j] == line[j]);
                } else {
                    assert(words(line)[i] == rest[i - 1]);
                    assert(!white_space(rest[i - 1][j]));
                }
            }
        }
    } else {
        assert(words(line).len() == 0);
    }
}

/// The words, written one after the other, are the line without its white
/// space: no other character is lost, changed or moved.
pub proof fn law_words_keep_the_rest(line: Seq<char>)
    ensures
        words(line).flatten() == line.filter(|c: char| !white_space(c)),
    decreases line.len(),
{
    let keep = |c: char| !white_space(c);
    reveal_with_fuel(Seq::filter, 2);
    if line.len() == 0 {
        assert(words(line).flatten() == line.filter(keep));
    } else if white_space(line[0]) {
        law_words_keep_the_rest(line.skip(1));
        lemma_filter_split(line, 1, keep);
        assert(line.take(1).drop_last() == Seq::<char>::empty());
        assert(line.take(1).last() == line[0]);
        assert(line.take(1).filter(keep) == Seq::<char>::empty());
        assert(line.filter(keep) == line.skip(1).filter(keep));
    } else {
        lemma_word_len(line);
        let n = word_len(line) as int;
        law_words_keep_the_rest(line.skip(n));
        lemma_filter_split(line, n, keep);
        lemma_filter_all(line.take(n), keep);
        let list = seq![line.take(n)] + words(line.skip(n));
        assert(list.drop_first() == words(line.skip(n)));
        assert(list.flatten() == line.take(n) + words(line.skip(n)).flatten());
    }
}

/// Filtering a line is filtering its two parts.
proof fn lemma_filter_split(line: Seq<char>, n: int, keep: spec_fn(char) -> bool)
    requires
        0 <= n <= line.len(),
    ensures
        line.filter(keep) == line.take(n).filter(keep) + line.skip(n).filter(keep),
{
    assert(line.take(n) + line.skip(n) == line);
    Seq::filter_distributes_over_add(line.take(n), line.skip(n), keep);
}

/// Filtering keeps a line of which every character is kept.
proof fn lemma_filter_all(line: Seq<char>, keep: spec_fn(char) -> bool)
    requires
        forall|i: int| 0 <= i < line.len() ==> keep(#[trigger] line[i]),
    ensures
        line.filter(keep) == line,
    decreases line.len(),
{
    reveal(Seq::filter);
    if line.len() > 0 {
        lemma_filter_all(line.drop_last(), keep);
        assert(line.drop_last().push(line.last()) == line);
    }
}

/// A line without white space is one word, however long it is, and a line
/// without characters has none.
pub proof fn law_unbroken_line_is_one_word(line: Seq<char>)
    requires
        forall|i: int| 0 <= i < line.len() ==> !white_space(#[trigger] line[i]),
    ensures
        line.len() > 0 ==> words(line) == seq![line],
        line.len() == 0 ==> words(line) == Seq::<Seq<char>>::empty(),
{
    if line.len() > 0 {
        lemma_word_len(line);
        let n = word_len(line) as int;
        assert(n == line.len());
        assert(line.take(n) == line);
        assert(line.skip(n) == Seq::<char>::empty());
        assert(words(line) == seq![line] + words(Seq::<char>::empty()));
    }
}

/// What follows a word does not change its length, if it is separated.
proof fn lemma_word_len_before(line: Seq<char>, tail: Seq<char>)
    requires
        tail.len() > 0,
        white_space(tail[0]),
    ensures
        word_len(line + tail) == word_len(line),
    decreases line.len(),
{
    if line.len() == 0 {
        assert(line + tail == tail);
    } else {
        assert((line + tail)[0] == line[0]);
        assert((line + tail).skip(1) == line.skip(1) + tail);
        if !white_space(line[0]) {
            lemma_word_len_before(line.skip(1), tail);
        }
    }
}

/// White space separates, and nothing else does: the words of a line are
/// those before a white space character and those after it, wherever that
/// character stands.
pub proof fn law_white_space_separates(before: Seq<char>, c: char, after: Seq<char>)
    requires
        white_space(c),
    ensures
        words(before + seq![c] + after) == words(before) + words(after),
    decreases before.len(),
{
    let line = before + seq![c] + after;
    let tail = seq![c] + after;
    assert(line == before + tail);
    if before.len() == 0 {
        assert(line.skip(1) == after);
        assert(words(before) + words(after) == words(after));
    } else if white_space(before[0]) {
        assert(line.skip(1) == before.skip(1) + seq![c] + after);
        law_white_space_separates(before.skip(1), c, after);
    } else {
        lemma_word_len(before);
        lemma_word_len_before(before, tail);
        let n = word_len(before) as int;
        let rest = before.skip(n);
        assert(line.take(n) == before.take(n));
        assert(line.skip(n) == rest + seq![c] + after);
        law_white_space_separates(rest, c, after);
        assert(seq![before.take(n)] + (words(rest) + words(after)) == (seq![before.take(n)]
            + words(rest)) + words(after));
    }
}

/// Every word is encoded, and nothing else.
pub proof fn law_every_word_is_encoded(list: Seq<Seq<char>>)
    ensures
        encoded(list).len() == list.len(),
        forall|i: int| 0 <= i < list.len() ==> #[trigger] encoded(list)[i] == encode_utf8(list[i]),
{
}

} // verus!
