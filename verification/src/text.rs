//! The character-level model of word counting.
//!
//! A *word* is a maximal run of non-whitespace characters within one line.
//! The spec functions here define, over a `Seq<char>`, how many words a line
//! holds, and the lemmas relate that number across concatenation at
//! whitespace boundaries: however a text is chunked into lines at newline
//! boundaries, the total number of words is the same.

use vstd::prelude::*;
use vstd::string::StrSliceExecFns;

verus! {

/// The characters with the Unicode `White_Space` property: exactly the
/// characters on which a line is split into words.
pub open spec fn is_whitespace(c: char) -> bool {
    ||| c as u32 == 0x09
    ||| c as u32 == 0x0A
    ||| c as u32 == 0x0B
    ||| c as u32 == 0x0C
    ||| c as u32 == 0x0D
    ||| c as u32 == 0x20
    ||| c as u32 == 0x85
    ||| c as u32 == 0xA0
    ||| c as u32 == 0x1680
    ||| (0x2000 <= c as u32 && c as u32 <= 0x200A)
    ||| c as u32 == 0x2028
    ||| c as u32 == 0x2029
    ||| c as u32 == 0x202F
    ||| c as u32 == 0x205F
    ||| c as u32 == 0x3000
}

/// A word starts at position `i` when `i` holds a non-whitespace character
/// that is not preceded by another non-whitespace character.
pub open spec fn starts_word(s: Seq<char>, i: int) -> bool {
    &&& 0 <= i < s.len()
    &&& !is_whitespace(s[i])
    &&& (i == 0 || is_whitespace(s[i - 1]))
}

/// How many words start strictly before position `n`.
pub open spec fn word_count_up_to(s: Seq<char>, n: int) -> nat
    decreases n,
{
    if n <= 0 {
        0
    } else {
        word_count_up_to(s, n - 1) + (if starts_word(s, n - 1) {
            1nat
        } else {
            0nat
        })
    }
}

/// The number of words in one line: the number of maximal runs of
/// non-whitespace characters in `s`.
pub open spec fn word_count(s: Seq<char>) -> nat {
    word_count_up_to(s, s.len() as int)
}

/// The total number of words across a sequence of lines.
pub open spec fn total_words(lines: Seq<Seq<char>>) -> nat
    decreases lines.len(),
{
    if lines.len() == 0 {
        0
    } else {
        word_count(lines[0]) + total_words(lines.drop_first())
    }
}

/// The text that a sequence of lines stands for: the lines joined by a
/// newline between each adjacent pair.
pub open spec fn join_lines(lines: Seq<Seq<char>>) -> Seq<char>
    decreases lines.len(),
{
    if lines.len() == 0 {
        Seq::empty()
    } else if lines.len() == 1 {
        lines[0]
    } else {
        lines[0] + seq!['\n'] + join_lines(lines.drop_first())
    }
}

proof fn lemma_up_to_prefix(a: Seq<char>, b: Seq<char>, c: char, n: int)
    requires
        0 <= n <= a.len(),
    ensures
        word_count_up_to(a + seq![c] + b, n) == word_count_up_to(a, n),
    decreases n,
{
    if n > 0 {
        lemma_up_to_prefix(a, b, c, n - 1);
        let s = a + seq![c] + b;
        assert(s[n - 1] == a[n - 1]);
        if n >= 2 {
            assert(s[n - 2] == a[n - 2]);
        }
        assert(starts_word(s, n - 1) == starts_word(a, n - 1));
    }
}

proof fn lemma_up_to_concat(a: Seq<char>, b: Seq<char>, c: char, j: int)
    requires
        is_whitespace(c),
        0 <= j <= b.len(),
    ensures
        word_count_up_to(a + seq![c] + b, a.len() + 1 + j) == word_count(a) + word_count_up_to(
            b,
            j,
        ),
    decreases j,
{
    let s = a + seq![c] + b;
    if j == 0 {
        lemma_up_to_prefix(a, b, c, a.len() as int);
        assert(s[a.len() as int] == c);
        assert(!starts_word(s, a.len() as int));
    } else {
        lemma_up_to_concat(a, b, c, j - 1);
        let idx = a.len() as int + 1 + (j - 1);
        assert(s[idx] == b[j - 1]);
        if j == 1 {
            assert(s[idx - 1] == c);
        } else {
            assert(s[idx - 1] == b[j - 2]);
        }
        assert(starts_word(s, idx) == starts_word(b, j - 1));
    }
}

/// Splitting a text at a whitespace character splits its words: no word
/// crosses the separator, so the two sides count independently.
pub proof fn lemma_word_count_split(a: Seq<char>, b: Seq<char>, c: char)
    requires
        is_whitespace(c),
    ensures
        word_count(a + seq![c] + b) == word_count(a) + word_count(b),
{
    lemma_up_to_concat(a, b, c, b.len() as int);
    assert((a + seq![c] + b).len() == a.len() + 1 + b.len());
}

/// The word count does not depend on how a text is chunked into lines:
/// counting each line of a chunking separately and adding the counts gives
/// the word count of the joined text.
pub proof fn lemma_count_independent_of_chunking(lines: Seq<Seq<char>>)
    ensures
        total_words(lines) == word_count(join_lines(lines)),
    decreases lines.len(),
{
    if lines.len() == 0 {
        assert(join_lines(lines) == Seq::<char>::empty());
        assert(word_count(Seq::<char>::empty()) == 0);
    } else if lines.len() == 1 {
        assert(lines.drop_first() =~= Seq::<Seq<char>>::empty());
        assert(total_words(Seq::<Seq<char>>::empty()) == 0);
        assert(join_lines(lines) == lines[0]);
    } else {
        lemma_count_independent_of_chunking(lines.drop_first());
        assert(is_whitespace('\n'));
        lemma_word_count_split(lines[0], join_lines(lines.drop_first()), '\n');
        assert(join_lines(lines) == lines[0] + seq!['\n'] + join_lines(lines.drop_first()));
    }
}

proof fn lemma_up_to_all_whitespace(s: Seq<char>, n: int)
    requires
        forall|i: int| 0 <= i < s.len() ==> is_whitespace(s[i]),
        0 <= n <= s.len(),
    ensures
        word_count_up_to(s, n) == 0,
    decreases n,
{
    if n > 0 {
        lemma_up_to_all_whitespace(s, n - 1);
        assert(!starts_word(s, n - 1));
    }
}

/// A text of nothing but whitespace holds no words.
pub proof fn lemma_whitespace_only_has_no_words(s: Seq<char>)
    requires
        forall|i: int| 0 <= i < s.len() ==> is_whitespace(s[i]),
    ensures
        word_count(s) == 0,
{
    lemma_up_to_all_whitespace(s, s.len() as int);
}

/// Whether `c` is a word separator.
pub fn whitespace_char(c: char) -> (r: bool)
    ensures
        r == is_whitespace(c),
{
    let u = c as u32;
    u == 0x09 || u == 0x0A || u == 0x0B || u == 0x0C || u == 0x0D || u == 0x20 || u == 0x85
        || u == 0xA0 || u == 0x1680 || (0x2000 <= u && u <= 0x200A) || u == 0x2028 || u == 0x2029
        || u == 0x202F || u == 0x205F || u == 0x3000
}

/// Count the words of one line: a single left-to-right scan that adds one
/// at each position where a word starts.
pub fn line_word_count(line: &str) -> (n: usize)
    ensures
        n == word_count(line@),
        n <= line@.len(),
{
    let len = line.unicode_len();
    let mut n: usize = 0;
    let mut prev_ws = true;
    let mut i: usize = 0;
    while i < len
        invariant
            0 <= i <= len,
            len == line@.len(),
            prev_ws == (i == 0 || is_whitespace(line@[i as int - 1])),
            n == word_count_up_to(line@, i as int),
            n <= i,
        decreases len - i,
    {
        let c = line.get_char(i);
        let ws = whitespace_char(c);
        if !ws && prev_ws {
            n = n + 1;
        }
        prev_ws = ws;
        i = i + 1;
    }
    n
}

} // verus!
