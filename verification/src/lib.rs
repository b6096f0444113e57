//! A word-counting library in the manner of `wc -w`.
//!
//! The heart of the crate is [`wordcounter::count_words`]: it consumes the
//! line events of one text source and returns the number of
//! whitespace-delimited words, or a classified error. The module [`text`]
//! holds the character-level model that the contracts are stated over.

use vstd::prelude::*;

pub mod text;
pub mod wordcounter;

verus! {

/// Count the words across the given lines.
///
/// The result is the total over all lines of the number of maximal
/// non-whitespace runs in each line.
pub fn count_words(lines: &Vec<String>) -> (n: u32)
    requires
        crate::text::total_words(lines@.map_values(|l: String| l@)) <= u32::MAX,
    ensures
        n == crate::text::total_words(lines@.map_values(|l: String| l@)),
{
    let ghost all: Seq<Seq<char>> = lines@.map_values(|l: String| l@);
    let mut n: u32 = 0;
    let mut i: usize = 0;
    proof {
        assert(all.subrange(0, all.len() as int) =~= all);
    }
    while i < lines.len()
        invariant
            0 <= i <= lines.len(),
            all == lines@.map_values(|l: String| l@),
            n + crate::text::total_words(all.subrange(i as int, all.len() as int))
                == crate::text::total_words(all),
            crate::text::total_words(all) <= u32::MAX,
        decreases lines.len() - i,
    {
        let ghost rest = all.subrange(i as int, all.len() as int);
        proof {
            assert(rest[0] == all[i as int]);
            assert(rest.drop_first() =~= all.subrange(i as int + 1, all.len() as int));
            assert(crate::text::total_words(rest) == crate::text::word_count(rest[0])
                + crate::text::total_words(rest.drop_first()));
        }
        let w = crate::text::line_word_count(lines[i].as_str());
        assert(w <= u32::MAX);
        n = n + (w as u32);
        i = i + 1;
    }
    proof {
        assert(all.subrange(i as int, all.len() as int) =~= Seq::<Seq<char>>::empty());
    }
    n
}

} // verus!
