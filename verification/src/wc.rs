//! Line, word and byte counting over a file's lines.
//!
//! A line's words are the segments produced by splitting on single
//! spaces, so a line holds one more word than it holds spaces. The byte
//! count charges each line its UTF-8 length plus one for the line break
//! that the line reader stripped.

use vstd::prelude::*;
use vstd::string::StrSliceExecFns;
use vstd::string::StringSliceAdditionalSpecFns;
use vstd::utf8::encode_utf8;

verus! {

/// How many spaces a line holds.
pub open spec fn space_count(s: Seq<char>) -> nat
    decreases s.len(),
{
    if s.len() == 0 {
        0
    } else {
        space_count(s.drop_last()) + if s.last() == ' ' {
            1nat
        } else {
            0nat
        }
    }
}

/// How many words a line holds: splitting on single spaces yields one
/// segment more than there are spaces, empty segments included.
pub open spec fn words_in(s: Seq<char>) -> nat {
    space_count(s) + 1
}

/// The word count of a whole file, line by line.
pub open spec fn total_words(lines: Seq<Seq<char>>) -> nat
    decreases lines.len(),
{
    if lines.len() == 0 {
        0
    } else {
        total_words(lines.drop_last()) + words_in(lines.last())
    }
}

/// The byte count of a whole file: each line's UTF-8 length plus one
/// for its line break.
pub open spec fn total_bytes(lines: Seq<Seq<char>>) -> nat
    decreases lines.len(),
{
    if lines.len() == 0 {
        0
    } else {
        total_bytes(lines.drop_last()) + encode_utf8(lines.last()).len() + 1
    }
}

/// The number of lines.
pub fn counter_lines(v: &Vec<String>) -> (r: usize)
    ensures
        r == v@.len(),
{
    v.len()
}

proof fn lemma_total_words_prefix_le(lines: Seq<Seq<char>>, i: int)
    requires
        0 <= i <= lines.len(),
    ensures
        total_words(lines.subrange(0, i)) <= total_words(lines),
    decreases lines.len() - i,
{
    if i < lines.len() {
        lemma_total_words_prefix_le(lines, i + 1);
        let longer = lines.subrange(0, i + 1);
        assert(longer.drop_last() =~= lines.subrange(0, i));
    } else {
        assert(lines.subrange(0, i) =~= lines);
    }
}

proof fn lemma_total_bytes_prefix_le(lines: Seq<Seq<char>>, i: int)
    requires
        0 <= i <= lines.len(),
    ensures
        total_bytes(lines.subrange(0, i)) <= total_bytes(lines),
    decreases lines.len() - i,
{
    if i < lines.len() {
        lemma_total_bytes_prefix_le(lines, i + 1);
        let longer = lines.subrange(0, i + 1);
        assert(longer.drop_last() =~= lines.subrange(0, i));
    } else {
        assert(lines.subrange(0, i) =~= lines);
    }
}

/// Counts the spaces in one line.
fn count_spaces(line: &str) -> (r: usize)
    ensures
        r == space_count(line@),
{
    let n = line.unicode_len();
    let mut count: usize = 0;
    let mut i: usize = 0;
    while i < n
        invariant
            i <= n,
            n == line@.len(),
            count <= i,
            count == space_count(line@.subrange(0, i as int)),
        decreases n - i,
    {
        let ghost ext = line@.subrange(0, i as int + 1);
        assert(ext.drop_last() =~= line@.subrange(0, i as int));
        assert(ext.last() == line@[i as int]);
        if line.get_char(i) == ' ' {
            count += 1;
        }
        i += 1;
    }
    assert(line@.subrange(0, n as int) =~= line@);
    count
}

/// The number of words over all lines.
pub fn counter_words(lines: &Vec<String>) -> (r: usize)
    requires
        total_words(lines.deep_view()) <= usize::MAX,
    ensures
        r == total_words(lines.deep_view()),
{
    let mut words_counter: usize = 0;
    let mut i: usize = 0;
    while i < lines.len()
        invariant
            i <= lines@.len(),
            total_words(lines.deep_view()) <= usize::MAX,
            words_counter == total_words(lines.deep_view().subrange(0, i as int)),
        decreases lines@.len() - i,
    {
        let ghost ext = lines.deep_view().subrange(0, i as int + 1);
        assert(ext.drop_last() =~= lines.deep_view().subrange(0, i as int));
        assert(ext.last() == lines.deep_view()[i as int]);
        let spaces = count_spaces(lines[i].as_str());
        proof {
            lemma_total_words_prefix_le(lines.deep_view(), i as int + 1);
        }
        words_counter = words_counter + spaces + 1;
        i += 1;
    }
    assert(lines.deep_view().subrange(0, lines@.len() as int) =~= lines.deep_view());
    words_counter
}

/// The number of bytes over all lines, line breaks included.
pub fn counter_bytes(words: &Vec<String>) -> (r: usize)
    requires
        total_bytes(words.deep_view()) <= usize::MAX,
    ensures
        r == total_bytes(words.deep_view()),
{
    let mut n: usize = 0;
    let mut i: usize = 0;
    while i < words.len()
        invariant
            i <= words@.len(),
            total_bytes(words.deep_view()) <= usize::MAX,
            n == total_bytes(words.deep_view().subrange(0, i as int)),
        decreases words@.len() - i,
    {
        let ghost ext = words.deep_view().subrange(0, i as int + 1);
        assert(ext.drop_last() =~= words.deep_view().subrange(0, i as int));
        assert(ext.last() == words.deep_view()[i as int]);
        let w = words[i].as_str();
        assert(w.spec_bytes() == encode_utf8(words.deep_view()[i as int]));
        let len = w.len();
        proof {
            lemma_total_bytes_prefix_le(words.deep_view(), i as int + 1);
        }
        n = n + len + 1;
        i += 1;
    }
    assert(words.deep_view().subrange(0, words@.len() as int) =~= words.deep_view());
    n
}

} // verus!
