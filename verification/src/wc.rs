//! Word counting: lines, words, bytes and characters of a text, counted
//! in one forward pass over its newline-delimited records.

use vstd::prelude::*;

use crate::chunks::chunk_count;
use crate::chunks::chunk_count_from;
use crate::chunks::chunk_end_u8;
use crate::chunks::chunk_start;
use crate::chunks::lemma_chunk_end_bounds;
use crate::chunks::lemma_chunk_start_count;
use crate::tail::NEWLINE;
use crate::text::char_is_whitespace;
use crate::text::chars_vec;
use crate::text::decode_lossy;
use crate::text::is_space;
use crate::text::lossy_chars;
use crate::text::padded_dec_u64;
use crate::text::push_char;
use crate::text::spec_padded_dec;
use vstd::string::StrSliceExecFns;
use vstd::string::StringExecFns;

verus! {

/// Counts of lines, words, bytes and characters.
#[derive(Debug, Clone, Copy, PartialEq, Eq, Structural)]
pub struct Counts {
    pub lines: usize,
    pub words: usize,
    pub bytes: usize,
    pub chars: usize,
}

impl Default for Counts {
    /// All four counts zero.
    fn default() -> (r: Counts)
        ensures
            r == (Counts { lines: 0, words: 0, bytes: 0, chars: 0 }),
    {
        Counts { lines: 0, words: 0, bytes: 0, chars: 0 }
    }
}

impl Counts {
    /// Component-wise sum of two counts.
    pub fn add(self, rhs: Counts) -> (r: Counts)
        requires
            self.lines + rhs.lines <= usize::MAX,
            self.words + rhs.words <= usize::MAX,
            self.bytes + rhs.bytes <= usize::MAX,
            self.chars + rhs.chars <= usize::MAX,
        ensures
            r.lines == self.lines + rhs.lines,
            r.words == self.words + rhs.words,
            r.bytes == self.bytes + rhs.bytes,
            r.chars == self.chars + rhs.chars,
    {
        Counts {
            lines: self.lines + rhs.lines,
            words: self.words + rhs.words,
            bytes: self.bytes + rhs.bytes,
            chars: self.chars + rhs.chars,
        }
    }
}

/// The summed line count of a list of counts; the other components sum
/// alike.
pub open spec fn spec_sum_lines(s: Seq<Counts>) -> int
    decreases s.len(),
{
    if s.len() == 0 {
        0
    } else {
        spec_sum_lines(s.drop_last()) + s.last().lines
    }
}

pub open spec fn spec_sum_words(s: Seq<Counts>) -> int
    decreases s.len(),
{
    if s.len() == 0 {
        0
    } else {
        spec_sum_words(s.drop_last()) + s.last().words
    }
}

pub open spec fn spec_sum_bytes(s: Seq<Counts>) -> int
    decreases s.len(),
{
    if s.len() == 0 {
        0
    } else {
        spec_sum_bytes(s.drop_last()) + s.last().bytes
    }
}

pub open spec fn spec_sum_chars(s: Seq<Counts>) -> int
    decreases s.len(),
{
    if s.len() == 0 {
        0
    } else {
        spec_sum_chars(s.drop_last()) + s.last().chars
    }
}

impl Counts {
    /// The total of a list of per-file counts.
    pub fn sum(list: &Vec<Counts>) -> (r: Counts)
        requires
            spec_sum_lines(list@) <= usize::MAX,
            spec_sum_words(list@) <= usize::MAX,
            spec_sum_bytes(list@) <= usize::MAX,
            spec_sum_chars(list@) <= usize::MAX,
        ensures
            r.lines == spec_sum_lines(list@),
            r.words == spec_sum_words(list@),
            r.bytes == spec_sum_bytes(list@),
            r.chars == spec_sum_chars(list@),
    {
        let mut acc = Counts { lines: 0, words: 0, bytes: 0, chars: 0 };
        let mut i: usize = 0;
        proof {
            lemma_sum_nonneg_monotone(list@, 0);
        }
        while i < list.len()
            invariant
                0 <= i <= list@.len(),
                acc.lines == spec_sum_lines(list@.subrange(0, i as int)),
                acc.words == spec_sum_words(list@.subrange(0, i as int)),
                acc.bytes == spec_sum_bytes(list@.subrange(0, i as int)),
                acc.chars == spec_sum_chars(list@.subrange(0, i as int)),
                spec_sum_lines(list@) <= usize::MAX,
                spec_sum_words(list@) <= usize::MAX,
                spec_sum_bytes(list@) <= usize::MAX,
                spec_sum_chars(list@) <= usize::MAX,
            decreases list@.len() - i,
        {
            proof {
                lemma_sum_nonneg_monotone(list@, i + 1);
                assert(list@.subrange(0, i + 1 as int).drop_last() =~= list@.subrange(0, i as int));
                assert(list@.subrange(0, i + 1 as int).last() == list@[i as int]);
            }
            acc = acc.add(list[i]);
            i += 1;
        }
        proof {
            assert(list@.subrange(0, list@.len() as int) =~= list@);
        }
        acc
    }
}

/// Prefix sums of counts are non-negative and never exceed the total.
proof fn lemma_sum_nonneg_monotone(s: Seq<Counts>, i: int)
    requires
        0 <= i <= s.len(),
    ensures
        0 <= spec_sum_lines(s.subrange(0, i)) <= spec_sum_lines(s),
        0 <= spec_sum_words(s.subrange(0, i)) <= spec_sum_words(s),
        0 <= spec_sum_bytes(s.subrange(0, i)) <= spec_sum_bytes(s),
        0 <= spec_sum_chars(s.subrange(0, i)) <= spec_sum_chars(s),
    decreases s.len() - i,
{
    if i == s.len() {
        assert(s.subrange(0, i) =~= s);
        lemma_sum_nonneg(s);
    } else {
        lemma_sum_nonneg_monotone(s, i + 1);
        lemma_sum_nonneg(s.subrange(0, i));
        assert(s.subrange(0, i + 1).drop_last() =~= s.subrange(0, i));
    }
}

/// Sums of counts are non-negative.
proof fn lemma_sum_nonneg(s: Seq<Counts>)
    ensures
        spec_sum_lines(s) >= 0,
        spec_sum_words(s) >= 0,
        spec_sum_bytes(s) >= 0,
        spec_sum_chars(s) >= 0,
    decreases s.len(),
{
    if s.len() > 0 {
        lemma_sum_nonneg(s.drop_last());
    }
}

/// The report line for one file: each shown count right-aligned to
/// eight columns, and the file's name after a space unless it is `-`.
pub open spec fn spec_report_line(
    c: Counts,
    show_lines: bool,
    show_words: bool,
    show_bytes: bool,
    show_chars: bool,
    filename: Seq<char>,
) -> Seq<char> {
    (if show_lines {
        spec_padded_dec(c.lines as nat, 8)
    } else {
        Seq::empty()
    }) + (if show_words {
        spec_padded_dec(c.words as nat, 8)
    } else {
        Seq::empty()
    }) + (if show_bytes {
        spec_padded_dec(c.bytes as nat, 8)
    } else {
        Seq::empty()
    }) + (if show_chars {
        spec_padded_dec(c.chars as nat, 8)
    } else {
        Seq::empty()
    }) + (if filename == "-"@ {
        Seq::empty()
    } else {
        seq![' '] + filename
    })
}

impl Counts {
    /// Render the report line for one file.
    pub fn report_line(
        &self,
        show_lines: bool,
        show_words: bool,
        show_bytes: bool,
        show_chars: bool,
        filename: &str,
    ) -> (r: String)
        ensures
            r@ == spec_report_line(
                *self,
                show_lines,
                show_words,
                show_bytes,
                show_chars,
                filename@,
            ),
    {
        let mut s = String::new();
        if show_lines {
            let f = padded_dec_u64(self.lines as u64, 8);
            s.append(f.as_str());
        }
        if show_words {
            let f = padded_dec_u64(self.words as u64, 8);
            s.append(f.as_str());
        }
        if show_bytes {
            let f = padded_dec_u64(self.bytes as u64, 8);
            s.append(f.as_str());
        }
        if show_chars {
            let f = padded_dec_u64(self.chars as u64, 8);
            s.append(f.as_str());
        }
        proof {
            reveal_strlit("-");
        }
        let dash = filename.unicode_len() == 1 && filename.get_char(0) == '-';
        proof {
            if dash {
                assert(filename@ =~= "-"@);
            }
        }
        if !dash {
            push_char(&mut s, ' ');
            s.append(filename);
        }
        proof {
            assert(s@ =~= spec_report_line(
                *self,
                show_lines,
                show_words,
                show_bytes,
                show_chars,
                filename@,
            ));
        }
        s
    }
}

/// The number of words in a run of characters: maximal runs of
/// non-whitespace, counted by their first character.
pub open spec fn spec_word_count(s: Seq<char>) -> nat
    decreases s.len(),
{
    if s.len() == 0 {
        0
    } else {
        spec_word_count(s.drop_last()) + if !is_space(s.last()) && (s.len() == 1 || is_space(
            s[s.len() - 2],
        )) {
            1nat
        } else {
            0nat
        }
    }
}

/// A text has at most as many words as characters.
proof fn lemma_word_count_le(s: Seq<char>)
    ensures
        spec_word_count(s) <= s.len(),
    decreases s.len(),
{
    if s.len() > 0 {
        lemma_word_count_le(s.drop_last());
    }
}

/// Count the words of a run of characters.
pub fn count_words(chars: &[char]) -> (r: usize)
    ensures
        r == spec_word_count(chars@),
{
    let n = chars.len();
    let mut count: usize = 0;
    let mut prev_space = true;
    let mut i: usize = 0;
    while i < n
        invariant
            0 <= i <= n,
            n == chars@.len(),
            count <= i,
            count == spec_word_count(chars@.subrange(0, i as int)),
            prev_space == if i == 0 {
                true
            } else {
                is_space(chars@[i - 1])
            },
        decreases n - i,
    {
        let cur_space = char_is_whitespace(chars[i]);
        proof {
            assert(chars@.subrange(0, i + 1 as int).drop_last() =~= chars@.subrange(0, i as int));
            assert(chars@.subrange(0, i + 1 as int).last() == chars@[i as int]);
        }
        if !cur_space && prev_space {
            count += 1;
        }
        prev_space = cur_space;
        i += 1;
    }
    proof {
        assert(chars@.subrange(0, n as int) =~= chars@);
    }
    count
}

/// Record number `k` of a text: its bytes, terminator included.
pub open spec fn spec_record(data: Seq<u8>, k: nat) -> Seq<u8> {
    data.subrange(chunk_start(data, NEWLINE, k), chunk_start(data, NEWLINE, k + 1))
}

/// The words of records `k` onward, each record decoded permissively.
pub open spec fn spec_words_from(data: Seq<u8>, k: nat) -> nat
    decreases chunk_count(data, NEWLINE) - k,
{
    if k >= chunk_count(data, NEWLINE) {
        0
    } else {
        spec_word_count(lossy_chars(spec_record(data, k))) + spec_words_from(data, k + 1)
    }
}

/// The characters of records `k` onward, each record decoded
/// permissively.
pub open spec fn spec_chars_from(data: Seq<u8>, k: nat) -> nat
    decreases chunk_count(data, NEWLINE) - k,
{
    if k >= chunk_count(data, NEWLINE) {
        0
    } else {
        lossy_chars(spec_record(data, k)).len() + spec_chars_from(data, k + 1)
    }
}

/// Count lines, words, bytes and characters of a text in one pass.
///
/// Lines are newline-delimited records (a trailing unterminated record
/// counts); bytes are the text's length; words and characters are
/// counted per record after permissive decoding.
pub fn count_bufread(data: &[u8]) -> (r: Counts)
    ensures
        r.lines == chunk_count(data@, NEWLINE),
        r.bytes == data@.len(),
        r.words == spec_words_from(data@, 0),
        r.chars == spec_chars_from(data@, 0),
{
    let n = data.len();
    let mut lines: usize = 0;
    let mut words: usize = 0;
    let mut bytes: usize = 0;
    let mut chars: usize = 0;
    let mut i: usize = 0;
    while i < n
        invariant
            0 <= i <= n,
            n == data@.len(),
            lines <= i,
            words <= i,
            chars <= i,
            bytes == i,
            i == chunk_start(data@, NEWLINE, lines as nat),
            lines + chunk_count_from(data@, NEWLINE, i as int) == chunk_count(data@, NEWLINE),
            words + spec_words_from(data@, lines as nat) == spec_words_from(data@, 0),
            chars + spec_chars_from(data@, lines as nat) == spec_chars_from(data@, 0),
        decreases n - i,
    {
        let j = chunk_end_u8(data, NEWLINE, i);
        proof {
            lemma_chunk_end_bounds(data@, NEWLINE, i as int);
            lemma_chunk_start_count(data@, NEWLINE, lines as nat);
            assert(chunk_start(data@, NEWLINE, (lines + 1) as nat) == j);
            assert(spec_record(data@, lines as nat) == data@.subrange(i as int, j as int));
            lemma_word_count_le(lossy_chars(data@.subrange(i as int, j as int)));
        }
        let line = decode_lossy(&data[i..j]);
        let cv = chars_vec(line.as_str());
        let w = count_words(cv.as_slice());
        lines += 1;
        words += w;
        bytes += j - i;
        chars += cv.len();
        i = j;
    }
    Counts { lines, words, bytes, chars }
}

} // verus!
