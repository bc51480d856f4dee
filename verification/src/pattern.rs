//! Regular-expression matching, and line filtering built on it.
//!
//! A [`Pattern`] pairs a compiled matcher with the text and case flag it
//! was built from; its fields are private, and the only constructor is
//! [`Pattern::build`], so a value's matcher always belongs to its text
//! and flag, and the contracts below may speak of the match result as a
//! function of those alone.

use vstd::prelude::*;

use crate::chunks::chunk_count;
use crate::chunks::chunk_end_char;
use crate::chunks::chunk_start;
use crate::chunks::lemma_chunk_end_bounds;
use crate::chunks::lemma_chunk_start_count;
use crate::text::chars_vec;
use crate::text::string_from_chars;

verus! {

#[verifier::external_type_specification]
#[verifier::external_body]
pub struct ExRegex(regex::Regex);

/// Does this pattern text, under this case flag, compile to a matcher?
/// A pure function of the two.
pub uninterp spec fn regex_builds(pattern: Seq<char>, insensitive: bool) -> bool;

/// Does the matcher built from this pattern text and case flag match
/// somewhere in this text? A pure function of the three.
pub uninterp spec fn regex_match(pattern: Seq<char>, insensitive: bool, text: Seq<char>) -> bool;

/// A compiled pattern, remembering what it was built from.
pub struct Pattern {
    source: String,
    insensitive: bool,
    re: regex::Regex,
}

impl Pattern {
    /// The pattern text this matcher was built from.
    pub closed spec fn source_view(&self) -> Seq<char> {
        self.source@
    }

    /// The case flag this matcher was built with.
    pub closed spec fn insensitive_view(&self) -> bool {
        self.insensitive
    }

    /// Relies on `regex::RegexBuilder::new(p).case_insensitive(i).build()`:
    /// whether compilation succeeds, and what the matcher then is, are
    /// functions of the pattern text and the flag alone.
    #[verifier::external_body]
    pub fn build(pattern: &str, insensitive: bool) -> (r: Option<Pattern>)
        ensures
            (r is Some) == regex_builds(pattern@, insensitive),
            r matches Some(p) ==> p.source_view() == pattern@ && p.insensitive_view()
                == insensitive,
    {
        match regex::RegexBuilder::new(pattern).case_insensitive(insensitive).build() {
            Ok(re) => Some(Pattern { source: pattern.to_string(), insensitive, re }),
            Err(_) => None,
        }
    }

    /// Relies on `regex::Regex::is_match`: the result is a function of
    /// the pattern text, its case flag and the searched text alone.
    #[verifier::external_body]
    pub fn is_match(&self, text: &str) -> (r: bool)
        ensures
            r == regex_match(self.source_view(), self.insensitive_view(), text@),
    {
        self.re.is_match(text)
    }
}

/// Line number `k` of a text: its characters, terminator included.
pub open spec fn spec_text_line(text: Seq<char>, k: nat) -> Seq<char> {
    text.subrange(chunk_start(text, '\n', k), chunk_start(text, '\n', k + 1))
}

/// The lines of `text` from line `k` on that the pattern keeps: the
/// matching ones, or with `invert` the non-matching ones.
pub open spec fn spec_matching_from(
    text: Seq<char>,
    pattern: Seq<char>,
    insensitive: bool,
    invert: bool,
    k: nat,
) -> Seq<Seq<char>>
    decreases chunk_count(text, '\n') - k,
{
    if k >= chunk_count(text, '\n') {
        Seq::empty()
    } else {
        (if regex_match(pattern, insensitive, spec_text_line(text, k)) != invert {
            seq![spec_text_line(text, k)]
        } else {
            Seq::empty()
        }) + spec_matching_from(text, pattern, insensitive, invert, k + 1)
    }
}

/// The images of a list of lines.
pub open spec fn lines_view(v: Seq<String>) -> Seq<Seq<char>> {
    v.map_values(|s: String| s@)
}

/// Split `text` into newline-terminated lines and keep those the
/// pattern matches — or, inverted, those it does not.
pub fn find_lines(text: &str, pattern: &Pattern, invert: bool) -> (r: Vec<String>)
    ensures
        lines_view(r@) == spec_matching_from(
            text@,
            pattern.source_view(),
            pattern.insensitive_view(),
            invert,
            0,
        ),
{
    let chars = chars_vec(text);
    let n = chars.len();
    let mut out: Vec<String> = Vec::new();
    let mut i: usize = 0;
    let mut k: usize = 0;
    while i < n
        invariant
            0 <= i <= n,
            k <= i,
            n == chars@.len(),
            chars@ == text@,
            i == chunk_start(text@, '\n', k as nat),
            lines_view(out@) + spec_matching_from(
                text@,
                pattern.source_view(),
                pattern.insensitive_view(),
                invert,
                k as nat,
            ) == spec_matching_from(
                text@,
                pattern.source_view(),
                pattern.insensitive_view(),
                invert,
                0,
            ),
        decreases n - i,
    {
        let ghost pre = out@;
        let j = chunk_end_char(chars.as_slice(), '\n', i);
        proof {
            lemma_chunk_end_bounds(text@, '\n', i as int);
            lemma_chunk_start_count(text@, '\n', k as nat);
        }
        let line = string_from_chars(&chars.as_slice()[i..j]);
        proof {
            assert(line@ =~= spec_text_line(text@, k as nat));
        }
        let keep = pattern.is_match(line.as_str()) != invert;
        if keep {
            out.push(line);
        }
        proof {
            let kept = if regex_match(
                pattern.source_view(),
                pattern.insensitive_view(),
                spec_text_line(text@, k as nat),
            ) != invert {
                seq![spec_text_line(text@, k as nat)]
            } else {
                Seq::<Seq<char>>::empty()
            };
            assert(lines_view(out@) =~= lines_view(pre) + kept);
            assert((lines_view(pre) + kept) + spec_matching_from(
                text@,
                pattern.source_view(),
                pattern.insensitive_view(),
                invert,
                (k + 1) as nat,
            ) =~= lines_view(pre) + (kept + spec_matching_from(
                text@,
                pattern.source_view(),
                pattern.insensitive_view(),
                invert,
                (k + 1) as nat,
            )));
        }
        i = j;
        k += 1;
    }
    proof {
        lemma_chunk_start_count(text@, '\n', k as nat);
        assert(lines_view(out@) =~= spec_matching_from(
            text@,
            pattern.source_view(),
            pattern.insensitive_view(),
            invert,
            0,
        ));
    }
    out
}

} // verus!
