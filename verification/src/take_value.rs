//! Parsing of textual count specifications.
//!
//! A count is an optional sign (`+` or `-`) followed by one or more decimal
//! digits. A leading `+` asks for "starting at position N"; a leading `-`,
//! or no sign at all, asks for "the last N units".

use vstd::prelude::*;

verus! {

/// A directional count: either "the last `n` units" or "starting at
/// 1-based position `n`".
#[derive(Debug, PartialEq, Eq, Clone, Copy, Structural)]
pub enum TakeValue {
    FromEnd(usize),
    FromStart(usize),
}

/// The text did not match the count grammar, or its magnitude does not fit.
/// Carries the offending text verbatim.
#[derive(Debug)]
pub struct ParseError {
    pub text: String,
}

impl ParseError {
    /// The offending text, for diagnostics.
    pub fn message(&self) -> (r: String)
        ensures
            r@ == self.text@,
    {
        self.text.clone()
    }
}

/// Is `c` a decimal digit?
pub open spec fn spec_is_digit(c: char) -> bool {
    48 <= c as u32 <= 57
}

/// The numeric value of a digit character.
pub open spec fn spec_digit_val(c: char) -> nat {
    (c as u32 - 48) as nat
}

/// Does `s` start with an explicit sign character?
pub open spec fn spec_has_sign(s: Seq<char>) -> bool {
    s.len() > 0 && (s[0] == '+' || s[0] == '-')
}

/// The digit portion of `s`: everything after an optional leading sign.
pub open spec fn spec_digits(s: Seq<char>) -> Seq<char> {
    if spec_has_sign(s) {
        s.subrange(1, s.len() as int)
    } else {
        s
    }
}

/// The decimal value of a digit string.
pub open spec fn spec_digits_value(s: Seq<char>) -> nat
    decreases s.len(),
{
    if s.len() == 0 {
        0
    } else {
        spec_digits_value(s.drop_last()) * 10 + spec_digit_val(s.last())
    }
}

/// Does `s` match the count grammar: an optional sign, then one or more
/// decimal digits?
pub open spec fn spec_grammar_ok(s: Seq<char>) -> bool {
    spec_digits(s).len() > 0 && (forall|i: int|
        0 <= i < spec_digits(s).len() ==> spec_is_digit(#[trigger] spec_digits(s)[i]))
}

/// Does `s` parse at all: grammar and magnitude both in order?
pub open spec fn spec_parse_ok(s: Seq<char>) -> bool {
    spec_grammar_ok(s) && spec_digits_value(spec_digits(s)) <= usize::MAX
}

/// The value `s` parses to, when `spec_parse_ok(s)` holds.
pub open spec fn spec_parse(s: Seq<char>) -> TakeValue {
    if s.len() > 0 && s[0] == '+' {
        TakeValue::FromStart(spec_digits_value(spec_digits(s)) as usize)
    } else {
        TakeValue::FromEnd(spec_digits_value(spec_digits(s)) as usize)
    }
}

/// Appending digits never shrinks the decimal value.
pub proof fn lemma_digits_value_monotone(s: Seq<char>, i: int, j: int)
    requires
        0 <= i <= j <= s.len(),
    ensures
        spec_digits_value(s.subrange(0, i)) <= spec_digits_value(s.subrange(0, j)),
    decreases j - i,
{
    if i < j {
        lemma_digits_value_monotone(s, i, j - 1);
        assert(s.subrange(0, j).drop_last() =~= s.subrange(0, j - 1));
    }
}

/// Is every character of `s` a decimal digit, with at least one there?
pub open spec fn spec_all_digits(s: Seq<char>) -> bool {
    s.len() > 0 && (forall|i: int| 0 <= i < s.len() ==> spec_is_digit(#[trigger] s[i]))
}

/// Read the characters of `p` between `from` and `to` as a decimal
/// number: its value if they are one or more digits whose value fits,
/// nothing otherwise.
pub fn chars_digits_value(p: &[char], from: usize, to: usize) -> (r: Option<usize>)
    requires
        from <= to <= p@.len(),
    ensures
        (r is Some) == (spec_all_digits(p@.subrange(from as int, to as int)) && spec_digits_value(
            p@.subrange(from as int, to as int),
        ) <= usize::MAX),
        r matches Some(v) ==> v == spec_digits_value(p@.subrange(from as int, to as int)),
{
    let ghost whole = p@.subrange(from as int, to as int);
    if from == to {
        return None;
    }
    let mut v: usize = 0;
    let mut i: usize = from;
    while i < to
        invariant
            from <= i <= to <= p@.len(),
            whole == p@.subrange(from as int, to as int),
            forall|k: int| from <= k < i ==> spec_is_digit(#[trigger] p@[k]),
            v == spec_digits_value(p@.subrange(from as int, i as int)),
        decreases to - i,
    {
        let u = p[i] as u32;
        if u < 48 || u > 57 {
            proof {
                assert(whole[i - from] == p@[i as int]);
            }
            return None;
        }
        let d = (u - 48) as usize;
        if v > (usize::MAX - d) / 10 {
            proof {
                let pre = p@.subrange(from as int, i as int);
                let cur = p@.subrange(from as int, i + 1 as int);
                assert(cur.drop_last() =~= pre);
                assert(spec_digits_value(cur) == v * 10 + d);
                assert(v * 10 + d > usize::MAX) by (nonlinear_arith)
                    requires
                        v > (usize::MAX - d) / 10,
                        d <= 9,
                ;
                lemma_digits_value_monotone(whole, i + 1 - from, whole.len() as int);
                assert(whole.subrange(0, i + 1 - from) =~= cur);
                assert(whole.subrange(0, whole.len() as int) =~= whole);
            }
            return None;
        }
        proof {
            let pre = p@.subrange(from as int, i as int);
            let cur = p@.subrange(from as int, i + 1 as int);
            assert(cur.drop_last() =~= pre);
            assert(v * 10 + d <= usize::MAX) by (nonlinear_arith)
                requires
                    v <= (usize::MAX - d) / 10,
                    d <= 9,
            ;
        }
        v = v * 10 + d;
        i += 1;
    }
    proof {
        assert(p@.subrange(from as int, to as int) =~= whole);
    }
    Some(v)
}

impl TakeValue {
    /// Parse a textual count.
    ///
    /// Returns the parsed value exactly when the text matches the grammar
    /// and its magnitude is representable; otherwise the error carries the
    /// text verbatim.
    pub fn from_str(s: &str) -> (r: Result<TakeValue, ParseError>)
        ensures
            spec_parse_ok(s@) ==> (r matches Ok(v) && v == spec_parse(s@)),
            !spec_parse_ok(s@) ==> (r matches Err(e) && e.text@ == s@),
    {
        let n = s.unicode_len();
        let has_sign = n > 0 && {
            let c0 = s.get_char(0);
            c0 == '+' || c0 == '-'
        };
        let start: usize = if has_sign {
            1
        } else {
            0
        };
        assert(s@.subrange(start as int, n as int) =~= spec_digits(s@));
        if start == n {
            // no digits at all
            return Err(ParseError { text: String::from_str(s) });
        }
        let mut v: usize = 0;
        let mut i: usize = start;
        while i < n
            invariant
                start <= i <= n,
                n == s@.len(),
                start == if spec_has_sign(s@) { 1int } else { 0int },
                forall|k: int| start <= k < i ==> spec_is_digit(#[trigger] s@[k]),
                v == spec_digits_value(s@.subrange(start as int, i as int)),
            decreases n - i,
        {
            let c = s.get_char(i);
            let u = c as u32;
            if u < 48 || u > 57 {
                proof {
                    assert(spec_digits(s@)[i - start] == s@[i as int]);
                }
                return Err(ParseError { text: String::from_str(s) });
            }
            let d = (u - 48) as usize;
            if v > (usize::MAX - d) / 10 {
                // the magnitude does not fit in usize
                proof {
                    let pre = s@.subrange(start as int, i as int);
                    let cur = s@.subrange(start as int, i + 1 as int);
                    assert(cur.drop_last() =~= pre);
                    assert(spec_digits_value(cur) == v * 10 + d);
                    assert(v * 10 + d > usize::MAX) by (nonlinear_arith)
                        requires
                            v > (usize::MAX - d) / 10,
                            d <= 9,
                    ;
                    let whole = spec_digits(s@);
                    lemma_digits_value_monotone(whole, i + 1 - start, whole.len() as int);
                    assert(whole.subrange(0, i + 1 - start) =~= cur);
                    assert(whole.subrange(0, whole.len() as int) =~= whole);
                }
                return Err(ParseError { text: String::from_str(s) });
            }
            proof {
                let pre = s@.subrange(start as int, i as int);
                let cur = s@.subrange(start as int, i + 1 as int);
                assert(cur.drop_last() =~= pre);
                assert(v * 10 + d <= usize::MAX) by (nonlinear_arith)
                    requires
                        v <= (usize::MAX - d) / 10,
                        d <= 9,
                ;
            }
            v = v * 10 + d;
            i += 1;
        }
        assert(s@.subrange(start as int, n as int) =~= spec_digits(s@));
        if has_sign && s.get_char(0) == '+' {
            Ok(TakeValue::FromStart(v))
        } else {
            Ok(TakeValue::FromEnd(v))
        }
    }
}

} // verus!
