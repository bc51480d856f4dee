//! Text primitives shared by the tools: permissive decoding, character
//! classification and case folding (each a thin trusted layer over std),
//! and verified helpers built on top of them.

use vstd::prelude::*;

use vstd::string::StrSliceExecFns;
use vstd::string::StringExecFns;

verus! {

/// The characters that `String::from_utf8_lossy` decodes `bytes` to:
/// the bytes read as UTF-8, every malformed sequence shown as a
/// replacement character. A pure function of the bytes.
pub uninterp spec fn lossy_chars(bytes: Seq<u8>) -> Seq<char>;

/// Relies on `String::from_utf8_lossy`: the decoding is a function of
/// the bytes alone, and never yields more characters than there were
/// bytes (every character, replacement or not, consumes at least one).
#[verifier::external_body]
pub(crate) fn decode_lossy(b: &[u8]) -> (r: String)
    ensures
        r@ == lossy_chars(b@),
        r@.len() <= b@.len(),
{
    String::from_utf8_lossy(b).into_owned()
}

/// Is `c` whitespace, in the sense of `char::is_whitespace`? A pure
/// function of the character.
pub uninterp spec fn is_space(c: char) -> bool;

/// Relies on `char::is_whitespace`: a pure predicate on the character.
#[verifier::external_body]
pub(crate) fn char_is_whitespace(c: char) -> (r: bool)
    ensures
        r == is_space(c),
{
    c.is_whitespace()
}

/// The characters that `str::to_lowercase` folds `s` to. A pure
/// function of the characters alone.
pub uninterp spec fn lower_chars(s: Seq<char>) -> Seq<char>;

/// Relies on `str::to_lowercase`: the folding is a function of the
/// characters alone, and an empty string stays empty.
#[verifier::external_body]
pub(crate) fn str_to_lowercase(s: &str) -> (r: String)
    ensures
        r@ == lower_chars(s@),
        s@.len() == 0 ==> r@.len() == 0,
{
    s.to_lowercase()
}

/// Relies on `String::push`: appends exactly the one character.
#[verifier::external_body]
pub(crate) fn push_char(s: &mut String, c: char)
    ensures
        final (s)@ == old(s)@.push(c),
{
    s.push(c)
}

/// The characters of `s`, as a vector.
pub fn chars_vec(s: &str) -> (r: Vec<char>)
    ensures
        r@ == s@,
{
    let n = s.unicode_len();
    let mut out: Vec<char> = Vec::new();
    let mut i: usize = 0;
    while i < n
        invariant
            0 <= i <= n,
            n == s@.len(),
            out@ == s@.subrange(0, i as int),
        decreases n - i,
    {
        out.push(s.get_char(i));
        proof {
            assert(out@ =~= s@.subrange(0, i + 1 as int));
        }
        i += 1;
    }
    proof {
        assert(out@ =~= s@);
    }
    out
}

/// A string holding exactly the given characters.
pub fn string_from_chars(v: &[char]) -> (r: String)
    ensures
        r@ == v@,
{
    let n = v.len();
    let mut out = String::new();
    let mut i: usize = 0;
    while i < n
        invariant
            0 <= i <= n,
            n == v@.len(),
            out@ == v@.subrange(0, i as int),
        decreases n - i,
    {
        push_char(&mut out, v[i]);
        proof {
            assert(out@ =~= v@.subrange(0, i + 1 as int));
        }
        i += 1;
    }
    proof {
        assert(out@ =~= v@);
    }
    out
}

/// Does `s` begin with `prefix`?
pub fn str_starts_with(s: &str, prefix: &str) -> (r: bool)
    ensures
        r == (prefix@.len() <= s@.len() && s@.subrange(0, prefix@.len() as int) == prefix@),
{
    let pn = prefix.unicode_len();
    let sn = s.unicode_len();
    if pn > sn {
        return false;
    }
    let mut i: usize = 0;
    while i < pn
        invariant
            0 <= i <= pn <= sn,
            pn == prefix@.len(),
            sn == s@.len(),
            forall|k: int| 0 <= k < i ==> s@[k] == prefix@[k],
        decreases pn - i,
    {
        if s.get_char(i) != prefix.get_char(i) {
            proof {
                assert(s@.subrange(0, pn as int)[i as int] == s@[i as int]);
            }
            return false;
        }
        i += 1;
    }
    proof {
        assert(s@.subrange(0, pn as int) =~= prefix@);
    }
    true
}

/// Characters left once leading whitespace goes.
pub open spec fn spec_trim_start(s: Seq<char>) -> Seq<char>
    decreases s.len(),
{
    if s.len() > 0 && is_space(s[0]) {
        spec_trim_start(s.drop_first())
    } else {
        s
    }
}

/// Characters left once trailing whitespace goes.
pub open spec fn spec_trim_end(s: Seq<char>) -> Seq<char>
    decreases s.len(),
{
    if s.len() > 0 && is_space(s.last()) {
        spec_trim_end(s.drop_last())
    } else {
        s
    }
}

/// Characters left once whitespace goes from both ends.
pub open spec fn spec_trim(s: Seq<char>) -> Seq<char> {
    spec_trim_end(spec_trim_start(s))
}

/// Drop whitespace from both ends of a run of characters.
pub fn trim_chars(v: &[char]) -> (r: Vec<char>)
    ensures
        r@ == spec_trim(v@),
{
    let n = v.len();
    let mut lo: usize = 0;
    proof {
        assert(v@.subrange(0, n as int) =~= v@);
    }
    loop
        invariant_except_break
            0 <= lo <= n,
            n == v@.len(),
            spec_trim_start(v@) == spec_trim_start(v@.subrange(lo as int, n as int)),
        ensures
            0 <= lo <= n,
            n == v@.len(),
            spec_trim_start(v@) == v@.subrange(lo as int, n as int),
        decreases n - lo,
    {
        if lo >= n {
            proof {
                assert(v@.subrange(lo as int, n as int).len() == 0);
            }
            break;
        }
        if !char_is_whitespace(v[lo]) {
            proof {
                assert(v@.subrange(lo as int, n as int)[0] == v@[lo as int]);
            }
            break;
        }
        proof {
            assert(v@.subrange(lo as int, n as int)[0] == v@[lo as int]);
            assert(v@.subrange(lo as int, n as int).drop_first() =~= v@.subrange(
                lo + 1 as int,
                n as int,
            ));
        }
        lo += 1;
    }
    let tail = trim_end_chars_from(v, lo);
    tail
}

/// Drop trailing whitespace from a run of characters.
pub fn trim_end_chars(v: &[char]) -> (r: Vec<char>)
    ensures
        r@ == spec_trim_end(v@),
{
    proof {
        assert(v@.subrange(0, v@.len() as int) =~= v@);
    }
    trim_end_chars_from(v, 0)
}

/// Drop trailing whitespace from the characters of `v` from `lo` on.
fn trim_end_chars_from(v: &[char], lo: usize) -> (r: Vec<char>)
    requires
        lo <= v@.len(),
    ensures
        r@ == spec_trim_end(v@.subrange(lo as int, v@.len() as int)),
{
    let n = v.len();
    let mut hi: usize = n;
    loop
        invariant_except_break
            lo <= hi <= n,
            n == v@.len(),
            spec_trim_end(v@.subrange(lo as int, n as int)) == spec_trim_end(
                v@.subrange(lo as int, hi as int),
            ),
        ensures
            lo <= hi <= n,
            n == v@.len(),
            spec_trim_end(v@.subrange(lo as int, n as int)) == v@.subrange(lo as int, hi as int),
        decreases hi - lo,
    {
        if hi <= lo {
            proof {
                assert(v@.subrange(lo as int, hi as int).len() == 0);
            }
            break;
        }
        if !char_is_whitespace(v[hi - 1]) {
            proof {
                assert(v@.subrange(lo as int, hi as int).last() == v@[hi - 1 as int]);
            }
            break;
        }
        proof {
            assert(v@.subrange(lo as int, hi as int).last() == v@[hi - 1 as int]);
            assert(v@.subrange(lo as int, hi as int).drop_last() =~= v@.subrange(
                lo as int,
                hi - 1 as int,
            ));
        }
        hi -= 1;
    }
    let mut out: Vec<char> = Vec::new();
    out.extend_from_slice(&v[lo..hi]);
    proof {
        assert(out@ =~= v@.subrange(lo as int, hi as int));
    }
    out
}

/// The digit character for a value below ten: code 48 ('0') plus the
/// value.
pub open spec fn spec_digit_char(d: nat) -> char {
    ((48 + d) as u8) as char
}

/// The decimal rendering of a number.
pub open spec fn spec_dec(n: nat) -> Seq<char>
    decreases n,
{
    if n < 10 {
        seq![spec_digit_char(n)]
    } else {
        spec_dec(n / 10).push(spec_digit_char(n % 10))
    }
}

/// Append the decimal rendering of `n`.
pub fn append_dec_u64(s: &mut String, n: u64)
    ensures
        final (s)@ == old(s)@ + spec_dec(n as nat),
    decreases n,
{
    if n >= 10 {
        append_dec_u64(s, n / 10);
    }
    let d = (n % 10) as u8;
    push_char(s, (48 + d) as char);
    proof {
        if n < 10 {
            assert(old(s)@ + spec_dec(n as nat) =~= old(s)@.push(spec_digit_char(n as nat)));
        } else {
            assert(old(s)@ + spec_dec(n as nat) =~= (old(s)@ + spec_dec(n as nat / 10)).push(
                spec_digit_char(n as nat % 10),
            ));
        }
    }
}

/// The decimal rendering of `n`, as a string.
pub fn dec_u64(n: u64) -> (r: String)
    ensures
        r@ == spec_dec(n as nat),
{
    let mut s = String::new();
    append_dec_u64(&mut s, n);
    proof {
        assert(Seq::<char>::empty() + spec_dec(n as nat) =~= spec_dec(n as nat));
    }
    s
}

/// Are two runs of characters equal?
pub fn chars_eq(a: &[char], b: &[char]) -> (r: bool)
    ensures
        r == (a@ == b@),
{
    let n = a.len();
    if n != b.len() {
        return false;
    }
    let mut i: usize = 0;
    while i < n
        invariant
            0 <= i <= n,
            n == a@.len(),
            n == b@.len(),
            forall|k: int| 0 <= k < i ==> a@[k] == b@[k],
        decreases n - i,
    {
        if a[i] != b[i] {
            return false;
        }
        i += 1;
    }
    proof {
        assert(a@ =~= b@);
    }
    true
}

/// A run of `k` spaces.
pub open spec fn spec_spaces(k: nat) -> Seq<char>
    decreases k,
{
    if k == 0 {
        Seq::empty()
    } else {
        spec_spaces((k - 1) as nat).push(' ')
    }
}

/// The decimal rendering of `n`, right-aligned to `width` with spaces.
pub open spec fn spec_padded_dec(n: nat, width: nat) -> Seq<char> {
    if spec_dec(n).len() < width {
        spec_spaces((width - spec_dec(n).len()) as nat) + spec_dec(n)
    } else {
        spec_dec(n)
    }
}

/// Render `n` in decimal, right-aligned to `width` with spaces.
pub fn padded_dec_u64(n: u64, width: usize) -> (r: String)
    ensures
        r@ == spec_padded_dec(n as nat, width as nat),
{
    let digits = dec_u64(n);
    let dn = digits.as_str().unicode_len();
    let mut s = String::new();
    let mut k: usize = 0;
    let pad: usize = if dn < width {
        width - dn
    } else {
        0
    };
    while k < pad
        invariant
            0 <= k <= pad,
            s@ == spec_spaces(k as nat),
        decreases pad - k,
    {
        push_char(&mut s, ' ');
        k += 1;
    }
    s.append(digits.as_str());
    proof {
        if dn < width {
        } else {
            assert(Seq::<char>::empty() + spec_dec(n as nat) =~= spec_dec(n as nat));
        }
    }
    s
}

} // verus!
