//! Collapsing runs of repeated lines: each maximal run of consecutive
//! lines with equal content (trailing whitespace ignored for the
//! comparison) becomes one output line, optionally prefixed with the
//! run's length.

use vstd::prelude::*;

use crate::pattern::lines_view;
use crate::text::chars_eq;
use crate::text::chars_vec;
use crate::text::padded_dec_u64;
use crate::text::push_char;
use crate::text::spec_padded_dec;
use crate::text::spec_trim_end;
use crate::text::trim_end_chars;
use vstd::string::StringExecFns;

verus! {

/// The key a line is grouped by: the line less trailing whitespace.
pub open spec fn spec_line_key(line: Seq<char>) -> Seq<char> {
    spec_trim_end(line)
}

/// Where the run of lines equal to line `i` ends: the first later index
/// whose key differs, or the end of the input.
pub open spec fn spec_run_end(lines: Seq<Seq<char>>, i: int) -> int
    decreases lines.len() - i,
    when 0 <= i < lines.len()
{
    if i + 1 >= lines.len() {
        lines.len() as int
    } else if spec_line_key(lines[i + 1]) == spec_line_key(lines[i]) {
        spec_run_end(lines, i + 1)
    } else {
        i + 1
    }
}

/// A run reaches past its first line and at most to the end.
proof fn lemma_run_end_bounds(lines: Seq<Seq<char>>, i: int)
    requires
        0 <= i < lines.len(),
    ensures
        i < spec_run_end(lines, i) <= lines.len(),
    decreases lines.len() - i,
{
    if i + 1 < lines.len() && spec_line_key(lines[i + 1]) == spec_line_key(lines[i]) {
        lemma_run_end_bounds(lines, i + 1);
    }
}

/// One output line: the run's first line, prefixed when asked with the
/// run's length right-aligned to four columns and one space.
pub open spec fn spec_uniq_render(cnt: nat, line: Seq<char>, with_count: bool) -> Seq<char> {
    if with_count {
        spec_padded_dec(cnt, 4) + seq![' '] + line
    } else {
        line
    }
}

/// The collapsed output from line `i` onward.
pub open spec fn spec_uniq_from(lines: Seq<Seq<char>>, i: int, with_count: bool) -> Seq<Seq<char>>
    decreases lines.len() - i,
    when 0 <= i <= lines.len()
    via spec_uniq_from_dec
{
    if i >= lines.len() {
        Seq::empty()
    } else {
        seq![
            spec_uniq_render((spec_run_end(lines, i) - i) as nat, lines[i], with_count),
        ] + spec_uniq_from(lines, spec_run_end(lines, i), with_count)
    }
}

#[via_fn]
proof fn spec_uniq_from_dec(lines: Seq<Seq<char>>, i: int, with_count: bool) {
    if 0 <= i < lines.len() {
        lemma_run_end_bounds(lines, i);
    }
}

/// Collapse runs of repeated lines. Lines keep whatever terminators
/// they carried; only the comparison ignores trailing whitespace.
pub fn uniq_lines(lines: &Vec<String>, count: bool) -> (r: Vec<String>)
    ensures
        lines_view(r@) == spec_uniq_from(lines_view(lines@), 0, count),
{
    let ghost l = lines_view(lines@);
    let n = lines.len();
    let mut out: Vec<String> = Vec::new();
    let mut i: usize = 0;
    while i < n
        invariant
            0 <= i <= n,
            n == lines@.len(),
            l == lines_view(lines@),
            l.len() == n,
            lines_view(out@) + spec_uniq_from(l, i as int, count) == spec_uniq_from(l, 0, count),
        decreases n - i,
    {
        let ghost pre = out@;
        proof {
            assert(l[i as int] == lines@[i as int]@);
        }
        let ci = chars_vec(lines[i].as_str());
        let key_i = trim_end_chars(ci.as_slice());
        let mut j: usize = i + 1;
        loop
            invariant_except_break
                i < j <= n,
                n == lines@.len(),
                l == lines_view(lines@),
                l.len() == n,
                0 <= i < n,
                key_i@ == spec_line_key(l[i as int]),
                forall|k: int| i <= k < j ==> spec_line_key(#[trigger] l[k]) == spec_line_key(
                    l[i as int],
                ),
                spec_run_end(l, i as int) == spec_run_end(l, j - 1 as int),
            ensures
                i < j <= n,
                j == spec_run_end(l, i as int),
            decreases n - j,
        {
            if j >= n {
                break;
            }
            proof {
                assert(l[j as int] == lines@[j as int]@);
            }
            let cj = chars_vec(lines[j].as_str());
            let key_j = trim_end_chars(cj.as_slice());
            if !chars_eq(key_j.as_slice(), key_i.as_slice()) {
                break;
            }
            j += 1;
        }
        let rendered: String = if count {
            let mut s = padded_dec_u64((j - i) as u64, 4);
            push_char(&mut s, ' ');
            s.append(lines[i].as_str());
            proof {
                assert(s@ =~= spec_uniq_render((j - i) as nat, l[i as int], count));
            }
            s
        } else {
            lines[i].clone()
        };
        out.push(rendered);
        proof {
            let item = seq![spec_uniq_render((j - i) as nat, l[i as int], count)];
            assert(lines_view(out@) =~= lines_view(pre) + item);
            assert((lines_view(pre) + item) + spec_uniq_from(l, j as int, count) =~= lines_view(
                pre,
            ) + (item + spec_uniq_from(l, j as int, count)));
        }
        i = j;
    }
    proof {
        assert(lines_view(out@) =~= spec_uniq_from(l, 0, count));
    }
    out
}

} // verus!
