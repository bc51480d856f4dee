//! Line numbering for concatenated output: every line, or only the
//! nonblank ones, prefixed with a six-column line number.

use vstd::prelude::*;

use crate::pattern::lines_view;
use crate::text::padded_dec_u64;
use crate::text::push_char;
use crate::text::spec_padded_dec;
use vstd::string::StrSliceExecFns;
use vstd::string::StringExecFns;

verus! {

/// A numbered line: the number right-aligned to six columns, a tab,
/// the line.
pub open spec fn spec_numbered(line: Seq<char>, num: nat) -> Seq<char> {
    spec_padded_dec(num, 6) + seq!['\t'] + line
}

/// The rendered lines from line `i` onward, numbering from `num`:
/// every line numbered, or only nonblank lines numbered (blank ones
/// stay blank and keep their number for the next), or every line as it
/// is.
pub open spec fn spec_cat_from(
    lines: Seq<Seq<char>>,
    i: int,
    number: bool,
    nonblank: bool,
    num: nat,
) -> Seq<Seq<char>>
    decreases lines.len() - i,
{
    if i < 0 || i >= lines.len() {
        Seq::empty()
    } else if number {
        seq![spec_numbered(lines[i], num)] + spec_cat_from(lines, i + 1, number, nonblank, num + 1)
    } else if nonblank {
        if lines[i].len() == 0 {
            seq![Seq::<char>::empty()] + spec_cat_from(lines, i + 1, number, nonblank, num)
        } else {
            seq![spec_numbered(lines[i], num)] + spec_cat_from(
                lines,
                i + 1,
                number,
                nonblank,
                num + 1,
            )
        }
    } else {
        seq![lines[i]] + spec_cat_from(lines, i + 1, number, nonblank, num)
    }
}

/// Render a numbered line.
fn render_numbered(line: &String, num: usize) -> (r: String)
    ensures
        r@ == spec_numbered(line@, num as nat),
{
    let mut s = padded_dec_u64(num as u64, 6);
    push_char(&mut s, '\t');
    s.append(line.as_str());
    proof {
        assert(s@ =~= spec_numbered(line@, num as nat));
    }
    s
}

/// Number the lines of one file's output, counting from 1: all of
/// them, or only the nonblank ones, or none.
pub fn number_lines(lines: &Vec<String>, number: bool, nonblank: bool) -> (r: Vec<String>)
    requires
        lines@.len() < usize::MAX,
    ensures
        lines_view(r@) == spec_cat_from(lines_view(lines@), 0, number, nonblank, 1),
{
    let ghost l = lines_view(lines@);
    let n = lines.len();
    let mut out: Vec<String> = Vec::new();
    let mut num: usize = 1;
    let mut i: usize = 0;
    while i < n
        invariant
            0 <= i <= n,
            n == lines@.len(),
            n < usize::MAX,
            l == lines_view(lines@),
            l.len() == n,
            1 <= num <= i + 1,
            lines_view(out@) + spec_cat_from(l, i as int, number, nonblank, num as nat)
                == spec_cat_from(l, 0, number, nonblank, 1),
        decreases n - i,
    {
        let ghost pre = out@;
        let ghost oldnum = num as nat;
        proof {
            assert(l[i as int] == lines@[i as int]@);
        }
        if number {
            out.push(render_numbered(&lines[i], num));
            num += 1;
        } else if nonblank {
            if lines[i].as_str().unicode_len() == 0 {
                out.push(String::new());
            } else {
                out.push(render_numbered(&lines[i], num));
                num += 1;
            }
        } else {
            out.push(lines[i].clone());
        }
        proof {
            let item = if number {
                seq![spec_numbered(l[i as int], oldnum)]
            } else if nonblank {
                if l[i as int].len() == 0 {
                    seq![Seq::<char>::empty()]
                } else {
                    seq![spec_numbered(l[i as int], oldnum)]
                }
            } else {
                seq![l[i as int]]
            };
            assert(lines_view(out@) =~= lines_view(pre) + item);
            assert((lines_view(pre) + item) + spec_cat_from(
                l,
                i + 1,
                number,
                nonblank,
                num as nat,
            ) =~= lines_view(pre) + (item + spec_cat_from(l, i + 1, number, nonblank, num as nat)));
        }
        i += 1;
    }
    proof {
        assert(lines_view(out@) =~= spec_cat_from(l, 0, number, nonblank, 1));
    }
    out
}

} // verus!
