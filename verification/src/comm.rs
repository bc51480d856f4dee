//! Common and distinct lines of two sorted inputs, in three columns:
//! lines only in the first, lines only in the second, lines in both.

use vstd::prelude::*;

use crate::pattern::lines_view;
use crate::text::lower_chars;
use crate::text::str_to_lowercase;
use vstd::string::StrSliceExecFns;
use vstd::string::StringExecFns;

verus! {

/// Lexicographic comparison of two runs of characters, by code point:
/// negative, zero or positive as the first is smaller, equal or
/// greater. Strings ordered by their UTF-8 bytes, as std orders them,
/// order exactly this way.
pub open spec fn spec_cmp(a: Seq<char>, b: Seq<char>) -> int
    decreases a.len(),
{
    if a.len() == 0 && b.len() == 0 {
        0
    } else if a.len() == 0 {
        -1
    } else if b.len() == 0 {
        1
    } else if (a[0] as u32) < (b[0] as u32) {
        -1
    } else if (a[0] as u32) > (b[0] as u32) {
        1
    } else {
        spec_cmp(a.drop_first(), b.drop_first())
    }
}

/// Compare two strings lexicographically by code point.
pub fn str_cmp(a: &str, b: &str) -> (r: i8)
    ensures
        r as int == spec_cmp(a@, b@),
{
    let an = a.unicode_len();
    let bn = b.unicode_len();
    let mut i: usize = 0;
    proof {
        assert(a@.subrange(0, an as int) =~= a@);
        assert(b@.subrange(0, bn as int) =~= b@);
    }
    while i < an && i < bn
        invariant
            0 <= i <= an,
            0 <= i <= bn,
            an == a@.len(),
            bn == b@.len(),
            spec_cmp(a@, b@) == spec_cmp(
                a@.subrange(i as int, an as int),
                b@.subrange(i as int, bn as int),
            ),
        decreases an - i,
    {
        let ca = a.get_char(i) as u32;
        let cb = b.get_char(i) as u32;
        proof {
            assert(a@.subrange(i as int, an as int)[0] == a@[i as int]);
            assert(b@.subrange(i as int, bn as int)[0] == b@[i as int]);
        }
        if ca < cb {
            return -1;
        }
        if ca > cb {
            return 1;
        }
        proof {
            assert(a@.subrange(i as int, an as int).drop_first() =~= a@.subrange(
                i + 1 as int,
                an as int,
            ));
            assert(b@.subrange(i as int, bn as int).drop_first() =~= b@.subrange(
                i + 1 as int,
                bn as int,
            ));
        }
        i += 1;
    }
    if an < bn {
        -1
    } else if an > bn {
        1
    } else {
        0
    }
}

/// The key a line is compared by: itself, or its lowercase folding.
pub open spec fn spec_key(line: Seq<char>, insensitive: bool) -> Seq<char> {
    if insensitive {
        lower_chars(line)
    } else {
        line
    }
}

/// Compare two lines by their comparison keys.
pub fn line_cmp(a: &str, b: &str, insensitive: bool) -> (r: i8)
    ensures
        r as int == spec_cmp(spec_key(a@, insensitive), spec_key(b@, insensitive)),
{
    if insensitive {
        let la = str_to_lowercase(a);
        let lb = str_to_lowercase(b);
        str_cmp(la.as_str(), lb.as_str())
    } else {
        str_cmp(a, b)
    }
}

/// The rendering of a first-column value: the value itself, when the
/// column is shown.
pub open spec fn spec_col1(show1: bool, val: Seq<char>) -> Seq<Seq<char>> {
    if show1 {
        seq![val]
    } else {
        Seq::empty()
    }
}

/// The rendering of a second-column value: one leading delimiter for
/// the first column if that is shown, then the value.
pub open spec fn spec_col2(d: Seq<char>, show1: bool, show2: bool, val: Seq<char>) -> Seq<
    Seq<char>,
> {
    if show2 {
        seq![
            (if show1 {
                d
            } else {
                Seq::empty()
            }) + val,
        ]
    } else {
        Seq::empty()
    }
}

/// The rendering of a third-column value: one leading delimiter for
/// each earlier column that is shown, then the value.
pub open spec fn spec_col3(
    d: Seq<char>,
    show1: bool,
    show2: bool,
    show3: bool,
    val: Seq<char>,
) -> Seq<Seq<char>> {
    if show3 {
        seq![
            (if show1 {
                d
            } else {
                Seq::empty()
            }) + (if show2 {
                d
            } else {
                Seq::empty()
            }) + val,
        ]
    } else {
        Seq::empty()
    }
}

/// The merged three-column output from lines `i` and `j` onward of two
/// sorted inputs.
pub open spec fn spec_comm_from(
    l1: Seq<Seq<char>>,
    l2: Seq<Seq<char>>,
    i: int,
    j: int,
    insensitive: bool,
    show1: bool,
    show2: bool,
    show3: bool,
    d: Seq<char>,
) -> Seq<Seq<char>>
    decreases l1.len() - i + l2.len() - j,
    when 0 <= i <= l1.len() && 0 <= j <= l2.len()
{
    if i >= l1.len() && j >= l2.len() {
        Seq::empty()
    } else if j >= l2.len() {
        spec_col1(show1, l1[i]) + spec_comm_from(l1, l2, i + 1, j, insensitive, show1, show2, show3, d)
    } else if i >= l1.len() {
        spec_col2(d, show1, show2, l2[j]) + spec_comm_from(
            l1,
            l2,
            i,
            j + 1,
            insensitive,
            show1,
            show2,
            show3,
            d,
        )
    } else {
        let c = spec_cmp(spec_key(l1[i], insensitive), spec_key(l2[j], insensitive));
        if c < 0 {
            spec_col1(show1, l1[i]) + spec_comm_from(
                l1,
                l2,
                i + 1,
                j,
                insensitive,
                show1,
                show2,
                show3,
                d,
            )
        } else if c > 0 {
            spec_col2(d, show1, show2, l2[j]) + spec_comm_from(
                l1,
                l2,
                i,
                j + 1,
                insensitive,
                show1,
                show2,
                show3,
                d,
            )
        } else {
            spec_col3(d, show1, show2, show3, l1[i]) + spec_comm_from(
                l1,
                l2,
                i + 1,
                j + 1,
                insensitive,
                show1,
                show2,
                show3,
                d,
            )
        }
    }
}

/// Concatenation of line lists is associative.
proof fn lemma_step(pre: Seq<Seq<char>>, item: Seq<Seq<char>>, rest: Seq<Seq<char>>)
    ensures
        (pre + item) + rest == pre + (item + rest),
{
    assert((pre + item) + rest =~= pre + (item + rest));
}

/// A second-column line, rendered.
fn render_col2(d: &str, show1: bool, val: &String) -> (r: String)
    ensures
        r@ == (if show1 {
            d@
        } else {
            Seq::<char>::empty()
        }) + val@,
{
    let mut s = String::new();
    if show1 {
        s.append(d);
    }
    s.append(val.as_str());
    proof {
        assert(s@ =~= (if show1 {
            d@
        } else {
            Seq::<char>::empty()
        }) + val@);
    }
    s
}

/// A third-column line, rendered.
fn render_col3(d: &str, show1: bool, show2: bool, val: &String) -> (r: String)
    ensures
        r@ == (if show1 {
            d@
        } else {
            Seq::<char>::empty()
        }) + (if show2 {
            d@
        } else {
            Seq::<char>::empty()
        }) + val@,
{
    let mut s = String::new();
    if show1 {
        s.append(d);
    }
    if show2 {
        s.append(d);
    }
    s.append(val.as_str());
    proof {
        assert(s@ =~= (if show1 {
            d@
        } else {
            Seq::<char>::empty()
        }) + (if show2 {
            d@
        } else {
            Seq::<char>::empty()
        }) + val@);
    }
    s
}

/// Merge two sorted line lists into the three-column output: lines
/// only in the first input, lines only in the second, lines in both —
/// each column rendered only if shown, indented by one delimiter per
/// earlier shown column.
pub fn comm_lines(
    lines1: &Vec<String>,
    lines2: &Vec<String>,
    show1: bool,
    show2: bool,
    show3: bool,
    insensitive: bool,
    delimiter: &str,
) -> (r: Vec<String>)
    ensures
        lines_view(r@) == spec_comm_from(
            lines_view(lines1@),
            lines_view(lines2@),
            0,
            0,
            insensitive,
            show1,
            show2,
            show3,
            delimiter@,
        ),
{
    let ghost l1 = lines_view(lines1@);
    let ghost l2 = lines_view(lines2@);
    let n1 = lines1.len();
    let n2 = lines2.len();
    let mut out: Vec<String> = Vec::new();
    let mut i: usize = 0;
    let mut j: usize = 0;
    while i < n1 || j < n2
        invariant
            0 <= i <= n1,
            0 <= j <= n2,
            n1 == lines1@.len(),
            n2 == lines2@.len(),
            l1 == lines_view(lines1@),
            l2 == lines_view(lines2@),
            l1.len() == n1,
            l2.len() == n2,
            lines_view(out@) + spec_comm_from(
                l1,
                l2,
                i as int,
                j as int,
                insensitive,
                show1,
                show2,
                show3,
                delimiter@,
            ) == spec_comm_from(l1, l2, 0, 0, insensitive, show1, show2, show3, delimiter@),
        decreases n1 - i + n2 - j,
    {
        let ghost pre = out@;
        let ghost oldi = i as int;
        let ghost oldj = j as int;
        if i < n1 && j < n2 {
            proof {
                assert(l1[i as int] == lines1@[i as int]@);
                assert(l2[j as int] == lines2@[j as int]@);
            }
            let c = line_cmp(lines1[i].as_str(), lines2[j].as_str(), insensitive);
            if c < 0 {
                if show1 {
                    out.push(lines1[i].clone());
                }
                i += 1;
                proof {
                    let item = spec_col1(show1, l1[oldi]);
                    assert(lines_view(out@) =~= lines_view(pre) + item);
                    lemma_step(
                        lines_view(pre),
                        item,
                        spec_comm_from(
                            l1,
                            l2,
                            i as int,
                            j as int,
                            insensitive,
                            show1,
                            show2,
                            show3,
                            delimiter@,
                        ),
                    );
                }
            } else if c > 0 {
                if show2 {
                    out.push(render_col2(delimiter, show1, &lines2[j]));
                }
                j += 1;
                proof {
                    let item = spec_col2(delimiter@, show1, show2, l2[oldj]);
                    assert(lines_view(out@) =~= lines_view(pre) + item);
                    lemma_step(
                        lines_view(pre),
                        item,
                        spec_comm_from(
                            l1,
                            l2,
                            i as int,
                            j as int,
                            insensitive,
                            show1,
                            show2,
                            show3,
                            delimiter@,
                        ),
                    );
                }
            } else {
                if show3 {
                    out.push(render_col3(delimiter, show1, show2, &lines1[i]));
                }
                i += 1;
                j += 1;
                proof {
                    let item = spec_col3(delimiter@, show1, show2, show3, l1[oldi]);
                    assert(lines_view(out@) =~= lines_view(pre) + item);
                    lemma_step(
                        lines_view(pre),
                        item,
                        spec_comm_from(
                            l1,
                            l2,
                            i as int,
                            j as int,
                            insensitive,
                            show1,
                            show2,
                            show3,
                            delimiter@,
                        ),
                    );
                }
            }
        } else if i < n1 {
            proof {
                assert(l1[i as int] == lines1@[i as int]@);
            }
            if show1 {
                out.push(lines1[i].clone());
            }
            i += 1;
            proof {
                let item = spec_col1(show1, l1[oldi]);
                assert(lines_view(out@) =~= lines_view(pre) + item);
                lemma_step(
                    lines_view(pre),
                    item,
                    spec_comm_from(
                        l1,
                        l2,
                        i as int,
                        j as int,
                        insensitive,
                        show1,
                        show2,
                        show3,
                        delimiter@,
                    ),
                );
            }
        } else {
            proof {
                assert(l2[j as int] == lines2@[j as int]@);
            }
            if show2 {
                out.push(render_col2(delimiter, show1, &lines2[j]));
            }
            j += 1;
            proof {
                let item = spec_col2(delimiter@, show1, show2, l2[oldj]);
                assert(lines_view(out@) =~= lines_view(pre) + item);
                lemma_step(
                    lines_view(pre),
                    item,
                    spec_comm_from(
                        l1,
                        l2,
                        i as int,
                        j as int,
                        insensitive,
                        show1,
                        show2,
                        show3,
                        delimiter@,
                    ),
                );
            }
        }
    }
    proof {
        assert(lines_view(out@) =~= spec_comm_from(
            l1,
            l2,
            0,
            0,
            insensitive,
            show1,
            show2,
            show3,
            delimiter@,
        ));
    }
    out
}

} // verus!
