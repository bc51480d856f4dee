//! Echoing arguments: the words joined by single spaces, with or
//! without a final newline.

use vstd::prelude::*;

use crate::text::push_char;
use vstd::string::StringExecFns;

verus! {

/// The words from `i` onward, joined by single spaces.
pub open spec fn spec_join_from(words: Seq<Seq<char>>, i: int) -> Seq<char>
    decreases words.len() - i,
{
    if i < 0 || i >= words.len() {
        Seq::empty()
    } else if i == words.len() - 1 {
        words[i]
    } else {
        words[i] + seq![' '] + spec_join_from(words, i + 1)
    }
}

/// The echoed text: the words joined by spaces, and a final newline
/// unless omitted.
pub open spec fn spec_echo(words: Seq<Seq<char>>, omit_newline: bool) -> Seq<char> {
    spec_join_from(words, 0) + if omit_newline {
        Seq::empty()
    } else {
        seq!['\n']
    }
}

/// Join the words with single spaces and append a newline unless
/// omitted.
pub fn echo_line(words: &Vec<String>, omit_newline: bool) -> (r: String)
    ensures
        r@ == spec_echo(words@.map_values(|w: String| w@), omit_newline),
{
    let ghost wv = words@.map_values(|w: String| w@);
    let n = words.len();
    let mut s = String::new();
    let mut i: usize = 0;
    while i < n
        invariant
            0 <= i <= n,
            n == words@.len(),
            wv == words@.map_values(|w: String| w@),
            wv.len() == n,
            s@ + spec_join_from(wv, i as int) == spec_join_from(wv, 0),
        decreases n - i,
    {
        let ghost pre = s@;
        proof {
            assert(wv[i as int] == words@[i as int]@);
        }
        s.append(words[i].as_str());
        if i + 1 < n {
            push_char(&mut s, ' ');
        }
        proof {
            if i + 1 < n {
                assert((pre + (wv[i as int] + seq![' '])) + spec_join_from(wv, i + 1) =~= pre + (
                wv[i as int] + seq![' '] + spec_join_from(wv, i + 1)));
                assert(s@ =~= pre + (wv[i as int] + seq![' ']));
            } else {
                assert(spec_join_from(wv, i + 1) =~= Seq::<char>::empty());
                assert(s@ + spec_join_from(wv, i + 1) =~= pre + wv[i as int]);
            }
        }
        i += 1;
    }
    if !omit_newline {
        push_char(&mut s, '\n');
    }
    proof {
        assert(spec_join_from(wv, n as int) =~= Seq::<char>::empty());
        assert(s@ =~= spec_echo(wv, omit_newline));
    }
    s
}

} // verus!
