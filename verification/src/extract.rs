//! Column extraction: selected character, byte, or field positions of a
//! record, gathered range by range.

use vstd::prelude::*;

use crate::chunks::chunk_count;
use crate::chunks::chunk_end_char;
use crate::chunks::chunk_start;
use crate::chunks::lemma_chunk_end_bounds;
use crate::chunks::lemma_chunk_start_count;
use crate::take_value::chars_digits_value;
use crate::take_value::spec_all_digits;
use crate::take_value::spec_digits_value;
use crate::text::chars_vec;
use crate::text::decode_lossy;
use crate::text::lossy_chars;
use crate::text::string_from_chars;
use vstd::string::StringExecFns;
use vstd::string::StringSliceAdditionalSpecFns;

verus! {

/// A half-open range of zero-based positions.
#[derive(Debug, Clone, Copy, PartialEq, Eq, Structural)]
pub struct PosRange {
    pub start: usize,
    pub end: usize,
}

/// The list of position ranges one extraction selects.
pub type PositionList = Vec<PosRange>;

/// Which unit a selection addresses.
#[derive(Debug)]
pub enum Extract {
    Fields(PositionList),
    Bytes(PositionList),
    Chars(PositionList),
}

/// Is every range in the list well-formed (start at or before end)?
pub open spec fn spec_ranges_ok(pos: Seq<PosRange>) -> bool {
    forall|i: int| 0 <= i < pos.len() ==> (#[trigger] pos[i]).start <= pos[i].end
}

/// The elements one range selects: positions clamped to the sequence.
pub open spec fn spec_slice_window<T>(elems: Seq<T>, r: PosRange) -> Seq<T> {
    let lo = if r.start <= elems.len() {
        r.start as int
    } else {
        elems.len() as int
    };
    let hi = if r.end <= elems.len() {
        r.end as int
    } else {
        elems.len() as int
    };
    if lo <= hi {
        elems.subrange(lo, hi)
    } else {
        Seq::empty()
    }
}

/// The elements a list of ranges selects, range by range, in order.
pub open spec fn spec_gather<T>(elems: Seq<T>, pos: Seq<PosRange>) -> Seq<T>
    decreases pos.len(),
{
    if pos.len() == 0 {
        Seq::empty()
    } else {
        spec_slice_window(elems, pos[0]) + spec_gather(elems, pos.drop_first())
    }
}

/// Gathering one more range appends that range's selection.
proof fn lemma_gather_push<T>(elems: Seq<T>, pos: Seq<PosRange>, r: PosRange)
    ensures
        spec_gather(elems, pos.push(r)) == spec_gather(elems, pos) + spec_slice_window(elems, r),
    decreases pos.len(),
{
    if pos.len() == 0 {
        assert(pos.push(r).drop_first() =~= Seq::<PosRange>::empty());
        assert(pos.push(r)[0] == r);
        assert(spec_gather(elems, pos.push(r)) == spec_slice_window(elems, r) + spec_gather(
            elems,
            Seq::<PosRange>::empty(),
        ));
        assert(spec_slice_window(elems, r) + Seq::<T>::empty() =~= spec_slice_window(elems, r));
        assert(Seq::<T>::empty() + spec_slice_window(elems, r) =~= spec_slice_window(elems, r));
    } else {
        assert(pos.push(r).drop_first() =~= pos.drop_first().push(r));
        lemma_gather_push(elems, pos.drop_first(), r);
        assert(spec_gather(elems, pos.push(r)) == spec_slice_window(elems, pos[0]) + (spec_gather(
            elems,
            pos.drop_first(),
        ) + spec_slice_window(elems, r)));
        assert(spec_slice_window(elems, pos[0]) + (spec_gather(elems, pos.drop_first())
            + spec_slice_window(elems, r)) =~= (spec_slice_window(elems, pos[0]) + spec_gather(
            elems,
            pos.drop_first(),
        )) + spec_slice_window(elems, r));
    }
}

/// The characters of `line` at the selected character positions.
pub fn extract_chars(line: &str, char_pos: &[PosRange]) -> (r: String)
    requires
        spec_ranges_ok(char_pos@),
    ensures
        r@ == spec_gather(line@, char_pos@),
{
    let chars = chars_vec(line);
    let cn = chars.len();
    let mut out: Vec<char> = Vec::new();
    let mut i: usize = 0;
    while i < char_pos.len()
        invariant
            0 <= i <= char_pos@.len(),
            spec_ranges_ok(char_pos@),
            cn == chars@.len(),
            chars@ == line@,
            out@ == spec_gather(line@, char_pos@.subrange(0, i as int)),
        decreases char_pos@.len() - i,
    {
        let r = char_pos[i];
        let lo = if r.start <= cn {
            r.start
        } else {
            cn
        };
        let hi = if r.end <= cn {
            r.end
        } else {
            cn
        };
        out.extend_from_slice(&chars.as_slice()[lo..hi]);
        proof {
            lemma_gather_push(line@, char_pos@.subrange(0, i as int), char_pos@[i as int]);
            assert(char_pos@.subrange(0, i as int).push(char_pos@[i as int]) =~= char_pos@.subrange(
                0,
                i + 1 as int,
            ));
        }
        i += 1;
    }
    proof {
        assert(char_pos@.subrange(0, char_pos@.len() as int) =~= char_pos@);
    }
    string_from_chars(out.as_slice())
}

/// The bytes of `line` at the selected byte positions, rendered
/// permissively: the gathered bytes decoded with every malformed
/// sequence shown as a replacement character.
pub fn extract_bytes(line: &str, byte_pos: &[PosRange]) -> (r: String)
    requires
        spec_ranges_ok(byte_pos@),
    ensures
        r@ == lossy_chars(spec_gather(line.spec_bytes(), byte_pos@)),
{
    let bytes = line.as_bytes();
    let bn = bytes.len();
    let mut out: Vec<u8> = Vec::new();
    let mut i: usize = 0;
    while i < byte_pos.len()
        invariant
            0 <= i <= byte_pos@.len(),
            spec_ranges_ok(byte_pos@),
            bn == bytes@.len(),
            bytes@ == line.spec_bytes(),
            out@ == spec_gather(line.spec_bytes(), byte_pos@.subrange(0, i as int)),
        decreases byte_pos@.len() - i,
    {
        let r = byte_pos[i];
        let lo = if r.start <= bn {
            r.start
        } else {
            bn
        };
        let hi = if r.end <= bn {
            r.end
        } else {
            bn
        };
        out.extend_from_slice(&bytes[lo..hi]);
        proof {
            lemma_gather_push(line.spec_bytes(), byte_pos@.subrange(0, i as int), byte_pos@[i as int]);
            assert(byte_pos@.subrange(0, i as int).push(byte_pos@[i as int]) =~= byte_pos@.subrange(
                0,
                i + 1 as int,
            ));
        }
        i += 1;
    }
    proof {
        assert(byte_pos@.subrange(0, byte_pos@.len() as int) =~= byte_pos@);
    }
    decode_lossy(out.as_slice())
}

/// The fields of `record` at the selected field positions.
pub fn extract_fields(record: &Vec<String>, field_pos: &[PosRange]) -> (r: Vec<String>)
    requires
        spec_ranges_ok(field_pos@),
    ensures
        r@ == spec_gather(record@, field_pos@),
{
    let rn = record.len();
    let mut out: Vec<String> = Vec::new();
    let mut i: usize = 0;
    while i < field_pos.len()
        invariant
            0 <= i <= field_pos@.len(),
            spec_ranges_ok(field_pos@),
            rn == record@.len(),
            out@ == spec_gather(record@, field_pos@.subrange(0, i as int)),
        decreases field_pos@.len() - i,
    {
        let r = field_pos[i];
        let lo = if r.start <= rn {
            r.start
        } else {
            rn
        };
        let hi = if r.end <= rn {
            r.end
        } else {
            rn
        };
        let mut idx = lo;
        while idx < hi
            invariant
                lo <= idx <= hi <= rn,
                rn == record@.len(),
                out@ == spec_gather(record@, field_pos@.subrange(0, i as int)) + record@.subrange(
                    lo as int,
                    idx as int,
                ),
            decreases hi - idx,
        {
            out.push(record[idx].clone());
            proof {
                assert(record@.subrange(lo as int, idx as int).push(record@[idx as int])
                    =~= record@.subrange(lo as int, idx + 1 as int));
            }
            idx += 1;
        }
        proof {
            lemma_gather_push(record@, field_pos@.subrange(0, i as int), field_pos@[i as int]);
            assert(field_pos@.subrange(0, i as int).push(field_pos@[i as int])
                =~= field_pos@.subrange(0, i + 1 as int));
            assert(record@.subrange(lo as int, hi as int) == spec_slice_window(
                record@,
                field_pos@[i as int],
            ));
        }
        i += 1;
    }
    proof {
        assert(field_pos@.subrange(0, field_pos@.len() as int) =~= field_pos@);
    }
    out
}

/// Where the first dash at or after `i` stands, or the end.
pub open spec fn spec_dash_pos(s: Seq<char>, i: int) -> int
    decreases s.len() - i,
{
    if i < 0 || i >= s.len() {
        s.len() as int
    } else if s[i] == '-' {
        i
    } else {
        spec_dash_pos(s, i + 1)
    }
}

/// Is one comma-separated piece a legal position: one 1-based number,
/// or two of them around a dash, the first below the second?
pub open spec fn spec_piece_ok(p: Seq<char>) -> bool {
    let d = spec_dash_pos(p, 0);
    let a = p.subrange(0, d);
    &&& spec_all_digits(a)
    &&& 1 <= spec_digits_value(a) <= usize::MAX
    &&& (d < p.len() ==> {
        let b = p.subrange(d + 1, p.len() as int);
        &&& spec_all_digits(b)
        &&& spec_digits_value(b) <= usize::MAX
        &&& spec_digits_value(a) < spec_digits_value(b)
    })
}

/// The zero-based half-open range a legal piece selects.
pub open spec fn spec_piece_range(p: Seq<char>) -> PosRange {
    let d = spec_dash_pos(p, 0);
    let lo = spec_digits_value(p.subrange(0, d));
    if d == p.len() {
        PosRange { start: (lo - 1) as usize, end: lo as usize }
    } else {
        PosRange {
            start: (lo - 1) as usize,
            end: spec_digits_value(p.subrange(d + 1, p.len() as int)) as usize,
        }
    }
}

/// Piece number `k` of a position list: chunk `k` of the text split at
/// commas, without the comma.
pub open spec fn spec_piece_at(s: Seq<char>, k: nat) -> Seq<char> {
    let lo = chunk_start(s, ',', k);
    let hi = chunk_start(s, ',', k + 1);
    if lo < hi && s[hi - 1] == ',' {
        s.subrange(lo, hi - 1)
    } else {
        s.subrange(lo, hi)
    }
}

/// Are the pieces from number `k` on all legal?
pub open spec fn spec_pos_ok_from(s: Seq<char>, k: nat) -> bool
    decreases chunk_count(s, ',') - k,
{
    if k >= chunk_count(s, ',') {
        true
    } else {
        spec_piece_ok(spec_piece_at(s, k)) && spec_pos_ok_from(s, k + 1)
    }
}

/// The ranges the pieces from number `k` on select.
pub open spec fn spec_pos_list_from(s: Seq<char>, k: nat) -> Seq<PosRange>
    decreases chunk_count(s, ',') - k,
{
    if k >= chunk_count(s, ',') {
        Seq::empty()
    } else {
        seq![spec_piece_range(spec_piece_at(s, k))] + spec_pos_list_from(s, k + 1)
    }
}

/// A position-list piece that is not legal. Carries the piece verbatim.
#[derive(Debug)]
pub struct PositionError {
    pub text: String,
}

impl PositionError {
    /// The offending piece, for diagnostics.
    pub fn message(&self) -> (r: String)
        ensures
            r@ == "illegal list value: \""@ + self.text@ + "\""@,
    {
        let mut s = String::from_str("illegal list value: \"");
        s.append(self.text.as_str());
        s.append("\"");
        s
    }
}

/// Read one piece.
fn parse_piece(p: &[char]) -> (r: Option<PosRange>)
    ensures
        (r is Some) == spec_piece_ok(p@),
        r matches Some(pr) ==> pr == spec_piece_range(p@),
{
    let n = p.len();
    let mut d: usize = 0;
    loop
        invariant_except_break
            0 <= d <= n,
            n == p@.len(),
            spec_dash_pos(p@, 0) == spec_dash_pos(p@, d as int),
        ensures
            0 <= d <= n,
            n == p@.len(),
            spec_dash_pos(p@, 0) == d,
        decreases n - d,
    {
        if d >= n {
            break ;
        }
        if p[d] == '-' {
            break ;
        }
        d += 1;
    }
    let lo = match chars_digits_value(p, 0, d) {
        Some(v) => v,
        None => {
            return None;
        },
    };
    if lo == 0 {
        return None;
    }
    if d == n {
        return Some(PosRange { start: lo - 1, end: lo });
    }
    let hi = match chars_digits_value(p, d + 1, n) {
        Some(v) => v,
        None => {
            return None;
        },
    };
    if lo >= hi {
        return None;
    }
    Some(PosRange { start: lo - 1, end: hi })
}

/// Read a comma-separated list of 1-based positions and ranges, such as
/// one piece `3` or `2-5` per comma. Every piece must be one number at
/// least 1, or two with the first below the second; the selected ranges
/// come back zero-based and half-open, in order. An empty text selects
/// nothing.
pub fn parse_pos(list: &str) -> (r: Result<PositionList, PositionError>)
    ensures
        spec_pos_ok_from(list@, 0) ==> (r matches Ok(v) && v@ == spec_pos_list_from(list@, 0)),
        !spec_pos_ok_from(list@, 0) ==> r is Err,
{
    let chars = chars_vec(list);
    let n = chars.len();
    let mut out: Vec<PosRange> = Vec::new();
    let mut i: usize = 0;
    let mut k: usize = 0;
    while i < n
        invariant
            0 <= i <= n,
            k <= i,
            n == chars@.len(),
            chars@ == list@,
            i == chunk_start(list@, ',', k as nat),
            spec_pos_ok_from(list@, 0) == spec_pos_ok_from(list@, k as nat),
            out@ + spec_pos_list_from(list@, k as nat) == spec_pos_list_from(list@, 0),
        decreases n - i,
    {
        let j = chunk_end_char(chars.as_slice(), ',', i);
        proof {
            lemma_chunk_end_bounds(list@, ',', i as int);
            lemma_chunk_start_count(list@, ',', k as nat);
        }
        let pe = if chars[j - 1] == ',' {
            j - 1
        } else {
            j
        };
        proof {
            assert(chars@.subrange(i as int, pe as int) =~= spec_piece_at(list@, k as nat));
        }
        let piece = &chars.as_slice()[i..pe];
        match parse_piece(piece) {
            Some(pr) => {
                out.push(pr);
                proof {
                    assert(out@ =~= (out@.drop_last() + seq![
                        spec_piece_range(spec_piece_at(list@, k as nat)),
                    ]));
                    assert((out@.drop_last() + seq![
                        spec_piece_range(spec_piece_at(list@, k as nat)),
                    ]) + spec_pos_list_from(list@, (k + 1) as nat) =~= out@.drop_last() + (seq![
                        spec_piece_range(spec_piece_at(list@, k as nat)),
                    ] + spec_pos_list_from(list@, (k + 1) as nat)));
                }
            },
            None => {
                return Err(PositionError { text: string_from_chars(piece) });
            },
        }
        i = j;
        k += 1;
    }
    proof {
        lemma_chunk_start_count(list@, ',', k as nat);
        assert(out@ + Seq::<PosRange>::empty() =~= out@);
    }
    Ok(out)
}

/// The delimiter text was not a single byte. Carries the text verbatim.
#[derive(Debug)]
pub struct DelimiterError {
    pub text: String,
}

impl DelimiterError {
    /// The diagnostic for a bad delimiter.
    pub fn message(&self) -> (r: String)
        ensures
            r@ == "--delim \""@ + self.text@ + "\" must be a single byte"@,
    {
        let mut s = String::from_str("--delim \"");
        s.append(self.text.as_str());
        s.append("\" must be a single byte");
        s
    }
}

/// A delimiter must be exactly one byte; that byte is returned, and any
/// other text is an error carrying the text verbatim.
pub fn parse_delimiter(delim: &str) -> (r: Result<u8, DelimiterError>)
    ensures
        delim.spec_bytes().len() == 1 ==> (r matches Ok(b) && b == delim.spec_bytes()[0]),
        delim.spec_bytes().len() != 1 ==> (r matches Err(e) && e.text@ == delim@),
{
    let bytes = delim.as_bytes();
    if bytes.len() == 1 {
        Ok(bytes[0])
    } else {
        Err(DelimiterError { text: String::from_str(delim) })
    }
}

} // verus!
