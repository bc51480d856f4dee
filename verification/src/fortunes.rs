//! Fortune files: `%`-delimited blocks of text, read into adages, and a
//! random pick among them.

use vstd::prelude::*;

use crate::chunks::chunk_count;
use crate::chunks::chunk_end_u8;
use crate::chunks::chunk_start;
use crate::chunks::lemma_chunk_end_bounds;
use crate::chunks::lemma_chunk_start_count;
use crate::text::chars_vec;
use crate::text::decode_lossy;
use crate::text::lossy_chars;
use crate::text::spec_trim;
use crate::text::string_from_chars;
use crate::text::trim_chars;
use rand::Rng;
use rand::SeedableRng;

verus! {

/// The block terminator of a fortune file.
pub const PERCENT: u8 = 37;

/// One adage: its text, and the name of the file it came from.
#[derive(Debug)]
pub struct Adage {
    pub source: Option<String>,
    pub text: String,
}

/// One fortune file: the name shown as an adage's source, and the
/// file's contents.
#[derive(Debug)]
pub struct FortuneFile {
    pub name: Option<String>,
    pub data: Vec<u8>,
}

/// The mathematical image of an [`Adage`].
pub struct AdageView {
    pub source: Option<Seq<char>>,
    pub text: Seq<char>,
}

/// The mathematical image of a [`FortuneFile`].
pub struct FortuneFileView {
    pub name: Option<Seq<char>>,
    pub data: Seq<u8>,
}

impl View for Adage {
    type V = AdageView;

    open spec fn view(&self) -> AdageView {
        AdageView {
            source: match self.source {
                Some(s) => Some(s@),
                None => None,
            },
            text: self.text@,
        }
    }
}

impl View for FortuneFile {
    type V = FortuneFileView;

    open spec fn view(&self) -> FortuneFileView {
        FortuneFileView {
            name: match self.name {
                Some(s) => Some(s@),
                None => None,
            },
            data: self.data@,
        }
    }
}

/// The text of block `k` of a fortune file: the block's bytes less the
/// final one (the terminator, or the last stray byte of an unterminated
/// trailing block), decoded permissively and trimmed.
pub open spec fn spec_adage_text(data: Seq<u8>, k: nat) -> Seq<char> {
    spec_trim(
        lossy_chars(
            data.subrange(chunk_start(data, PERCENT, k), chunk_start(data, PERCENT, k + 1)).drop_last(),
        ),
    )
}

/// The adages of blocks `k` onward of one file: each nonempty trimmed
/// block text, under the file's name.
pub open spec fn spec_adages_from(name: Option<Seq<char>>, data: Seq<u8>, k: nat) -> Seq<
    AdageView,
>
    decreases chunk_count(data, PERCENT) - k,
{
    if k >= chunk_count(data, PERCENT) {
        Seq::empty()
    } else {
        (if spec_adage_text(data, k).len() > 0 {
            seq![AdageView { source: name, text: spec_adage_text(data, k) }]
        } else {
            Seq::empty()
        }) + spec_adages_from(name, data, k + 1)
    }
}

/// The adages of one whole file.
pub open spec fn spec_file_adages(f: FortuneFileView) -> Seq<AdageView> {
    spec_adages_from(f.name, f.data, 0)
}

/// The adages of files `i` onward, in file order.
pub open spec fn spec_all_adages_from(files: Seq<FortuneFileView>, i: int) -> Seq<AdageView>
    decreases files.len() - i,
{
    if i < 0 || i >= files.len() {
        Seq::empty()
    } else {
        spec_file_adages(files[i]) + spec_all_adages_from(files, i + 1)
    }
}

/// The images of a list of adages.
pub open spec fn adages_view(v: Seq<Adage>) -> Seq<AdageView> {
    v.map_values(|a: Adage| a@)
}

/// The images of a list of fortune files.
pub open spec fn files_view(v: Seq<FortuneFile>) -> Seq<FortuneFileView> {
    v.map_values(|f: FortuneFile| f@)
}

/// Read the adages of one fortune file: split its contents at `%`,
/// strip each block's final byte, decode permissively, trim, and keep
/// what is nonempty.
pub fn read_fortune(file: &FortuneFile) -> (r: Vec<Adage>)
    ensures
        adages_view(r@) == spec_adages_from(file@.name, file@.data, 0),
{
    let data = file.data.as_slice();
    let n = data.len();
    let mut out: Vec<Adage> = Vec::new();
    let mut i: usize = 0;
    let mut k: usize = 0;
    while i < n
        invariant
            0 <= i <= n,
            k <= i,
            n == file.data@.len(),
            data@ == file.data@,
            i == chunk_start(file.data@, PERCENT, k as nat),
            adages_view(out@) + spec_adages_from(file@.name, file@.data, k as nat)
                == spec_adages_from(file@.name, file@.data, 0),
        decreases n - i,
    {
        let ghost pre = out@;
        let j = chunk_end_u8(data, PERCENT, i);
        proof {
            lemma_chunk_end_bounds(data@, PERCENT, i as int);
            lemma_chunk_start_count(data@, PERCENT, k as nat);
            assert(data@.subrange(i as int, j as int).drop_last() =~= data@.subrange(
                i as int,
                j - 1 as int,
            ));
        }
        let body = decode_lossy(&data[i..j - 1]);
        let cv = chars_vec(body.as_str());
        let trimmed = trim_chars(cv.as_slice());
        if trimmed.len() > 0 {
            let source = match &file.name {
                Some(s) => Some(s.clone()),
                None => None,
            };
            let text = string_from_chars(trimmed.as_slice());
            out.push(Adage { source, text });
        }
        proof {
            assert(adages_view(out@) =~= adages_view(pre) + (if spec_adage_text(
                file@.data,
                k as nat,
            ).len() > 0 {
                seq![AdageView { source: file@.name, text: spec_adage_text(file@.data, k as nat) }]
            } else {
                Seq::<AdageView>::empty()
            }));
            assert((adages_view(pre) + (if spec_adage_text(file@.data, k as nat).len() > 0 {
                seq![AdageView { source: file@.name, text: spec_adage_text(file@.data, k as nat) }]
            } else {
                Seq::<AdageView>::empty()
            })) + spec_adages_from(file@.name, file@.data, (k + 1) as nat) =~= adages_view(pre) + ((
            if spec_adage_text(file@.data, k as nat).len() > 0 {
                seq![AdageView { source: file@.name, text: spec_adage_text(file@.data, k as nat) }]
            } else {
                Seq::<AdageView>::empty()
            }) + spec_adages_from(file@.name, file@.data, (k + 1) as nat)));
        }
        i = j;
        k += 1;
    }
    proof {
        lemma_chunk_start_count(file.data@, PERCENT, k as nat);
        assert(adages_view(out@) =~= spec_adages_from(file@.name, file@.data, 0));
    }
    out
}

/// Read the adages of a list of fortune files, in order.
pub fn read_fortunes(sources: &Vec<FortuneFile>) -> (r: Vec<Adage>)
    ensures
        adages_view(r@) == spec_all_adages_from(files_view(sources@), 0),
{
    let ghost fv = files_view(sources@);
    let n = sources.len();
    let mut out: Vec<Adage> = Vec::new();
    let mut i: usize = 0;
    while i < n
        invariant
            0 <= i <= n,
            n == sources@.len(),
            fv == files_view(sources@),
            fv.len() == n,
            adages_view(out@) + spec_all_adages_from(fv, i as int) == spec_all_adages_from(fv, 0),
        decreases n - i,
    {
        let ghost pre = out@;
        let mut adages = read_fortune(&sources[i]);
        proof {
            assert(fv[i as int] == sources@[i as int]@);
        }
        out.append(&mut adages);
        proof {
            assert(adages_view(out@) =~= adages_view(pre) + spec_file_adages(fv[i as int]));
            assert((adages_view(pre) + spec_file_adages(fv[i as int])) + spec_all_adages_from(
                fv,
                i + 1,
            ) =~= adages_view(pre) + (spec_file_adages(fv[i as int]) + spec_all_adages_from(
                fv,
                i + 1,
            )));
        }
        i += 1;
    }
    proof {
        assert(adages_view(out@) =~= spec_all_adages_from(fv, 0));
    }
    out
}

#[verifier::external_type_specification]
#[verifier::external_body]
pub struct ExStdRng(rand::rngs::StdRng);

#[verifier::external_type_specification]
#[verifier::external_body]
pub struct ExThreadRng(rand::rngs::ThreadRng);

/// Relies on `rand::rngs::StdRng::seed_from_u64`: builds a generator.
/// Nothing is promised of the values it will yield.
#[verifier::external_body]
fn rng_from_seed(seed: u64) -> rand::rngs::StdRng {
    rand::rngs::StdRng::seed_from_u64(seed)
}

/// Relies on `rand::thread_rng`: hands out the thread's generator.
/// Nothing is promised of the values it will yield.
#[verifier::external_body]
fn fresh_thread_rng() -> rand::rngs::ThreadRng {
    rand::thread_rng()
}

/// Relies on `rand::Rng::gen_range` over `0..n`: some value below `n`,
/// whatever the generator's state.
#[verifier::external_body]
fn std_rng_below_u32(rng: &mut rand::rngs::StdRng, n: u32) -> (r: u32)
    requires
        n > 0,
    ensures
        r < n,
{
    rng.gen_range(0..n)
}

/// Relies on `rand::Rng::gen_range` over `0..n`: some value below `n`,
/// whatever the generator's state.
#[verifier::external_body]
fn std_rng_below_usize(rng: &mut rand::rngs::StdRng, n: usize) -> (r: usize)
    requires
        n > 0,
    ensures
        r < n,
{
    rng.gen_range(0..n)
}

/// Relies on `rand::Rng::gen_range` over `0..n`: some value below `n`,
/// whatever the generator's state.
#[verifier::external_body]
fn thread_rng_below_u32(rng: &mut rand::rngs::ThreadRng, n: u32) -> (r: u32)
    requires
        n > 0,
    ensures
        r < n,
{
    rng.gen_range(0..n)
}

/// Relies on `rand::Rng::gen_range` over `0..n`: some value below `n`,
/// whatever the generator's state.
#[verifier::external_body]
fn thread_rng_below_usize(rng: &mut rand::rngs::ThreadRng, n: usize) -> (r: usize)
    requires
        n > 0,
    ensures
        r < n,
{
    rng.gen_range(0..n)
}

/// A random slice index: drawn below `u32::MAX` as a 32-bit value, as
/// the slice-choosing code of the rand crate draws it, else as a full
/// word.
fn std_rng_index(rng: &mut rand::rngs::StdRng, len: usize) -> (r: usize)
    requires
        len > 0,
    ensures
        r < len,
{
    if len <= u32::MAX as usize {
        std_rng_below_u32(rng, len as u32) as usize
    } else {
        std_rng_below_usize(rng, len)
    }
}

/// A random slice index, drawn from the thread's generator the same
/// way.
fn thread_rng_index(rng: &mut rand::rngs::ThreadRng, len: usize) -> (r: usize)
    requires
        len > 0,
    ensures
        r < len,
{
    if len <= u32::MAX as usize {
        thread_rng_below_u32(rng, len as u32) as usize
    } else {
        thread_rng_below_usize(rng, len)
    }
}

/// Pick one adage at random: none from an empty list, else some element
/// of the list — seeded and reproducible when a seed is given, from the
/// thread's generator otherwise.
pub fn pick_random_adage<'a>(adages: &'a Vec<Adage>, seed: Option<u64>) -> (r: Option<&'a Adage>)
    ensures
        (r is None) <==> adages@.len() == 0,
        r matches Some(a) ==> exists|i: int| 0 <= i < adages@.len() && *a == adages@[i],
{
    let len = adages.len();
    if len == 0 {
        return None;
    }
    let idx: usize = match seed {
        Some(s) => {
            let mut rng = rng_from_seed(s);
            std_rng_index(&mut rng, len)
        },
        None => {
            let mut rng = fresh_thread_rng();
            thread_rng_index(&mut rng, len)
        },
    };
    let picked = &adages[idx];
    proof {
        assert(*picked == adages@[idx as int]);
    }
    Some(picked)
}

} // verus!
