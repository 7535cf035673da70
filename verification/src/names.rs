use vstd::prelude::*;

use crate::bytes::append_bytes;
use crate::version::FormatVersion;
use crate::version::spec_label;
use crate::version::version_label;

verus! {

/// The fixed file name suffix that marks a compiled material (".material.bin").
pub open spec fn material_suffix() -> Seq<u8> {
    seq![46u8, 109u8, 97u8, 116u8, 101u8, 114u8, 105u8, 97u8, 108u8, 46u8, 98u8, 105u8, 110u8]
}

/// The suffix as a vector, for runtime comparisons.
pub fn material_suffix_bytes() -> (r: Vec<u8>)
    ensures
        r@ == material_suffix(),
{
    let mut out: Vec<u8> = Vec::new();
    out.push(46);
    out.push(109);
    out.push(97);
    out.push(116);
    out.push(101);
    out.push(114);
    out.push(105);
    out.push(97);
    out.push(108);
    out.push(46);
    out.push(98);
    out.push(105);
    out.push(110);
    proof {
        assert(out@ =~= material_suffix());
    }
    out
}

pub open spec fn spec_ends_with(a: Seq<u8>, suffix: Seq<u8>) -> bool {
    a.len() >= suffix.len() && a.subrange(a.len() - suffix.len(), a.len() as int) == suffix
}

/// Whether `a` ends with `suffix`.
#[verifier::loop_isolation(false)]
pub fn ends_with(a: &Vec<u8>, suffix: &Vec<u8>) -> (r: bool)
    ensures
        r == spec_ends_with(a@, suffix@),
{
    if a.len() < suffix.len() {
        return false;
    }
    let start = a.len() - suffix.len();
    let mut k: usize = 0;
    while k < suffix.len()
        invariant
            k <= suffix.len(),
            forall|t: int| 0 <= t < k ==> a@[start + t] == suffix@[t],
        decreases suffix.len() - k,
    {
        if a[start + k] != suffix[k] {
            proof {
                let sub = a@.subrange(a@.len() - suffix@.len(), a@.len() as int);
                assert(sub[k as int] != suffix@[k as int]);
            }
            return false;
        }
        k = k + 1;
    }
    proof {
        assert(a@.subrange(a@.len() - suffix@.len(), a@.len() as int) =~= suffix@);
    }
    true
}

/// Copies a byte vector.
pub fn copy_bytes(src: &Vec<u8>) -> (r: Vec<u8>)
    ensures
        r@ == src@,
{
    let mut out: Vec<u8> = Vec::new();
    append_bytes(&mut out, src);
    proof {
        assert(out@ =~= src@);
    }
    out
}

/// Derives the output file name the way the tool names converted files:
/// strips `postfix` from the end, appends an underscore, the target version's
/// label, and `postfix` again. Yields nothing when the name does not end with
/// `postfix`.
#[verifier::loop_isolation(false)]
pub fn update_filename(filename: &Vec<u8>, version: FormatVersion, postfix: &Vec<u8>) -> (r: Option<
    Vec<u8>,
>)
    ensures
        match r {
            Some(out) => spec_ends_with(filename@, postfix@) && out@ == filename@.take(
                filename@.len() - postfix@.len(),
            ) + seq![95u8] + spec_label(version) + postfix@,
            None => !spec_ends_with(filename@, postfix@),
        },
{
    if !ends_with(filename, postfix) {
        return None;
    }
    let stem_len = filename.len() - postfix.len();
    let mut out: Vec<u8> = Vec::new();
    let mut k: usize = 0;
    while k < stem_len
        invariant
            k <= stem_len,
            out@ == filename@.take(k as int),
        decreases stem_len - k,
    {
        out.push(filename[k]);
        proof {
            assert(out@ =~= filename@.take(k as int + 1));
        }
        k = k + 1;
    }
    out.push(95);
    let label = version_label(version);
    append_bytes(&mut out, &label);
    append_bytes(&mut out, postfix);
    proof {
        assert(out@ =~= filename@.take(filename@.len() - postfix@.len()) + seq![95u8] + spec_label(
            version,
        ) + postfix@);
    }
    Some(out)
}

} // verus!
