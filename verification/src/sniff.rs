use vstd::prelude::*;

use crate::bytes::DecodeError;
use crate::codec::spec_decode;
use crate::codec::spec_encode;
use crate::decode::decode;
use crate::laws::lemma_decode_ok_wf;
use crate::laws::lemma_round_trip;
use crate::model::MaterialDefinition;
use crate::model::MaterialView;
use crate::model::features_ok;
use crate::model::wf;
use crate::version::FormatVersion;
use crate::version::all_versions;
use crate::version::registry;

verus! {

/// No supported version's layout accepts the buffer.
#[derive(Debug, Clone, Copy, PartialEq, Eq, Structural)]
pub struct NoMatchError;

/// The result of trying the registry's versions from position `i` onward:
/// the first successful decode wins.
pub open spec fn spec_sniff_from(b: Seq<u8>, i: int) -> Option<(MaterialView, FormatVersion)>
    decreases registry().len() - i,
{
    if 0 <= i < registry().len() {
        match spec_decode(b, registry()[i]) {
            Ok(m) => Some((m, registry()[i])),
            Err(_) => spec_sniff_from(b, i + 1),
        }
    } else {
        None
    }
}

/// What sniffing a buffer yields: the decode under the first registry-order
/// version that accepts it, and no match only when every version refuses.
pub open spec fn spec_sniff(b: Seq<u8>) -> Option<(MaterialView, FormatVersion)> {
    spec_sniff_from(b, 0)
}

/// A sniffed material decoded under the reported version, is well formed, and
/// can be encoded back to that version.
pub proof fn lemma_sniff_some_ok(b: Seq<u8>, i: int)
    requires
        spec_sniff_from(b, i) is Some,
    ensures
        ({
            let (m, v) = spec_sniff_from(b, i)->Some_0;
            &&& spec_decode(b, v) == Ok::<MaterialView, DecodeError>(m)
            &&& wf(m)
            &&& features_ok(m, v)
        }),
    decreases registry().len() - i,
{
    if 0 <= i < registry().len() {
        match spec_decode(b, registry()[i]) {
            Ok(_) => {
                lemma_decode_ok_wf(b, registry()[i]);
            },
            Err(_) => {
                lemma_sniff_some_ok(b, i + 1);
            },
        }
    }
}

/// Sniffing from position `k` equals sniffing from position `i` when no
/// version between them accepts the buffer.
pub proof fn lemma_sniff_skip(b: Seq<u8>, k: int, i: int)
    requires
        0 <= k <= i <= registry().len(),
        forall|j: int| k <= j < i ==> !(spec_decode(b, #[trigger] registry()[j]) is Ok),
    ensures
        spec_sniff_from(b, k) == spec_sniff_from(b, i),
    decreases i - k,
{
    if k < i {
        lemma_sniff_skip(b, k + 1, i);
    }
}

/// The ambiguity tie-break law: sniffing the encoding of `m` under `v`
/// reports `v` (and yields `m` back) whenever `v` is the first registry-order
/// version under which those bytes decode.
pub proof fn lemma_sniff_of_encode(m: MaterialView, v: FormatVersion, i: int)
    requires
        wf(m),
        features_ok(m, v),
        0 <= i < registry().len(),
        registry()[i] == v,
        forall|j: int|
            0 <= j < i ==> !(spec_decode(spec_encode(m, v), #[trigger] registry()[j]) is Ok),
    ensures
        spec_sniff(spec_encode(m, v)) == Some((m, v)),
{
    lemma_round_trip(m, v);
    lemma_sniff_skip(spec_encode(m, v), 0, i);
}

/// Tries each registered version in priority order and returns the first
/// decode that succeeds, with the version that accepted the buffer; fails
/// only when every version refuses.
#[verifier::loop_isolation(false)]
pub fn sniff(data: &Vec<u8>) -> (r: Result<(MaterialDefinition, FormatVersion), NoMatchError>)
    ensures
        match r {
            Ok((m, v)) => spec_sniff(data@) == Some((m.deep_view(), v)),
            Err(_) => spec_sniff(data@) is None,
        },
{
    let versions = all_versions();
    let mut i: usize = 0;
    while i < versions.len()
        invariant
            i <= versions.len(),
            spec_sniff(data@) == spec_sniff_from(data@, i as int),
        decreases versions.len() - i,
    {
        let v = versions[i];
        match decode(data, v) {
            Ok(m) => {
                return Ok((m, v));
            },
            Err(_) => {},
        }
        i = i + 1;
    }
    Err(NoMatchError)
}

} // verus!
