use vstd::prelude::*;

verus! {

/// One of the engine builds whose material layout this library understands.
#[derive(Clone, Copy, PartialEq, Eq, Structural, Debug)]
pub enum FormatVersion {
    V1_21_20,
    V1_20_80,
    V1_19_60,
    V1_18_30,
}

/// The closed registry of supported versions, in sniffing priority order
/// (newest first). The order is a design decision, not a heuristic: a buffer
/// that decodes under more than one layout resolves to the earliest entry of
/// this list that accepts it.
pub open spec fn registry() -> Seq<FormatVersion> {
    seq![
        FormatVersion::V1_21_20,
        FormatVersion::V1_20_80,
        FormatVersion::V1_19_60,
        FormatVersion::V1_18_30,
    ]
}

/// Whether the version's layout carries an optional parent-material reference.
pub open spec fn spec_has_parent(v: FormatVersion) -> bool {
    v == FormatVersion::V1_21_20 || v == FormatVersion::V1_20_80
}

/// Whether the version's layout stores a stage tag on each pass.
pub open spec fn spec_has_stage(v: FormatVersion) -> bool {
    v != FormatVersion::V1_18_30
}

/// Exclusive upper bound on the uniform kind tags the version can represent.
pub open spec fn spec_kind_limit(v: FormatVersion) -> u8 {
    if v == FormatVersion::V1_21_20 {
        6
    } else {
        4
    }
}

/// ASCII rendering of the version, used when deriving output file names.
pub open spec fn spec_label(v: FormatVersion) -> Seq<u8> {
    match v {
        FormatVersion::V1_21_20 => seq![49u8, 46u8, 50u8, 49u8, 46u8, 50u8, 48u8],
        FormatVersion::V1_20_80 => seq![49u8, 46u8, 50u8, 48u8, 46u8, 56u8, 48u8],
        FormatVersion::V1_19_60 => seq![49u8, 46u8, 49u8, 57u8, 46u8, 54u8, 48u8],
        FormatVersion::V1_18_30 => seq![49u8, 46u8, 49u8, 56u8, 46u8, 51u8, 48u8],
    }
}

pub fn has_parent(v: FormatVersion) -> (r: bool)
    ensures
        r == spec_has_parent(v),
{
    v == FormatVersion::V1_21_20 || v == FormatVersion::V1_20_80
}

pub fn has_stage(v: FormatVersion) -> (r: bool)
    ensures
        r == spec_has_stage(v),
{
    !(v == FormatVersion::V1_18_30)
}

pub fn kind_limit(v: FormatVersion) -> (r: u8)
    ensures
        r == spec_kind_limit(v),
{
    if v == FormatVersion::V1_21_20 {
        6
    } else {
        4
    }
}

/// The registry as a vector, for iteration by the sniffer and by callers.
pub fn all_versions() -> (r: Vec<FormatVersion>)
    ensures
        r@ == registry(),
{
    let mut out: Vec<FormatVersion> = Vec::new();
    out.push(FormatVersion::V1_21_20);
    out.push(FormatVersion::V1_20_80);
    out.push(FormatVersion::V1_19_60);
    out.push(FormatVersion::V1_18_30);
    proof {
        assert(out@ =~= registry());
    }
    out
}

/// ASCII label of the version ("1.21.20" and the like) as bytes.
pub fn version_label(v: FormatVersion) -> (r: Vec<u8>)
    ensures
        r@ == spec_label(v),
{
    let mut out: Vec<u8> = Vec::new();
    match v {
        FormatVersion::V1_21_20 => {
            out.push(49);
            out.push(46);
            out.push(50);
            out.push(49);
            out.push(46);
            out.push(50);
            out.push(48);
        },
        FormatVersion::V1_20_80 => {
            out.push(49);
            out.push(46);
            out.push(50);
            out.push(48);
            out.push(46);
            out.push(56);
            out.push(48);
        },
        FormatVersion::V1_19_60 => {
            out.push(49);
            out.push(46);
            out.push(49);
            out.push(57);
            out.push(46);
            out.push(54);
            out.push(48);
        },
        FormatVersion::V1_18_30 => {
            out.push(49);
            out.push(46);
            out.push(49);
            out.push(56);
            out.push(46);
            out.push(51);
            out.push(48);
        },
    }
    proof {
        assert(out@ =~= spec_label(v));
    }
    out
}

} // verus!
