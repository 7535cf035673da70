use vstd::prelude::*;

use crate::bytes::DecodeError;
use crate::bytes::dec_bytes;
use crate::bytes::dec_u32;
use crate::bytes::dec_u8;
use crate::bytes::enc_u32;
use crate::model::MaterialView;
use crate::model::PassView;
use crate::model::UniformView;
use crate::model::features_ok;
use crate::model::kinds_ok;
use crate::model::parent_ok;
use crate::version::FormatVersion;
use crate::version::spec_has_parent;
use crate::version::spec_has_stage;
use crate::version::spec_kind_limit;

verus! {

/// Why a material could not be encoded under a given target version.
#[derive(Debug, Clone, Copy, PartialEq, Eq, Structural)]
pub enum EncodeError {
    /// The material names a parent, which the target layout has no room for.
    UnsupportedParent,
    /// A uniform kind tag lies outside what the target layout can represent.
    UnsupportedKind,
    /// A pass carries a stage other than the default, which the target layout
    /// cannot record.
    UnsupportedStage,
}

/// A u32-length-prefixed run of bytes.
pub open spec fn enc_bytes(s: Seq<u8>) -> Seq<u8> {
    enc_u32(s.len() as u32) + s
}

/// The parent section: present only in layouts that support it, as a presence
/// tag byte followed, when the tag is 1, by the parent name.
pub open spec fn enc_parent(p: Option<Seq<u8>>, v: FormatVersion) -> Seq<u8> {
    if spec_has_parent(v) {
        match p {
            Option::None => seq![0u8],
            Option::Some(s) => seq![1u8] + enc_bytes(s),
        }
    } else {
        Seq::empty()
    }
}

/// One uniform declaration: name, then the kind tag byte.
pub open spec fn enc_uniform(u: UniformView) -> Seq<u8> {
    enc_bytes(u.name) + seq![u.kind]
}

pub open spec fn enc_uniforms(s: Seq<UniformView>) -> Seq<u8>
    decreases s.len(),
{
    if s.len() == 0 {
        Seq::empty()
    } else {
        enc_uniform(s[0]) + enc_uniforms(s.drop_first())
    }
}

/// One pass: name, the stage tag byte where the layout has one, then the
/// bytecode blob.
pub open spec fn enc_pass(p: PassView, v: FormatVersion) -> Seq<u8> {
    enc_bytes(p.name) + (if spec_has_stage(v) {
        seq![p.stage]
    } else {
        Seq::empty()
    }) + enc_bytes(p.bytecode)
}

pub open spec fn enc_passes(s: Seq<PassView>, v: FormatVersion) -> Seq<u8>
    decreases s.len(),
{
    if s.len() == 0 {
        Seq::empty()
    } else {
        enc_pass(s[0], v) + enc_passes(s.drop_first(), v)
    }
}

/// The full byte image of a material under version `v`'s layout: name, flags,
/// the parent section where present, then the counted uniform and pass lists.
pub open spec fn spec_encode(m: MaterialView, v: FormatVersion) -> Seq<u8> {
    enc_bytes(m.name) + enc_u32(m.flags) + enc_parent(m.parent, v) + enc_u32(
        m.uniforms.len() as u32,
    ) + enc_uniforms(m.uniforms) + enc_u32(m.passes.len() as u32) + enc_passes(m.passes, v)
}

/// The error the encoder reports for a material that version `v` cannot
/// represent: parent first, then kinds, then stages.
pub open spec fn spec_encode_err(m: MaterialView, v: FormatVersion) -> EncodeError {
    if !parent_ok(m, v) {
        EncodeError::UnsupportedParent
    } else if !kinds_ok(m, v) {
        EncodeError::UnsupportedKind
    } else {
        EncodeError::UnsupportedStage
    }
}

/// What encoding a material to version `v` yields: its byte image when every
/// construct is representable, the exact error otherwise.
pub open spec fn spec_encode_result(m: MaterialView, v: FormatVersion) -> Result<
    Seq<u8>,
    EncodeError,
> {
    if features_ok(m, v) {
        Ok(spec_encode(m, v))
    } else {
        Err(spec_encode_err(m, v))
    }
}

/// Parsing the parent section at offset `i`.
pub open spec fn dec_parent(b: Seq<u8>, i: int, v: FormatVersion) -> Result<
    (Option<Seq<u8>>, int),
    DecodeError,
> {
    if spec_has_parent(v) {
        match dec_u8(b, i) {
            Ok((t, j)) => if t == 0 {
                Ok((Option::None, j))
            } else if t == 1 {
                match dec_bytes(b, j) {
                    Ok((s, k)) => Ok((Option::Some(s), k)),
                    Err(e) => Err(e),
                }
            } else {
                Err(DecodeError::BadTag)
            },
            Err(e) => Err(e),
        }
    } else {
        Ok((Option::None, i))
    }
}

/// Parsing one uniform declaration at offset `i`.
pub open spec fn dec_uniform(b: Seq<u8>, i: int, v: FormatVersion) -> Result<
    (UniformView, int),
    DecodeError,
> {
    match dec_bytes(b, i) {
        Ok((nm, j)) => match dec_u8(b, j) {
            Ok((k, l)) => if k < spec_kind_limit(v) {
                Ok((UniformView { name: nm, kind: k }, l))
            } else {
                Err(DecodeError::BadTag)
            },
            Err(e) => Err(e),
        },
        Err(e) => Err(e),
    }
}

/// Parsing `n` uniform declarations in a row, starting at offset `i`.
pub open spec fn dec_uniforms(b: Seq<u8>, i: int, v: FormatVersion, n: nat) -> Result<
    (Seq<UniformView>, int),
    DecodeError,
>
    decreases n,
{
    if n == 0 {
        Ok((Seq::empty(), i))
    } else {
        match dec_uniform(b, i, v) {
            Ok((u, j)) => match dec_uniforms(b, j, v, (n - 1) as nat) {
                Ok((s, k)) => Ok((seq![u] + s, k)),
                Err(e) => Err(e),
            },
            Err(e) => Err(e),
        }
    }
}

/// Parsing one pass at offset `i`.
pub open spec fn dec_pass(b: Seq<u8>, i: int, v: FormatVersion) -> Result<
    (PassView, int),
    DecodeError,
> {
    match dec_bytes(b, i) {
        Ok((nm, j)) => {
            let stage_r = if spec_has_stage(v) {
                dec_u8(b, j)
            } else {
                Ok((0u8, j))
            };
            match stage_r {
                Ok((st, k)) => match dec_bytes(b, k) {
                    Ok((bc, l)) => Ok((PassView { name: nm, stage: st, bytecode: bc }, l)),
                    Err(e) => Err(e),
                },
                Err(e) => Err(e),
            }
        },
        Err(e) => Err(e),
    }
}

/// Parsing `n` passes in a row, starting at offset `i`.
pub open spec fn dec_passes(b: Seq<u8>, i: int, v: FormatVersion, n: nat) -> Result<
    (Seq<PassView>, int),
    DecodeError,
>
    decreases n,
{
    if n == 0 {
        Ok((Seq::empty(), i))
    } else {
        match dec_pass(b, i, v) {
            Ok((p, j)) => match dec_passes(b, j, v, (n - 1) as nat) {
                Ok((s, k)) => Ok((seq![p] + s, k)),
                Err(e) => Err(e),
            },
            Err(e) => Err(e),
        }
    }
}

/// Parsing a whole material body from offset 0, yielding the value and the
/// offset one past its last byte.
pub open spec fn dec_material(b: Seq<u8>, v: FormatVersion) -> Result<
    (MaterialView, int),
    DecodeError,
> {
    match dec_bytes(b, 0) {
        Ok((name, i1)) => match dec_u32(b, i1) {
            Ok((flags, i2)) => match dec_parent(b, i2, v) {
                Ok((parent, i3)) => match dec_u32(b, i3) {
                    Ok((ucount, i4)) => match dec_uniforms(b, i4, v, ucount as nat) {
                        Ok((uniforms, i5)) => match dec_u32(b, i5) {
                            Ok((pcount, i6)) => match dec_passes(b, i6, v, pcount as nat) {
                                Ok((passes, i7)) => Ok(
                                    (MaterialView { name, flags, parent, uniforms, passes }, i7),
                                ),
                                Err(e) => Err(e),
                            },
                            Err(e) => Err(e),
                        },
                        Err(e) => Err(e),
                    },
                    Err(e) => Err(e),
                },
                Err(e) => Err(e),
            },
            Err(e) => Err(e),
        },
        Err(e) => Err(e),
    }
}

/// What decoding a buffer under version `v` yields: the material exactly when
/// every field parses and the fields end exactly at the end of the buffer.
pub open spec fn spec_decode(b: Seq<u8>, v: FormatVersion) -> Result<MaterialView, DecodeError> {
    match dec_material(b, v) {
        Ok((m, i)) => if i == b.len() {
            Ok(m)
        } else {
            Err(DecodeError::Trailing)
        },
        Err(e) => Err(e),
    }
}

} // verus!
