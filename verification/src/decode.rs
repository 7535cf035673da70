use vstd::prelude::*;

use crate::bytes::DecodeError;
use crate::bytes::read_bytes;
use crate::bytes::read_u32;
use crate::bytes::read_u8;
use crate::codec::dec_material;
use crate::codec::dec_parent;
use crate::codec::dec_pass;
use crate::codec::dec_passes;
use crate::codec::dec_uniform;
use crate::codec::dec_uniforms;
use crate::codec::spec_decode;
use crate::model::MaterialDefinition;
use crate::model::MaterialView;
use crate::model::Pass;
use crate::model::PassView;
use crate::model::Uniform;
use crate::model::UniformView;
use crate::model::opt_view;
use crate::version::FormatVersion;
use crate::version::has_parent;
use crate::version::has_stage;
use crate::version::kind_limit;

verus! {

fn decode_parent(data: &Vec<u8>, off: &mut usize, v: FormatVersion) -> (r: Result<
    Option<Vec<u8>>,
    DecodeError,
>)
    ensures
        match r {
            Ok(p) => dec_parent(data@, *old(off) as int, v) == Ok::<
                (Option<Seq<u8>>, int),
                DecodeError,
            >((opt_view(p), *final(off) as int)),
            Err(e) => dec_parent(data@, *old(off) as int, v) == Err::<
                (Option<Seq<u8>>, int),
                DecodeError,
            >(e),
        },
{
    if !has_parent(v) {
        return Ok(None);
    }
    let t = match read_u8(data, off) {
        Ok(t) => t,
        Err(e) => {
            return Err(e);
        },
    };
    if t == 0 {
        Ok(None)
    } else if t == 1 {
        match read_bytes(data, off) {
            Ok(s) => Ok(Some(s)),
            Err(e) => Err(e),
        }
    } else {
        Err(DecodeError::BadTag)
    }
}

fn decode_uniform(data: &Vec<u8>, off: &mut usize, v: FormatVersion) -> (r: Result<
    Uniform,
    DecodeError,
>)
    ensures
        match r {
            Ok(u) => dec_uniform(data@, *old(off) as int, v) == Ok::<
                (UniformView, int),
                DecodeError,
            >((u.deep_view(), *final(off) as int)),
            Err(e) => dec_uniform(data@, *old(off) as int, v) == Err::<
                (UniformView, int),
                DecodeError,
            >(e),
        },
{
    let name = match read_bytes(data, off) {
        Ok(x) => x,
        Err(e) => {
            return Err(e);
        },
    };
    let kind = match read_u8(data, off) {
        Ok(x) => x,
        Err(e) => {
            return Err(e);
        },
    };
    if kind >= kind_limit(v) {
        return Err(DecodeError::BadTag);
    }
    Ok(Uniform { name, kind })
}

fn decode_pass(data: &Vec<u8>, off: &mut usize, v: FormatVersion) -> (r: Result<Pass, DecodeError>)
    ensures
        match r {
            Ok(p) => dec_pass(data@, *old(off) as int, v) == Ok::<(PassView, int), DecodeError>(
                (p.deep_view(), *final(off) as int),
            ),
            Err(e) => dec_pass(data@, *old(off) as int, v) == Err::<(PassView, int), DecodeError>(
                e,
            ),
        },
{
    let name = match read_bytes(data, off) {
        Ok(x) => x,
        Err(e) => {
            return Err(e);
        },
    };
    let stage = if has_stage(v) {
        match read_u8(data, off) {
            Ok(x) => x,
            Err(e) => {
                return Err(e);
            },
        }
    } else {
        0
    };
    let bytecode = match read_bytes(data, off) {
        Ok(x) => x,
        Err(e) => {
            return Err(e);
        },
    };
    Ok(Pass { name, stage, bytecode })
}

proof fn lemma_uniforms_step(
    b: Seq<u8>,
    ustart: int,
    v: FormatVersion,
    total: nat,
    done: nat,
    prev: Seq<UniformView>,
    u: UniformView,
    o1: int,
    o2: int,
)
    requires
        done < total,
        dec_uniform(b, o1, v) == Ok::<(UniformView, int), DecodeError>((u, o2)),
        match dec_uniforms(b, o1, v, (total - done) as nat) {
            Ok((s, j)) => dec_uniforms(b, ustart, v, total) == Ok::<
                (Seq<UniformView>, int),
                DecodeError,
            >((prev + s, j)),
            Err(e) => dec_uniforms(b, ustart, v, total) == Err::<
                (Seq<UniformView>, int),
                DecodeError,
            >(e),
        },
    ensures
        match dec_uniforms(b, o2, v, (total - done - 1) as nat) {
            Ok((s, j)) => dec_uniforms(b, ustart, v, total) == Ok::<
                (Seq<UniformView>, int),
                DecodeError,
            >((prev.push(u) + s, j)),
            Err(e) => dec_uniforms(b, ustart, v, total) == Err::<
                (Seq<UniformView>, int),
                DecodeError,
            >(e),
        },
{
    let n = (total - done) as nat;
    match dec_uniforms(b, o2, v, (n - 1) as nat) {
        Ok((s, j)) => {
            assert(dec_uniforms(b, o1, v, n) == Ok::<(Seq<UniformView>, int), DecodeError>(
                (seq![u] + s, j),
            ));
            assert(prev + (seq![u] + s) =~= prev.push(u) + s);
        },
        Err(_) => {},
    }
}

proof fn lemma_passes_step(
    b: Seq<u8>,
    pstart: int,
    v: FormatVersion,
    total: nat,
    done: nat,
    prev: Seq<PassView>,
    p: PassView,
    o1: int,
    o2: int,
)
    requires
        done < total,
        dec_pass(b, o1, v) == Ok::<(PassView, int), DecodeError>((p, o2)),
        match dec_passes(b, o1, v, (total - done) as nat) {
            Ok((s, j)) => dec_passes(b, pstart, v, total) == Ok::<
                (Seq<PassView>, int),
                DecodeError,
            >((prev + s, j)),
            Err(e) => dec_passes(b, pstart, v, total) == Err::<(Seq<PassView>, int), DecodeError>(
                e,
            ),
        },
    ensures
        match dec_passes(b, o2, v, (total - done - 1) as nat) {
            Ok((s, j)) => dec_passes(b, pstart, v, total) == Ok::<
                (Seq<PassView>, int),
                DecodeError,
            >((prev.push(p) + s, j)),
            Err(e) => dec_passes(b, pstart, v, total) == Err::<(Seq<PassView>, int), DecodeError>(
                e,
            ),
        },
{
    let n = (total - done) as nat;
    match dec_passes(b, o2, v, (n - 1) as nat) {
        Ok((s, j)) => {
            assert(dec_passes(b, o1, v, n) == Ok::<(Seq<PassView>, int), DecodeError>(
                (seq![p] + s, j),
            ));
            assert(prev + (seq![p] + s) =~= prev.push(p) + s);
        },
        Err(_) => {},
    }
}

/// Parses a byte buffer under version `v`'s layout into a material. Yields
/// the decoded material exactly when the buffer is a valid encoding for `v`,
/// and the structural error otherwise; a failure has no effect.
#[verifier::loop_isolation(false)]
pub fn decode(data: &Vec<u8>, v: FormatVersion) -> (r: Result<MaterialDefinition, DecodeError>)
    ensures
        match r {
            Ok(m) => spec_decode(data@, v) == Ok::<MaterialView, DecodeError>(m.deep_view()),
            Err(e) => spec_decode(data@, v) == Err::<MaterialView, DecodeError>(e),
        },
{
    let mut off: usize = 0;
    let name = match read_bytes(data, &mut off) {
        Ok(x) => x,
        Err(e) => {
            return Err(e);
        },
    };
    let flags = match read_u32(data, &mut off) {
        Ok(x) => x,
        Err(e) => {
            return Err(e);
        },
    };
    let parent = match decode_parent(data, &mut off, v) {
        Ok(x) => x,
        Err(e) => {
            return Err(e);
        },
    };
    let ucount = match read_u32(data, &mut off) {
        Ok(x) => x,
        Err(e) => {
            return Err(e);
        },
    };
    let ghost ustart = off as int;
    let mut uniforms: Vec<Uniform> = Vec::new();
    let mut k: u32 = 0;
    while k < ucount
        invariant
            k <= ucount,
            match dec_uniforms(data@, off as int, v, (ucount - k) as nat) {
                Ok((s, j)) => dec_uniforms(data@, ustart, v, ucount as nat) == Ok::<
                    (Seq<UniformView>, int),
                    DecodeError,
                >((uniforms.deep_view() + s, j)),
                Err(e) => dec_uniforms(data@, ustart, v, ucount as nat) == Err::<
                    (Seq<UniformView>, int),
                    DecodeError,
                >(e),
            },
        decreases ucount - k,
    {
        let ghost o1 = off as int;
        let ghost prev = uniforms.deep_view();
        let u = match decode_uniform(data, &mut off, v) {
            Ok(u) => u,
            Err(e) => {
                proof {
                    assert(dec_uniforms(data@, o1, v, (ucount - k) as nat) == Err::<
                        (Seq<UniformView>, int),
                        DecodeError,
                    >(e));
                }
                return Err(e);
            },
        };
        proof {
            lemma_uniforms_step(
                data@,
                ustart,
                v,
                ucount as nat,
                k as nat,
                prev,
                u.deep_view(),
                o1,
                off as int,
            );
        }
        uniforms.push(u);
        proof {
            assert(uniforms.deep_view() =~= prev.push(u.deep_view()));
        }
        k = k + 1;
    }
    let pcount = match read_u32(data, &mut off) {
        Ok(x) => x,
        Err(e) => {
            return Err(e);
        },
    };
    let ghost pstart = off as int;
    let mut passes: Vec<Pass> = Vec::new();
    let mut j: u32 = 0;
    while j < pcount
        invariant
            j <= pcount,
            match dec_passes(data@, off as int, v, (pcount - j) as nat) {
                Ok((s, l)) => dec_passes(data@, pstart, v, pcount as nat) == Ok::<
                    (Seq<PassView>, int),
                    DecodeError,
                >((passes.deep_view() + s, l)),
                Err(e) => dec_passes(data@, pstart, v, pcount as nat) == Err::<
                    (Seq<PassView>, int),
                    DecodeError,
                >(e),
            },
        decreases pcount - j,
    {
        let ghost o1 = off as int;
        let ghost prev = passes.deep_view();
        let p = match decode_pass(data, &mut off, v) {
            Ok(p) => p,
            Err(e) => {
                proof {
                    assert(dec_passes(data@, o1, v, (pcount - j) as nat) == Err::<
                        (Seq<PassView>, int),
                        DecodeError,
                    >(e));
                }
                return Err(e);
            },
        };
        proof {
            lemma_passes_step(
                data@,
                pstart,
                v,
                pcount as nat,
                j as nat,
                prev,
                p.deep_view(),
                o1,
                off as int,
            );
        }
        passes.push(p);
        proof {
            assert(passes.deep_view() =~= prev.push(p.deep_view()));
        }
        j = j + 1;
    }
    proof {
        assert(uniforms.deep_view() + Seq::<UniformView>::empty() =~= uniforms.deep_view());
        assert(passes.deep_view() + Seq::<PassView>::empty() =~= passes.deep_view());
    }
    if off != data.len() {
        return Err(DecodeError::Trailing);
    }
    let m = MaterialDefinition { name, flags, parent, uniforms, passes };
    proof {
        assert(dec_material(data@, v) == Ok::<(MaterialView, int), DecodeError>(
            (m.deep_view(), off as int),
        ));
    }
    Ok(m)
}

} // verus!
