use vstd::prelude::*;

use crate::bytes::append_bytes;
use crate::bytes::enc_u32;
use crate::bytes::write_u32;
use crate::codec::EncodeError;
use crate::codec::enc_bytes;
use crate::codec::enc_parent;
use crate::codec::enc_pass;
use crate::codec::enc_passes;
use crate::codec::enc_uniform;
use crate::codec::enc_uniforms;
use crate::codec::spec_encode;
use crate::codec::spec_encode_err;
use crate::codec::spec_encode_result;
use crate::model::MaterialDefinition;
use crate::model::Pass;
use crate::model::PassView;
use crate::model::Uniform;
use crate::model::UniformView;
use crate::model::features_ok;
use crate::model::kinds_ok;
use crate::model::parent_ok;
use crate::model::stages_ok;
use crate::model::wf;
use crate::version::FormatVersion;
use crate::version::has_parent;
use crate::version::has_stage;
use crate::version::kind_limit;
use crate::version::spec_has_stage;
use crate::version::spec_kind_limit;

verus! {

broadcast use crate::bytes::lemma_enc_u32_len;

pub proof fn lemma_enc_uniforms_push(s: Seq<UniformView>, u: UniformView)
    ensures
        enc_uniforms(s.push(u)) == enc_uniforms(s) + enc_uniform(u),
    decreases s.len(),
{
    reveal_with_fuel(enc_uniforms, 3);
    if s.len() == 0 {
        assert(s.push(u)[0] == u);
        assert(s.push(u).drop_first() =~= Seq::<UniformView>::empty());
        assert(enc_uniform(u) + Seq::<u8>::empty() =~= enc_uniform(u));
        assert(enc_uniforms(s) + enc_uniform(u) =~= enc_uniform(u));
    } else {
        assert(s.push(u)[0] == s[0]);
        assert(s.push(u).drop_first() =~= s.drop_first().push(u));
        lemma_enc_uniforms_push(s.drop_first(), u);
        assert(enc_uniform(s[0]) + (enc_uniforms(s.drop_first()) + enc_uniform(u)) =~= (enc_uniform(
            s[0],
        ) + enc_uniforms(s.drop_first())) + enc_uniform(u));
    }
}

pub proof fn lemma_enc_passes_push(s: Seq<PassView>, p: PassView, v: FormatVersion)
    ensures
        enc_passes(s.push(p), v) == enc_passes(s, v) + enc_pass(p, v),
    decreases s.len(),
{
    reveal_with_fuel(enc_passes, 3);
    if s.len() == 0 {
        assert(s.push(p)[0] == p);
        assert(s.push(p).drop_first() =~= Seq::<PassView>::empty());
        assert(enc_pass(p, v) + Seq::<u8>::empty() =~= enc_pass(p, v));
        assert(enc_passes(s, v) + enc_pass(p, v) =~= enc_pass(p, v));
    } else {
        assert(s.push(p)[0] == s[0]);
        assert(s.push(p).drop_first() =~= s.drop_first().push(p));
        lemma_enc_passes_push(s.drop_first(), p, v);
        assert(enc_pass(s[0], v) + (enc_passes(s.drop_first(), v) + enc_pass(p, v)) =~= (enc_pass(
            s[0],
            v,
        ) + enc_passes(s.drop_first(), v)) + enc_pass(p, v));
    }
}

/// Appends `src` as a u32-length-prefixed run.
fn write_bytes(out: &mut Vec<u8>, src: &Vec<u8>)
    requires
        src@.len() <= 0xFFFF_FFFF,
    ensures
        final(out)@ == old(out)@ + enc_bytes(src@),
{
    let n = src.len() as u32;
    write_u32(out, n);
    append_bytes(out, src);
    proof {
        assert((old(out)@ + enc_u32(n)) + src@ =~= old(out)@ + enc_bytes(src@));
    }
}

fn write_uniform(out: &mut Vec<u8>, u: &Uniform)
    requires
        u.name@.len() <= 0xFFFF_FFFF,
    ensures
        final(out)@ == old(out)@ + enc_uniform(u.deep_view()),
{
    write_bytes(out, &u.name);
    out.push(u.kind);
    proof {
        assert(out@ =~= old(out)@ + enc_uniform(u.deep_view()));
    }
}

fn write_pass(out: &mut Vec<u8>, p: &Pass, v: FormatVersion)
    requires
        p.name@.len() <= 0xFFFF_FFFF,
        p.bytecode@.len() <= 0xFFFF_FFFF,
    ensures
        final(out)@ == old(out)@ + enc_pass(p.deep_view(), v),
{
    write_bytes(out, &p.name);
    if has_stage(v) {
        out.push(p.stage);
    }
    write_bytes(out, &p.bytecode);
    proof {
        assert(out@ =~= old(out)@ + enc_pass(p.deep_view(), v));
    }
}

/// Rejects a material that version `v`'s layout cannot represent, naming the
/// first unsupported construct in the order parent, kinds, stages.
fn check_features(m: &MaterialDefinition, v: FormatVersion) -> (r: Result<(), EncodeError>)
    ensures
        r is Ok <==> features_ok(m.deep_view(), v),
        r matches Err(e) ==> e == spec_encode_err(m.deep_view(), v),
{
    let ghost dv = m.deep_view();
    if m.parent.is_some() && !has_parent(v) {
        return Err(EncodeError::UnsupportedParent);
    }
    let lim = kind_limit(v);
    let mut i: usize = 0;
    while i < m.uniforms.len()
        invariant
            i <= m.uniforms.len(),
            parent_ok(dv, v),
            dv == m.deep_view(),
            lim == spec_kind_limit(v),
            forall|t: int| 0 <= t < i ==> #[trigger] dv.uniforms[t].kind < spec_kind_limit(v),
        decreases m.uniforms.len() - i,
    {
        if m.uniforms[i].kind >= lim {
            proof {
                assert(dv.uniforms[i as int].kind >= spec_kind_limit(v));
                assert(!kinds_ok(dv, v));
            }
            return Err(EncodeError::UnsupportedKind);
        }
        i = i + 1;
    }
    if !has_stage(v) {
        let mut t: usize = 0;
        while t < m.passes.len()
            invariant
                t <= m.passes.len(),
                parent_ok(dv, v),
                kinds_ok(dv, v),
                dv == m.deep_view(),
                !spec_has_stage(v),
                forall|q: int| 0 <= q < t ==> #[trigger] dv.passes[q].stage == 0,
            decreases m.passes.len() - t,
        {
            if m.passes[t].stage != 0 {
                proof {
                    assert(dv.passes[t as int].stage != 0);
                    assert(!stages_ok(dv, v));
                }
                return Err(EncodeError::UnsupportedStage);
            }
            t = t + 1;
        }
    }
    Ok(())
}

/// Serializes a material into version `v`'s exact byte layout. Succeeds, with
/// the unique byte image, exactly when the material uses no construct that
/// `v` lacks; otherwise reports which construct was unsupported, rather than
/// dropping it.
#[verifier::loop_isolation(false)]
pub fn encode(m: &MaterialDefinition, v: FormatVersion) -> (r: Result<Vec<u8>, EncodeError>)
    requires
        wf(m.deep_view()),
    ensures
        match r {
            Ok(bytes) => spec_encode_result(m.deep_view(), v) == Ok::<Seq<u8>, EncodeError>(bytes@)
                && bytes@ == spec_encode(m.deep_view(), v),
            Err(e) => spec_encode_result(m.deep_view(), v) == Err::<Seq<u8>, EncodeError>(e),
        },
{
    let ghost dv = m.deep_view();
    match check_features(m, v) {
        Ok(_) => {},
        Err(e) => {
            return Err(e);
        },
    }
    let ghost e1 = enc_bytes(dv.name);
    let ghost e2 = enc_u32(dv.flags);
    let ghost e3 = enc_parent(dv.parent, v);
    let ghost e4 = enc_u32(dv.uniforms.len() as u32);
    let ghost e5 = enc_uniforms(dv.uniforms);
    let ghost e6 = enc_u32(dv.passes.len() as u32);
    let ghost e7 = enc_passes(dv.passes, v);

    let mut out: Vec<u8> = Vec::new();
    write_bytes(&mut out, &m.name);
    proof {
        assert(out@ =~= e1);
    }
    write_u32(&mut out, m.flags);
    if has_parent(v) {
        match &m.parent {
            Some(p) => {
                out.push(1);
                write_bytes(&mut out, p);
            },
            None => {
                out.push(0);
            },
        }
    }
    proof {
        assert(out@ =~= (e1 + e2) + e3);
    }
    write_u32(&mut out, m.uniforms.len() as u32);
    let ghost pre4 = ((e1 + e2) + e3) + e4;
    let mut i: usize = 0;
    while i < m.uniforms.len()
        invariant
            i <= m.uniforms.len(),
            out@ == pre4 + enc_uniforms(dv.uniforms.take(i as int)),
        decreases m.uniforms.len() - i,
    {
        let ghost prefix = dv.uniforms.take(i as int);
        proof {
            assert(dv.uniforms[i as int] == m.uniforms@[i as int].deep_view());
            assert(dv.uniforms[i as int].name.len() <= 0xFFFF_FFFF);
        }
        write_uniform(&mut out, &m.uniforms[i]);
        proof {
            lemma_enc_uniforms_push(prefix, dv.uniforms[i as int]);
            assert(dv.uniforms.take(i as int + 1) =~= prefix.push(dv.uniforms[i as int]));
            assert(pre4 + enc_uniforms(prefix) + enc_uniform(dv.uniforms[i as int]) =~= pre4
                + enc_uniforms(dv.uniforms.take(i as int + 1)));
        }
        i = i + 1;
    }
    proof {
        assert(dv.uniforms.take(m.uniforms.len() as int) =~= dv.uniforms);
    }
    write_u32(&mut out, m.passes.len() as u32);
    let ghost pre6 = ((((e1 + e2) + e3) + e4) + e5) + e6;
    proof {
        assert(out@ == pre6);
    }
    let mut j: usize = 0;
    while j < m.passes.len()
        invariant
            j <= m.passes.len(),
            out@ == pre6 + enc_passes(dv.passes.take(j as int), v),
        decreases m.passes.len() - j,
    {
        let ghost prefix = dv.passes.take(j as int);
        proof {
            assert(dv.passes[j as int] == m.passes@[j as int].deep_view());
            assert(dv.passes[j as int].name.len() <= 0xFFFF_FFFF);
            assert(dv.passes[j as int].bytecode.len() <= 0xFFFF_FFFF);
        }
        write_pass(&mut out, &m.passes[j], v);
        proof {
            lemma_enc_passes_push(prefix, dv.passes[j as int], v);
            assert(dv.passes.take(j as int + 1) =~= prefix.push(dv.passes[j as int]));
            assert(pre6 + enc_passes(prefix, v) + enc_pass(dv.passes[j as int], v) =~= pre6
                + enc_passes(dv.passes.take(j as int + 1), v));
        }
        j = j + 1;
    }
    proof {
        assert(dv.passes.take(m.passes.len() as int) =~= dv.passes);
        assert(out@ == spec_encode(dv, v));
    }
    Ok(out)
}

} // verus!
