use vstd::prelude::*;

use crate::bytes::DecodeError;
use crate::bytes::dec_bytes;
use crate::bytes::dec_u32;
use crate::bytes::dec_u8;
use crate::bytes::enc_u32;
use crate::bytes::lemma_u32_le_round_trip;
use crate::codec::EncodeError;
use crate::codec::dec_material;
use crate::codec::dec_parent;
use crate::codec::dec_pass;
use crate::codec::dec_passes;
use crate::codec::dec_uniform;
use crate::codec::dec_uniforms;
use crate::codec::enc_bytes;
use crate::codec::enc_parent;
use crate::codec::enc_pass;
use crate::codec::enc_passes;
use crate::codec::enc_uniform;
use crate::codec::enc_uniforms;
use crate::codec::spec_decode;
use crate::codec::spec_encode;
use crate::codec::spec_encode_result;
use crate::model::MaterialView;
use crate::model::PassView;
use crate::model::UniformView;
use crate::model::features_ok;
use crate::model::kinds_ok;
use crate::model::parent_ok;
use crate::model::stages_ok;
use crate::model::wf;
use crate::version::FormatVersion;
use crate::version::spec_has_parent;
use crate::version::spec_has_stage;
use crate::version::spec_kind_limit;

verus! {

broadcast use crate::bytes::lemma_enc_u32_len;

proof fn lemma_split3<A>(f: Seq<A>, x: Seq<A>, y: Seq<A>, t: Seq<A>)
    ensures
        (f + (x + y)) + t == (f + x) + (y + t),
        (f + (x + y)) + t == ((f + x) + y) + t,
{
    assert((f + (x + y)) + t =~= (f + x) + (y + t));
    assert((f + (x + y)) + t =~= ((f + x) + y) + t);
}

proof fn lemma_split4<A>(f: Seq<A>, x: Seq<A>, y: Seq<A>, z: Seq<A>, t: Seq<A>)
    ensures
        (f + ((x + y) + z)) + t == (f + x) + (y + (z + t)),
        (f + ((x + y) + z)) + t == ((f + x) + y) + (z + t),
        (f + ((x + y) + z)) + t == (((f + x) + y) + z) + t,
{
    assert((f + ((x + y) + z)) + t =~= (f + x) + (y + (z + t)));
    assert((f + ((x + y) + z)) + t =~= ((f + x) + y) + (z + t));
    assert((f + ((x + y) + z)) + t =~= (((f + x) + y) + z) + t);
}

#[verifier::rlimit(100)]
proof fn lemma_assoc7<A>(
    e1: Seq<A>,
    e2: Seq<A>,
    e3: Seq<A>,
    e4: Seq<A>,
    e5: Seq<A>,
    e6: Seq<A>,
    e7: Seq<A>,
)
    ensures
        ({
            let b = (((((e1 + e2) + e3) + e4) + e5) + e6) + e7;
            &&& b == (Seq::<A>::empty() + e1) + (e2 + (e3 + (e4 + (e5 + (e6 + e7)))))
            &&& b == (e1 + e2) + (e3 + (e4 + (e5 + (e6 + e7))))
            &&& b == ((e1 + e2) + e3) + (e4 + (e5 + (e6 + e7)))
            &&& b == (((e1 + e2) + e3) + e4) + (e5 + (e6 + e7))
            &&& b == ((((e1 + e2) + e3) + e4) + e5) + (e6 + e7)
            &&& b == ((((((e1 + e2) + e3) + e4) + e5) + e6) + e7) + Seq::<A>::empty()
        }),
{
    let b = (((((e1 + e2) + e3) + e4) + e5) + e6) + e7;
    assert(b =~= (Seq::<A>::empty() + e1) + (e2 + (e3 + (e4 + (e5 + (e6 + e7))))));
    assert(b =~= (e1 + e2) + (e3 + (e4 + (e5 + (e6 + e7)))));
    assert(b =~= ((e1 + e2) + e3) + (e4 + (e5 + (e6 + e7))));
    assert(b =~= (((e1 + e2) + e3) + e4) + (e5 + (e6 + e7)));
    assert(b =~= ((((e1 + e2) + e3) + e4) + e5) + (e6 + e7));
    assert(b =~= ((((((e1 + e2) + e3) + e4) + e5) + e6) + e7) + Seq::<A>::empty());
}

pub proof fn lemma_dec_u32_at(front: Seq<u8>, x: u32, back: Seq<u8>)
    ensures
        dec_u32(front + enc_u32(x) + back, front.len() as int) == Ok::<(u32, int), DecodeError>(
            (x, front.len() as int + 4),
        ),
{
    reveal(crate::bytes::enc_u32);
    let b = front + enc_u32(x) + back;
    let i = front.len() as int;
    assert(b[i] == enc_u32(x)[0]);
    assert(b[i + 1] == enc_u32(x)[1]);
    assert(b[i + 2] == enc_u32(x)[2]);
    assert(b[i + 3] == enc_u32(x)[3]);
    lemma_u32_le_round_trip(x);
}

pub proof fn lemma_dec_u8_at(front: Seq<u8>, x: u8, back: Seq<u8>)
    ensures
        dec_u8(front + seq![x] + back, front.len() as int) == Ok::<(u8, int), DecodeError>(
            (x, front.len() as int + 1),
        ),
{
    let b = front + seq![x] + back;
    assert(b[front.len() as int] == x);
}

pub proof fn lemma_dec_bytes_at(front: Seq<u8>, s: Seq<u8>, back: Seq<u8>)
    requires
        s.len() <= 0xFFFF_FFFF,
    ensures
        dec_bytes(front + enc_bytes(s) + back, front.len() as int) == Ok::<
            (Seq<u8>, int),
            DecodeError,
        >((s, front.len() as int + 4 + s.len() as int)),
{
    let b = front + enc_bytes(s) + back;
    let n = s.len() as u32;
    assert(b =~= front + enc_u32(n) + (s + back));
    lemma_dec_u32_at(front, n, s + back);
    let j = front.len() as int + 4;
    assert(b.subrange(j, j + n as int) =~= s);
}

pub proof fn lemma_dec_parent_at(front: Seq<u8>, p: Option<Seq<u8>>, back: Seq<u8>, v: FormatVersion)
    requires
        p matches Some(s) ==> s.len() <= 0xFFFF_FFFF,
        p is Some ==> spec_has_parent(v),
    ensures
        dec_parent(front + enc_parent(p, v) + back, front.len() as int, v) == Ok::<
            (Option<Seq<u8>>, int),
            DecodeError,
        >((p, front.len() as int + enc_parent(p, v).len() as int)),
{
    let b = front + enc_parent(p, v) + back;
    if spec_has_parent(v) {
        match p {
            Option::None => {
                assert(enc_parent(p, v) == seq![0u8]);
                lemma_dec_u8_at(front, 0u8, back);
            },
            Option::Some(s) => {
                assert(enc_parent(p, v) == seq![1u8] + enc_bytes(s));
                lemma_split3(front, seq![1u8], enc_bytes(s), back);
                lemma_dec_u8_at(front, 1u8, enc_bytes(s) + back);
                lemma_dec_bytes_at(front + seq![1u8], s, back);
            },
        }
    } else {
        assert(p is None);
        assert(enc_parent(p, v).len() == 0);
    }
}

pub proof fn lemma_dec_uniform_at(front: Seq<u8>, u: UniformView, back: Seq<u8>, v: FormatVersion)
    requires
        u.name.len() <= 0xFFFF_FFFF,
        u.kind < spec_kind_limit(v),
    ensures
        dec_uniform(front + enc_uniform(u) + back, front.len() as int, v) == Ok::<
            (UniformView, int),
            DecodeError,
        >((u, front.len() as int + enc_uniform(u).len() as int)),
{
    let b = front + enc_uniform(u) + back;
    assert(enc_uniform(u) == enc_bytes(u.name) + seq![u.kind]);
    lemma_split3(front, enc_bytes(u.name), seq![u.kind], back);
    lemma_dec_bytes_at(front, u.name, seq![u.kind] + back);
    lemma_dec_u8_at(front + enc_bytes(u.name), u.kind, back);
    assert(UniformView { name: u.name, kind: u.kind } =~= u);
}

#[verifier::rlimit(100)]
pub proof fn lemma_dec_uniforms_at(
    front: Seq<u8>,
    us: Seq<UniformView>,
    back: Seq<u8>,
    v: FormatVersion,
)
    requires
        forall|i: int|
            0 <= i < us.len() ==> #[trigger] us[i].name.len() <= 0xFFFF_FFFF && us[i].kind
                < spec_kind_limit(v),
    ensures
        dec_uniforms(front + enc_uniforms(us) + back, front.len() as int, v, us.len()) == Ok::<
            (Seq<UniformView>, int),
            DecodeError,
        >((us, front.len() as int + enc_uniforms(us).len() as int)),
    decreases us.len(),
{
    let b = front + enc_uniforms(us) + back;
    if us.len() == 0 {
        assert(b =~= front + back);
        assert(us =~= Seq::<UniformView>::empty());
    } else {
        let u0 = us[0];
        let rest = us.drop_first();
        assert(enc_uniforms(us) == enc_uniform(u0) + enc_uniforms(rest));
        lemma_split3(front, enc_uniform(u0), enc_uniforms(rest), back);
        lemma_dec_uniform_at(front, u0, enc_uniforms(rest) + back, v);
        assert forall|i: int|
            0 <= i < rest.len() implies #[trigger] rest[i].name.len() <= 0xFFFF_FFFF
            && rest[i].kind < spec_kind_limit(v) by {
            assert(rest[i] == us[i + 1]);
        }
        lemma_dec_uniforms_at(front + enc_uniform(u0), rest, back, v);
        assert(seq![u0] + rest =~= us);
    }
}

#[verifier::rlimit(100)]
pub proof fn lemma_dec_pass_at(front: Seq<u8>, p: PassView, back: Seq<u8>, v: FormatVersion)
    requires
        p.name.len() <= 0xFFFF_FFFF,
        p.bytecode.len() <= 0xFFFF_FFFF,
        spec_has_stage(v) || p.stage == 0,
    ensures
        dec_pass(front + enc_pass(p, v) + back, front.len() as int, v) == Ok::<
            (PassView, int),
            DecodeError,
        >((p, front.len() as int + enc_pass(p, v).len() as int)),
{
    let b = front + enc_pass(p, v) + back;
    let nm = enc_bytes(p.name);
    let st: Seq<u8> = if spec_has_stage(v) {
        seq![p.stage]
    } else {
        Seq::empty()
    };
    let bc = enc_bytes(p.bytecode);
    assert(enc_pass(p, v) == (nm + st) + bc);
    lemma_split4(front, nm, st, bc, back);
    lemma_dec_bytes_at(front, p.name, st + (bc + back));
    if spec_has_stage(v) {
        lemma_dec_u8_at(front + nm, p.stage, bc + back);
    }
    lemma_dec_bytes_at((front + nm) + st, p.bytecode, back);
    assert(PassView { name: p.name, stage: p.stage, bytecode: p.bytecode } =~= p);
}

#[verifier::rlimit(100)]
pub proof fn lemma_dec_passes_at(front: Seq<u8>, ps: Seq<PassView>, back: Seq<u8>, v: FormatVersion)
    requires
        forall|i: int|
            0 <= i < ps.len() ==> #[trigger] ps[i].name.len() <= 0xFFFF_FFFF
                && ps[i].bytecode.len() <= 0xFFFF_FFFF && (spec_has_stage(v) || ps[i].stage == 0),
    ensures
        dec_passes(front + enc_passes(ps, v) + back, front.len() as int, v, ps.len()) == Ok::<
            (Seq<PassView>, int),
            DecodeError,
        >((ps, front.len() as int + enc_passes(ps, v).len() as int)),
    decreases ps.len(),
{
    let b = front + enc_passes(ps, v) + back;
    if ps.len() == 0 {
        assert(b =~= front + back);
        assert(ps =~= Seq::<PassView>::empty());
    } else {
        let p0 = ps[0];
        let rest = ps.drop_first();
        assert(enc_passes(ps, v) == enc_pass(p0, v) + enc_passes(rest, v));
        lemma_split3(front, enc_pass(p0, v), enc_passes(rest, v), back);
        lemma_dec_pass_at(front, p0, enc_passes(rest, v) + back, v);
        assert forall|i: int|
            0 <= i < rest.len() implies #[trigger] rest[i].name.len() <= 0xFFFF_FFFF
            && rest[i].bytecode.len() <= 0xFFFF_FFFF && (spec_has_stage(v) || rest[i].stage
            == 0) by {
            assert(rest[i] == ps[i + 1]);
        }
        lemma_dec_passes_at(front + enc_pass(p0, v), rest, back, v);
        assert(seq![p0] + rest =~= ps);
    }
}

/// Round-trip fidelity: decoding the encoding of a material under the same
/// version yields the material back, for every supported version and every
/// well-formed material that the version can represent.
#[verifier::rlimit(100)]
pub proof fn lemma_round_trip(m: MaterialView, v: FormatVersion)
    requires
        wf(m),
        features_ok(m, v),
    ensures
        spec_decode(spec_encode(m, v), v) == Ok::<MaterialView, DecodeError>(m),
{
    let e1 = enc_bytes(m.name);
    let e2 = enc_u32(m.flags);
    let e3 = enc_parent(m.parent, v);
    let e4 = enc_u32(m.uniforms.len() as u32);
    let e5 = enc_uniforms(m.uniforms);
    let e6 = enc_u32(m.passes.len() as u32);
    let e7 = enc_passes(m.passes, v);
    let b = spec_encode(m, v);
    assert(b == (((((e1 + e2) + e3) + e4) + e5) + e6) + e7);
    lemma_assoc7(e1, e2, e3, e4, e5, e6, e7);

    lemma_dec_bytes_at(Seq::<u8>::empty(), m.name, e2 + (e3 + (e4 + (e5 + (e6 + e7)))));
    lemma_dec_u32_at(e1, m.flags, e3 + (e4 + (e5 + (e6 + e7))));
    lemma_dec_parent_at(e1 + e2, m.parent, e4 + (e5 + (e6 + e7)), v);
    lemma_dec_u32_at((e1 + e2) + e3, m.uniforms.len() as u32, e5 + (e6 + e7));
    lemma_dec_uniforms_at((((e1 + e2) + e3) + e4), m.uniforms, e6 + e7, v);
    lemma_dec_u32_at((((e1 + e2) + e3) + e4) + e5, m.passes.len() as u32, e7);
    lemma_dec_passes_at((((((e1 + e2) + e3) + e4) + e5) + e6), m.passes, Seq::<u8>::empty(), v);

    assert((m.uniforms.len() as u32) as nat == m.uniforms.len());
    assert((m.passes.len() as u32) as nat == m.passes.len());

    match dec_material(b, v) {
        Ok((m2, i)) => {
            assert(m2 =~= m);
            assert(i == b.len());
        },
        Err(_) => {
            assert(false);
        },
    }
}

/// Lossy-downgrade rejection: a material that names a parent cannot be
/// encoded to a version whose layout lacks the parent section; encoding
/// reports exactly that, and never silently drops the reference.
pub proof fn lemma_downgrade_rejected(m: MaterialView, v: FormatVersion)
    requires
        m.parent is Some,
        !spec_has_parent(v),
    ensures
        spec_encode_result(m, v) == Err::<Seq<u8>, EncodeError>(EncodeError::UnsupportedParent),
{
}

pub proof fn lemma_dec_uniforms_wf(b: Seq<u8>, i: int, v: FormatVersion, n: nat)
    requires
        dec_uniforms(b, i, v, n) is Ok,
    ensures
        dec_uniforms(b, i, v, n)->Ok_0.0.len() == n,
        forall|k: int|
            0 <= k < n ==> #[trigger] dec_uniforms(b, i, v, n)->Ok_0.0[k].name.len()
                <= 0xFFFF_FFFF,
        forall|k: int|
            0 <= k < n ==> #[trigger] dec_uniforms(b, i, v, n)->Ok_0.0[k].kind
                < spec_kind_limit(v),
    decreases n,
{
    if n == 0 {
    } else {
        let (u, j) = dec_uniform(b, i, v)->Ok_0;
        lemma_dec_uniforms_wf(b, j, v, (n - 1) as nat);
        let rest = dec_uniforms(b, j, v, (n - 1) as nat)->Ok_0.0;
        let s = dec_uniforms(b, i, v, n)->Ok_0.0;
        assert(s == seq![u] + rest);
        assert(s[0] == u);
        assert(u.name.len() <= 0xFFFF_FFFF);
        assert(forall|k: int| 1 <= k < s.len() ==> s[k] == rest[k - 1]);
    }
}

pub proof fn lemma_dec_passes_wf(b: Seq<u8>, i: int, v: FormatVersion, n: nat)
    requires
        dec_passes(b, i, v, n) is Ok,
    ensures
        dec_passes(b, i, v, n)->Ok_0.0.len() == n,
        forall|k: int|
            0 <= k < n ==> #[trigger] dec_passes(b, i, v, n)->Ok_0.0[k].name.len() <= 0xFFFF_FFFF
                && dec_passes(b, i, v, n)->Ok_0.0[k].bytecode.len() <= 0xFFFF_FFFF,
        forall|k: int|
            0 <= k < n ==> spec_has_stage(v) || #[trigger] dec_passes(b, i, v, n)->Ok_0.0[k].stage
                == 0,
    decreases n,
{
    if n == 0 {
    } else {
        let (p, j) = dec_pass(b, i, v)->Ok_0;
        lemma_dec_passes_wf(b, j, v, (n - 1) as nat);
        let rest = dec_passes(b, j, v, (n - 1) as nat)->Ok_0.0;
        let s = dec_passes(b, i, v, n)->Ok_0.0;
        assert(s == seq![p] + rest);
        assert(p.name.len() <= 0xFFFF_FFFF && p.bytecode.len() <= 0xFFFF_FFFF);
        assert(spec_has_stage(v) || p.stage == 0);
        assert forall|k: int|
            0 <= k < n implies #[trigger] s[k].name.len() <= 0xFFFF_FFFF && s[k].bytecode.len()
            <= 0xFFFF_FFFF && (spec_has_stage(v) || s[k].stage == 0) by {
            if k == 0 {
                assert(s[k] == p);
            } else {
                assert(s[k] == rest[k - 1]);
            }
        }
    }
}

/// Every successfully decoded material is well formed and uses only
/// constructs that the version it was decoded under can represent; in
/// particular it can be encoded back to that same version.
pub proof fn lemma_decode_ok_wf(b: Seq<u8>, v: FormatVersion)
    requires
        spec_decode(b, v) is Ok,
    ensures
        wf(spec_decode(b, v)->Ok_0),
        features_ok(spec_decode(b, v)->Ok_0, v),
{
    let m = spec_decode(b, v)->Ok_0;
    let (name, i1) = dec_bytes(b, 0)->Ok_0;
    let (flags, i2) = dec_u32(b, i1)->Ok_0;
    let (parent, i3) = dec_parent(b, i2, v)->Ok_0;
    let (ucount, i4) = dec_u32(b, i3)->Ok_0;
    lemma_dec_uniforms_wf(b, i4, v, ucount as nat);
    let (us, i5) = dec_uniforms(b, i4, v, ucount as nat)->Ok_0;
    let (pcount, i6) = dec_u32(b, i5)->Ok_0;
    lemma_dec_passes_wf(b, i6, v, pcount as nat);
    let ps = dec_passes(b, i6, v, pcount as nat)->Ok_0.0;
    assert(m.uniforms == us);
    assert(m.passes == ps);
    assert(m.name == name);
    assert(m.parent == parent);
    assert(parent_ok(m, v));
    assert(kinds_ok(m, v));
    assert(stages_ok(m, v));
}

proof fn lemma_dec_u32_extend(b: Seq<u8>, l: int, i: int)
    requires
        0 <= l <= b.len(),
        dec_u32(b.take(l), i) is Ok,
    ensures
        dec_u32(b, i) == dec_u32(b.take(l), i),
{
}

proof fn lemma_dec_u8_extend(b: Seq<u8>, l: int, i: int)
    requires
        0 <= l <= b.len(),
        dec_u8(b.take(l), i) is Ok,
    ensures
        dec_u8(b, i) == dec_u8(b.take(l), i),
{
}

proof fn lemma_dec_bytes_extend(b: Seq<u8>, l: int, i: int)
    requires
        0 <= l <= b.len(),
        dec_bytes(b.take(l), i) is Ok,
    ensures
        dec_bytes(b, i) == dec_bytes(b.take(l), i),
{
    lemma_dec_u32_extend(b, l, i);
    let (n, j) = dec_u32(b.take(l), i)->Ok_0;
    assert(b.take(l).subrange(j, j + n as int) =~= b.subrange(j, j + n as int));
}

proof fn lemma_dec_parent_extend(b: Seq<u8>, l: int, i: int, v: FormatVersion)
    requires
        0 <= l <= b.len(),
        dec_parent(b.take(l), i, v) is Ok,
    ensures
        dec_parent(b, i, v) == dec_parent(b.take(l), i, v),
{
    if spec_has_parent(v) {
        lemma_dec_u8_extend(b, l, i);
        let (t, j) = dec_u8(b.take(l), i)->Ok_0;
        if t == 1 {
            lemma_dec_bytes_extend(b, l, j);
        }
    }
}

proof fn lemma_dec_uniform_extend(b: Seq<u8>, l: int, i: int, v: FormatVersion)
    requires
        0 <= l <= b.len(),
        dec_uniform(b.take(l), i, v) is Ok,
    ensures
        dec_uniform(b, i, v) == dec_uniform(b.take(l), i, v),
{
    lemma_dec_bytes_extend(b, l, i);
    let (_nm, j) = dec_bytes(b.take(l), i)->Ok_0;
    lemma_dec_u8_extend(b, l, j);
}

proof fn lemma_dec_uniforms_extend(b: Seq<u8>, l: int, i: int, v: FormatVersion, n: nat)
    requires
        0 <= l <= b.len(),
        dec_uniforms(b.take(l), i, v, n) is Ok,
    ensures
        dec_uniforms(b, i, v, n) == dec_uniforms(b.take(l), i, v, n),
    decreases n,
{
    if n > 0 {
        lemma_dec_uniform_extend(b, l, i, v);
        let (_u, j) = dec_uniform(b.take(l), i, v)->Ok_0;
        lemma_dec_uniforms_extend(b, l, j, v, (n - 1) as nat);
    }
}

proof fn lemma_dec_pass_extend(b: Seq<u8>, l: int, i: int, v: FormatVersion)
    requires
        0 <= l <= b.len(),
        dec_pass(b.take(l), i, v) is Ok,
    ensures
        dec_pass(b, i, v) == dec_pass(b.take(l), i, v),
{
    lemma_dec_bytes_extend(b, l, i);
    let (_nm, j) = dec_bytes(b.take(l), i)->Ok_0;
    if spec_has_stage(v) {
        lemma_dec_u8_extend(b, l, j);
        let (_st, k) = dec_u8(b.take(l), j)->Ok_0;
        lemma_dec_bytes_extend(b, l, k);
    } else {
        lemma_dec_bytes_extend(b, l, j);
    }
}

proof fn lemma_dec_passes_extend(b: Seq<u8>, l: int, i: int, v: FormatVersion, n: nat)
    requires
        0 <= l <= b.len(),
        dec_passes(b.take(l), i, v, n) is Ok,
    ensures
        dec_passes(b, i, v, n) == dec_passes(b.take(l), i, v, n),
    decreases n,
{
    if n > 0 {
        lemma_dec_pass_extend(b, l, i, v);
        let (_p, j) = dec_pass(b.take(l), i, v)->Ok_0;
        lemma_dec_passes_extend(b, l, j, v, (n - 1) as nat);
    }
}

proof fn lemma_dec_material_extend(b: Seq<u8>, l: int, v: FormatVersion)
    requires
        0 <= l <= b.len(),
        dec_material(b.take(l), v) is Ok,
    ensures
        dec_material(b, v) == dec_material(b.take(l), v),
{
    let p = b.take(l);
    lemma_dec_bytes_extend(b, l, 0);
    let (_name, i1) = dec_bytes(p, 0)->Ok_0;
    lemma_dec_u32_extend(b, l, i1);
    let (_flags, i2) = dec_u32(p, i1)->Ok_0;
    lemma_dec_parent_extend(b, l, i2, v);
    let (_parent, i3) = dec_parent(p, i2, v)->Ok_0;
    lemma_dec_u32_extend(b, l, i3);
    let (ucount, i4) = dec_u32(p, i3)->Ok_0;
    lemma_dec_uniforms_extend(b, l, i4, v, ucount as nat);
    let (_us, i5) = dec_uniforms(p, i4, v, ucount as nat)->Ok_0;
    lemma_dec_u32_extend(b, l, i5);
    let (pcount, i6) = dec_u32(p, i5)->Ok_0;
    lemma_dec_passes_extend(b, l, i6, v, pcount as nat);
}

/// Truncation law: a strict prefix of a valid encoding never decodes under
/// the version that accepted the whole buffer — cutting bytes off the end can
/// not produce a false positive for that version.
pub proof fn lemma_prefix_never_decodes(b: Seq<u8>, v: FormatVersion, l: int)
    requires
        spec_decode(b, v) is Ok,
        0 <= l < b.len(),
    ensures
        spec_decode(b.take(l), v) is Err,
{
    let p = b.take(l);
    match dec_material(p, v) {
        Ok((m2, k)) => {
            if k == p.len() {
                lemma_dec_material_extend(b, l, v);
                assert(dec_material(b, v) == Ok::<(MaterialView, int), DecodeError>((m2, k)));
                assert(false);
            }
        },
        Err(_) => {},
    }
}

} // verus!
