use vstd::prelude::*;

use crate::version::FormatVersion;
use crate::version::spec_has_parent;
use crate::version::spec_has_stage;
use crate::version::spec_kind_limit;

verus! {

/// One declared uniform (shader variable): a name and a kind tag.
#[derive(Debug, Clone, PartialEq, Eq)]
pub struct Uniform {
    pub name: Vec<u8>,
    pub kind: u8,
}

/// One render pass: a name, a stage tag, and its compiled bytecode blob.
#[derive(Debug, Clone, PartialEq, Eq)]
pub struct Pass {
    pub name: Vec<u8>,
    pub stage: u8,
    pub bytecode: Vec<u8>,
}

/// The version-agnostic decoded form of one compiled material. It carries no
/// reference to the version it was decoded from; any supported version whose
/// layout can represent its contents may serve as an encoding target.
#[derive(Debug, Clone, PartialEq, Eq)]
pub struct MaterialDefinition {
    pub name: Vec<u8>,
    pub flags: u32,
    pub parent: Option<Vec<u8>>,
    pub uniforms: Vec<Uniform>,
    pub passes: Vec<Pass>,
}

/// Mathematical image of a `Uniform`.
#[verifier::ext_equal]
pub ghost struct UniformView {
    pub name: Seq<u8>,
    pub kind: u8,
}

/// Mathematical image of a `Pass`.
#[verifier::ext_equal]
pub ghost struct PassView {
    pub name: Seq<u8>,
    pub stage: u8,
    pub bytecode: Seq<u8>,
}

/// Mathematical image of a `MaterialDefinition`.
#[verifier::ext_equal]
pub ghost struct MaterialView {
    pub name: Seq<u8>,
    pub flags: u32,
    pub parent: Option<Seq<u8>>,
    pub uniforms: Seq<UniformView>,
    pub passes: Seq<PassView>,
}

impl DeepView for Uniform {
    type V = UniformView;

    open spec fn deep_view(&self) -> UniformView {
        UniformView { name: self.name@, kind: self.kind }
    }
}

impl DeepView for Pass {
    type V = PassView;

    open spec fn deep_view(&self) -> PassView {
        PassView { name: self.name@, stage: self.stage, bytecode: self.bytecode@ }
    }
}

/// The mathematical image of an optional byte vector.
pub open spec fn opt_view(p: Option<Vec<u8>>) -> Option<Seq<u8>> {
    match p {
        Option::None => Option::None,
        Option::Some(s) => Option::Some(s@),
    }
}

impl DeepView for MaterialDefinition {
    type V = MaterialView;

    open spec fn deep_view(&self) -> MaterialView {
        MaterialView {
            name: self.name@,
            flags: self.flags,
            parent: opt_view(self.parent),
            uniforms: self.uniforms.deep_view(),
            passes: self.passes.deep_view(),
        }
    }
}

/// Every variable-length part fits the u32 length and count fields of the
/// on-disk layouts. Decoded materials always satisfy this; the encoder
/// requires it.
pub open spec fn wf(m: MaterialView) -> bool {
    &&& m.name.len() <= 0xFFFF_FFFF
    &&& (m.parent matches Some(p) ==> p.len() <= 0xFFFF_FFFF)
    &&& m.uniforms.len() <= 0xFFFF_FFFF
    &&& (forall|i: int| 0 <= i < m.uniforms.len() ==> #[trigger] m.uniforms[i].name.len() <= 0xFFFF_FFFF)
    &&& m.passes.len() <= 0xFFFF_FFFF
    &&& (forall|i: int|
        0 <= i < m.passes.len() ==> #[trigger] m.passes[i].name.len() <= 0xFFFF_FFFF
            && m.passes[i].bytecode.len() <= 0xFFFF_FFFF)
}

/// The material carries no parent reference that `v`'s layout lacks room for.
pub open spec fn parent_ok(m: MaterialView, v: FormatVersion) -> bool {
    m.parent is Some ==> spec_has_parent(v)
}

/// Every uniform kind tag is one that `v`'s layout can represent.
pub open spec fn kinds_ok(m: MaterialView, v: FormatVersion) -> bool {
    forall|i: int| 0 <= i < m.uniforms.len() ==> #[trigger] m.uniforms[i].kind < spec_kind_limit(v)
}

/// Every pass stage is representable: versions without a stage field can only
/// hold the default stage.
pub open spec fn stages_ok(m: MaterialView, v: FormatVersion) -> bool {
    forall|i: int| 0 <= i < m.passes.len() ==> spec_has_stage(v) || #[trigger] m.passes[i].stage == 0
}

/// The material uses no construct that version `v`'s layout cannot represent;
/// encoding to `v` succeeds exactly on these materials.
pub open spec fn features_ok(m: MaterialView, v: FormatVersion) -> bool {
    parent_ok(m, v) && kinds_ok(m, v) && stages_ok(m, v)
}

} // verus!
