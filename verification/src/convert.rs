use vstd::prelude::*;

use crate::codec::EncodeError;
use crate::codec::spec_encode_result;
use crate::encode::encode;
use crate::names::copy_bytes;
use crate::names::ends_with;
use crate::names::material_suffix;
use crate::names::material_suffix_bytes;
use crate::names::spec_ends_with;
use crate::sniff::lemma_sniff_some_ok;
use crate::sniff::sniff;
use crate::sniff::spec_sniff;
use crate::sink::ShrodingerOutput;
use crate::version::FormatVersion;

verus! {

/// Why a conversion failed: no supported version accepted the input, or the
/// decoded material cannot be represented under the target version.
#[derive(Debug, Clone, Copy, PartialEq, Eq, Structural)]
pub enum ConvertError {
    NoMatch,
    Encode(EncodeError),
}

/// What converting one buffer to version `t` yields: the re-encoded bytes of
/// the sniffed material, or the exact error. All-or-nothing: no partial or
/// best-effort output exists.
pub open spec fn spec_transcode(b: Seq<u8>, t: FormatVersion) -> Result<Seq<u8>, ConvertError> {
    match spec_sniff(b) {
        Option::None => Err(ConvertError::NoMatch),
        Option::Some((m, _v)) => match spec_encode_result(m, t) {
            Ok(bytes) => Ok(bytes),
            Err(e) => Err(ConvertError::Encode(e)),
        },
    }
}

/// Sniffs the buffer's version, then re-encodes the material under `target`.
pub fn transcode(data: &Vec<u8>, target: FormatVersion) -> (r: Result<Vec<u8>, ConvertError>)
    ensures
        match r {
            Ok(bytes) => spec_transcode(data@, target) == Ok::<Seq<u8>, ConvertError>(bytes@),
            Err(e) => spec_transcode(data@, target) == Err::<Seq<u8>, ConvertError>(e),
        },
{
    let (m, _src) = match sniff(data) {
        Ok(x) => x,
        Err(_) => {
            return Err(ConvertError::NoMatch);
        },
    };
    proof {
        lemma_sniff_some_ok(data@, 0);
    }
    match encode(&m, target) {
        Ok(bytes) => Ok(bytes),
        Err(e) => Err(ConvertError::Encode(e)),
    }
}

/// Converts one material file and writes the result to the given sink.
/// Whether the conversion succeeds depends only on the input bytes and the
/// target version, never on the sink: a dry run over a discarding sink
/// reports the same outcome as a real one, and persists nothing.
pub fn file_update(data: &Vec<u8>, output: &mut ShrodingerOutput, target: FormatVersion) -> (r:
    Result<(), ConvertError>)
    ensures
        r is Ok <==> spec_transcode(data@, target) is Ok,
        r matches Err(e) ==> spec_transcode(data@, target) == Err::<Seq<u8>, ConvertError>(e),
        final(output).is_discard() == old(output).is_discard(),
        match spec_transcode(data@, target) {
            Ok(bytes) => final(output).bytes() == if old(output).is_discard() {
                old(output).bytes()
            } else {
                old(output).bytes() + bytes
            },
            Err(_) => final(output).bytes() == old(output).bytes(),
        },
{
    let bytes = match transcode(data, target) {
        Ok(b) => b,
        Err(e) => {
            return Err(e);
        },
    };
    let _written = output.write(&bytes);
    Ok(())
}

/// One archive entry: a name and its raw bytes.
#[derive(Debug, Clone, PartialEq, Eq)]
pub struct ArchiveEntry {
    pub name: Vec<u8>,
    pub data: Vec<u8>,
}

/// Mathematical image of an `ArchiveEntry`.
#[verifier::ext_equal]
pub ghost struct EntryView {
    pub name: Seq<u8>,
    pub data: Seq<u8>,
}

impl DeepView for ArchiveEntry {
    type V = EntryView;

    open spec fn deep_view(&self) -> EntryView {
        EntryView { name: self.name@, data: self.data@ }
    }
}

/// What one entry becomes: material entries (by the name suffix convention)
/// are transcoded, everything else passes through byte-identical.
pub open spec fn spec_convert_entry(e: EntryView, t: FormatVersion) -> Result<
    EntryView,
    ConvertError,
> {
    if spec_ends_with(e.name, material_suffix()) {
        match spec_transcode(e.data, t) {
            Ok(nb) => Ok(EntryView { name: e.name, data: nb }),
            Err(er) => Err(er),
        }
    } else {
        Ok(e)
    }
}

/// What a whole archive becomes: every entry in order, or the first entry's
/// error — one bad material entry fails the whole batch.
pub open spec fn spec_convert_entries(es: Seq<EntryView>, t: FormatVersion) -> Result<
    Seq<EntryView>,
    ConvertError,
>
    decreases es.len(),
{
    if es.len() == 0 {
        Ok(Seq::empty())
    } else {
        match spec_convert_entry(es[0], t) {
            Ok(e2) => match spec_convert_entries(es.drop_first(), t) {
                Ok(rest) => Ok(seq![e2] + rest),
                Err(er) => Err(er),
            },
            Err(er) => Err(er),
        }
    }
}

/// How many entries of the archive are material files.
pub open spec fn spec_material_count(es: Seq<EntryView>) -> nat
    decreases es.len(),
{
    if es.len() == 0 {
        0
    } else {
        (if spec_ends_with(es[0].name, material_suffix()) {
            1nat
        } else {
            0nat
        }) + spec_material_count(es.drop_first())
    }
}

proof fn lemma_entries_step(
    es: Seq<EntryView>,
    t: FormatVersion,
    i: int,
    acc: Seq<EntryView>,
    e2: EntryView,
)
    requires
        0 <= i < es.len(),
        spec_convert_entry(es[i], t) == Ok::<EntryView, ConvertError>(e2),
        match spec_convert_entries(es.skip(i), t) {
            Ok(rest) => spec_convert_entries(es, t) == Ok::<Seq<EntryView>, ConvertError>(
                acc + rest,
            ),
            Err(er) => spec_convert_entries(es, t) == Err::<Seq<EntryView>, ConvertError>(er),
        },
    ensures
        match spec_convert_entries(es.skip(i + 1), t) {
            Ok(rest) => spec_convert_entries(es, t) == Ok::<Seq<EntryView>, ConvertError>(
                acc.push(e2) + rest,
            ),
            Err(er) => spec_convert_entries(es, t) == Err::<Seq<EntryView>, ConvertError>(er),
        },
{
    assert(es.skip(i)[0] == es[i]);
    assert(es.skip(i).drop_first() =~= es.skip(i + 1));
    match spec_convert_entries(es.skip(i + 1), t) {
        Ok(rest) => {
            assert(spec_convert_entries(es.skip(i), t) == Ok::<Seq<EntryView>, ConvertError>(
                seq![e2] + rest,
            ));
            assert(acc + (seq![e2] + rest) =~= acc.push(e2) + rest);
        },
        Err(_) => {},
    }
}

/// Converts every entry of an archive to `target`: material entries (by the
/// `.material.bin` suffix) are transcoded, all others pass through unchanged,
/// in order. Fails as a whole, producing nothing, as soon as one material
/// entry cannot be converted. Also reports how many materials were ported.
#[verifier::loop_isolation(false)]
pub fn zip_update(entries: &Vec<ArchiveEntry>, target: FormatVersion) -> (r: Result<
    (Vec<ArchiveEntry>, usize),
    ConvertError,
>)
    ensures
        match r {
            Ok((out, count)) => spec_convert_entries(entries.deep_view(), target) == Ok::<
                Seq<EntryView>,
                ConvertError,
            >(out.deep_view()) && count as nat == spec_material_count(entries.deep_view()),
            Err(e) => spec_convert_entries(entries.deep_view(), target) == Err::<
                Seq<EntryView>,
                ConvertError,
            >(e),
        },
{
    let ghost dv = entries.deep_view();
    let suffix = material_suffix_bytes();
    let mut out: Vec<ArchiveEntry> = Vec::new();
    let mut count: usize = 0;
    let mut i: usize = 0;
    proof {
        assert(dv.skip(0) =~= dv);
    }
    while i < entries.len()
        invariant
            i <= entries.len(),
            count <= i,
            count as nat + spec_material_count(dv.skip(i as int)) == spec_material_count(dv),
            match spec_convert_entries(dv.skip(i as int), target) {
                Ok(rest) => spec_convert_entries(dv, target) == Ok::<
                    Seq<EntryView>,
                    ConvertError,
                >(out.deep_view() + rest),
                Err(er) => spec_convert_entries(dv, target) == Err::<
                    Seq<EntryView>,
                    ConvertError,
                >(er),
            },
        decreases entries.len() - i,
    {
        let ghost prev = out.deep_view();
        proof {
            assert(dv.skip(i as int)[0] == dv[i as int]);
            assert(dv.skip(i as int).drop_first() =~= dv.skip(i as int + 1));
            assert(dv[i as int] == entries@[i as int].deep_view());
        }
        let e = &entries[i];
        let new_entry: ArchiveEntry;
        if ends_with(&e.name, &suffix) {
            let nb = match transcode(&e.data, target) {
                Ok(nb) => nb,
                Err(er) => {
                    return Err(er);
                },
            };
            new_entry = ArchiveEntry { name: copy_bytes(&e.name), data: nb };
            count = count + 1;
        } else {
            new_entry = ArchiveEntry { name: copy_bytes(&e.name), data: copy_bytes(&e.data) };
        }
        proof {
            assert(spec_convert_entry(dv[i as int], target) == Ok::<EntryView, ConvertError>(
                new_entry.deep_view(),
            ));
            lemma_entries_step(dv, target, i as int, prev, new_entry.deep_view());
        }
        out.push(new_entry);
        proof {
            assert(out.deep_view() =~= prev.push(new_entry.deep_view()));
        }
        i = i + 1;
    }
    proof {
        assert(dv.skip(i as int) =~= Seq::<EntryView>::empty());
        assert(out.deep_view() + Seq::<EntryView>::empty() =~= out.deep_view());
    }
    Ok((out, count))
}

} // verus!
