use material_updater::bytes::DecodeError;
use material_updater::codec::EncodeError;
use material_updater::decode::decode;
use material_updater::encode::encode;
use material_updater::model::MaterialDefinition;
use material_updater::model::Pass;
use material_updater::model::Uniform;
use material_updater::sniff::sniff;
use material_updater::version::FormatVersion;
use material_updater::version::all_versions;
use material_updater::version::version_label;

fn sample() -> MaterialDefinition {
    MaterialDefinition {
        name: b"water".to_vec(),
        flags: 7,
        parent: None,
        uniforms: vec![
            Uniform { name: b"sun".to_vec(), kind: 2 },
            Uniform { name: b"fog".to_vec(), kind: 0 },
        ],
        passes: vec![Pass { name: b"main".to_vec(), stage: 0, bytecode: vec![1, 2, 3, 4] }],
    }
}

fn rich_sample() -> MaterialDefinition {
    MaterialDefinition {
        name: b"clouds".to_vec(),
        flags: 0xDEAD_BEEF,
        parent: Some(b"sky_base".to_vec()),
        uniforms: vec![Uniform { name: b"wind".to_vec(), kind: 5 }],
        passes: vec![
            Pass { name: b"depth".to_vec(), stage: 3, bytecode: vec![9, 8, 7] },
            Pass { name: b"color".to_vec(), stage: 1, bytecode: vec![] },
        ],
    }
}

#[test]
fn registry_order_is_newest_first() {
    assert_eq!(
        all_versions(),
        vec![
            FormatVersion::V1_21_20,
            FormatVersion::V1_20_80,
            FormatVersion::V1_19_60,
            FormatVersion::V1_18_30,
        ]
    );
}

#[test]
fn version_labels() {
    assert_eq!(version_label(FormatVersion::V1_21_20), b"1.21.20".to_vec());
    assert_eq!(version_label(FormatVersion::V1_20_80), b"1.20.80".to_vec());
    assert_eq!(version_label(FormatVersion::V1_19_60), b"1.19.60".to_vec());
    assert_eq!(version_label(FormatVersion::V1_18_30), b"1.18.30".to_vec());
}

#[test]
fn round_trip_every_version() {
    let m = sample();
    for v in all_versions() {
        let bytes = encode(&m, v).expect("sample must encode under every version");
        let back = decode(&bytes, v).expect("encoding must decode under the same version");
        assert_eq!(back, m);
    }
}

#[test]
fn round_trip_rich_material_newest_version() {
    let m = rich_sample();
    let bytes = encode(&m, FormatVersion::V1_21_20).unwrap();
    let back = decode(&bytes, FormatVersion::V1_21_20).unwrap();
    assert_eq!(back, m);
}

#[test]
fn encoding_is_byte_reproducible() {
    let m = sample();
    for v in all_versions() {
        let a = encode(&m, v).unwrap();
        let b = encode(&m, v).unwrap();
        assert_eq!(a, b);
    }
}

#[test]
fn sniff_reports_encoding_version() {
    let m = sample();
    for v in [
        FormatVersion::V1_21_20,
        FormatVersion::V1_19_60,
        FormatVersion::V1_18_30,
    ] {
        let bytes = encode(&m, v).unwrap();
        let (back, found) = sniff(&bytes).expect("valid encoding must sniff");
        assert_eq!(found, v);
        assert_eq!(back, m);
    }
}

#[test]
fn sniff_tie_break_prefers_registry_order() {
    // The two newest layouts differ only in the range of uniform kind tags,
    // so bytes encoded under the older one also decode under the newer one;
    // the registry order decides, and the newer version wins.
    let m = sample();
    let bytes = encode(&m, FormatVersion::V1_20_80).unwrap();
    assert_eq!(
        decode(&bytes, FormatVersion::V1_21_20).unwrap(),
        decode(&bytes, FormatVersion::V1_20_80).unwrap()
    );
    let (_, found) = sniff(&bytes).unwrap();
    assert_eq!(found, FormatVersion::V1_21_20);
}

#[test]
fn sniff_truncated_buffer_matches_nothing() {
    let m = sample();
    for v in all_versions() {
        let bytes = encode(&m, v).unwrap();
        let truncated: Vec<u8> = bytes[1..].to_vec();
        assert!(sniff(&truncated).is_err());
    }
}

#[test]
fn sniff_empty_and_garbage_match_nothing() {
    assert!(sniff(&Vec::new()).is_err());
    assert!(sniff(&vec![0xFF; 32]).is_err());
}

#[test]
fn downgrade_with_parent_is_rejected() {
    let mut m = sample();
    m.parent = Some(b"base".to_vec());
    assert_eq!(
        encode(&m, FormatVersion::V1_19_60),
        Err(EncodeError::UnsupportedParent)
    );
    assert_eq!(
        encode(&m, FormatVersion::V1_18_30),
        Err(EncodeError::UnsupportedParent)
    );
    assert!(encode(&m, FormatVersion::V1_20_80).is_ok());
}

#[test]
fn downgrade_with_new_kind_is_rejected() {
    let mut m = sample();
    m.uniforms.push(Uniform { name: b"glow".to_vec(), kind: 4 });
    assert_eq!(
        encode(&m, FormatVersion::V1_20_80),
        Err(EncodeError::UnsupportedKind)
    );
    assert!(encode(&m, FormatVersion::V1_21_20).is_ok());
}

#[test]
fn downgrade_with_stage_is_rejected() {
    let mut m = sample();
    m.passes[0].stage = 2;
    assert_eq!(
        encode(&m, FormatVersion::V1_18_30),
        Err(EncodeError::UnsupportedStage)
    );
    assert!(encode(&m, FormatVersion::V1_19_60).is_ok());
}

#[test]
fn decode_truncated_reports_truncated() {
    assert_eq!(
        decode(&vec![1, 2], FormatVersion::V1_21_20),
        Err(DecodeError::Truncated)
    );
    let m = sample();
    let bytes = encode(&m, FormatVersion::V1_19_60).unwrap();
    let short: Vec<u8> = bytes[..bytes.len() - 1].to_vec();
    assert_eq!(
        decode(&short, FormatVersion::V1_19_60),
        Err(DecodeError::Truncated)
    );
}

#[test]
fn decode_bad_kind_reports_bad_tag() {
    // A kind tag only the newest layout admits is a bad tag one version down.
    let mut m = sample();
    m.uniforms[0].kind = 5;
    let bytes = encode(&m, FormatVersion::V1_21_20).unwrap();
    assert_eq!(
        decode(&bytes, FormatVersion::V1_20_80),
        Err(DecodeError::BadTag)
    );
}

#[test]
fn decode_bad_parent_tag_reports_bad_tag() {
    let m = MaterialDefinition {
        name: Vec::new(),
        flags: 0,
        parent: None,
        uniforms: Vec::new(),
        passes: Vec::new(),
    };
    let mut bytes = encode(&m, FormatVersion::V1_21_20).unwrap();
    // The parent presence tag sits right after the name and flags fields.
    bytes[8] = 9;
    assert_eq!(
        decode(&bytes, FormatVersion::V1_21_20),
        Err(DecodeError::BadTag)
    );
}

#[test]
fn decode_trailing_bytes_reports_trailing() {
    let m = sample();
    let mut bytes = encode(&m, FormatVersion::V1_21_20).unwrap();
    bytes.push(0);
    assert_eq!(
        decode(&bytes, FormatVersion::V1_21_20),
        Err(DecodeError::Trailing)
    );
}
