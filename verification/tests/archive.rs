use material_updater::convert::ArchiveEntry;
use material_updater::convert::ConvertError;
use material_updater::convert::file_update;
use material_updater::convert::transcode;
use material_updater::convert::zip_update;
use material_updater::encode::encode;
use material_updater::model::MaterialDefinition;
use material_updater::model::Pass;
use material_updater::model::Uniform;
use material_updater::names::ends_with;
use material_updater::names::material_suffix_bytes;
use material_updater::names::update_filename;
use material_updater::sink::ShrodingerOutput;
use material_updater::sniff::sniff;
use material_updater::version::FormatVersion;

fn sample() -> MaterialDefinition {
    MaterialDefinition {
        name: b"water".to_vec(),
        flags: 7,
        parent: None,
        uniforms: vec![Uniform { name: b"sun".to_vec(), kind: 2 }],
        passes: vec![Pass { name: b"main".to_vec(), stage: 0, bytecode: vec![1, 2, 3, 4] }],
    }
}

#[test]
fn transcode_reencodes_to_target() {
    let m = sample();
    let v1_bytes = encode(&m, FormatVersion::V1_19_60).unwrap();
    let out = transcode(&v1_bytes, FormatVersion::V1_21_20).unwrap();
    let (back, found) = sniff(&out).unwrap();
    assert_eq!(found, FormatVersion::V1_21_20);
    assert_eq!(back, m);
}

#[test]
fn transcode_unrecognized_input_is_no_match() {
    assert_eq!(
        transcode(&vec![1, 2, 3], FormatVersion::V1_21_20),
        Err(ConvertError::NoMatch)
    );
}

#[test]
fn zip_update_converts_materials_and_copies_the_rest() {
    let m = sample();
    let v1_bytes = encode(&m, FormatVersion::V1_19_60).unwrap();
    let entries = vec![
        ArchiveEntry { name: b"a.material.bin".to_vec(), data: v1_bytes },
        ArchiveEntry { name: b"b.txt".to_vec(), data: vec![42, 0, 42] },
    ];
    let (out, count) = zip_update(&entries, FormatVersion::V1_21_20).unwrap();
    assert_eq!(count, 1);
    assert_eq!(out.len(), 2);
    assert_eq!(out[0].name, b"a.material.bin".to_vec());
    assert_eq!(out[1].name, b"b.txt".to_vec());
    assert_eq!(out[1].data, vec![42, 0, 42]);
    let (back, found) = sniff(&out[0].data).unwrap();
    assert_eq!(found, FormatVersion::V1_21_20);
    assert_eq!(back, m);
}

#[test]
fn zip_update_fails_whole_batch_on_bad_material() {
    let entries = vec![
        ArchiveEntry { name: b"b.txt".to_vec(), data: vec![1, 2, 3] },
        ArchiveEntry { name: b"broken.material.bin".to_vec(), data: vec![0xFF, 0xFF] },
    ];
    assert_eq!(
        zip_update(&entries, FormatVersion::V1_21_20),
        Err(ConvertError::NoMatch)
    );
}

#[test]
fn zip_update_passthrough_archive_unchanged() {
    let entries = vec![
        ArchiveEntry { name: b"readme.txt".to_vec(), data: b"hello".to_vec() },
        ArchiveEntry { name: b"icon.png".to_vec(), data: vec![0, 1, 2, 3] },
    ];
    let (out, count) = zip_update(&entries, FormatVersion::V1_18_30).unwrap();
    assert_eq!(count, 0);
    assert_eq!(out.len(), 2);
    assert_eq!(out[0].data, b"hello".to_vec());
    assert_eq!(out[1].data, vec![0, 1, 2, 3]);
}

#[test]
fn dry_run_has_same_outcome_and_keeps_nothing() {
    let m = sample();
    let data = encode(&m, FormatVersion::V1_18_30).unwrap();
    let expected = transcode(&data, FormatVersion::V1_21_20).unwrap();

    let mut real = ShrodingerOutput::new(false);
    let mut dry = ShrodingerOutput::new(true);
    let r_real = file_update(&data, &mut real, FormatVersion::V1_21_20);
    let r_dry = file_update(&data, &mut dry, FormatVersion::V1_21_20);
    assert_eq!(r_real, r_dry);
    assert!(r_real.is_ok());
    assert_eq!(real.into_bytes(), expected);
    assert_eq!(dry.into_bytes(), Vec::<u8>::new());
}

#[test]
fn dry_run_reports_same_error() {
    let garbage = vec![9, 9, 9];
    let mut real = ShrodingerOutput::new(false);
    let mut dry = ShrodingerOutput::new(true);
    let r_real = file_update(&garbage, &mut real, FormatVersion::V1_21_20);
    let r_dry = file_update(&garbage, &mut dry, FormatVersion::V1_21_20);
    assert_eq!(r_real, r_dry);
    assert_eq!(r_real, Err(ConvertError::NoMatch));
    assert_eq!(real.into_bytes(), Vec::<u8>::new());
    assert_eq!(dry.into_bytes(), Vec::<u8>::new());
}

#[test]
fn sink_write_and_flush() {
    let mut keep = ShrodingerOutput::new(false);
    assert_eq!(keep.write(&vec![1, 2, 3]), 3);
    keep.flush();
    assert_eq!(keep.write(&vec![4]), 1);
    assert_eq!(keep.into_bytes(), vec![1, 2, 3, 4]);

    let mut drop_all = ShrodingerOutput::new(true);
    assert_eq!(drop_all.write(&vec![1, 2, 3]), 3);
    drop_all.flush();
    assert_eq!(drop_all.into_bytes(), Vec::<u8>::new());
}

#[test]
fn material_name_convention() {
    let suffix = material_suffix_bytes();
    assert_eq!(suffix, b".material.bin".to_vec());
    assert!(ends_with(&b"a.material.bin".to_vec(), &suffix));
    assert!(!ends_with(&b"a.material.binx".to_vec(), &suffix));
    assert!(!ends_with(&b"bin".to_vec(), &suffix));
}

#[test]
fn update_filename_inserts_version_label() {
    let out = update_filename(
        &b"pack.material.bin".to_vec(),
        FormatVersion::V1_21_20,
        &b".material.bin".to_vec(),
    );
    assert_eq!(out, Some(b"pack_1.21.20.material.bin".to_vec()));

    let zip_out = update_filename(
        &b"shaders.zip".to_vec(),
        FormatVersion::V1_19_60,
        &b".zip".to_vec(),
    );
    assert_eq!(zip_out, Some(b"shaders_1.19.60.zip".to_vec()));
}

#[test]
fn update_filename_requires_the_postfix() {
    let out = update_filename(
        &b"pack.png".to_vec(),
        FormatVersion::V1_21_20,
        &b".material.bin".to_vec(),
    );
    assert_eq!(out, None);
}
