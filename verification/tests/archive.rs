use nightindex::archive::{
    archive_family_depth, build_virtual_archive_member_path, build_virtual_archive_path,
    dossier_archive_signature, infer_archive_family, is_archive_path,
    normalize_virtual_archive_member_identity,
};

#[test]
fn infer_archive_family_detects_compound_nested_formats() {
    assert_eq!(
        infer_archive_family("backup.tar.gz"),
        Some("tar.gz".to_string())
    );
    assert_eq!(
        infer_archive_family("snapshot.tar.xz"),
        Some("tar.xz".to_string())
    );
    assert_eq!(
        infer_archive_family("bundle.tar.bz2"),
        Some("tar.bz2".to_string())
    );
    assert_eq!(
        infer_archive_family("image.archive.img.raw"),
        Some("img.raw".to_string())
    );
    assert_eq!(
        infer_archive_family("archive.zip+txt"),
        Some("zip+txt".to_string())
    );
    assert_eq!(infer_archive_family("notes.txt"), None);
    assert_eq!(
        dossier_archive_signature("bundle.tar.gz"),
        Some("tar".to_string())
    );
    assert_eq!(
        dossier_archive_signature("image.zip+txt"),
        Some("zip".to_string())
    );
}

#[test]
fn virtual_archive_paths_capture_nested_family_shape() {
    assert_eq!(
        build_virtual_archive_path("fw/qcom_payload_final.tar.gz"),
        "qcom_payload_final/@tar/gz"
    );
    assert_eq!(
        build_virtual_archive_path("snapshots/image.archive.img.raw"),
        "image.archive/@img/img"
    );
    assert_eq!(archive_family_depth("tar.gz"), 2);
    assert_eq!(archive_family_depth("zip+txt"), 2);
}

#[test]
fn virtual_archive_member_identity_normalizes_member_like_names() {
    assert_eq!(
        normalize_virtual_archive_member_identity(r"./FW Pack/../Payload Final (V2)"),
        "payload_final_v2"
    );
    assert_eq!(
        normalize_virtual_archive_member_identity(r"nested\\INNER.dir\\part-01"),
        "nested/inner_dir/part_01"
    );
    assert_eq!(
        normalize_virtual_archive_member_identity("///...///"),
        "member"
    );
}

#[test]
fn virtual_archive_member_paths_capture_nested_archive_naming_edges() {
    assert_eq!(
        build_virtual_archive_member_path(r"FW\QCOM Payload Final.TAR.GZ"),
        "qcom_payload_final/@tar/gz"
    );
    assert_eq!(
        build_virtual_archive_member_path("snapshots/image.archive.img.raw"),
        "image_archive/@img/img"
    );
    assert_eq!(
        build_virtual_archive_member_path("./nested/../mix+chars v1.2.zip+txt"),
        "mix_chars_v1_2/@zip/txt"
    );
}

#[test]
fn archives_are_told_by_their_endings_in_any_case() {
    assert!(is_archive_path("a/B.ZIP"));
    assert!(!is_archive_path("a/zip"));
    assert!(!is_archive_path("readme.txt"));
}

#[test]
fn an_identity_is_its_own_identity() {
    for value in ["", "..", " A b__C /../x\\\\Y-z ", "é/É", "a/./b", "__"] {
        let once = normalize_virtual_archive_member_identity(value);
        assert_eq!(normalize_virtual_archive_member_identity(&once), once);
        for name in once.split('/') {
            assert!(!name.is_empty() && !name.starts_with('_') && !name.ends_with('_'));
            assert!(!name.contains("__"));
            assert!(name
                .chars()
                .all(|c| c.is_ascii_lowercase() || c.is_ascii_digit() || c == '_'));
        }
    }
}
