use nightindex::fingerprint::{
    build_file_fingerprint_profile, infer_archive_payload_signature, infer_binary_descriptor,
    infer_size_class, infer_source_language, is_noise_fingerprint_token,
    DESCRIPTOR_MAX_COMPOSITE_LEN,
};
use nightindex::semantic::{infer_semantic_text_signature_from_content, should_read_content};

#[test]
fn fingerprint_profiles_include_cached_signature_classes() {
    let archive = build_file_fingerprint_profile(
        "fw/qcom_payload_final.tar.gz",
        "file",
        4096,
        Some("hash-archive"),
    );
    assert!(archive.is_archive);
    assert_eq!(archive.archive_family, Some("tar.gz".to_string()));
    assert_eq!(archive.binary_signature, Some("tar:small:fw".to_string()));
    assert_eq!(
        archive.binary_descriptor,
        Some("tar:small:fw:hash-archi".to_string())
    );
    assert_eq!(
        archive.archive_signature,
        Some("tar:qcom_payload".to_string())
    );

    let source = build_file_fingerprint_profile(
        "01_EXPLOITS/010001/poc_final.py",
        "file",
        512,
        Some("hash-source"),
    );
    assert_eq!(source.language, "python");
    assert_eq!(source.text_signature, Some("python:poc".to_string()));
    assert!(source.binary_signature.is_none());
    assert!(source.binary_descriptor.is_none());
}

#[test]
fn load_file_fingerprint_profiles_returns_normalized_values() {
    let readme =
        build_file_fingerprint_profile("case-final-20240101/readme_final.txt", "file", 3, None);
    assert_eq!(readme.normalized_name, "readme");
    assert_eq!(readme.normalized_folder, "case");
    assert_eq!(readme.ext, "txt");
    assert_eq!(readme.language, "markdown");
    assert_eq!(readme.size_class, "small");

    let notes =
        build_file_fingerprint_profile("case-final-20240101/notes_old.bin", "file", 3, None);
    assert_eq!(notes.normalized_name, "notes");
    assert_eq!(notes.normalized_folder, "case");
    assert_eq!(notes.ext, "bin");
    assert_eq!(notes.language, "unknown");
    assert_eq!(notes.size_class, "small");

    let bundle =
        build_file_fingerprint_profile("case-final-20240101/bundle_20240101.cfg", "file", 5, None);
    assert_eq!(bundle.normalized_name, "bundle");
    assert_eq!(bundle.normalized_folder, "case");
    assert_eq!(bundle.ext, "cfg");
    assert_eq!(bundle.language, "unknown");
    assert_eq!(bundle.size_class, "small");
}

#[test]
fn binary_descriptor_is_stable_and_hash_sensitive() {
    let a = infer_binary_descriptor(
        "firmware/bin/agent.sys",
        Some("sys"),
        None,
        "1m",
        Some("abcdef1234567890"),
        None,
    );
    let b = infer_binary_descriptor(
        "firmware/bin/agent.sys",
        Some("sys"),
        None,
        "1m",
        Some("abcdef1234567890"),
        None,
    );
    let c = infer_binary_descriptor(
        "firmware/bin/agent.sys",
        Some("sys"),
        None,
        "1m",
        Some("123456abcdef7890"),
        None,
    );
    assert_eq!(a, "sys:1m:bin:abcdef1234");
    assert_eq!(a, b);
    assert_ne!(a, c);
}

#[test]
fn binary_descriptor_is_bounded_for_long_noisy_paths() {
    let long_segment = "Firmware-VERY-LONG-SEGMENT_with_noise_v1234_final_copy_20250101";
    let rel_path = format!("{long_segment}/{long_segment}/{long_segment}.sys");
    let descriptor = infer_binary_descriptor(
        &rel_path,
        Some("sys"),
        None,
        "1m",
        Some("abcdef1234567890"),
        Some("fedcba0987654321fedcba0987654321"),
    );
    assert!(descriptor.len() <= DESCRIPTOR_MAX_COMPOSITE_LEN);
    assert!(descriptor.starts_with("sys:1m:"));
}

#[test]
fn semantic_text_signature_extracts_import_and_function_tokens() {
    let content = r#"
import os
from pathlib import Path

def collect_results(path):
    return Path(path)
"#;
    let signature = infer_semantic_text_signature_from_content("python", "collector", content);
    assert!(signature.starts_with("python:collector"));
    assert!(signature.contains("i:os+pathlib") || signature.contains("i:pathlib+os"));
    assert!(signature.contains("f:collect_results"));
}

#[test]
fn semantic_text_signature_suppresses_low_signal_and_malformed_lines() {
    let content = r#"
import a
import tmp
import urllib.request
def x(v):
key = "value"
aaaaaaaaaaaaaaaaaaaaaaaaaaaaaaaaaaaaaaaaaaaaaaaaaaaaaaaaaaaaaaaa = 1
[x]
[main-service]
bad::::line
"#;
    let signature = infer_semantic_text_signature_from_content("python", "collector", content);
    assert!(signature.contains("python:collector"));
    assert!(!signature.contains("i:a"));
    assert!(!signature.contains("i:tmp"));
    assert!(!signature.contains("f:x"));
    assert!(!signature.contains("k:key"));
    assert!(signature.contains("i:urllib"));
    assert!(signature.contains("s:main_service"));
    assert!(signature.len() <= DESCRIPTOR_MAX_COMPOSITE_LEN);
}

#[test]
fn archive_payload_signature_is_bounded_and_normalized() {
    let rel_path = "fw/Very Long Payload Name FINAL Copy 20250101.tar.gz";
    let signature =
        infer_archive_payload_signature(rel_path, "tar.gz").expect("archive payload signature");
    assert!(signature.starts_with("tar:"));
    assert!(signature.len() <= DESCRIPTOR_MAX_COMPOSITE_LEN);
}

#[test]
fn a_link_has_a_profile_of_its_own() {
    let link = build_file_fingerprint_profile("case/link", "symlink", 0, None);
    assert_eq!(link.normalized_name, "symlink");
    assert!(!link.is_binary);
    assert!(link.binary_signature.is_none());
}

#[test]
fn texts_of_known_languages_are_read_up_to_a_size() {
    assert!(should_read_content(false, "python", 262_144));
    assert!(!should_read_content(false, "python", 262_145));
    assert!(!should_read_content(true, "python", 1));
    assert!(!should_read_content(false, "unknown", 1));
    assert!(!should_read_content(false, "symlink", 1));
    assert_eq!(infer_source_language("a.rs"), "rust");
    assert_eq!(infer_size_class(0), "0b");
    assert_eq!(infer_size_class(1), "small");
    assert_eq!(infer_size_class(512 * 1024), "1m");
}

#[test]
fn versions_and_dates_say_nothing() {
    for token in ["", " ", "Final", "v12", "rev3", "r7", "2024", "20240131", "2024-01_31"] {
        assert!(is_noise_fingerprint_token(token), "{token}");
    }
    for token in ["v", "rev", "v1a", "123", "finals", "2024-01-3x", "ééééé"] {
        assert!(!is_noise_fingerprint_token(token), "{token}");
    }
}

#[test]
fn the_order_of_the_lines_does_not_matter() {
    let a = "import os\nimport sys\ndef collect(x):\nlimit_total = 3\n[service]\n";
    let b = "[service]\nlimit_total = 3\nimport sys\ndef collect(x):\nimport os\nimport os\n";
    assert_eq!(
        infer_semantic_text_signature_from_content("python", "n", a),
        infer_semantic_text_signature_from_content("python", "n", b)
    );
}
