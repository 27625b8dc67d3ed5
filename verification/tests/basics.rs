use nightindex::archive::is_archive_path;
use nightindex::csv::{csv_escape, parse_simple_csv_line};
use nightindex::fingerprint::infer_source_language;
use nightindex::number::{
    decimal_chars, decimal_int_chars, fixed_chars, hex_chars, hex_sixteen, parse_number,
};
use nightindex::path::{components, extension, file_name, file_stem, join_path, parent};
use nightindex::policy::{
    normalize_policy_path, parse_age_value, policy_formats, should_exclude_path, should_walk,
    tell_policy_fault, AgeError, ExcludePolicy, PolicyFormat,
};
use nightindex::profile_table::{
    missing_columns, profile_layout, read_profile, ProfileLayout, StoredProfile,
};
use nightindex::ratio::Ratio;
use nightindex::text::{lines, space_test, split, to_chars, trim, CharClass};
use nightindex::textmap::{sort_distinct, TextMap, TextSet};
use std::path::Path;

fn text(chars: &[char]) -> String {
    chars.iter().collect()
}

#[test]
fn spaces_are_those_of_unicode() {
    for n in 0..0x11_0000u32 {
        if let Some(c) = char::from_u32(n) {
            assert_eq!(space_test(c), c.is_whitespace(), "{n:x}");
        }
    }
}

#[test]
fn paths_are_read_as_the_system_reads_them() {
    for p in [
        "", "/", "a", "a/b", "/a/b/", "a//b", "./a", "a/./b", "a/..", "..", ".", ".hidden",
        "a/.hidden", "a.tar.gz", "a/b.", "b..", "/..", "a/b.c/d", "dir/.a.b",
    ] {
        let path = Path::new(p);
        assert_eq!(
            file_name(p).map(|s| text(&s)),
            path.file_name().map(|s| s.to_string_lossy().to_string()),
            "{p}"
        );
        assert_eq!(
            file_stem(p).map(|s| text(&s)),
            path.file_stem().map(|s| s.to_string_lossy().to_string()),
            "{p}"
        );
        assert_eq!(
            extension(p).map(|s| text(&s)),
            path.extension().map(|s| s.to_string_lossy().to_string()),
            "{p}"
        );
        let expected: Vec<String> = path
            .components()
            .map(|c| c.as_os_str().to_string_lossy().to_string())
            .collect();
        let found: Vec<String> = components(p).iter().map(|c| text(c)).collect();
        assert_eq!(found, expected, "{p}");
        assert_eq!(parent(p).is_some(), path.parent().is_some(), "{p}");
        for q in ["", "x", "/x", "x/y"] {
            assert_eq!(
                join_path(p, q),
                path.join(q).to_string_lossy().to_string(),
                "{p} {q}"
            );
        }
    }
}

#[test]
fn numbers_are_written_and_read() {
    for n in [0u128, 7, 10, 255, 1_000_000, u64::MAX as u128, u128::MAX] {
        assert_eq!(text(&decimal_chars(n)), n.to_string());
        assert_eq!(text(&hex_chars(n)), format!("{n:x}"));
        assert_eq!(parse_number(&decimal_chars(n), u128::MAX), Some(n));
    }
    assert_eq!(text(&decimal_int_chars(-12)), "-12");
    assert_eq!(hex_sixteen(0xabc), "0000000000000abc");
    assert_eq!(text(&fixed_chars(1234, 2)), "12.34");
    assert_eq!(text(&fixed_chars(5, 3)), "0.005");
    assert_eq!(parse_number(&to_chars("+5"), 9), Some(5));
    assert_eq!(parse_number(&to_chars("10"), 9), None);
    assert_eq!(parse_number(&to_chars("-1"), 9), None);
    assert_eq!(parse_number(&to_chars(""), 9), None);
}

#[test]
fn tables_are_written_and_read() {
    assert_eq!(csv_escape("plain"), "plain");
    assert_eq!(csv_escape("a,b"), "\"a,b\"");
    assert_eq!(csv_escape("say \"hi\""), "\"say \"\"hi\"\"\"");
    assert_eq!(
        parse_simple_csv_line("a,\"b,\"\"c\"\"\",,d"),
        vec![
            "a".to_string(),
            "b,\"c\"".to_string(),
            "".to_string(),
            "d".to_string()
        ]
    );
    assert_eq!(parse_simple_csv_line(""), vec!["".to_string()]);
}

#[test]
fn texts_are_cut_as_the_library_of_the_language_cuts_them() {
    for s in ["", "a", "a\n", "a\r\nb", "\n\n", " a b ", "a\nb\n\nc", "\r", "x\r"] {
        let expected: Vec<String> = s.lines().map(|l| l.to_string()).collect();
        let found: Vec<String> = lines(&to_chars(s)).iter().map(|l| text(l)).collect();
        assert_eq!(found, expected, "{s:?}");
        assert_eq!(text(&trim(&to_chars(s), &CharClass::Space)), s.trim());
        let expected: Vec<String> = s.split(' ').map(|l| l.to_string()).collect();
        let found: Vec<String> = split(&to_chars(s), &CharClass::Is(' '))
            .iter()
            .map(|l| text(l))
            .collect();
        assert_eq!(found, expected, "{s:?}");
    }
}

#[test]
fn lower_case_is_that_of_unicode() {
    assert!(is_archive_path("ARCHIV.ZIP"));
    assert!(!is_archive_path("archive.\u{17f}ip"));
    assert_eq!(infer_source_language("MAIN.RS"), "rust");
}

#[test]
fn ages_are_read_in_their_units() {
    assert_eq!(parse_age_value("10m"), Ok(600_000_000_000));
    assert_eq!(parse_age_value("2h"), Ok(7_200_000_000_000));
    assert_eq!(parse_age_value("7d"), Ok(604_800_000_000_000));
    assert_eq!(parse_age_value("30"), Ok(30_000_000_000));
    assert_eq!(parse_age_value(" "), Err(AgeError::Empty));
    assert_eq!(parse_age_value("1x"), Err(AgeError::Invalid));
    assert_eq!(parse_age_value("9223372037"), Err(AgeError::TooLarge));
}

#[test]
fn a_policy_leaves_out_what_lies_below() {
    let mut overrides = TextMap::new();
    overrides.insert("tmp".to_string(), vec!["scratch".to_string()]);
    let policy = ExcludePolicy {
        directory_prefixes: vec!["firmware-cache".to_string()],
        folder_name_additions: vec!["Recovered Files".to_string()],
        subtree_overrides: overrides,
        enabled: true,
    };
    assert!(should_exclude_path("firmware-cache/a/b", &policy));
    assert!(should_exclude_path("firmware-cache", &policy));
    assert!(!should_exclude_path("firmware-cache2/a", &policy));
    assert!(should_exclude_path("x/Recovered Files/y", &policy));
    assert!(should_exclude_path("tmp/x/scratch/y", &policy));
    assert!(!should_exclude_path("var/scratch/y", &policy));
    assert!(!should_exclude_path("", &policy));
    assert!(!should_walk(false, Some("firmware-cache"), &policy, false));
    assert!(!should_walk(false, Some("x"), &policy, true));
    assert!(should_walk(true, None, &policy, false));
    let off = ExcludePolicy::empty();
    assert!(!should_exclude_path("node_modules/a", &off));
    assert_eq!(normalize_policy_path(" /a//b/ "), "a/b");
}

#[test]
fn policies_are_read_in_the_notations_of_their_names() {
    assert_eq!(policy_formats("YML"), [PolicyFormat::Yaml]);
    assert_eq!(policy_formats("json5"), [PolicyFormat::Json5]);
    assert_eq!(
        policy_formats("json"),
        [PolicyFormat::Json, PolicyFormat::Json5]
    );
    assert_eq!(
        policy_formats(""),
        [PolicyFormat::Yaml, PolicyFormat::Json, PolicyFormat::Json5]
    );
    let errors = |names: &[&str]| -> Vec<String> {
        names.iter().map(|name| name.to_string()).collect()
    };
    assert_eq!(
        tell_policy_fault("p", "yaml", &errors(&["a"])),
        "invalid yaml policy p"
    );
    assert_eq!(
        tell_policy_fault("p", "json5", &errors(&["a"])),
        "invalid json5 policy p"
    );
    assert_eq!(
        tell_policy_fault("p", "json", &errors(&["a", "b"])),
        "invalid json policy p: json error: a, json5 fallback error: b"
    );
    assert_eq!(
        tell_policy_fault("p", "toml", &errors(&["a", "b", "c"])),
        "failed to parse policy p as yaml (a) json (b) or json5 (c)"
    );
}

#[test]
fn maps_and_sets_are_kept_in_order() {
    let mut map = TextMap::new();
    map.insert("b".to_string(), 1);
    map.insert("a".to_string(), 2);
    map.insert("b".to_string(), 3);
    assert_eq!(map.len(), 2);
    assert_eq!(map.key_at(0), "a");
    assert_eq!(map.get("b"), Some(&3));
    assert_eq!(map.get("c"), None);
    let mut set = TextSet::new();
    set.insert("y".to_string());
    set.insert("x".to_string());
    set.insert("y".to_string());
    assert_eq!(set.len(), 2);
    assert!(set.contains("x"));
    assert_eq!(
        sort_distinct(&vec!["b".to_string(), "a".to_string(), "b".to_string()]),
        vec!["a".to_string(), "b".to_string()]
    );
}

#[test]
fn fractions_are_compared_exactly() {
    let half = Ratio { num: 1, den: 2 };
    let third = Ratio { num: 1, den: 3 };
    assert!(third.is_less(&half));
    assert!(!half.is_less(&half));
    let big = Ratio {
        num: u128::MAX - 1,
        den: u128::MAX,
    };
    assert!(half.is_less(&big));
    assert!(!big.is_less(&half));
}

fn columns(names: &[&str]) -> Vec<String> {
    names.iter().map(|n| n.to_string()).collect()
}

#[test]
fn tables_of_profiles_may_lack_columns() {
    let old = columns(&["label", "rel_path", "language", "size_class"]);
    assert_eq!(profile_layout(&old), ProfileLayout::WithoutSignatures);
    assert_eq!(
        missing_columns(&old),
        columns(&[
            "binary_signature",
            "binary_descriptor",
            "text_signature",
            "archive_signature"
        ])
    );
    assert_eq!(profile_layout(&columns(&["label"])), ProfileLayout::Bare);
    let most = columns(&[
        "language",
        "size_class",
        "binary_signature",
        "text_signature",
        "archive_signature",
    ]);
    assert_eq!(profile_layout(&most), ProfileLayout::WithoutDescriptor);
    let mut all = most;
    all.push("binary_descriptor".to_string());
    assert_eq!(profile_layout(&all), ProfileLayout::Full);
    assert!(missing_columns(&all).is_empty());

    let stored = StoredProfile {
        normalized_name: "n".to_string(),
        normalized_folder: "f".to_string(),
        ext: None,
        is_binary: 2,
        is_archive: 0,
        archive_family: None,
        language: Some("rust".to_string()),
        size_class: Some("small".to_string()),
        binary_signature: Some("s".to_string()),
        binary_descriptor: Some("d".to_string()),
        text_signature: None,
        archive_signature: None,
    };
    let bare = read_profile(&stored, ProfileLayout::Bare);
    assert_eq!(bare.language, "unknown");
    assert_eq!(bare.size_class, "large");
    assert_eq!(bare.ext, "");
    assert!(bare.is_binary);
    assert_eq!(bare.binary_signature, None);
    let full = read_profile(&stored, ProfileLayout::Full);
    assert_eq!(full.language, "rust");
    assert_eq!(full.binary_descriptor, Some("d".to_string()));
    let some = read_profile(&stored, ProfileLayout::WithoutDescriptor);
    assert_eq!(some.binary_descriptor, None);
    assert_eq!(some.binary_signature, Some("s".to_string()));
}
