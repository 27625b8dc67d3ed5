use nightindex::policy::ExcludePolicy;
use nightindex::record::FileRecord;
use nightindex::scan::{
    prepare_policy, rule_scan, scan_time, tell_scan, ScanFacts, ScanQuestion, ScanRuling,
    ScanTotals, StatLook, TargetLook, WalkKind, WalkLook,
};
use nightindex::textmap::TextMap;

fn no_policy() -> ExcludePolicy {
    ExcludePolicy::empty()
}

fn entry(kind: WalkKind, rel_path: &str) -> ScanFacts {
    ScanFacts::of(WalkLook::Entry {
        kind,
        path: format!("/root/{rel_path}"),
        rel_path: Ok(rel_path.to_string()),
    })
}

fn answer(facts: &mut ScanFacts, wanted: bool) -> Vec<ScanQuestion> {
    let mut asked = Vec::new();
    while let ScanRuling::Ask(question) = rule_scan(facts, &no_policy(), wanted) {
        asked.push(question);
        match question {
            ScanQuestion::Stat => {
                facts.stat = Some(StatLook::Stat {
                    size: 12,
                    mtime_ns: Some(3),
                })
            }
            ScanQuestion::Target => facts.target = Some(TargetLook::Target("there".to_string())),
            ScanQuestion::StoredRow => facts.stored = Some(None),
            ScanQuestion::Hash => facts.hash = Some("hashed".to_string()),
            ScanQuestion::StoredProfile => facts.stored_profile = Some(None),
            ScanQuestion::CachedProfile => facts.cached_profile = Some(None),
            ScanQuestion::Samples => facts.samples = Some(Some("sampled".to_string())),
            ScanQuestion::Content => {
                facts.content = Some(Some("import os\n\ndef run_all(x):\n    pass\n".to_string()))
            }
        }
    }
    asked
}

#[test]
fn a_new_text_is_hashed_and_read() {
    let mut facts = entry(WalkKind::File, "a/run.py");
    let asked = answer(&mut facts, true);
    assert_eq!(
        asked,
        vec![
            ScanQuestion::Stat,
            ScanQuestion::StoredRow,
            ScanQuestion::Hash,
            ScanQuestion::CachedProfile,
            ScanQuestion::Content
        ]
    );
    let mut totals = ScanTotals::new();
    let settlement = totals.settle(&facts, &no_policy(), true);
    let (row, profile) = settlement.entry.unwrap();
    assert_eq!(row.rel_path, "a/run.py");
    assert_eq!(row.file_type, "file");
    assert_eq!(row.size, 12);
    assert_eq!(row.mtime_ns, 3);
    assert_eq!(row.fast_hash, Some("hashed".to_string()));
    assert!(profile.text_signature.unwrap().contains("f:run_all"));
    assert!(settlement.to_cache);
    assert_eq!(totals.files, 1);
    assert_eq!(totals.hashed, 1);
    assert_eq!(totals.profiles_recomputed, 1);
    assert_eq!(totals.cache_misses, 1);
}

#[test]
fn a_second_scan_uses_what_the_first_one_wrote() {
    let mut facts = entry(WalkKind::File, "a/run.py");
    answer(&mut facts, true);
    let mut totals = ScanTotals::new();
    let (row, profile) = totals.settle(&facts, &no_policy(), true).entry.unwrap();

    let mut again = entry(WalkKind::File, "a/run.py");
    again.stat = Some(StatLook::Stat {
        size: 12,
        mtime_ns: Some(3),
    });
    again.stored = Some(Some(row));
    assert_eq!(
        rule_scan(&again, &no_policy(), true),
        ScanRuling::Ask(ScanQuestion::StoredProfile)
    );
    again.stored_profile = Some(Some(profile));
    assert_eq!(
        rule_scan(&again, &no_policy(), true),
        ScanRuling::Indexed
    );
    let settlement = totals.settle(&again, &no_policy(), true);
    assert!(!settlement.to_cache);
    assert_eq!(
        settlement.entry.unwrap().0.fast_hash,
        Some("hashed".to_string())
    );
    assert_eq!(totals.reused, 1);
    assert_eq!(totals.profiles_reused, 1);
}

#[test]
fn scan_command_records_symlinks() {
    let mut facts = entry(WalkKind::Symlink, "link");
    let asked = answer(&mut facts, true);
    assert_eq!(
        asked,
        vec![
            ScanQuestion::Stat,
            ScanQuestion::Target,
            ScanQuestion::StoredRow,
            ScanQuestion::CachedProfile
        ]
    );
    let mut totals = ScanTotals::new();
    let (row, _) = totals.settle(&facts, &no_policy(), true).entry.unwrap();
    assert_eq!(row.file_type, "symlink");
    assert_eq!(row.size, 0);
    assert_eq!(row.fast_hash, Some("there".to_string()));
    assert_eq!(totals.symlinks, 1);
    assert_eq!(totals.hashed, 0);
}

#[test]
fn a_binary_file_is_sampled() {
    let mut facts = entry(WalkKind::File, "bin/agent.sys");
    let asked = answer(&mut facts, false);
    assert!(asked.contains(&ScanQuestion::Samples));
    assert!(!asked.contains(&ScanQuestion::Hash));
    let (row, profile) = ScanTotals::new()
        .settle(&facts, &no_policy(), false)
        .entry
        .unwrap();
    assert_eq!(row.fast_hash, None);
    assert!(profile.binary_descriptor.unwrap().starts_with("sys:"));
}

#[test]
fn a_profile_of_the_cache_is_used() {
    let mut facts = entry(WalkKind::File, "a.py");
    facts.stat = Some(StatLook::Stat {
        size: 1,
        mtime_ns: None,
    });
    facts.stored = Some(None);
    let mut profile = nightindex::fingerprint::build_file_fingerprint_profile("a.py", "file", 1, None);
    profile.normalized_name = "cached".to_string();
    facts.cached_profile = Some(Some(profile));
    let mut totals = ScanTotals::new();
    let settlement = totals.settle(&facts, &no_policy(), false);
    assert_eq!(settlement.entry.unwrap().1.normalized_name, "cached");
    assert_eq!(totals.cache_hits, 1);
}

#[test]
fn entries_that_cannot_be_read_are_told() {
    let mut totals = ScanTotals::new();
    let failed = ScanFacts::of(WalkLook::Failed("loop".to_string()));
    assert_eq!(
        totals.settle(&failed, &no_policy(), false).note,
        Some("[scan] walk failed: loop".to_string())
    );
    let stray = ScanFacts::of(WalkLook::Entry {
        kind: WalkKind::File,
        path: "/else/a".to_string(),
        rel_path: Err("prefix not found".to_string()),
    });
    assert_eq!(
        totals.settle(&stray, &no_policy(), false).note,
        Some("[scan] strip-prefix failed: /else/a: prefix not found".to_string())
    );
    let mut gone = entry(WalkKind::File, "a");
    gone.stat = Some(StatLook::Failed("gone".to_string()));
    assert_eq!(
        totals.settle(&gone, &no_policy(), false).note,
        Some("[scan] stat failed: /root/a: gone".to_string())
    );
    let mut link = entry(WalkKind::Symlink, "l");
    link.stat = Some(StatLook::Stat {
        size: 1,
        mtime_ns: None,
    });
    link.target = Some(TargetLook::Failed("denied".to_string()));
    assert_eq!(
        totals.settle(&link, &no_policy(), false).note,
        Some("[scan] read-link failed: /root/l: denied".to_string())
    );
    assert_eq!(totals.errors, 4);
    assert_eq!(totals.files, 0);
    assert_eq!(totals.symlinks, 1);
}

#[test]
fn folders_are_passed_and_noise_is_left_out() {
    let mut policy = no_policy();
    prepare_policy(&mut policy, &vec!["tmp/".to_string()]);
    assert!(policy.enabled);
    assert_eq!(policy.directory_prefixes, vec!["tmp".to_string()]);
    let mut totals = ScanTotals::new();
    let folder = entry(WalkKind::Directory, "tmp");
    assert_eq!(rule_scan(&folder, &policy, false), ScanRuling::Passed);
    totals.settle(&folder, &policy, false);
    let noise = entry(WalkKind::File, "tmp/a");
    assert_eq!(rule_scan(&noise, &policy, false), ScanRuling::Excluded);
    totals.settle(&noise, &policy, false);
    assert_eq!(totals.excluded, 1);
    assert_eq!(totals.files, 0);
}

#[test]
fn a_policy_that_holds_nothing_is_not_in_force() {
    let mut policy = no_policy();
    prepare_policy(&mut policy, &Vec::new());
    assert!(!policy.enabled);
    let mut names = ExcludePolicy {
        directory_prefixes: Vec::new(),
        folder_name_additions: vec!["junk".to_string()],
        subtree_overrides: TextMap::new(),
        enabled: false,
    };
    prepare_policy(&mut names, &Vec::new());
    assert!(names.enabled);
}

#[test]
fn scans_follow_one_another_in_time() {
    assert_eq!(scan_time(5, None), 5);
    assert_eq!(scan_time(5, Some(4)), 5);
    assert_eq!(scan_time(5, Some(5)), 6);
    assert_eq!(scan_time(5, Some(9)), 10);
}

#[test]
fn a_changed_file_is_hashed_again() {
    let mut facts = entry(WalkKind::File, "a.py");
    facts.stat = Some(StatLook::Stat {
        size: 2,
        mtime_ns: Some(3),
    });
    facts.stored = Some(Some(FileRecord {
        rel_path: "a.py".to_string(),
        file_type: "file".to_string(),
        size: 1,
        mtime_ns: 3,
        fast_hash: Some("old".to_string()),
    }));
    assert_eq!(
        rule_scan(&facts, &no_policy(), true),
        ScanRuling::Ask(ScanQuestion::Hash)
    );
}

#[test]
fn a_scan_tells_what_it_does() {
    assert_eq!(
        tell_scan(
            "left",
            "/data",
            true,
            &vec!["tmp".to_string(), "b".to_string()],
            &vec![".skip".to_string()]
        ),
        vec![
            "[scan] label=left root=/data hash=true".to_string(),
            "[scan] excludes=tmp, b".to_string(),
            "[scan] exclude-if-present markers=.skip".to_string()
        ]
    );
    let (summary, cache) = ScanTotals::new().closing();
    assert_eq!(
        summary,
        "[scan] summary: files=0 symlinks=0 hashed=0 reused=0 fp_reused=0 fp_cache_hits=0 fp_cache_misses=0 fp_recomputed=0 excluded=0 errors=0"
    );
    assert_eq!(
        cache,
        "[scan] cache-summary: fp_cache_hits=0 fp_cache_misses=0 fp_reused=0 fp_recomputed=0"
    );
}

#[test]
fn progress_is_told_once_in_five_hundred_files() {
    let mut facts = entry(WalkKind::File, "a.bin");
    answer(&mut facts, false);
    let mut totals = ScanTotals::new();
    for _ in 0..499 {
        assert!(totals.settle(&facts, &no_policy(), false).line.is_none());
    }
    assert_eq!(
        totals.settle(&facts, &no_policy(), false).line,
        Some("[scan] files=500 hashed=0 reused=0 fp_reused=0 fp_cache_hits=0 fp_cache_misses=500 fp_recomputed=500 excluded=0 errors=0".to_string())
    );
}
