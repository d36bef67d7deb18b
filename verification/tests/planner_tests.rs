use fanout::group::GroupCounter;
use fanout::pattern::compile;
use fanout::planner::{plan_files, validate_options, ConfigError, RunOptions, DIGEST_HEX_LEN};
use fanout::record::{build_record, ExtractOutcome, FileRecord};

fn opts() -> RunOptions {
    RunOptions {
        threshold: 1024,
        limit: 0,
        hash_split: 3,
        dry_run: false,
        disable_group_dir: false,
        case_sensitive: false,
        verbosity: 0,
    }
}

fn plain_record(path: &[u8]) -> ExtractOutcome {
    ExtractOutcome::Good(FileRecord {
        root: b"out".to_vec(),
        path: path.to_vec(),
        size: 1,
        year: 2021,
        month: 3,
        day: 7,
        digest: None,
    })
}

#[test]
fn group_counter_rolls_over_at_threshold() {
    let mut c = GroupCounter::new(2);
    let a = b"a".to_vec();
    let b = b"b".to_vec();
    assert_eq!(c.assign(&a), 0);
    assert_eq!(c.assign(&a), 0);
    assert_eq!(c.assign(&a), 1);
    assert_eq!(c.assign(&a), 1);
    assert_eq!(c.assign(&a), 2);
    assert_eq!(c.assign(&b), 0);
}

#[test]
fn hash_split_uses_digest_hex_prefix() {
    let mut digest = vec![0xab, 0xcd, 0xef];
    digest.extend(std::iter::repeat(0u8).take(17));
    let rec = ExtractOutcome::Good(FileRecord {
        root: b"out".to_vec(),
        path: b"out/f.bin".to_vec(),
        size: 9,
        year: 2021,
        month: 3,
        day: 7,
        digest: Some(digest),
    });
    let p = compile(&b"%z".to_vec()).unwrap();
    let plan = plan_files(vec![rec], &p, &opts());
    assert_eq!(plan.entries.len(), 1);
    assert_eq!(plan.entries[0].prefix, b"out/abc".to_vec());
    assert_eq!(plan.entries[0].group, Some(0));
    assert_eq!(plan.entries[0].dest, b"out/abc/0/f.bin".to_vec());
}

#[test]
fn sha1_digest_drives_the_hash_segment() {
    // sha1("abc") starts a9993e36...
    let content = b"abc".to_vec();
    let rec = build_record(b"out".to_vec(), b"out/f.bin".to_vec(), 3, 0, Some(&content));
    let p = compile(&b"%z".to_vec()).unwrap();
    let plan = plan_files(vec![ExtractOutcome::Good(rec)], &p, &opts());
    assert_eq!(plan.entries[0].prefix, b"out/a99".to_vec());
}

#[test]
fn limit_caps_planned_entries() {
    let mut files = Vec::new();
    for i in 0..10u8 {
        let name = vec![b'o', b'u', b't', b'/', b'f', b'0' + i];
        files.push(plain_record(&name));
    }
    let p = compile(&b"x".to_vec()).unwrap();
    let mut o = opts();
    o.limit = 3;
    let plan = plan_files(files, &p, &o);
    assert_eq!(plan.entries.len(), 3);
    assert_eq!(plan.skipped.len(), 7);
    assert_eq!(plan.failed.len(), 0);
    assert_eq!(plan.entries[0].source, b"out/f0".to_vec());
    assert_eq!(plan.entries[2].source, b"out/f2".to_vec());
    assert_eq!(plan.skipped[0], b"out/f3".to_vec());
}

#[test]
fn case_sensitivity_changes_group_assignment() {
    let p = compile(&b"p".to_vec()).unwrap();
    let mut o = opts();
    o.threshold = 1;

    o.case_sensitive = true;
    let plan = plan_files(
        vec![plain_record(b"A.txt"), plain_record(b"a.txt")],
        &p,
        &o,
    );
    assert_eq!(plan.entries[0].source, b"A.txt".to_vec());
    assert_eq!(plan.entries[0].group, Some(0));
    assert_eq!(plan.entries[1].source, b"a.txt".to_vec());
    assert_eq!(plan.entries[1].group, Some(1));

    o.case_sensitive = false;
    let plan2 = plan_files(
        vec![plain_record(b"A.txt"), plain_record(b"a.txt")],
        &p,
        &o,
    );
    assert_eq!(plan2.entries[0].source, b"a.txt".to_vec());
    assert_eq!(plan2.entries[0].group, Some(0));
    assert_eq!(plan2.entries[1].source, b"A.txt".to_vec());
    assert_eq!(plan2.entries[1].group, Some(1));
}

#[test]
fn threshold_splits_groups_in_order() {
    let p = compile(&b"p".to_vec()).unwrap();
    let mut o = opts();
    o.threshold = 2;
    let mut files = Vec::new();
    for i in 0..5u8 {
        files.push(plain_record(&vec![b'f', b'0' + i]));
    }
    let plan = plan_files(files, &p, &o);
    let groups: Vec<Option<usize>> = plan.entries.iter().map(|e| e.group).collect();
    assert_eq!(groups, vec![Some(0), Some(0), Some(1), Some(1), Some(2)]);
}

#[test]
fn disabled_grouping_omits_group_directory() {
    let p = compile(&b"p".to_vec()).unwrap();
    let mut o = opts();
    o.disable_group_dir = true;
    let plan = plan_files(vec![plain_record(b"out/f")], &p, &o);
    assert_eq!(plan.entries[0].group, None);
    assert_eq!(plan.entries[0].dest, b"out/p/f".to_vec());
}

#[test]
fn plans_are_deterministic_across_runs() {
    let p = compile(&b"%y/%m".to_vec()).unwrap();
    let o = opts();
    let mk = || {
        vec![
            plain_record(b"out/b"),
            plain_record(b"out/a"),
            ExtractOutcome::Failed(b"out/broken".to_vec()),
        ]
    };
    let plan1 = plan_files(mk(), &p, &o);
    let plan2 = plan_files(mk(), &p, &o);
    assert_eq!(plan1.entries.len(), plan2.entries.len());
    for (e1, e2) in plan1.entries.iter().zip(plan2.entries.iter()) {
        assert_eq!(e1.source, e2.source);
        assert_eq!(e1.dest, e2.dest);
        assert_eq!(e1.group, e2.group);
    }
    assert_eq!(plan1.failed, plan2.failed);
}

#[test]
fn failed_extraction_is_reported_not_planned() {
    let p = compile(&b"%z".to_vec()).unwrap();
    let files = vec![
        ExtractOutcome::Failed(b"out/unreadable".to_vec()),
        plain_record(b"out/nodigest"),
    ];
    let plan = plan_files(files, &p, &opts());
    // the record without a digest cannot satisfy %z and is a failure too
    assert_eq!(plan.entries.len(), 0);
    assert_eq!(plan.failed.len(), 2);
}

#[test]
fn validate_rejects_bad_hash_split() {
    let with_hash = compile(&b"%z".to_vec()).unwrap();
    let without_hash = compile(&b"%m".to_vec()).unwrap();
    let mut o = opts();
    o.hash_split = 0;
    assert_eq!(
        validate_options(&with_hash, &o),
        Err(ConfigError::BadHashSplit { given: 0, digest_hex_len: DIGEST_HEX_LEN })
    );
    o.hash_split = 41;
    assert!(validate_options(&with_hash, &o).is_err());
    assert!(validate_options(&without_hash, &o).is_ok());
    o.hash_split = 3;
    assert!(validate_options(&with_hash, &o).is_ok());
}
