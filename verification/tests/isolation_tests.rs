use mutfuzz::corpus::Corpus;
use mutfuzz::diff::DiffEntry;
use mutfuzz::isolation::{isolate, CausalChange, Crash};
use mutfuzz::matching::find;

fn sample_crash() -> Crash {
    let mut bytes: Vec<u8> = vec![0x55u8; 32];
    bytes[10] = 0x00;
    bytes[20] = 0x01;
    Crash::new(
        String::from("corpus/seed.exe"),
        bytes,
        vec![
            DiffEntry { offset: 10, original: 0x00, mutated: 0xFF },
            DiffEntry { offset: 20, original: 0x01, mutated: 0x02 },
        ],
    )
}

#[test]
fn crash_new_binds_its_parts() {
    let crash = sample_crash();
    assert_eq!(crash.name, "corpus/seed.exe");
    assert_eq!(crash.bytes.len(), 32);
    assert_eq!(crash.modified.len(), 2);
}

#[test]
fn isolate_reports_only_the_change_that_reproduces() {
    let crash = sample_crash();
    let report = isolate(&crash, &vec![-1073741819i32, 0i32]);
    assert_eq!(
        report,
        vec![CausalChange { offset: 10, original: 0x00, mutated: 0xFF, exit_code: -1073741819 }]
    );
}

#[test]
fn isolate_never_reports_exit_code_zero() {
    let crash = sample_crash();
    assert_eq!(isolate(&crash, &vec![0i32, 0i32]), Vec::new());
    for codes in [vec![0i32, 5i32], vec![5i32, 0i32], vec![1i32, -1i32]] {
        for change in isolate(&crash, &codes) {
            assert_ne!(change.exit_code, 0);
        }
    }
}

#[test]
fn isolate_keeps_the_order_of_the_changes() {
    let crash = sample_crash();
    assert_eq!(
        isolate(&crash, &vec![1i32, 2i32]),
        vec![
            CausalChange { offset: 10, original: 0x00, mutated: 0xFF, exit_code: 1 },
            CausalChange { offset: 20, original: 0x01, mutated: 0x02, exit_code: 2 },
        ]
    );
}

#[test]
fn isolate_ignores_what_has_no_partner() {
    let crash = sample_crash();
    assert_eq!(
        isolate(&crash, &vec![4i32]),
        vec![CausalChange { offset: 10, original: 0x00, mutated: 0xFF, exit_code: 4 }]
    );
    assert_eq!(
        isolate(&crash, &vec![0i32, 4i32, 9i32]),
        vec![CausalChange { offset: 20, original: 0x01, mutated: 0x02, exit_code: 4 }]
    );
    assert_eq!(isolate(&crash, &Vec::new()), Vec::new());
}

#[test]
fn single_change_applies_one_change_to_a_fresh_copy() {
    let crash = sample_crash();
    let first = crash.single_change(0);
    let second = crash.single_change(1);
    let mut expected_first = crash.bytes.clone();
    expected_first[10] = 0xFF;
    let mut expected_second = crash.bytes.clone();
    expected_second[20] = 0x02;
    assert_eq!(first, expected_first);
    assert_eq!(second, expected_second);
    assert_eq!(crash.bytes[10], 0x00);
    assert_eq!(crash.bytes[20], 0x01);
}

#[test]
fn consistency_holds_for_matching_changes() {
    assert!(sample_crash().is_consistent());
    assert!(Crash::new(String::new(), Vec::new(), Vec::new()).is_consistent());
}

#[test]
fn consistency_fails_on_wrong_original() {
    let crash = Crash::new(
        String::from("seed"),
        vec![1u8, 2u8],
        vec![
            DiffEntry { offset: 0, original: 1, mutated: 9 },
            DiffEntry { offset: 1, original: 3, mutated: 9 },
        ],
    );
    assert!(!crash.is_consistent());
}

#[test]
fn consistency_fails_on_offset_outside() {
    let crash = Crash::new(
        String::from("seed"),
        vec![1u8, 2u8],
        vec![DiffEntry { offset: 2, original: 1, mutated: 9 }],
    );
    assert!(!crash.is_consistent());
}

#[test]
fn matched_changes_are_consistent_with_their_seed() {
    let seed: Vec<u8> = (0..100u8).collect();
    let mut input: Vec<u8> = seed.clone();
    input[3] = 0xAA;
    input[97] = 0xBB;
    let corpus = Corpus::new(vec![seed.clone()]);
    let (index, changes) = find(&input, &corpus).expect("two differences qualify");
    let crash = Crash::new(String::from("seed"), corpus.seed(index).clone(), changes);
    assert!(crash.is_consistent());
    let mut rebuilt: Vec<u8> = seed.clone();
    for i in 0..crash.modified.len() {
        let single = crash.single_change(i);
        let offset = crash.modified[i].offset;
        assert_eq!(single[offset], input[offset]);
        rebuilt[offset] = single[offset];
    }
    assert_eq!(rebuilt, input);
}
