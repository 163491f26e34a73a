use mutfuzz::oracle::{
    after_run, judge, on_open_error, step_for, ExitOutcome, OpenAction, Verdict, WorkerStep, BUSY,
};

#[test]
fn outcome_is_read_off_the_code() {
    assert_eq!(ExitOutcome::from_code(Some(0)), ExitOutcome::Code(0));
    assert_eq!(ExitOutcome::from_code(Some(-7)), ExitOutcome::Code(-7));
    assert_eq!(ExitOutcome::from_code(None), ExitOutcome::Fault);
}

#[test]
fn zero_passes() {
    assert_eq!(judge(ExitOutcome::Code(0)), Verdict::Pass);
}

#[test]
fn nonzero_is_a_crash() {
    assert_eq!(judge(ExitOutcome::Code(1)), Verdict::Crash(1));
    assert_eq!(judge(ExitOutcome::Code(-1073741819)), Verdict::Crash(-1073741819));
    assert_eq!(judge(ExitOutcome::Code(i32::MIN)), Verdict::Crash(i32::MIN));
    assert_eq!(judge(ExitOutcome::Code(i32::MAX)), Verdict::Crash(i32::MAX));
}

#[test]
fn missing_code_is_fatal_not_a_crash() {
    assert_eq!(judge(ExitOutcome::Fault), Verdict::Fatal);
}

#[test]
fn busy_file_is_retried() {
    assert_eq!(BUSY, 32);
    assert_eq!(on_open_error(Some(32)), OpenAction::Retry);
}

#[test]
fn other_open_errors_fail() {
    assert_eq!(on_open_error(Some(2)), OpenAction::Fail);
    assert_eq!(on_open_error(Some(13)), OpenAction::Fail);
    assert_eq!(on_open_error(Some(-32)), OpenAction::Fail);
    assert_eq!(on_open_error(None), OpenAction::Fail);
}

#[test]
fn step_for_crash_names_the_record() {
    match step_for(ExitOutcome::Code(3), 7, ".exe") {
        WorkerStep::Record { exit_code, name } => {
            assert_eq!(exit_code, 3);
            assert_eq!(name, "3_7.exe");
        }
        other => panic!("expected a record, got {:?}", other),
    }
}

#[test]
fn step_for_pass_and_fault() {
    assert!(matches!(step_for(ExitOutcome::Code(0), 7, ".exe"), WorkerStep::Continue));
    assert!(matches!(step_for(ExitOutcome::Fault, 7, ".exe"), WorkerStep::Abort));
}

#[test]
fn after_run_continues_on_zero_and_aborts_on_fault() {
    let mut rng = rand::thread_rng();
    assert!(matches!(after_run(ExitOutcome::Code(0), &mut rng, ".exe"), WorkerStep::Continue));
    assert!(matches!(after_run(ExitOutcome::Fault, &mut rng, ".exe"), WorkerStep::Abort));
}

#[test]
fn after_run_names_a_crash_with_a_random_tag() {
    let mut rng = rand::thread_rng();
    let mut tags: Vec<u32> = Vec::new();
    for _ in 0..32 {
        match after_run(ExitOutcome::Code(-5), &mut rng, ".bin") {
            WorkerStep::Record { exit_code, name } => {
                assert_eq!(exit_code, -5);
                let stem = name.strip_suffix(".bin").expect("the suffix ends the name");
                let tag_text = stem.strip_prefix("-5_").expect("the code starts the name");
                let tag: u32 = tag_text.parse().expect("the tag is a decimal u32");
                assert_eq!(name, format!("-5_{}.bin", tag));
                tags.push(tag);
            }
            other => panic!("expected a record, got {:?}", other),
        }
    }
    tags.sort();
    tags.dedup();
    assert!(tags.len() > 1);
}
