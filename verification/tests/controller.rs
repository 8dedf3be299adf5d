use drehteller::controller::JobController;
use drehteller::controller::StepOutcome;
use drehteller::job::Auftrag;
use drehteller::job::NextAction;

/// Drives the controller until the job is over, handing it one frame per
/// capture whose bytes encode the capture's position. Returns the outcomes
/// of the steps in order.
fn drive_to_end(c: &mut JobController) -> Vec<StepOutcome> {
    let mut outcomes = Vec::new();
    loop {
        match c.next_action() {
            NextAction::Capture { round, image, .. } => {
                let frame = vec![round as u8, image as u8];
                outcomes.push(c.step_frame(&frame));
            }
            NextAction::Idle => break,
        }
    }
    outcomes
}

fn sorted_names(c: &JobController) -> Vec<String> {
    let mut names = c.image_store().get_image_list();
    names.sort();
    names
}

#[test]
fn full_run_stores_all_names() {
    let mut c = JobController::new();
    c.begin_job(Auftrag { auftrag: vec![2, 3] });
    let outcomes = drive_to_end(&mut c);
    assert_eq!(outcomes.len(), 5);
    for outcome in &outcomes[..4] {
        assert_eq!(*outcome, StepOutcome::Continuing);
    }
    assert_eq!(outcomes[4], StepOutcome::Finished);
    assert_eq!(sorted_names(&c), vec!["0_0", "0_1", "1_0", "1_1", "1_2"]);
}

#[test]
fn full_run_final_progress() {
    let mut c = JobController::new();
    c.begin_job(Auftrag { auftrag: vec![2, 3] });
    drive_to_end(&mut c);
    assert_eq!(c.fortschritt().runde(), 1);
    assert_eq!(c.fortschritt().aufnahme(), 2);
}

#[test]
fn fetch_returns_exact_bytes() {
    let mut c = JobController::new();
    c.begin_job(Auftrag { auftrag: vec![1, 2] });
    drive_to_end(&mut c);
    let bytes = c
        .image_store()
        .get_image(&String::from("1_1"))
        .expect("a listed name must be fetchable");
    assert_eq!(bytes, vec![1u8, 1u8]);
    let bytes = c
        .image_store()
        .get_image(&String::from("0_0"))
        .expect("a listed name must be fetchable");
    assert_eq!(bytes, vec![0u8, 0u8]);
}

#[test]
fn fetch_unknown_name_is_not_found() {
    let mut c = JobController::new();
    c.begin_job(Auftrag { auftrag: vec![1] });
    drive_to_end(&mut c);
    let miss = c.image_store().get_image(&String::from("0_1"));
    assert_eq!(miss, Err(drehteller::image_store::StoreError::NotFound));
}

#[test]
fn cancel_stops_further_captures() {
    let mut c = JobController::new();
    c.begin_job(Auftrag { auftrag: vec![2, 2] });
    match c.next_action() {
        NextAction::Capture { .. } => {
            assert_eq!(c.step_frame(&[0u8]), StepOutcome::Continuing);
        }
        NextAction::Idle => panic!("job should be running"),
    }
    c.request_cancel();
    match c.next_action() {
        NextAction::Capture { .. } => {
            assert_eq!(c.step_frame(&[1u8]), StepOutcome::Cancelled);
        }
        NextAction::Idle => panic!("job should still be running"),
    }
    // The in-flight frame was stored before the signal was observed, but
    // nothing runs afterwards and the store stays below the full count.
    assert!(matches!(c.next_action(), NextAction::Idle));
    assert!(!c.is_running());
    let names = sorted_names(&c);
    assert_eq!(names, vec!["0_0", "0_1"]);
    assert!(names.len() <= 4);
    // Progress still points at the last capture completed before the signal.
    assert_eq!(c.fortschritt().runde(), 0);
    assert_eq!(c.fortschritt().aufnahme(), 0);
}

#[test]
fn resubmit_wipes_previous_job() {
    let mut c = JobController::new();
    c.begin_job(Auftrag { auftrag: vec![1, 1] });
    match c.next_action() {
        NextAction::Capture { .. } => {
            c.step_frame(&[42u8]);
        }
        NextAction::Idle => panic!("job should be running"),
    }
    c.request_cancel();
    // The driving loop would now observe the signal and stop; a new
    // submission then clears everything before its first capture.
    c.begin_job(Auftrag { auftrag: vec![1] });
    assert!(c.image_store().get_image_list().is_empty());
    assert_eq!(c.fortschritt().runde(), 0);
    assert_eq!(c.fortschritt().aufnahme(), 0);
    let outcomes = drive_to_end(&mut c);
    assert_eq!(outcomes, vec![StepOutcome::Finished]);
    assert_eq!(sorted_names(&c), vec!["0_0"]);
}

#[test]
fn empty_job_finishes_immediately() {
    let mut c = JobController::new();
    c.begin_job(Auftrag { auftrag: vec![] });
    assert!(matches!(c.next_action(), NextAction::Idle));
    assert!(!c.is_running());
    assert!(c.image_store().get_image_list().is_empty());
}

#[test]
fn rounds_without_images_are_skipped() {
    let mut c = JobController::new();
    c.begin_job(Auftrag { auftrag: vec![0, 2] });
    match c.next_action() {
        NextAction::Capture { round, image, wait_for_trigger, .. } => {
            assert_eq!(round, 1);
            assert_eq!(image, 0);
            assert!(wait_for_trigger);
        }
        NextAction::Idle => panic!("job should be running"),
    }
    drive_to_end(&mut c);
    assert_eq!(sorted_names(&c), vec!["1_0", "1_1"]);
    assert_eq!(c.fortschritt().runde(), 1);
    assert_eq!(c.fortschritt().aufnahme(), 1);
}

#[test]
fn negative_round_sizes_count_as_empty() {
    let mut c = JobController::new();
    c.begin_job(Auftrag { auftrag: vec![-3, 1] });
    drive_to_end(&mut c);
    assert_eq!(sorted_names(&c), vec!["1_0"]);
}

#[test]
fn pulses_divide_full_rotation() {
    let mut c = JobController::new();
    c.begin_job(Auftrag { auftrag: vec![2] });
    match c.next_action() {
        NextAction::Capture { pulses, wait_for_trigger, .. } => {
            assert_eq!(pulses, 1600);
            assert!(wait_for_trigger);
        }
        NextAction::Idle => panic!("job should be running"),
    }
    c.step_frame(&[0u8]);
    match c.next_action() {
        NextAction::Capture { pulses, image, wait_for_trigger, .. } => {
            assert_eq!(pulses, 1600);
            assert_eq!(image, 1);
            assert!(!wait_for_trigger);
        }
        NextAction::Idle => panic!("job should still be running"),
    }
}
