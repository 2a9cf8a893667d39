use shortcode::policy::{next_step, AllocStep, RegistryError, WriteOutcome, MAX_RETRIES};

#[test]
fn collisions_grow_then_exhaust() {
    let mut attempt: usize = 0;
    let mut lengths: Vec<usize> = vec![shortcode::codegen::KEY_LEN + attempt];
    loop {
        match next_step(attempt, WriteOutcome::Collision) {
            AllocStep::Retry(a) => {
                assert_eq!(a, attempt + 1);
                attempt = a;
                lengths.push(shortcode::codegen::KEY_LEN + attempt);
            }
            AllocStep::Failed(e) => {
                assert_eq!(e, RegistryError::RetriesExhausted);
                break;
            }
            AllocStep::Done => panic!("a collision never ends in success"),
        }
    }
    assert_eq!(attempt, MAX_RETRIES);
    assert_eq!(lengths, (4..=14).collect::<Vec<usize>>());
}

#[test]
fn created_ends_allocation() {
    assert_eq!(next_step(0, WriteOutcome::Created), AllocStep::Done);
    assert_eq!(next_step(7, WriteOutcome::Created), AllocStep::Done);
    assert_eq!(next_step(MAX_RETRIES, WriteOutcome::Created), AllocStep::Done);
}

#[test]
fn backend_failure_is_not_retried() {
    assert_eq!(
        next_step(0, WriteOutcome::BackendFailure),
        AllocStep::Failed(RegistryError::Backend)
    );
    assert_eq!(
        next_step(MAX_RETRIES, WriteOutcome::BackendFailure),
        AllocStep::Failed(RegistryError::Backend)
    );
}

#[test]
fn last_retry_collision_exhausts() {
    assert_eq!(next_step(9, WriteOutcome::Collision), AllocStep::Retry(10));
    assert_eq!(
        next_step(10, WriteOutcome::Collision),
        AllocStep::Failed(RegistryError::RetriesExhausted)
    );
}
