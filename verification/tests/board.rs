use decentralized_freelance_backend::board::JobBoard;
use decentralized_freelance_backend::error::CanisterError;
use decentralized_freelance_backend::job::JobStatus;
use decentralized_freelance_backend::user::UserRegistry;

#[test]
fn post_job_returns_nonempty_id() {
    let mut board = JobBoard::new();
    let id = board
        .post_job("alice".to_string(), "Fix bug".to_string(), "desc".to_string(), 100)
        .unwrap();
    assert!(!id.is_empty());
    assert_eq!(id.len(), 36);
}

#[test]
fn consecutive_posts_get_distinct_ids() {
    let mut board = JobBoard::new();
    let first = board
        .post_job("alice".to_string(), "a".to_string(), "d".to_string(), 1)
        .unwrap();
    let second = board
        .post_job("alice".to_string(), "a".to_string(), "d".to_string(), 1)
        .unwrap();
    assert_ne!(first, second);
}

#[test]
fn get_job_returns_posted_fields() {
    let mut board = JobBoard::new();
    let id = board
        .post_job("alice".to_string(), "Fix bug".to_string(), "desc".to_string(), 100)
        .unwrap();
    let job = board.get_job(id.clone()).unwrap();
    assert_eq!(job.id, id);
    assert_eq!(job.title, "Fix bug");
    assert_eq!(job.description, "desc");
    assert_eq!(job.budget, 100);
    assert_eq!(job.client, "alice");
    assert_eq!(job.freelancer, None);
    assert_eq!(job.status, JobStatus::Open);
}

#[test]
fn get_job_on_missing_id_fails() {
    let board = JobBoard::new();
    assert!(matches!(
        board.get_job("no-such-job".to_string()),
        Err(CanisterError::JobNotFound)
    ));
}

#[test]
fn get_job_on_never_inserted_id_fails_on_busy_board() {
    let mut board = JobBoard::new();
    board
        .post_job("alice".to_string(), "a".to_string(), "d".to_string(), 1)
        .unwrap();
    board
        .post_job("bob".to_string(), "b".to_string(), "e".to_string(), 2)
        .unwrap();
    assert!(matches!(
        board.get_job("never-inserted".to_string()),
        Err(CanisterError::JobNotFound)
    ));
}

#[test]
fn list_open_jobs_on_empty_board_is_empty() {
    let board = JobBoard::new();
    assert!(board.list_open_jobs().is_empty());
}

#[test]
fn list_open_jobs_counts_every_posted_job() {
    let mut board = JobBoard::new();
    let mut ids = Vec::new();
    for k in 0..5u32 {
        let id = board
            .post_job("alice".to_string(), format!("job {k}"), "d".to_string(), k)
            .unwrap();
        ids.push(id);
    }
    let open = board.list_open_jobs();
    assert_eq!(open.len(), 5);
    for id in &ids {
        assert!(open.iter().any(|j| &j.id == id));
    }
    for (t, a) in open.iter().enumerate() {
        for b in open.iter().skip(t + 1) {
            assert_ne!(a.id, b.id);
        }
    }
}

#[test]
fn zero_budget_and_empty_strings_are_accepted() {
    let mut board = JobBoard::new();
    let id = board
        .post_job(String::new(), String::new(), String::new(), 0)
        .unwrap();
    let job = board.get_job(id).unwrap();
    assert_eq!(job.budget, 0);
    assert_eq!(job.title, "");
    assert_eq!(job.client, "");
    assert_eq!(job.status, JobStatus::Open);
}

#[test]
fn full_scenario() {
    let mut reg = UserRegistry::new();
    assert!(reg.register_user("alice".to_string()).is_ok());
    assert!(matches!(
        reg.register_user("alice".to_string()),
        Err(CanisterError::UserAlreadyExists)
    ));

    let mut board = JobBoard::new();
    let id = board
        .post_job("alice".to_string(), "Fix bug".to_string(), "desc".to_string(), 100)
        .unwrap();
    let job = board.get_job(id.clone()).unwrap();
    assert_eq!(job.id, id);
    assert_eq!(job.title, "Fix bug");
    assert_eq!(job.budget, 100);
    assert_eq!(job.client, "alice");
    assert_eq!(job.freelancer, None);
    assert_eq!(job.status, JobStatus::Open);

    let open = board.list_open_jobs();
    assert_eq!(open.len(), 1);
    assert_eq!(open[0].id, id);
    assert_eq!(open[0].title, "Fix bug");
    assert_eq!(open[0].status, JobStatus::Open);
}
