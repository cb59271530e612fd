use forge_backup::archive::{
    archive_fetch_check, assemble_chunks, plan_download, split_into_chunks, stream_copy,
    DownloadAction, Outcome, Transfer,
};
use forge_backup::errors::BackupError;
use forge_backup::repo::Repo;
use forge_backup::run::{contains_file, run_backup, summarize};

fn repo(name: &str, updated_at: &str) -> Repo {
    Repo {
        name: name.to_string(),
        full_name: format!("acme/{}", name),
        updated_at: updated_at.to_string(),
        default_branch: "main".to_string(),
    }
}

#[test]
fn plan_skips_when_the_file_exists() {
    match plan_download(true, "acme", "tool", "main") {
        DownloadAction::Skip => {}
        DownloadAction::Fetch(_) => panic!("an existing file must be skipped"),
    }
}

#[test]
fn plan_fetches_the_archive_url_when_the_file_is_missing() {
    match plan_download(false, "acme", "tool", "main") {
        DownloadAction::Fetch(u) => {
            assert_eq!(u, "https://api.github.com/repos/acme/tool/zipball/main")
        }
        DownloadAction::Skip => panic!("a missing file must be fetched"),
    }
}

#[test]
fn fetch_check_maps_statuses_to_errors() {
    assert!(archive_fetch_check(200).is_ok());
    assert_eq!(
        archive_fetch_check(500).unwrap_err(),
        BackupError::Api { status: 500 }
    );
    assert_eq!(
        archive_fetch_check(404).unwrap_err(),
        BackupError::Api { status: 404 }
    );
}

#[test]
fn transfer_accounts_every_chunk() {
    let mut t = Transfer::new();
    assert_eq!(t.bytes, 0);
    t.record_chunk(8192);
    t.record_chunk(8192);
    t.record_chunk(100);
    assert_eq!(t.bytes, 16484);
}

#[test]
fn streaming_preserves_content_and_counts_every_byte() {
    let body: Vec<u8> = (0..20000u32).map(|i| (i % 251) as u8).collect();
    let (image, count) = stream_copy(&body, 8192);
    assert_eq!(image, body);
    assert_eq!(count, 20000);
}

#[test]
fn streaming_an_empty_body_yields_an_empty_file() {
    let body: Vec<u8> = Vec::new();
    let (image, count) = stream_copy(&body, 8192);
    assert!(image.is_empty());
    assert_eq!(count, 0);
}

#[test]
fn streaming_with_a_chunk_larger_than_the_body() {
    let body = vec![1u8, 2, 3];
    let (image, count) = stream_copy(&body, 8192);
    assert_eq!(image, body);
    assert_eq!(count, 3);
}

#[test]
fn chunks_are_fixed_size_except_the_last() {
    let body: Vec<u8> = (0..10u8).collect();
    let chunks = split_into_chunks(&body, 4);
    let sizes: Vec<usize> = chunks.iter().map(|c| c.len()).collect();
    assert_eq!(sizes, [4, 4, 2]);
    let (image, count) = assemble_chunks(&chunks);
    assert_eq!(image, body);
    assert_eq!(count, 10);
}

#[test]
fn partial_failure_is_isolated_to_its_repository() {
    let repos = vec![
        repo("one", "2024-01-01T00:00:00Z"),
        repo("two", "2024-01-02T00:00:00Z"),
        repo("three", "2024-01-03T00:00:00Z"),
    ];
    let fetches: Vec<Result<u64, u16>> = vec![Ok(100), Err(500), Ok(50)];
    let mut files: Vec<String> = Vec::new();
    let outcomes = run_backup(&mut files, "acme", &repos, &fetches);

    assert_eq!(outcomes.len(), 3);
    assert_eq!(outcomes[0], Outcome::Downloaded { bytes: 100 });
    assert_eq!(
        outcomes[1],
        Outcome::Failed { error: BackupError::Api { status: 500 } }
    );
    assert_eq!(outcomes[2], Outcome::Downloaded { bytes: 50 });

    let s = summarize(&outcomes);
    assert_eq!(s.succeeded, 2);
    assert_eq!(s.failed, 1);
    assert_eq!(s.skipped, 0);

    assert_eq!(files.len(), 2);
    assert_eq!(files[0], "acme_one_2024-01-01.zip");
    assert_eq!(files[1], "acme_three_2024-01-03.zip");
}

#[test]
fn empty_account_attempts_nothing_and_completes() {
    let repos: Vec<Repo> = Vec::new();
    let fetches: Vec<Result<u64, u16>> = Vec::new();
    let mut files: Vec<String> = vec!["unrelated.zip".to_string()];
    let outcomes = run_backup(&mut files, "acme", &repos, &fetches);
    assert!(outcomes.is_empty());
    assert_eq!(files, ["unrelated.zip"]);
    let s = summarize(&outcomes);
    assert_eq!((s.succeeded, s.skipped, s.failed), (0, 0, 0));
}

#[test]
fn second_run_skips_everything_and_writes_nothing() {
    let repos = vec![
        repo("one", "2024-01-01T00:00:00Z"),
        repo("two", "2024-01-02T00:00:00Z"),
    ];
    let fetches: Vec<Result<u64, u16>> = vec![Ok(10), Ok(20)];
    let mut files: Vec<String> = Vec::new();

    let first = run_backup(&mut files, "acme", &repos, &fetches);
    assert_eq!(first.len(), 2);
    assert!(first.iter().all(|o| matches!(o, Outcome::Downloaded { .. })));
    let after_first = files.clone();

    let second = run_backup(&mut files, "acme", &repos, &fetches);
    assert_eq!(second.len(), 2);
    assert!(second.iter().all(|o| matches!(o, Outcome::Skipped)));
    assert_eq!(files, after_first);
    let s = summarize(&second);
    assert_eq!(s.skipped, 2);
    assert_eq!(s.succeeded, 0);
}

#[test]
fn an_existing_archive_is_skipped_without_a_fetch() {
    let repos = vec![repo("tool", "2024-03-01T12:00:00Z")];
    let fetches: Vec<Result<u64, u16>> = vec![Err(500)];
    let mut files: Vec<String> = vec!["acme_tool_2024-03-01.zip".to_string()];
    let outcomes = run_backup(&mut files, "acme", &repos, &fetches);
    assert_eq!(outcomes[0], Outcome::Skipped);
    assert_eq!(files.len(), 1);
}

#[test]
fn summary_buckets_every_outcome_kind() {
    let outcomes = vec![
        Outcome::Downloaded { bytes: 1 },
        Outcome::Skipped,
        Outcome::Failed { error: BackupError::Io },
        Outcome::Failed { error: BackupError::Api { status: 502 } },
        Outcome::Skipped,
    ];
    let s = summarize(&outcomes);
    assert_eq!((s.succeeded, s.skipped, s.failed), (1, 2, 2));
}

#[test]
fn file_membership_is_by_exact_name() {
    let files = vec!["a.zip".to_string(), "b.zip".to_string()];
    assert!(contains_file(&files, &"a.zip".to_string()));
    assert!(contains_file(&files, &"b.zip".to_string()));
    assert!(!contains_file(&files, &"c.zip".to_string()));
    assert!(!contains_file(&files, &"a.zi".to_string()));
}
