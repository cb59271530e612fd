use forge_backup::errors::BackupError;
use forge_backup::lister::{fetch_all_pages, list_step, listing_url, scope_segment, ListStep, PageEvent};
use forge_backup::repo::{parse_owner_type, OwnerType, Repo};

fn repo(name: &str) -> Repo {
    Repo {
        name: name.to_string(),
        full_name: format!("acme/{}", name),
        updated_at: "2024-03-01T12:00:00Z".to_string(),
        default_branch: "main".to_string(),
    }
}

#[test]
fn owner_type_is_org_only_for_the_exact_literal() {
    assert_eq!(parse_owner_type("org"), OwnerType::Organization);
    assert_eq!(parse_owner_type("user"), OwnerType::User);
    assert_eq!(parse_owner_type("ORG"), OwnerType::User);
    assert_eq!(parse_owner_type(""), OwnerType::User);
    assert_eq!(parse_owner_type("organization"), OwnerType::User);
}

#[test]
fn scope_segments_select_the_endpoint_shape() {
    assert_eq!(scope_segment(&OwnerType::Organization), "orgs");
    assert_eq!(scope_segment(&OwnerType::User), "users");
}

#[test]
fn listing_url_is_exact_for_users_and_orgs() {
    let u = listing_url("acme", &OwnerType::User, 1);
    assert_eq!(
        u,
        "https://api.github.com/users/acme/repos?per_page=100&page=1&sort=updated&direction=desc"
    );
    let o = listing_url("acme", &OwnerType::Organization, 42);
    assert_eq!(
        o,
        "https://api.github.com/orgs/acme/repos?per_page=100&page=42&sort=updated&direction=desc"
    );
}

#[test]
fn list_step_appends_a_non_empty_page() {
    let acc = vec![repo("a")];
    let page = vec![repo("b"), repo("c")];
    match list_step(acc, PageEvent::Received(page)) {
        ListStep::Advance(next) => {
            let names: Vec<&str> = next.iter().map(|r| r.name.as_str()).collect();
            assert_eq!(names, ["a", "b", "c"]);
        }
        _ => panic!("a non-empty page must advance"),
    }
}

#[test]
fn list_step_finishes_on_the_empty_page() {
    let acc = vec![repo("a"), repo("b")];
    match list_step(acc, PageEvent::Received(Vec::new())) {
        ListStep::Finished(done) => {
            assert_eq!(done.len(), 2);
            assert_eq!(done[0].name, "a");
            assert_eq!(done[1].name, "b");
        }
        _ => panic!("the empty page must finish the enumeration"),
    }
}

#[test]
fn list_step_aborts_on_http_failure_with_the_status() {
    match list_step(Vec::new(), PageEvent::HttpFailure(403)) {
        ListStep::Abort(e) => assert_eq!(e, BackupError::Api { status: 403 }),
        _ => panic!("a non-success status must abort"),
    }
}

#[test]
fn list_step_aborts_on_an_undecodable_body() {
    match list_step(vec![repo("kept")], PageEvent::BodyUndecodable) {
        ListStep::Abort(e) => assert_eq!(e, BackupError::Decode),
        _ => panic!("a malformed body must abort"),
    }
}

#[test]
fn pagination_concatenates_pages_and_counts_one_extra_request() {
    let pages = vec![
        vec![repo("a"), repo("b")],
        vec![repo("c")],
        vec![repo("d"), repo("e"), repo("f")],
    ];
    let (repos, requests) = fetch_all_pages(pages);
    let names: Vec<&str> = repos.iter().map(|r| r.name.as_str()).collect();
    assert_eq!(names, ["a", "b", "c", "d", "e", "f"]);
    assert_eq!(requests, 4);
}

#[test]
fn pagination_of_no_pages_issues_exactly_one_request() {
    let (repos, requests) = fetch_all_pages(Vec::new());
    assert!(repos.is_empty());
    assert_eq!(requests, 1);
}

#[test]
fn pagination_stops_at_an_interior_empty_page() {
    let pages = vec![vec![repo("a")], Vec::new(), vec![repo("never")]];
    let (repos, requests) = fetch_all_pages(pages);
    let names: Vec<&str> = repos.iter().map(|r| r.name.as_str()).collect();
    assert_eq!(names, ["a"]);
    assert_eq!(requests, 2);
}

#[test]
fn descriptor_constructor_enforces_the_invariant() {
    let ok = Repo::new(
        "tool".to_string(),
        "acme/tool".to_string(),
        "2024-03-01T12:00:00Z".to_string(),
        "main".to_string(),
    )
    .unwrap();
    assert_eq!(ok.name, "tool");
    assert_eq!(ok.default_branch, "main");

    let no_name = Repo::new(
        String::new(),
        "acme/".to_string(),
        "2024-03-01T12:00:00Z".to_string(),
        "main".to_string(),
    );
    assert_eq!(no_name.unwrap_err(), BackupError::Decode);

    let no_branch = Repo::new(
        "tool".to_string(),
        "acme/tool".to_string(),
        "2024-03-01T12:00:00Z".to_string(),
        String::new(),
    );
    assert_eq!(no_branch.unwrap_err(), BackupError::Decode);
}

#[test]
fn api_errors_are_recognized() {
    assert!(BackupError::Api { status: 500 }.is_api());
    assert!(!BackupError::Decode.is_api());
    assert!(!BackupError::Configuration.is_api());
    assert!(!BackupError::Io.is_api());
}
