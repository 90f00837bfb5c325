use foundation_ai::file_paths::{collapse_attachment_path, path_action, portable_path, PathAction};
use foundation_ai::ontology_lock::pending_locks;
use foundation_ai::orphans::orphans;

fn strings(v: &[&str]) -> Vec<String> {
    v.iter().map(|s| s.to_string()).collect()
}

#[test]
fn web_addresses_and_data_are_not_files() {
    let dir = "/Users/ana/Documents/Foundation";
    assert_eq!(path_action("https://example.com/a.png", dir), PathAction::NotAFile);
    assert_eq!(path_action("http://example.com/a.png", dir), PathAction::NotAFile);
    assert_eq!(path_action("data:image/png;base64,AAAA", dir), PathAction::NotAFile);
}

#[test]
fn relative_paths_are_already_portable() {
    let dir = "/Users/ana/Documents/Foundation";
    assert_eq!(path_action("attachments/report.pdf", dir), PathAction::AlreadyPortable);
    assert_eq!(path_action("report.pdf", dir), PathAction::AlreadyPortable);
}

#[test]
fn paths_inside_the_data_folder_become_relative() {
    let dir = "/Users/ana/Documents/Foundation";
    assert_eq!(
        path_action("file:///Users/ana/Documents/Foundation/attachments/report.pdf", dir),
        PathAction::Convert("attachments/report.pdf".to_string())
    );
    assert_eq!(
        path_action("/Users/ana/Documents/Foundation/attachments/a.png", "/Users/ana/Documents/Foundation/"),
        PathAction::Convert("attachments/a.png".to_string())
    );
}

#[test]
fn paths_from_another_machine_are_cut_at_the_attachments_anchor() {
    let dir = "/Users/ana/Documents/Foundation";
    assert_eq!(
        path_action("file://C:\\Users\\bob\\Documents\\Foundation\\attachments\\x.pdf", dir),
        PathAction::Convert("attachments/x.pdf".to_string())
    );
    assert_eq!(
        portable_path("/home/bob/Foundation/attachments/sub/y.txt", dir),
        Some("attachments/sub/y.txt".to_string())
    );
}

#[test]
fn paths_elsewhere_stay_external() {
    let dir = "/Users/ana/Documents/Foundation";
    assert_eq!(path_action("/tmp/elsewhere.pdf", dir), PathAction::External);
    assert_eq!(path_action("/Users/ana/Documents/FoundationX/a.pdf", dir), PathAction::External);
}

#[test]
fn attachment_paths_collapse_to_the_file_name() {
    assert_eq!(collapse_attachment_path("attachments/foo.pdf"), Some("foo.pdf".to_string()));
    assert_eq!(collapse_attachment_path("attachments\\foo.pdf"), Some("foo.pdf".to_string()));
    assert_eq!(collapse_attachment_path("attachments/sub/foo.pdf"), None);
    assert_eq!(collapse_attachment_path("foo.pdf"), None);
}

#[test]
fn pending_locks_are_code_and_ontology_terms_not_yet_locked_sorted() {
    let code = strings(&["foundation:Task", "foundation:hasStatus", "foundation:Task", "foundation:Zeta", "foundation:Alpha"]);
    let ontology = strings(&["foundation:Alpha", "foundation:Task", "foundation:hasStatus", "foundation:Other"]);
    let locked = strings(&["foundation:hasStatus"]);
    assert_eq!(pending_locks(&code, &ontology, &locked), strings(&["foundation:Alpha", "foundation:Task"]));
    assert!(pending_locks(&code, &ontology, &code).is_empty());
}

#[test]
fn orphans_are_instances_without_a_valid_type() {
    let pairs = vec![
        ("ex:a".to_string(), "foundation:Gone".to_string()),
        ("ex:b".to_string(), "foundation:Task".to_string()),
        ("ex:a".to_string(), "foundation:AlsoGone".to_string()),
        ("ex:c".to_string(), "owl:NamedIndividual".to_string()),
        ("ex:d".to_string(), "foundation:Gone".to_string()),
        ("ex:d".to_string(), "foundation:Task".to_string()),
    ];
    let live = strings(&["foundation:Task"]);
    let found = orphans(&pairs, &live);
    assert_eq!(found.len(), 1);
    assert_eq!(found[0].0, "ex:a");
    assert_eq!(found[0].1, strings(&["foundation:Gone", "foundation:AlsoGone"]));
}

#[test]
fn due_dates_are_scheduled_at_noon() {
    assert_eq!(foundation_ai::due_dates::to_noon_datetime("2026-04-08"), "2026-04-08T12:00:00+00:00");
    assert_eq!(foundation_ai::due_dates::to_noon_datetime("2026-04-08T09:30:00Z"), "2026-04-08T09:30:00Z");
}
