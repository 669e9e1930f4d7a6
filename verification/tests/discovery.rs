use nada::locator::{ClusterLocator, DiscoveredCluster, ListOutcome};
use nada::projects::{ProjectEnumeration, ProjectRef};
use nada::provision::{ExitStatus, ProvisionPlan};
use nada::walker::FolderWalk;

fn project(name: &str, id: &str) -> ProjectRef {
    ProjectRef { name: name.to_string(), project_id: id.to_string() }
}

fn found(name: &str, location: &str) -> DiscoveredCluster {
    DiscoveredCluster { name: name.to_string(), location: location.to_string() }
}

/// Children of each folder in a small static hierarchy.
fn static_children(folder: &str) -> Vec<String> {
    match folder {
        "A" => vec!["B".to_string(), "C".to_string()],
        "B" => vec!["C".to_string(), "D".to_string()],
        _ => vec![],
    }
}

fn walk_static(roots: &[&str]) -> Vec<String> {
    let roots: Vec<String> = roots.iter().map(|r| r.to_string()).collect();
    let mut walk = FolderWalk::new(&roots);
    while let Some(folder) = walk.next_folder() {
        let children = static_children(&folder);
        walk.on_children(&children);
    }
    walk.into_folders()
}

#[test]
fn walk_contains_roots_and_every_child() {
    let result = walk_static(&["A"]);
    for folder in ["A", "B", "C", "D"] {
        assert!(result.contains(&folder.to_string()));
    }
    assert_eq!(4, result.len());
}

#[test]
fn walk_repeated_runs_agree() {
    let first = walk_static(&["A"]);
    let second = walk_static(&["A"]);
    assert_eq!(first, second);
}

#[test]
fn walk_keeps_each_folder_once() {
    // C is a child of both A and B, and a root besides
    let result = walk_static(&["A", "C", "A"]);
    assert_eq!(1, result.iter().filter(|f| f.as_str() == "C").count());
    assert_eq!(1, result.iter().filter(|f| f.as_str() == "A").count());
    assert_eq!(4, result.len());
}

#[test]
fn walk_of_no_roots_finds_nothing() {
    let result = walk_static(&[]);
    assert!(result.is_empty());
}

#[test]
fn projects_are_concatenated_in_folder_order() {
    let folders = vec!["f1".to_string(), "f2".to_string()];
    let mut en = ProjectEnumeration::new(folders);
    assert_eq!(Some("f1".to_string()), en.next_folder());
    en.on_projects(&vec![project("projects/1", "p1"), project("projects/2", "p2")]);
    assert_eq!(Some("f2".to_string()), en.next_folder());
    en.on_projects(&vec![project("projects/3", "p3")]);
    assert_eq!(None, en.next_folder());
    let ids: Vec<String> = en.into_projects().iter().map(|p| p.project_id.clone()).collect();
    assert_eq!(vec!["p1".to_string(), "p2".to_string(), "p3".to_string()], ids);
}

#[test]
fn duplicate_projects_are_kept() {
    let folders = vec!["f1".to_string(), "f2".to_string()];
    let mut en = ProjectEnumeration::new(folders);
    en.on_projects(&vec![project("projects/1", "p1")]);
    en.on_projects(&vec![project("projects/1", "p1")]);
    assert_eq!(2, en.len());
}

#[test]
fn queries_cover_pairs_projects_outermost() {
    let projects = vec![project("projects/1", "p1"), project("projects/2", "p2")];
    let locations = vec!["r1".to_string(), "r2".to_string()];
    let mut locator = ClusterLocator::new(projects, locations);
    let mut parents: Vec<String> = Vec::new();
    while let Some(parent) = locator.next_query() {
        parents.push(parent);
        locator.on_outcome(ListOutcome::PermissionDenied).unwrap();
    }
    assert_eq!(
        vec![
            "projects/1/locations/r1".to_string(),
            "projects/1/locations/r2".to_string(),
            "projects/2/locations/r1".to_string(),
            "projects/2/locations/r2".to_string(),
        ],
        parents
    );
}

#[test]
fn cluster_reported_twice_is_held_once() {
    let projects = vec![project("projects/1", "p1")];
    let locations = vec!["r1".to_string(), "r2".to_string()];
    let mut locator = ClusterLocator::new(projects, locations);
    locator.next_query().unwrap();
    locator.on_outcome(ListOutcome::Clusters(vec![found("c1", "r1")])).unwrap();
    locator.next_query().unwrap();
    locator.on_outcome(ListOutcome::Clusters(vec![found("c1", "r1")])).unwrap();
    assert!(locator.next_query().is_none());
    let clusters = locator.into_clusters().into_vec();
    assert_eq!(1, clusters.len());
    assert_eq!("c1", clusters[0].name);
    assert_eq!("p1", clusters[0].google_project_name);
    assert_eq!("r1", clusters[0].location);
}

#[test]
fn permission_denied_is_suppressed() {
    let projects = vec![project("projects/1", "p1"), project("projects/2", "p2")];
    let locations = vec!["r1".to_string()];
    let mut locator = ClusterLocator::new(projects, locations);
    locator.next_query().unwrap();
    let r = locator.on_outcome(ListOutcome::PermissionDenied);
    assert!(r.is_ok());
    // the walk goes on to the next pair with nothing contributed
    assert_eq!(0, locator.found_len());
    assert_eq!(Some("projects/2/locations/r1".to_string()), locator.next_query());
}

#[test]
fn any_other_listing_failure_is_fatal() {
    let projects = vec![project("projects/1", "p1"), project("projects/2", "p2")];
    let locations = vec!["r1".to_string()];
    let mut locator = ClusterLocator::new(projects, locations);
    locator.next_query().unwrap();
    let r = locator.on_outcome(ListOutcome::Failed("deadline exceeded".to_string()));
    assert_eq!(Err("deadline exceeded".to_string()), r);
    assert!(locator.next_query().is_none());
    assert_eq!(0, locator.found_len());
}

#[test]
fn no_locations_means_no_queries() {
    let projects = vec![project("projects/1", "p1")];
    let locator = ClusterLocator::new(projects, vec![]);
    assert!(locator.next_query().is_none());
    assert_eq!(0, locator.into_clusters().into_vec().len());
}

#[test]
fn no_projects_means_no_queries() {
    let locator = ClusterLocator::new(vec![], vec!["r1".to_string()]);
    assert!(locator.next_query().is_none());
    assert_eq!(0, locator.into_clusters().into_vec().len());
}

#[test]
fn end_to_end_discovery_and_provisioning() {
    // hierarchy: root folder F1 with one child folder F2
    let mut walk = FolderWalk::new(&vec!["folders/F1".to_string()]);
    while let Some(folder) = walk.next_folder() {
        let children = match folder.as_str() {
            "folders/F1" => vec!["folders/F2".to_string()],
            _ => vec![],
        };
        walk.on_children(&children);
    }
    let folders = walk.into_folders();
    assert_eq!(2, folders.len());

    // one project under each folder
    let mut en = ProjectEnumeration::new(folders);
    while let Some(folder) = en.next_folder() {
        let listing = match folder.as_str() {
            "folders/F1" => vec![project("projects/1", "P1")],
            "folders/F2" => vec![project("projects/2", "P2")],
            _ => vec![],
        };
        en.on_projects(&listing);
    }
    let projects = en.into_projects();
    assert_eq!(2, projects.len());

    // one cluster for (P1, r1); permission denied for (P2, r1)
    let mut locator = ClusterLocator::new(projects, vec!["r1".to_string()]);
    while let Some(parent) = locator.next_query() {
        let outcome = match parent.as_str() {
            "projects/1/locations/r1" => ListOutcome::Clusters(vec![found("c1", "r1")]),
            "projects/2/locations/r1" => ListOutcome::PermissionDenied,
            other => panic!("unexpected query {other}"),
        };
        locator.on_outcome(outcome).unwrap();
    }
    let clusters = locator.into_clusters().into_vec();
    assert_eq!(1, clusters.len());
    assert_eq!("c1", clusters[0].name);
    assert_eq!("P1", clusters[0].google_project_name);
    assert_eq!("r1", clusters[0].location);

    // provisioning runs exactly once for c1 and succeeds
    let mut plan = ProvisionPlan::new(clusters);
    let mut issued: Vec<String> = Vec::new();
    while let Some(inv) = plan.next_invocation() {
        issued.push(format!("{} {}", inv.program, inv.args.join(" ")));
        plan.on_exit(&ExitStatus::Exited(0)).unwrap();
    }
    assert_eq!(2, issued.len());
    assert_eq!("gcloud container clusters get-credentials c1 --project P1 --location r1", issued[0]);
    assert_eq!("kubectx c1=gke_P1_r1_c1", issued[1]);
}
