use nada::cluster::ClusterReference;
use nada::pipeline::{default_folders, default_locations, qualify_folders};
use nada::provision::{interpret_exit_status, ExitError, ExitStatus, ProvisionPlan};

fn cluster(name: &str, project: &str, location: &str) -> ClusterReference {
    ClusterReference {
        name: name.to_string(),
        google_project_name: project.to_string(),
        location: location.to_string(),
    }
}

#[test]
fn test_autogen() {
    let cluster = ClusterReference {
        name: "knada-gke".to_string(),
        google_project_name: "knada-gcp".to_string(),
        location: "europe-north1".to_string(),
    };
    let autogen_name = nada::cluster::gcloud_get_autogen_name(&cluster);
    assert_eq!("gke_knada-gcp_europe-north1_knada-gke", autogen_name);
}

#[test]
fn autogen_is_pure_derivation() {
    let a = cluster("my-cluster", "proj-a", "europe-north1");
    assert_eq!(
        "gke_proj-a_europe-north1_my-cluster",
        nada::cluster::gcloud_get_autogen_name(&a)
    );
    let b = cluster("my-cluster", "proj-a", "europe-north1");
    assert_eq!(
        nada::cluster::gcloud_get_autogen_name(&a),
        nada::cluster::gcloud_get_autogen_name(&b)
    );
}

#[test]
fn exit_statuses_are_classified() {
    assert!(matches!(interpret_exit_status(&ExitStatus::Exited(0)), Ok(())));
    assert!(matches!(
        interpret_exit_status(&ExitStatus::Exited(5)),
        Err(ExitError::ExitCode(5))
    ));
    assert!(matches!(
        interpret_exit_status(&ExitStatus::Terminated),
        Err(ExitError::Killed)
    ));
}

#[test]
fn credentials_invocation_arguments() {
    let plan = ProvisionPlan::new(vec![cluster("c1", "p1", "r1")]);
    let inv = plan.next_invocation().unwrap();
    assert_eq!("gcloud", inv.program);
    assert_eq!(
        vec![
            "container".to_string(),
            "clusters".to_string(),
            "get-credentials".to_string(),
            "c1".to_string(),
            "--project".to_string(),
            "p1".to_string(),
            "--location".to_string(),
            "r1".to_string(),
        ],
        inv.args
    );
}

#[test]
fn rename_invocation_arguments() {
    let mut plan = ProvisionPlan::new(vec![cluster("c1", "p1", "r1")]);
    assert!(plan.on_exit(&ExitStatus::Exited(0)).is_ok());
    let inv = plan.next_invocation().unwrap();
    assert_eq!("kubectx", inv.program);
    assert_eq!(vec!["c1=gke_p1_r1_c1".to_string()], inv.args);
}

#[test]
fn each_cluster_takes_two_successful_steps() {
    let mut plan = ProvisionPlan::new(vec![cluster("c1", "p1", "r1"), cluster("c2", "p2", "r2")]);
    let mut issued: Vec<String> = Vec::new();
    while let Some(inv) = plan.next_invocation() {
        issued.push(format!("{} {}", inv.program, inv.args.join(" ")));
        plan.on_exit(&ExitStatus::Exited(0)).unwrap();
    }
    assert_eq!(4, issued.len());
    assert!(issued[0].contains("get-credentials c1"));
    assert!(issued[1].starts_with("kubectx c1="));
    assert!(issued[2].contains("get-credentials c2"));
    assert!(issued[3].starts_with("kubectx c2="));
}

#[test]
fn failure_of_second_cluster_stops_before_third() {
    let clusters = vec![
        cluster("c1", "p1", "r1"),
        cluster("c2", "p2", "r2"),
        cluster("c3", "p3", "r3"),
    ];
    let mut plan = ProvisionPlan::new(clusters);
    // first cluster: both steps succeed
    plan.on_exit(&ExitStatus::Exited(0)).unwrap();
    plan.on_exit(&ExitStatus::Exited(0)).unwrap();
    // second cluster: its credential step fails
    assert_eq!("c2", plan.current_cluster().name);
    let r = plan.on_exit(&ExitStatus::Exited(2));
    assert!(matches!(r, Err(ExitError::ExitCode(2))));
    // the failing cluster is reported and the third is never attempted
    assert_eq!("c2", plan.current_cluster().name);
    assert!(plan.next_invocation().is_none());
}

#[test]
fn terminated_subprocess_stops_the_plan() {
    let mut plan = ProvisionPlan::new(vec![cluster("c1", "p1", "r1"), cluster("c2", "p2", "r2")]);
    let r = plan.on_exit(&ExitStatus::Terminated);
    assert!(matches!(r, Err(ExitError::Killed)));
    assert!(plan.next_invocation().is_none());
}

#[test]
fn built_in_defaults() {
    assert_eq!(
        vec!["739335424622".to_string(), "105918521196".to_string()],
        default_folders()
    );
    assert_eq!(
        vec!["europe-north1".to_string(), "europe-west1".to_string()],
        default_locations()
    );
}

#[test]
fn folder_ids_are_qualified() {
    let qualified = qualify_folders(&vec!["42".to_string(), "7".to_string()]);
    assert_eq!(vec!["folders/42".to_string(), "folders/7".to_string()], qualified);
}
