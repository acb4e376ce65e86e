use ankaios_agent::{ListContainer, PodmanUtils, RunningWorkloads, WorkloadExecutionInstanceName};

fn listed(names: Vec<&str>, id: Option<&str>) -> ListContainer {
    ListContainer {
        id: id.map(|s| s.to_string()),
        names: Some(names.into_iter().map(|s| s.to_string()).collect()),
        state: Some(String::from("Running")),
        exited: None,
        exit_code: None,
    }
}

#[test]
fn utest_list_running_workloads() {
    let expected_container_id = "1234567".to_string();
    let expected_agent = "agent_1".to_string();

    let container_list_item = listed(
        vec!["workload1.2a301c7d8b7a94f51214ed5a6bd9b6347b460179ec8b482b3dfe19512cd1a307.agent_1"],
        Some(expected_container_id.as_str()),
    );

    let running_workloads =
        PodmanUtils::list_running_workloads(expected_agent.as_str(), Ok(vec![container_list_item]));

    assert_eq!(running_workloads.len(), 1);
    let (workload_instance_name, container_id) =
        running_workloads.get(&"workload1".to_string()).unwrap();

    assert_eq!(container_id, &expected_container_id);
    assert_eq!(workload_instance_name.agent_name(), expected_agent);
}

#[test]
fn utest_list_running_workloads_wrong_instance_name() {
    let expected_agent = "agent_1".to_string();
    let container_list_item = listed(vec!["wrong_name"], Some("1234567"));
    let running_workloads =
        PodmanUtils::list_running_workloads(expected_agent.as_str(), Ok(vec![container_list_item]));
    assert!(running_workloads.is_empty());
}

#[test]
fn utest_list_running_workloads_no_container_id() {
    let container_list_item = listed(
        vec!["workload1.2a301c7d8b7a94f51214ed5a6bd9b6347b460179ec8b482b3dfe19512cd1a307.agent_1"],
        None,
    );
    let expected_agent = "agent_1".to_string();
    let running_workloads =
        PodmanUtils::list_running_workloads(expected_agent.as_str(), Ok(vec![container_list_item]));
    assert!(running_workloads.is_empty());
}

#[test]
fn failed_listing_finds_no_workload() {
    let running_workloads =
        PodmanUtils::list_running_workloads("agent_1", Err("no podman".to_string()));
    assert!(running_workloads.is_empty());
    assert_eq!(running_workloads.len(), 0);
}

#[test]
fn later_container_of_same_workload_wins_and_other_agents_are_skipped() {
    let containers = vec![
        listed(vec!["web.h1.agent_1"], Some("first")),
        listed(vec!["db.h2.agent_2"], Some("elsewhere")),
        listed(vec!["web.h3.agent_1"], Some("second")),
        listed(vec!["db.h4.agent_1"], Some("db-id")),
    ];
    let running_workloads = PodmanUtils::list_running_workloads("agent_1", Ok(containers));
    assert_eq!(running_workloads.len(), 2);
    let (web_name, web_id) = running_workloads.get("web").unwrap();
    assert_eq!(web_id, "second");
    assert_eq!(web_name.hash, "h3");
    let (db_name, db_id) = running_workloads.get("db").unwrap();
    assert_eq!(db_id, "db-id");
    assert_eq!(db_name.agent_name(), "agent_1");
    assert!(running_workloads.get("cache").is_none());
    let mut ids = running_workloads.container_ids();
    ids.sort();
    assert_eq!(ids, vec!["db-id".to_string(), "second".to_string()]);
}

#[test]
fn insert_replaces_and_adds() {
    let mut map = RunningWorkloads::new();
    assert!(map.is_empty());
    let name = WorkloadExecutionInstanceName::new("a.h.agent").unwrap();
    map.insert("a".to_string(), (name.clone(), "id1".to_string()));
    map.insert("b".to_string(), (name.clone(), "id2".to_string()));
    map.insert("a".to_string(), (name, "id3".to_string()));
    assert_eq!(map.len(), 2);
    assert_eq!(map.get("a").unwrap().1, "id3");
    assert_eq!(map.get("b").unwrap().1, "id2");
    assert_eq!(map.container_ids().len(), 2);
}

#[test]
fn shared_container_id_is_listed_once_per_workload() {
    let mut map = RunningWorkloads::new();
    let name = WorkloadExecutionInstanceName::new("a.h.agent").unwrap();
    map.insert("a".to_string(), (name.clone(), "x".to_string()));
    map.insert("b".to_string(), (name.clone(), "x".to_string()));
    map.insert("c".to_string(), (name, "y".to_string()));
    let mut ids = map.container_ids();
    ids.sort();
    assert_eq!(ids, vec!["x".to_string(), "x".to_string(), "y".to_string()]);
}
