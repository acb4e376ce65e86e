use ankaios_agent::WorkloadExecutionInstanceName;

#[test]
fn instance_name_round_trip() {
    let name = WorkloadExecutionInstanceName::builder()
        .workload_name("nginx")
        .agent_name("agent_A")
        .config("image: docker.io/nginx:latest")
        .build();
    let text = name.to_string();
    assert_eq!(WorkloadExecutionInstanceName::new(&text), Some(name));
}

#[test]
fn config_hash_is_sha256_hex() {
    let name = WorkloadExecutionInstanceName::builder().config("hello").build();
    assert_eq!(
        name.hash,
        "2cf24dba5fb0a30e26e83b2ac5b9e29e1b161e5c1fa7425e73043362938b9824"
    );
    assert_eq!(name.to_string(), format!(".{}.", name.hash));
}

#[test]
fn names_with_other_than_three_parts_are_rejected() {
    assert_eq!(WorkloadExecutionInstanceName::new("scsdcd213ewed"), None);
    assert_eq!(WorkloadExecutionInstanceName::new("a.b"), None);
    assert_eq!(WorkloadExecutionInstanceName::new("a.b.c.d"), None);
    assert_eq!(WorkloadExecutionInstanceName::new(""), None);
}

#[test]
fn parts_are_read_in_order() {
    let name = WorkloadExecutionInstanceName::new("workload.bhvgvghv4rg4.agent_1").unwrap();
    assert_eq!(name.workload_name(), "workload");
    assert_eq!(name.hash, "bhvgvghv4rg4");
    assert_eq!(name.agent_name(), "agent_1");
    let empty = WorkloadExecutionInstanceName::new("..").unwrap();
    assert_eq!(empty.workload_name(), "");
    assert_eq!(empty.agent_name(), "");
}

#[test]
fn agent_filter_regex() {
    assert_eq!(
        WorkloadExecutionInstanceName::get_agent_filter_regex("agent_1"),
        "[.]agent_1$"
    );
}
