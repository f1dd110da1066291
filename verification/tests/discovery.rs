use crust_gather::discovery::{
    plan_collection, ApiResourceInfo, Collectable, DiscoveredResource, Group, LogSelection,
};

fn resource(group: &str, version: &str, kind: &str, plural: &str) -> ApiResourceInfo {
    let api_version = if group.is_empty() { version.to_string() } else { format!("{group}/{version}") };
    ApiResourceInfo {
        group: group.to_string(),
        version: version.to_string(),
        api_version,
        kind: kind.to_string(),
        plural: plural.to_string(),
    }
}

fn describe(work: &[Collectable]) -> Vec<String> {
    work.iter()
        .map(|c| match c {
            Collectable::Dynamic(r) => format!("dynamic:{}", r.plural),
            Collectable::Logs(LogSelection::Current) => "logs:current".to_string(),
            Collectable::Logs(LogSelection::Previous) => "logs:previous".to_string(),
            Collectable::Events => "events".to_string(),
            Collectable::Nodes => "nodes".to_string(),
            Collectable::Info => "info".to_string(),
        })
        .collect()
}

#[test]
fn core_resources_get_their_own_groups() {
    assert!(matches!(Group::from_resource(resource("", "v1", "Pod", "pods")), Group::Logs(_)));
    assert!(matches!(Group::from_resource(resource("", "v1", "Node", "nodes")), Group::Nodes(_)));
    assert!(matches!(Group::from_resource(resource("", "v1", "Event", "events")), Group::Events(_)));
    assert!(matches!(
        Group::from_resource(resource("events.k8s.io", "v1", "Event", "events")),
        Group::Dynamic(_)
    ));
    assert!(matches!(Group::from_resource(resource("apps", "v1", "Deployment", "deployments")), Group::Dynamic(_)));
}

#[test]
fn groups_expand_into_their_work() {
    let nodes = Group::from_resource(resource("", "v1", "Node", "nodes")).into_collectable();
    assert_eq!(describe(&nodes), vec!["nodes", "info", "dynamic:nodes"]);
    let pods = Group::from_resource(resource("", "v1", "Pod", "pods")).into_collectable();
    assert_eq!(describe(&pods), vec!["logs:current", "logs:previous", "dynamic:pods"]);
    let events = Group::from_resource(resource("", "v1", "Event", "events")).into_collectable();
    assert_eq!(describe(&events), vec!["events", "dynamic:events"]);
    let other = Group::from_resource(resource("apps", "v1", "Deployment", "deployments")).into_collectable();
    assert_eq!(describe(&other), vec!["dynamic:deployments"]);
}

#[test]
fn plan_collects_only_listable_resources() {
    let ops = |v: &[&str]| v.iter().map(|s| s.to_string()).collect::<Vec<_>>();
    let found = vec![
        DiscoveredResource { resource: resource("", "v1", "Pod", "pods"), operations: ops(&["get", "list", "watch"]) },
        DiscoveredResource { resource: resource("", "v1", "Binding", "bindings"), operations: ops(&["create"]) },
        DiscoveredResource { resource: resource("apps", "v1", "Deployment", "deployments"), operations: ops(&["list"]) },
    ];
    let work = plan_collection(&found);
    assert_eq!(describe(&work), vec!["logs:current", "logs:previous", "dynamic:pods", "dynamic:deployments"]);
    assert!(describe(&plan_collection(&vec![])).is_empty());
}
