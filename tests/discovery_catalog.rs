use kubetui::discovery::{
    select_group_version, ApiResourceEntry, DiscoveredAPIResource, Discovery, DiscoveryError,
    GroupResources, RequestError, TABLE_ACCEPT,
};

fn strings(v: &[&str]) -> Vec<String> {
    v.iter().map(|s| s.to_string()).collect()
}

fn entry(name: &str, singular: &str, kind: &str, short: &[&str], verbs: &[&str]) -> ApiResourceEntry {
    ApiResourceEntry {
        name: name.to_string(),
        singular_name: singular.to_string(),
        kind: kind.to_string(),
        group: None,
        version: None,
        short_names: if short.is_empty() { None } else { Some(strings(short)) },
        verbs: strings(verbs),
        namespaced: true,
    }
}

fn listing(gv: &str, resources: Vec<ApiResourceEntry>) -> GroupResources {
    GroupResources { group_version: gv.to_string(), resources }
}

fn descriptor(group: &str, version: &str, plural: &str) -> DiscoveredAPIResource {
    DiscoveredAPIResource {
        group: group.to_string(),
        version: version.to_string(),
        api_version: if group.is_empty() { version.to_string() } else { format!("{group}/{version}") },
        kind: "Thing".to_string(),
        plural: plural.to_string(),
        singular: String::new(),
        short_names: None,
        verbs: strings(&["list"]),
        namespaced: true,
    }
}

#[test]
fn url_path_core_without_namespace() {
    assert_eq!(descriptor("", "v1", "pods").url_path(None), "/api/v1/pods");
}

#[test]
fn url_path_core_with_namespace() {
    assert_eq!(
        descriptor("", "v1", "pods").url_path(Some("default")),
        "/api/v1/namespaces/default/pods"
    );
}

#[test]
fn url_path_group_with_and_without_namespace() {
    let d = descriptor("apps", "v1", "deployments");
    assert_eq!(d.url_path(None), "/apis/apps/v1/deployments");
    assert_eq!(d.url_path(Some("kube-system")), "/apis/apps/v1/namespaces/kube-system/deployments");
    assert!(!d.url_path(None).contains("namespaces/"));
    assert_eq!(d.url_path(Some("x")).matches("namespaces/x/").count(), 1);
}

#[test]
fn table_request_carries_path_and_accept_header() {
    let d = descriptor("apps", "v1", "deployments");
    let req = d.table_request(Some("default")).unwrap();
    assert_eq!(req.uri().path(), "/apis/apps/v1/namespaces/default/deployments");
    assert_eq!(req.headers().get("Accept").unwrap(), TABLE_ACCEPT);
    assert_eq!(req.method(), http::Method::GET);
    assert!(req.body().is_empty());
}

#[test]
fn table_request_rejects_invalid_path() {
    let d = descriptor("", "v1", "pods");
    assert_eq!(d.table_request(Some("bad namespace")).unwrap_err(), RequestError::InvalidRequest);
}

#[test]
fn parse_api_resource_splits_group_version() {
    let e = entry("deployments", "deployment", "Deployment", &["deploy"], &["get", "list"]);
    let d = DiscoveredAPIResource::parse_api_resource(&e, "apps/v1").unwrap();
    assert_eq!(d.group, "apps");
    assert_eq!(d.version, "v1");
    assert_eq!(d.api_version, "apps/v1");
    assert_eq!(d.kind, "Deployment");
    assert_eq!(d.plural, "deployments");
    assert_eq!(d.singular, "deployment");
    assert_eq!(d.short_names, Some(strings(&["deploy"])));
    assert_eq!(d.verbs, strings(&["get", "list"]));
    assert!(d.namespaced);
}

#[test]
fn parse_api_resource_core_version() {
    let e = entry("pods", "pod", "Pod", &["po"], &["list"]);
    let d = DiscoveredAPIResource::parse_api_resource(&e, "v1").unwrap();
    assert_eq!(d.group, "");
    assert_eq!(d.version, "v1");
    assert_eq!(d.api_version, "v1");
}

#[test]
fn parse_api_resource_entry_group_wins() {
    let mut e = entry("scales", "scale", "Scale", &[], &["get"]);
    e.group = Some("autoscaling".to_string());
    e.version = Some("v2".to_string());
    let d = DiscoveredAPIResource::parse_api_resource(&e, "apps/v1").unwrap();
    assert_eq!(d.group, "autoscaling");
    assert_eq!(d.version, "v2");
    assert_eq!(d.api_version, "autoscaling/v2");
}

#[test]
fn select_group_version_prefers_preferred() {
    let r = select_group_version(&Some("apps/v1".to_string()), &strings(&["apps/v1beta1", "apps/v1"]));
    assert_eq!(r, Ok("apps/v1".to_string()));
}

#[test]
fn select_group_version_falls_back_to_first() {
    let r = select_group_version(&None, &strings(&["batch/v1", "batch/v1beta1"]));
    assert_eq!(r, Ok("batch/v1".to_string()));
}

#[test]
fn select_group_version_without_versions_fails() {
    let r = select_group_version(&None, &Vec::new());
    assert_eq!(r, Err(DiscoveryError::AmbiguousGroupVersion));
}

#[test]
fn catalog_core_alias_wins_over_group_alias() {
    let groups = vec![listing(
        "metrics.k8s.io/v1beta1",
        vec![entry("pods", "pod", "PodMetrics", &["po"], &["get", "list"])],
    )];
    let core = vec![listing("v1", vec![entry("pods", "pod", "Pod", &["po"], &["list", "watch"])])];
    let d = Discovery::from_listings(&groups, &core).unwrap();
    for alias in ["pods", "pod", "po"] {
        let r = d.get(alias).unwrap();
        assert_eq!(r.kind, "Pod");
        assert_eq!(r.group, "");
    }
}

#[test]
fn catalog_core_alias_wins_whatever_the_group_order() {
    let groups = vec![
        listing("a.example/v1", vec![entry("events", "event", "AEvent", &["ev"], &["list"])]),
        listing("b.example/v1", vec![entry("events", "event", "BEvent", &["ev"], &["list"])]),
    ];
    let core = vec![listing("v1", vec![entry("events", "event", "Event", &["ev"], &["list"])])];
    let d = Discovery::from_listings(&groups, &core).unwrap();
    assert_eq!(d.get("ev").unwrap().kind, "Event");
    let reversed: Vec<GroupResources> = groups.into_iter().rev().collect();
    let d = Discovery::from_listings(&reversed, &core).unwrap();
    assert_eq!(d.get("ev").unwrap().kind, "Event");
}

#[test]
fn catalog_later_group_wins_among_groups() {
    let groups = vec![
        listing("a.example/v1", vec![entry("widgets", "widget", "AWidget", &[], &["list"])]),
        listing("b.example/v1", vec![entry("widgets", "widget", "BWidget", &[], &["list"])]),
    ];
    let d = Discovery::from_listings(&groups, &Vec::new()).unwrap();
    assert_eq!(d.get("widgets").unwrap().kind, "BWidget");
}

#[test]
fn catalog_skips_resources_without_list() {
    let core = vec![listing(
        "v1",
        vec![
            entry("bindings", "binding", "Binding", &[], &["create"]),
            entry("pods", "pod", "Pod", &[], &["list"]),
        ],
    )];
    let d = Discovery::from_listings(&Vec::new(), &core).unwrap();
    assert!(d.get("bindings").is_none());
    assert!(d.get("binding").is_none());
    assert_eq!(d.get("pod").unwrap().plural, "pods");
}

#[test]
fn catalog_does_not_key_empty_names() {
    let core = vec![listing("v1", vec![entry("componentstatuses", "", "ComponentStatus", &["cs"], &["list"])])];
    let d = Discovery::from_listings(&Vec::new(), &core).unwrap();
    assert!(d.get("").is_none());
    assert_eq!(d.get("cs").unwrap().kind, "ComponentStatus");
    let mut aliases: Vec<String> = d.aliases().clone();
    aliases.sort();
    assert_eq!(aliases, strings(&["componentstatuses", "cs"]));
}

#[test]
fn catalog_lists_each_alias_once() {
    let groups = vec![listing("apps/v1", vec![entry("deployments", "deployment", "Deployment", &["deploy"], &["list"])])];
    let core = vec![listing("v1", vec![entry("deployments", "deployment", "Legacy", &[], &["list"])])];
    let d = Discovery::from_listings(&groups, &core).unwrap();
    let mut aliases: Vec<String> = d.aliases().clone();
    aliases.sort();
    assert_eq!(aliases, strings(&["deploy", "deployment", "deployments"]));
    assert_eq!(d.get("deploy").unwrap().kind, "Deployment");
    assert_eq!(d.get("deployment").unwrap().kind, "Legacy");
}

#[test]
fn catalog_unknown_alias() {
    let d = Discovery::new();
    assert!(d.get("pods").is_none());
}

#[test]
fn api_resource_from_descriptor() {
    let d = descriptor("apps", "v1", "deployments");
    let a = kube::core::ApiResource::from(&d);
    assert_eq!(a.group, "apps");
    assert_eq!(a.version, "v1");
    assert_eq!(a.api_version, "apps/v1");
    assert_eq!(a.kind, "Thing");
    assert_eq!(a.plural, "deployments");
}

#[test]
fn aliases_have_no_duplicates() {
    let groups = vec![listing("apps/v1", vec![entry("things", "thing", "A", &["th", "th"], &["list"])])];
    let core = vec![listing("v1", vec![entry("things", "thing", "B", &["th"], &["list"])])];
    let d = Discovery::from_listings(&groups, &core).unwrap();
    let mut aliases: Vec<String> = d.aliases().clone();
    aliases.sort();
    assert_eq!(aliases, strings(&["th", "thing", "things"]));
}

#[test]
fn table_request_without_namespace() {
    let req = descriptor("", "v1", "nodes").table_request(None).unwrap();
    assert_eq!(req.uri().path(), "/api/v1/nodes");
    assert_eq!(req.headers().get("Accept").unwrap(), TABLE_ACCEPT);
}

#[test]
fn url_path_namespace_segment_once_before_plural() {
    let d = descriptor("apps", "v1", "namespaces");
    let cluster: Vec<String> = d.url_path(None).split('/').map(String::from).collect();
    assert_eq!(cluster.last().unwrap(), "namespaces");
    assert!(!cluster[..cluster.len() - 1].iter().any(|s| s == "namespaces"));
    let scoped: Vec<String> = d.url_path(Some("team-a")).split('/').map(String::from).collect();
    let n = scoped.len();
    assert_eq!(&scoped[n - 3..], &["namespaces", "team-a", "namespaces"]);
    assert_eq!(scoped[..n - 1].iter().filter(|s| *s == "namespaces").count(), 1);
}
