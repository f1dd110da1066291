use crust_gather::config_map::{ConfigError, ConfigFromConfigMap, ConfigMapEntry};
use crust_gather::duration::{DurationError, RunDuration};
use crust_gather::kubeconfig::{ClusterTls, KubeconfigClusters, NamedClusterTls};

fn entry(name: &str, parsed: Option<Vec<Option<u32>>>) -> ConfigMapEntry<u32> {
    ConfigMapEntry { name: name.to_string(), parsed }
}

#[test]
fn config_map_name_from_string() {
    let c: ConfigFromConfigMap = "settings".to_string().into();
    assert_eq!(c.0, "settings");
}

#[test]
fn config_from_cm_takes_first_value_that_reads() {
    let c = ConfigFromConfigMap::from("cfg".to_string());
    assert_eq!(c.config_from_cm::<u32>(None), None);
    assert_eq!(c.config_from_cm::<u32>(Some(vec![])), None);
    assert_eq!(c.config_from_cm(Some(vec![None, Some(2), Some(3)])), Some(2));
}

#[test]
fn get_config_picks_first_named_map_with_a_configuration() {
    let c = ConfigFromConfigMap::from("cfg".to_string());
    let maps = vec![
        entry("other", Some(vec![Some(1)])),
        entry("cfg", None),
        entry("cfg", Some(vec![None])),
        entry("cfg", Some(vec![None, Some(7)])),
        entry("cfg", Some(vec![Some(8)])),
    ];
    assert_eq!(c.get_config(maps), Ok(7));
}

#[test]
fn get_config_reports_missing_configuration() {
    let c = ConfigFromConfigMap::from("cfg".to_string());
    assert_eq!(c.get_config(vec![entry("other", Some(vec![Some(1)]))]), Err(ConfigError::NoConfigurationMap));
    assert_eq!(c.get_config::<u32>(vec![]), Err(ConfigError::NoConfigurationMap));
}

#[test]
fn insecure_sets_skip_verify_on_every_cluster_with_details() {
    let clusters = KubeconfigClusters {
        clusters: vec![
            NamedClusterTls { name: "a".into(), cluster: Some(ClusterTls { insecure_skip_tls_verify: None }) },
            NamedClusterTls { name: "b".into(), cluster: None },
            NamedClusterTls { name: "c".into(), cluster: Some(ClusterTls { insecure_skip_tls_verify: Some(false) }) },
        ],
    };
    let once = clusters.insecure();
    let names: Vec<&str> = once.clusters.iter().map(|c| c.name.as_str()).collect();
    assert_eq!(names, vec!["a", "b", "c"]);
    assert_eq!(once.clusters[0].cluster, Some(ClusterTls { insecure_skip_tls_verify: Some(true) }));
    assert_eq!(once.clusters[1].cluster, None);
    assert_eq!(once.clusters[2].cluster, Some(ClusterTls { insecure_skip_tls_verify: Some(true) }));
    let twice = once.clone().insecure();
    for (x, y) in once.clusters.iter().zip(twice.clusters.iter()) {
        assert_eq!(x.name, y.name);
        assert_eq!(x.cluster, y.cluster);
    }
}

#[test]
fn run_duration_reads_duration_strings() {
    assert_eq!(RunDuration::try_from("1m".to_string()).unwrap().to_string(), "1m");
    assert_eq!(RunDuration::try_from("90s".to_string()).unwrap().to_string(), "90s");
    let d = RunDuration::try_from("1h30m1500ms".to_string()).unwrap();
    assert_eq!((d.secs(), d.subsec_nanos()), (5401, 500_000_000));
    assert_eq!(d.to_string(), "5401500ms");
    assert_eq!(RunDuration::try_from("5x".to_string()).err(), Some(DurationError::Format));
    assert_eq!(RunDuration::try_from("abc".to_string()).err(), Some(DurationError::ParseInt));
    assert_eq!(
        RunDuration::try_from("99999999999999999999s".to_string()).err(),
        Some(DurationError::ParseInt)
    );
}

#[test]
fn run_duration_defaults_to_a_minute() {
    assert_eq!(RunDuration::default().to_string(), "1m");
    assert_eq!(RunDuration::default().secs(), 60);
    assert_eq!(RunDuration::default().subsec_nanos(), 0);
}
