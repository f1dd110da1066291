# crust_gather

The verified core of a Kubernetes cluster-state gatherer.

- `src/text.rs`: leftmost, non-overlapping pattern replacement and line
  splitting over characters, with the facts about occurrences that secret
  masking relies on.
- `src/secrets.rs`: secret lists (from looked-up environment values or from
  the lines of a secrets file) and the masking of secrets in collected data.
- `src/selector_parse.rs`, `src/selector.rs`: label selector expressions, their
  text syntax and meaning, and the include/exclude filters over labels or
  annotations.
- `src/config_map.rs`: picking the configuration out of listed config maps.
- `src/kubeconfig.rs`: turning off server certificate verification for the
  clusters of a kubeconfig.
- `src/discovery.rs`: classifying discovered API resources and planning the
  collection work.
- `src/duration.rs`: the run duration, read by `duration_string`.
- `app/`: environment, file and Kubernetes API access, serde, and the
  conversions between `kube` types and the library's types.
