//! The TLS settings of the clusters in a kubeconfig, and turning off server
//! certificate verification for all of them.
use vstd::prelude::*;

verus! {

/// The part of a kubeconfig cluster entry that TLS verification reads.
#[derive(Clone, Copy, Debug, PartialEq, Eq)]
pub struct ClusterTls {
    pub insecure_skip_tls_verify: Option<bool>,
}

/// A named cluster of a kubeconfig; `cluster` is absent when the entry names
/// no cluster details.
#[derive(Clone, Debug)]
pub struct NamedClusterTls {
    pub name: String,
    pub cluster: Option<ClusterTls>,
}

/// The clusters of a kubeconfig, in file order.
#[derive(Clone, Debug, Default)]
pub struct KubeconfigClusters {
    pub clusters: Vec<NamedClusterTls>,
}

/// The mathematical form of a named cluster.
pub open spec fn named_view(c: NamedClusterTls) -> (Seq<char>, Option<ClusterTls>) {
    (c.name@, c.cluster)
}

impl View for KubeconfigClusters {
    type V = Seq<(Seq<char>, Option<ClusterTls>)>;

    open spec fn view(&self) -> Seq<(Seq<char>, Option<ClusterTls>)> {
        self.clusters@.map_values(|c: NamedClusterTls| named_view(c))
    }
}

/// A cluster entry with certificate verification turned off, if it has
/// cluster details.
pub open spec fn insecure_entry(c: (Seq<char>, Option<ClusterTls>)) -> (Seq<char>, Option<ClusterTls>) {
    match c.1 {
        Some(_) => (c.0, Some(ClusterTls { insecure_skip_tls_verify: Some(true) })),
        None => c,
    }
}

/// Every cluster entry with certificate verification turned off.
pub open spec fn insecure_all(cs: Seq<(Seq<char>, Option<ClusterTls>)>) -> Seq<(Seq<char>, Option<ClusterTls>)> {
    cs.map_values(|c: (Seq<char>, Option<ClusterTls>)| insecure_entry(c))
}

impl KubeconfigClusters {
    /// The same clusters, each with details set to skip server certificate
    /// verification.
    pub fn insecure(self) -> (res: KubeconfigClusters)
        ensures
            res@ == insecure_all(self@),
    {
        let mut clusters = self.clusters;
        let ghost original = clusters@;
        let mut i: usize = 0;
        while i < clusters.len()
            invariant
                i <= clusters.len(),
                clusters@.len() == original.len(),
                forall|j: int| 0 <= j < i ==> named_view(#[trigger] clusters@[j]) == insecure_entry(named_view(original[j])),
                forall|j: int| i <= j < clusters@.len() ==> #[trigger] clusters@[j] == original[j],
            decreases clusters.len() - i,
        {
            if clusters[i].cluster.is_some() {
                let name = clusters[i].name.clone();
                let entry = NamedClusterTls {
                    name,
                    cluster: Some(ClusterTls { insecure_skip_tls_verify: Some(true) }),
                };
                clusters.set(i, entry);
            }
            i = i + 1;
        }
        let res = KubeconfigClusters { clusters };
        assert(res@ =~= insecure_all(self@));
        res
    }
}

/// Law: turning verification off twice is the same as once.
pub proof fn law_insecure_idempotent(cs: Seq<(Seq<char>, Option<ClusterTls>)>)
    ensures
        insecure_all(insecure_all(cs)) == insecure_all(cs),
{
    assert(insecure_all(insecure_all(cs)) =~= insecure_all(cs));
}

/// Law: the cluster names, their order and which entries have cluster
/// details stay as they were; every entry with details skips verification.
pub proof fn law_insecure_keeps_entries(cs: Seq<(Seq<char>, Option<ClusterTls>)>)
    ensures
        insecure_all(cs).len() == cs.len(),
        forall|j: int|
            0 <= j < cs.len() ==> (#[trigger] insecure_all(cs)[j]).0 == cs[j].0 && (insecure_all(
                cs,
            )[j].1 is Some <==> cs[j].1 is Some) && (cs[j].1 is Some ==> insecure_all(cs)[j].1
                == Some(ClusterTls { insecure_skip_tls_verify: Some(true) })),
{
}

} // verus!
