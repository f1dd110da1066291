//! What is collected for each API resource that discovery reports.
use vstd::prelude::*;

verus! {

/// An API resource as discovery names it.
#[derive(Debug)]
pub struct ApiResourceInfo {
    /// Resource group, empty for the core group.
    pub group: String,
    pub version: String,
    pub api_version: String,
    pub kind: String,
    pub plural: String,
}

/// The mathematical form of an [`ApiResourceInfo`].
pub struct ApiResourceView {
    pub group: Seq<char>,
    pub version: Seq<char>,
    pub api_version: Seq<char>,
    pub kind: Seq<char>,
    pub plural: Seq<char>,
}

impl View for ApiResourceInfo {
    type V = ApiResourceView;

    open spec fn view(&self) -> ApiResourceView {
        ApiResourceView {
            group: self.group@,
            version: self.version@,
            api_version: self.api_version@,
            kind: self.kind@,
            plural: self.plural@,
        }
    }
}

impl Clone for ApiResourceInfo {
    fn clone(&self) -> (r: Self)
        ensures
            r@ == self@,
    {
        ApiResourceInfo {
            group: self.group.clone(),
            version: self.version.clone(),
            api_version: self.api_version.clone(),
            kind: self.kind.clone(),
            plural: self.plural.clone(),
        }
    }
}

impl ApiResourceInfo {
    /// Whether both name the same resource: every field is equal.
    pub fn same_as(&self, other: &ApiResourceInfo) -> (b: bool)
        ensures
            b == (self@ == other@),
    {
        self.group == other.group && self.version == other.version && self.api_version
            == other.api_version && self.kind == other.kind && self.plural == other.plural
    }
}

/// A resource of the core API group, version `v1`.
pub open spec fn core_v1(kind: Seq<char>, plural: Seq<char>) -> ApiResourceView {
    ApiResourceView {
        group: Seq::empty(),
        version: seq!['v', '1'],
        api_version: seq!['v', '1'],
        kind,
        plural,
    }
}

/// The core `Event` resource.
pub open spec fn event_resource() -> ApiResourceView {
    core_v1(seq!['E', 'v', 'e', 'n', 't'], seq!['e', 'v', 'e', 'n', 't', 's'])
}

/// The core `Pod` resource.
pub open spec fn pod_resource() -> ApiResourceView {
    core_v1(seq!['P', 'o', 'd'], seq!['p', 'o', 'd', 's'])
}

/// The core `Node` resource.
pub open spec fn node_resource() -> ApiResourceView {
    core_v1(seq!['N', 'o', 'd', 'e'], seq!['n', 'o', 'd', 'e', 's'])
}

/// The type-erased `core/v1` `Event` resource.
///
/// Trusted: calls `kube_core::ApiResource::erase` for `k8s_openapi`'s
/// `api::core::v1::Event`, which copies the `GROUP`, `VERSION`,
/// `API_VERSION`, `KIND` and `URL_PATH_SEGMENT` constants that
/// `k8s_openapi` declares for `Event`: "", "v1", "v1", "Event", "events".
#[verifier::external_body]
fn erased_event() -> (r: ApiResourceInfo)
    ensures
        r@ == event_resource(),
{
    let r = kube_core::ApiResource::erase::<k8s_openapi::api::core::v1::Event>(&());
    ApiResourceInfo {
        group: r.group,
        version: r.version,
        api_version: r.api_version,
        kind: r.kind,
        plural: r.plural,
    }
}

/// The type-erased `core/v1` `Pod` resource.
///
/// Trusted: calls `kube_core::ApiResource::erase` for `k8s_openapi`'s
/// `api::core::v1::Pod`, whose constants are "", "v1", "v1", "Pod", "pods".
#[verifier::external_body]
fn erased_pod() -> (r: ApiResourceInfo)
    ensures
        r@ == pod_resource(),
{
    let r = kube_core::ApiResource::erase::<k8s_openapi::api::core::v1::Pod>(&());
    ApiResourceInfo {
        group: r.group,
        version: r.version,
        api_version: r.api_version,
        kind: r.kind,
        plural: r.plural,
    }
}

/// The type-erased `core/v1` `Node` resource.
///
/// Trusted: calls `kube_core::ApiResource::erase` for `k8s_openapi`'s
/// `api::core::v1::Node`, whose constants are "", "v1", "v1", "Node", "nodes".
#[verifier::external_body]
fn erased_node() -> (r: ApiResourceInfo)
    ensures
        r@ == node_resource(),
{
    let r = kube_core::ApiResource::erase::<k8s_openapi::api::core::v1::Node>(&());
    ApiResourceInfo {
        group: r.group,
        version: r.version,
        api_version: r.api_version,
        kind: r.kind,
        plural: r.plural,
    }
}

/// The verb that marks a resource as listable.
///
/// Trusted: returns `kube_core::discovery::verbs::LIST`, which that crate
/// defines as "list".
#[verifier::external_body]
fn list_verb() -> (s: String)
    ensures
        s@ == seq!['l', 'i', 's', 't'],
{
    kube_core::discovery::verbs::LIST.to_string()
}

/// How a discovered resource is collected.
#[derive(Debug)]
pub enum Group {
    Nodes(ApiResourceInfo),
    Logs(ApiResourceInfo),
    Events(ApiResourceInfo),
    Dynamic(ApiResourceInfo),
}

/// The mathematical form of a [`Group`].
pub enum GroupView {
    Nodes(ApiResourceView),
    Logs(ApiResourceView),
    Events(ApiResourceView),
    Dynamic(ApiResourceView),
}

impl View for Group {
    type V = GroupView;

    open spec fn view(&self) -> GroupView {
        match self {
            Group::Nodes(r) => GroupView::Nodes(r@),
            Group::Logs(r) => GroupView::Logs(r@),
            Group::Events(r) => GroupView::Events(r@),
            Group::Dynamic(r) => GroupView::Dynamic(r@),
        }
    }
}

/// Events, pods and nodes get collectors of their own; every other
/// resource is collected generically.
pub open spec fn classify(r: ApiResourceView) -> GroupView {
    if r == event_resource() {
        GroupView::Events(r)
    } else if r == pod_resource() {
        GroupView::Logs(r)
    } else if r == node_resource() {
        GroupView::Nodes(r)
    } else {
        GroupView::Dynamic(r)
    }
}

/// Which container logs are collected.
#[derive(Clone, Copy, Debug, PartialEq, Eq)]
pub enum LogSelection {
    Current,
    Previous,
}

/// One unit of collection work.
#[derive(Debug)]
pub enum Collectable {
    /// Every object of a resource.
    Dynamic(ApiResourceInfo),
    /// Pod logs.
    Logs(LogSelection),
    /// Events.
    Events,
    /// Node details.
    Nodes,
    /// Cluster information.
    Info,
}

/// The mathematical form of a [`Collectable`].
pub enum CollectableView {
    Dynamic(ApiResourceView),
    Logs(LogSelection),
    Events,
    Nodes,
    Info,
}

impl View for Collectable {
    type V = CollectableView;

    open spec fn view(&self) -> CollectableView {
        match self {
            Collectable::Dynamic(r) => CollectableView::Dynamic(r@),
            Collectable::Logs(s) => CollectableView::Logs(*s),
            Collectable::Events => CollectableView::Events,
            Collectable::Nodes => CollectableView::Nodes,
            Collectable::Info => CollectableView::Info,
        }
    }
}

/// The views of a list of collectables.
pub open spec fn collectable_views(v: Seq<Collectable>) -> Seq<CollectableView> {
    v.map_values(|c: Collectable| c@)
}

/// The work a group stands for: nodes also bring cluster information, pods
/// bring current and previous logs, events their own collector; each
/// resource is also collected as objects.
pub open spec fn group_work(g: GroupView) -> Seq<CollectableView> {
    match g {
        GroupView::Nodes(r) => seq![
            CollectableView::Nodes,
            CollectableView::Info,
            CollectableView::Dynamic(r),
        ],
        GroupView::Logs(r) => seq![
            CollectableView::Logs(LogSelection::Current),
            CollectableView::Logs(LogSelection::Previous),
            CollectableView::Dynamic(r),
        ],
        GroupView::Events(r) => seq![CollectableView::Events, CollectableView::Dynamic(r)],
        GroupView::Dynamic(r) => seq![CollectableView::Dynamic(r)],
    }
}

impl Group {
    /// The group a discovered resource falls in.
    pub fn from_resource(r: ApiResourceInfo) -> (g: Group)
        ensures
            g@ == classify(r@),
    {
        if r.same_as(&erased_event()) {
            Group::Events(r)
        } else if r.same_as(&erased_pod()) {
            Group::Logs(r)
        } else if r.same_as(&erased_node()) {
            Group::Nodes(r)
        } else {
            Group::Dynamic(r)
        }
    }

    /// The collection work for this group.
    pub fn into_collectable(self) -> (work: Vec<Collectable>)
        ensures
            collectable_views(work@) == group_work(self@),
    {
        let mut work: Vec<Collectable> = Vec::new();
        match self {
            Group::Nodes(r) => {
                work.push(Collectable::Nodes);
                work.push(Collectable::Info);
                work.push(Collectable::Dynamic(r));
            },
            Group::Logs(r) => {
                work.push(Collectable::Logs(LogSelection::Current));
                work.push(Collectable::Logs(LogSelection::Previous));
                work.push(Collectable::Dynamic(r));
            },
            Group::Events(r) => {
                work.push(Collectable::Events);
                work.push(Collectable::Dynamic(r));
            },
            Group::Dynamic(r) => {
                work.push(Collectable::Dynamic(r));
            },
        }
        assert(collectable_views(work@) =~= group_work(self@));
        work
    }
}

/// A resource that discovery reported, with the verbs it supports.
#[derive(Debug)]
pub struct DiscoveredResource {
    pub resource: ApiResourceInfo,
    pub operations: Vec<String>,
}

/// Whether `op` is among the operations.
pub open spec fn supports(operations: Seq<Seq<char>>, op: Seq<char>) -> bool {
    operations.contains(op)
}

/// The work for the discovered resources, in order: the listable ones only.
pub open spec fn plan(found: Seq<(ApiResourceView, Seq<Seq<char>>)>) -> Seq<CollectableView>
    decreases found.len(),
{
    if found.len() == 0 {
        Seq::empty()
    } else {
        let last = found.last();
        let before = plan(found.drop_last());
        if supports(last.1, seq!['l', 'i', 's', 't']) {
            before + group_work(classify(last.0))
        } else {
            before
        }
    }
}

/// The mathematical form of the discovered resources.
pub open spec fn discovered_views(v: Seq<DiscoveredResource>) -> Seq<(ApiResourceView, Seq<Seq<char>>)> {
    v.map_values(|d: DiscoveredResource| (d.resource@, crate::text::string_views(d.operations@)))
}

/// Whether `op` is one of the operations.
fn supports_operation(operations: &Vec<String>, op: &String) -> (b: bool)
    ensures
        b == supports(crate::text::string_views(operations@), op@),
{
    let mut i: usize = 0;
    while i < operations.len()
        invariant
            i <= operations.len(),
            forall|j: int| 0 <= j < i ==> operations@[j]@ != op@,
        decreases operations.len() - i,
    {
        if operations[i] == *op {
            assert(crate::text::string_views(operations@)[i as int] == op@);
            return true;
        }
        i = i + 1;
    }
    assert forall|j: int| 0 <= j < operations@.len() implies crate::text::string_views(
        operations@,
    )[j] != op@ by {
        assert(crate::text::string_views(operations@)[j] == operations@[j]@);
    }
    false
}

/// Plans the collection: every listable discovered resource is classified
/// and turned into its collection work.
pub fn plan_collection(found: &Vec<DiscoveredResource>) -> (work: Vec<Collectable>)
    ensures
        collectable_views(work@) == plan(discovered_views(found@)),
{
    let list = list_verb();
    let mut work: Vec<Collectable> = Vec::new();
    let mut i: usize = 0;
    assert(discovered_views(found@).take(0) =~= Seq::<(ApiResourceView, Seq<Seq<char>>)>::empty());
    while i < found.len()
        invariant
            i <= found.len(),
            list@ == seq!['l', 'i', 's', 't'],
            collectable_views(work@) == plan(discovered_views(found@).take(i as int)),
        decreases found.len() - i,
    {
        let ghost prefix = discovered_views(found@).take(i + 1);
        assert(prefix.drop_last() =~= discovered_views(found@).take(i as int));
        assert(prefix.last() == discovered_views(found@)[i as int]);
        if supports_operation(&found[i].operations, &list) {
            let group = Group::from_resource(found[i].resource.clone());
            let mut more = group.into_collectable();
            let ghost before = collectable_views(work@);
            let ghost extra = collectable_views(more@);
            work.append(&mut more);
            assert(collectable_views(work@) =~= before + extra);
        }
        i = i + 1;
    }
    assert(discovered_views(found@).take(i as int) =~= discovered_views(found@));
    work
}


/// Law: the objects of every discovered resource that supports listing are
/// collected.
pub proof fn law_listable_resources_collected(found: Seq<(ApiResourceView, Seq<Seq<char>>)>, k: int)
    requires
        0 <= k < found.len(),
        supports(found[k].1, seq!['l', 'i', 's', 't']),
    ensures
        plan(found).contains(CollectableView::Dynamic(found[k].0)),
    decreases found.len(),
{
    let last = found.last();
    let before = plan(found.drop_last());
    if k == found.len() - 1 {
        let work = group_work(classify(last.0));
        let j = work.len() - 1;
        assert(work[j] == CollectableView::Dynamic(last.0));
        assert((before + work)[before.len() + j] == work[j]);
    } else {
        assert(found.drop_last()[k] == found[k]);
        law_listable_resources_collected(found.drop_last(), k);
        let j = choose|j: int| 0 <= j < before.len() && before[j] == CollectableView::Dynamic(found[k].0);
        if supports(last.1, seq!['l', 'i', 's', 't']) {
            assert((before + group_work(classify(last.0)))[j] == before[j]);
        }
    }
}

/// Law: a resource that does not support listing adds no work.
pub proof fn law_unlistable_resource_adds_nothing(
    found: Seq<(ApiResourceView, Seq<Seq<char>>)>,
    r: (ApiResourceView, Seq<Seq<char>>),
)
    requires
        !supports(r.1, seq!['l', 'i', 's', 't']),
    ensures
        plan(found.push(r)) == plan(found),
{
    assert(found.push(r).drop_last() =~= found);
}


/// The resource `kind`/`plural` of the core API group at version `v1`,
/// spelled out.
pub open spec fn is_core_v1(r: ApiResourceView, kind: Seq<char>, plural: Seq<char>) -> bool {
    r.group.len() == 0 && r.version == seq!['v', '1'] && r.api_version == seq!['v', '1'] && r.kind
        == kind && r.plural == plural
}

/// Law: only the exact core `v1` Event, Pod and Node resources get collectors
/// of their own; every group carries the resource it was made from, and any
/// other resource, such as one of another group with the same plural, is
/// collected generically.
pub proof fn law_only_core_resources_specialized(r: ApiResourceView)
    ensures
        classify(r) matches GroupView::Nodes(x) ==> x == r && is_core_v1(
            r,
            seq!['N', 'o', 'd', 'e'],
            seq!['n', 'o', 'd', 'e', 's'],
        ),
        classify(r) matches GroupView::Logs(x) ==> x == r && is_core_v1(
            r,
            seq!['P', 'o', 'd'],
            seq!['p', 'o', 'd', 's'],
        ),
        classify(r) matches GroupView::Events(x) ==> x == r && is_core_v1(
            r,
            seq!['E', 'v', 'e', 'n', 't'],
            seq!['e', 'v', 'e', 'n', 't', 's'],
        ),
        classify(r) matches GroupView::Dynamic(x) ==> x == r,
        !is_core_v1(r, seq!['N', 'o', 'd', 'e'], seq!['n', 'o', 'd', 'e', 's']) && !is_core_v1(
            r,
            seq!['P', 'o', 'd'],
            seq!['p', 'o', 'd', 's'],
        ) && !is_core_v1(r, seq!['E', 'v', 'e', 'n', 't'], seq!['e', 'v', 'e', 'n', 't', 's'])
            ==> classify(r) == GroupView::Dynamic(r),
{
    if is_core_v1(r, seq!['N', 'o', 'd', 'e'], seq!['n', 'o', 'd', 'e', 's']) {
        assert(r.group =~= Seq::<char>::empty());
    }
    if is_core_v1(r, seq!['P', 'o', 'd'], seq!['p', 'o', 'd', 's']) {
        assert(r.group =~= Seq::<char>::empty());
    }
    if is_core_v1(r, seq!['E', 'v', 'e', 'n', 't'], seq!['e', 'v', 'e', 'n', 't', 's']) {
        assert(r.group =~= Seq::<char>::empty());
    }
}

/// Law: node details and cluster information are planned only for a
/// listable core Node resource, pod logs only for a listable core Pod
/// resource, and the event collector only for a listable core Event
/// resource.
pub proof fn law_special_work_only_for_core_resources(found: Seq<(ApiResourceView, Seq<Seq<char>>)>, j: int)
    requires
        0 <= j < plan(found).len(),
    ensures
        (plan(found)[j] == CollectableView::Nodes || plan(found)[j] == CollectableView::Info)
            ==> exists|k: int|
            0 <= k < found.len() && supports(#[trigger] found[k].1, seq!['l', 'i', 's', 't'])
                && is_core_v1(found[k].0, seq!['N', 'o', 'd', 'e'], seq!['n', 'o', 'd', 'e', 's']),
        plan(found)[j] is Logs ==> exists|k: int|
            0 <= k < found.len() && supports(#[trigger] found[k].1, seq!['l', 'i', 's', 't'])
                && is_core_v1(found[k].0, seq!['P', 'o', 'd'], seq!['p', 'o', 'd', 's']),
        plan(found)[j] == CollectableView::Events ==> exists|k: int|
            0 <= k < found.len() && supports(#[trigger] found[k].1, seq!['l', 'i', 's', 't'])
                && is_core_v1(
                found[k].0,
                seq!['E', 'v', 'e', 'n', 't'],
                seq!['e', 'v', 'e', 'n', 't', 's'],
            ),
    decreases found.len(),
{
    let init = found.drop_last();
    let last = found.last();
    let before = plan(init);
    let k = found.len() - 1;
    assert(found[k] == last);
    if j < before.len() {
        if supports(last.1, seq!['l', 'i', 's', 't']) {
            assert(plan(found)[j] == before[j]);
        }
        law_special_work_only_for_core_resources(init, j);
        assert forall|i: int| 0 <= i < init.len() implies #[trigger] init[i] == found[i] by {}
    } else {
        let g = classify(last.0);
        law_only_core_resources_specialized(last.0);
        assert(plan(found)[j] == group_work(g)[j - before.len()]);
    }
}

} // verus!
