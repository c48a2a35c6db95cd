//! Storage containers, and the storage locations derived from them: one per cluster.

use crate::helper::first_index_of;
use crate::helper::lemma_first_index_of;
use crate::helper::lemma_first_index_of_unique;
use crate::config::Config;
use crate::gallery::api_version;
use vstd::prelude::*;
use vstd::string::StringExecFns;

verus! {

/// The custom location that a storage container belongs to.
#[derive(Debug, Clone, PartialEq, Eq)]
pub struct ExtendedLocation {
    /// The resource path of the custom location: the identity of the cluster.
    pub name: String,
    /// The kind of location, such as `CustomLocation`.
    pub kind: String,
}

/// An extended location as plain texts.
pub struct ExtendedLocationView {
    pub name: Seq<char>,
    pub kind: Seq<char>,
}

impl View for ExtendedLocation {
    type V = ExtendedLocationView;

    open spec fn view(&self) -> ExtendedLocationView {
        ExtendedLocationView { name: self.name@, kind: self.kind@ }
    }
}

impl DeepView for ExtendedLocation {
    type V = ExtendedLocationView;

    open spec fn deep_view(&self) -> ExtendedLocationView {
        self@
    }
}

/// What the catalog records about a storage container itself.
#[derive(Debug, Clone, PartialEq, Eq)]
pub struct Properties {
    pub provisioning_state: String,
    pub path: String,
}

/// The properties as plain texts.
pub struct PropertiesView {
    pub provisioning_state: Seq<char>,
    pub path: Seq<char>,
}

impl View for Properties {
    type V = PropertiesView;

    open spec fn view(&self) -> PropertiesView {
        PropertiesView { provisioning_state: self.provisioning_state@, path: self.path@ }
    }
}

impl DeepView for Properties {
    type V = PropertiesView;

    open spec fn deep_view(&self) -> PropertiesView {
        self@
    }
}

/// One physical storage container, as the catalog lists it.
#[derive(Debug, Clone, PartialEq, Eq)]
pub struct StorageContainer {
    /// The resource path of the container.
    pub id: String,
    pub name: String,
    /// The resource type of the record.
    pub kind: String,
    pub location: String,
    pub extended_location: ExtendedLocation,
    pub properties: Properties,
}

/// A storage container as plain texts.
pub struct StorageContainerView {
    pub id: Seq<char>,
    pub name: Seq<char>,
    pub kind: Seq<char>,
    pub location: Seq<char>,
    pub extended_location: ExtendedLocationView,
    pub properties: PropertiesView,
}

impl StorageContainerView {
    /// The identity of the cluster that the container belongs to.
    pub open spec fn cluster(self) -> Seq<char> {
        self.extended_location.name
    }

    /// The storage location that this container alone stands for.
    pub open spec fn location(self) -> StorageLocationView {
        StorageLocationView { cluster: self.extended_location.name, container_id: self.id }
    }
}

impl View for StorageContainer {
    type V = StorageContainerView;

    open spec fn view(&self) -> StorageContainerView {
        StorageContainerView {
            id: self.id@,
            name: self.name@,
            kind: self.kind@,
            location: self.location@,
            extended_location: self.extended_location@,
            properties: self.properties@,
        }
    }
}

impl DeepView for StorageContainer {
    type V = StorageContainerView;

    open spec fn deep_view(&self) -> StorageContainerView {
        self@
    }
}

/// One listing of storage containers.
#[derive(Debug, Clone, PartialEq, Eq)]
pub struct StorageContainers {
    pub value: Vec<StorageContainer>,
}

impl View for StorageContainers {
    type V = Seq<StorageContainerView>;

    open spec fn view(&self) -> Seq<StorageContainerView> {
        self.value.deep_view()
    }
}

impl Default for StorageContainers {
    fn default() -> (listing: Self)
        ensures
            listing@ == Seq::<StorageContainerView>::empty(),
    {
        let listing = StorageContainers { value: Vec::new() };
        assert(listing@ =~= Seq::<StorageContainerView>::empty());
        listing
    }
}

/// Where an image is stored on one cluster: the cluster, and one of its containers.
#[derive(Debug, Clone, PartialEq, Eq)]
pub struct StorageLocation {
    /// The resource path of the cluster's custom location.
    pub cluster: String,
    /// The resource path of the container that stands for the cluster.
    pub container_id: String,
}

/// A storage location as plain texts.
pub struct StorageLocationView {
    pub cluster: Seq<char>,
    pub container_id: Seq<char>,
}

impl View for StorageLocation {
    type V = StorageLocationView;

    open spec fn view(&self) -> StorageLocationView {
        StorageLocationView { cluster: self.cluster@, container_id: self.container_id@ }
    }
}

impl DeepView for StorageLocation {
    type V = StorageLocationView;

    open spec fn deep_view(&self) -> StorageLocationView {
        self@
    }
}

/// The cluster of each container, in order.
pub open spec fn clusters_of(containers: Seq<StorageContainerView>) -> Seq<Seq<char>> {
    containers.map_values(|c: StorageContainerView| c.cluster())
}

/// The mapping from cluster to container id that the containers build when they are
/// entered in order, a later container replacing an earlier one of the same cluster.
pub open spec fn cluster_ids(containers: Seq<StorageContainerView>) -> Map<Seq<char>, Seq<char>>
    decreases containers.len(),
{
    if containers.len() == 0 {
        Map::empty()
    } else {
        cluster_ids(containers.drop_last()).insert(
            containers.last().cluster(),
            containers.last().id,
        )
    }
}

/// No two locations belong to the same cluster.
pub open spec fn has_distinct_clusters(locations: Seq<StorageLocationView>) -> bool {
    forall|i: int, j: int|
        0 <= i < j < locations.len() ==> (#[trigger] locations[i]).cluster != (
        #[trigger] locations[j]).cluster
}

/// `locations` is the deduplication of `containers`: one location for each cluster that
/// occurs, with the id of the last container of that cluster, the clusters standing in
/// the order in which they first occur.
pub open spec fn is_deduplication_of(
    locations: Seq<StorageLocationView>,
    containers: Seq<StorageContainerView>,
) -> bool {
    &&& has_distinct_clusters(locations)
    &&& forall|i: int|
        0 <= i < locations.len() ==> cluster_ids(containers).contains_pair(
            (#[trigger] locations[i]).cluster,
            locations[i].container_id,
        )
    &&& forall|k: Seq<char>| #[trigger]
        cluster_ids(containers).dom().contains(k) ==> exists|i: int|
            0 <= i < locations.len() && (#[trigger] locations[i]).cluster == k
    &&& forall|i: int, j: int|
        0 <= i < j < locations.len() ==> first_index_of(
            clusters_of(containers),
            (#[trigger] locations[i]).cluster,
        ) < first_index_of(clusters_of(containers), (#[trigger] locations[j]).cluster)
}

/// The address that lists the storage containers of a subscription.
pub open spec fn list_storage_containers_url_for(subscription: Seq<char>) -> Seq<char> {
    "https://management.azure.com/subscriptions/"@ + subscription
        + "/providers/Microsoft.AzureStackHCI/storageContainers?api-version="@ + api_version()
}

/// Builds the address that lists the storage containers of the configured subscription.
pub fn list_storage_containers_url(config: &Config) -> (url: String)
    ensures
        url@ == list_storage_containers_url_for(config@.subscription),
{
    let mut url = String::from_str("https://management.azure.com/subscriptions/");
    url.append(config.subscription.as_str());
    url.append("/providers/Microsoft.AzureStackHCI/storageContainers?api-version=");
    url.append("2024-01-01");
    url
}

/// The position of the location of `cluster`, if there is one.
fn position_of_cluster(locations: &Vec<StorageLocation>, cluster: &String) -> (found: Option<usize>)
    ensures
        match found {
            Some(j) => j < locations.len() && locations[j as int].cluster@ == cluster@,
            None => forall|j: int|
                0 <= j < locations.len() ==> (#[trigger] locations[j]).cluster@ != cluster@,
        },
{
    let mut j: usize = 0;
    while j < locations.len()
        invariant
            j <= locations.len(),
            forall|k: int| 0 <= k < j ==> (#[trigger] locations[k]).cluster@ != cluster@,
        decreases locations.len() - j,
    {
        if locations[j].cluster == *cluster {
            return Some(j);
        }
        j += 1;
    }
    None
}

/// Collapses a listing of storage containers into one storage location per cluster.
///
/// Each cluster that occurs in the listing gets exactly one location, which carries the
/// id of the last container listed for that cluster. The locations stand in the order in
/// which their clusters first occur in the listing.
pub fn get_unique_storage_locations(containers: Vec<StorageContainer>) -> (locations: Vec<
    StorageLocation,
>)
    ensures
        is_deduplication_of(locations.deep_view(), containers.deep_view()),
        locations.len() == cluster_ids(containers.deep_view()).dom().len(),
        locations.len() == clusters_of(containers.deep_view()).to_set().len(),
        locations.len() <= containers.len(),
{
    let ghost listing = containers.deep_view();
    let mut unique: Vec<StorageLocation> = Vec::new();
    let mut i: usize = 0;
    assert(listing.take(0) == Seq::<StorageContainerView>::empty());
    assert(clusters_of(listing.take(0)) == Seq::<Seq<char>>::empty());
    while i < containers.len()
        invariant
            i <= containers.len(),
            listing == containers.deep_view(),
            is_deduplication_of(unique.deep_view(), listing.take(i as int)),
        decreases containers.len() - i,
    {
        let container = &containers[i];
        let ghost before = unique.deep_view();
        assert(listing.take(i + 1) == listing.take(i as int).push(container@));
        let location = StorageLocation {
            cluster: container.extended_location.name.clone(),
            container_id: container.id.clone(),
        };
        assert(location@ == container@.location());
        match position_of_cluster(&unique, &container.extended_location.name) {
            Some(j) => {
                unique.set(j, location);
                proof {
                    lemma_deduplication_replace(
                        before,
                        listing.take(i as int),
                        container@,
                        j as int,
                    );
                    assert(unique.deep_view() == before.update(j as int, container@.location()));
                }
            },
            None => {
                unique.push(location);
                proof {
                    lemma_deduplication_add(before, listing.take(i as int), container@);
                    assert(unique.deep_view() == before.push(container@.location()));
                }
            },
        }
        i += 1;
    }
    proof {
        assert(listing.take(i as int) == listing);
        lemma_deduplication_size(unique.deep_view(), listing);
    }
    unique
}

/// A cluster is a key of the mapping exactly when some container belongs to it.
pub proof fn lemma_cluster_ids_keys(containers: Seq<StorageContainerView>, k: Seq<char>)
    ensures
        cluster_ids(containers).dom().contains(k) <==> clusters_of(containers).contains(k),
    decreases containers.len(),
{
    let keys = clusters_of(containers);
    if containers.len() > 0 {
        let init = containers.drop_last();
        lemma_cluster_ids_keys(init, k);
        assert(clusters_of(init) == keys.drop_last());
        if keys.contains(k) {
            let a = choose|a: int| 0 <= a < keys.len() && keys[a] == k;
            if a < keys.len() - 1 {
                assert(keys.drop_last()[a] == k);
            }
        }
        if keys.drop_last().contains(k) {
            let a = choose|a: int| 0 <= a < keys.drop_last().len() && keys.drop_last()[a] == k;
            assert(keys[a] == k);
        }
        if containers.last().cluster() == k {
            assert(keys[keys.len() - 1] == k);
        }
    }
}

/// The mapping has finitely many keys, and no more keys than there are containers.
pub proof fn lemma_cluster_ids_size(containers: Seq<StorageContainerView>)
    ensures
        cluster_ids(containers).dom().finite(),
        cluster_ids(containers).dom().len() <= containers.len(),
    decreases containers.len(),
{
    if containers.len() > 0 {
        lemma_cluster_ids_size(containers.drop_last());
    }
}

/// Last write wins: the mapping sends the cluster of a container that no later container
/// shares to the id of that container.
pub proof fn lemma_cluster_ids_last_wins(containers: Seq<StorageContainerView>, a: int)
    requires
        0 <= a < containers.len(),
        forall|b: int|
            a < b < containers.len() ==> (#[trigger] containers[b]).cluster()
                != containers[a].cluster(),
    ensures
        cluster_ids(containers).contains_pair(containers[a].cluster(), containers[a].id),
    decreases containers.len(),
{
    if a < containers.len() - 1 {
        let init = containers.drop_last();
        assert(init[a] == containers[a]);
        assert forall|b: int| a < b < init.len() implies (#[trigger] init[b]).cluster()
            != init[a].cluster() by {
            assert(init[b] == containers[b]);
        }
        lemma_cluster_ids_last_wins(init, a);
        assert(containers[containers.len() - 1].cluster() != containers[a].cluster());
    }
}

/// Entering one more container of a cluster that already has a location replaces the
/// id of that location.
proof fn lemma_deduplication_replace(
    locations: Seq<StorageLocationView>,
    containers: Seq<StorageContainerView>,
    c: StorageContainerView,
    j: int,
)
    requires
        is_deduplication_of(locations, containers),
        0 <= j < locations.len(),
        locations[j].cluster == c.cluster(),
    ensures
        is_deduplication_of(locations.update(j, c.location()), containers.push(c)),
{
    let after = locations.update(j, c.location());
    let all = containers.push(c);
    let keys = clusters_of(containers);
    assert(all.drop_last() == containers);
    assert(clusters_of(all) == keys.push(c.cluster()));
    assert forall|i: int| 0 <= i < after.len() implies first_index_of(
        clusters_of(all),
        (#[trigger] after[i]).cluster,
    ) == first_index_of(keys, locations[i].cluster) && after[i].cluster
        == locations[i].cluster by {
        let k = locations[i].cluster;
        assert(cluster_ids(containers).contains_pair(k, locations[i].container_id));
        lemma_cluster_ids_keys(containers, k);
        lemma_first_index_of(keys, k);
        let a = first_index_of(keys, k);
        if a >= keys.len() {
            let b = choose|b: int| 0 <= b < keys.len() && keys[b] == k;
            assert(keys[b] != k);
        }
        lemma_first_index_of_unique(clusters_of(all), k, a);
    }
    assert forall|i: int| 0 <= i < after.len() implies cluster_ids(all).contains_pair(
        (#[trigger] after[i]).cluster,
        after[i].container_id,
    ) by {
        assert(cluster_ids(containers).contains_pair(
            locations[i].cluster,
            locations[i].container_id,
        ));
    }
    assert forall|k: Seq<char>| #[trigger] cluster_ids(all).dom().contains(k) implies exists|
        i: int,
    |
        0 <= i < after.len() && (#[trigger] after[i]).cluster == k by {
        if k == c.cluster() {
            assert(after[j].cluster == k);
        } else {
            assert(cluster_ids(containers).dom().contains(k));
            let i = choose|i: int|
                0 <= i < locations.len() && (#[trigger] locations[i]).cluster == k;
            assert(after[i].cluster == k);
        }
    }
}

/// Entering a container of a cluster that has no location yet adds a location at the end.
proof fn lemma_deduplication_add(
    locations: Seq<StorageLocationView>,
    containers: Seq<StorageContainerView>,
    c: StorageContainerView,
)
    requires
        is_deduplication_of(locations, containers),
        forall|j: int|
            0 <= j < locations.len() ==> (#[trigger] locations[j]).cluster != c.cluster(),
    ensures
        is_deduplication_of(locations.push(c.location()), containers.push(c)),
{
    let after = locations.push(c.location());
    let all = containers.push(c);
    let keys = clusters_of(containers);
    assert(all.drop_last() == containers);
    assert(clusters_of(all) == keys.push(c.cluster()));
    if cluster_ids(containers).dom().contains(c.cluster()) {
        let i = choose|i: int|
            0 <= i < locations.len() && (#[trigger] locations[i]).cluster == c.cluster();
        assert(false);
    }
    lemma_cluster_ids_keys(containers, c.cluster());
    assert forall|i: int| 0 <= i < locations.len() implies first_index_of(
        clusters_of(all),
        (#[trigger] after[i]).cluster,
    ) == first_index_of(keys, locations[i].cluster) && first_index_of(
        keys,
        locations[i].cluster,
    ) < keys.len() && after[i] == locations[i] by {
        let k = locations[i].cluster;
        assert(cluster_ids(containers).contains_pair(k, locations[i].container_id));
        lemma_cluster_ids_keys(containers, k);
        lemma_first_index_of(keys, k);
        let a = first_index_of(keys, k);
        if a >= keys.len() {
            let b = choose|b: int| 0 <= b < keys.len() && keys[b] == k;
            assert(keys[b] != k);
        }
        lemma_first_index_of_unique(clusters_of(all), k, a);
    }
    assert(first_index_of(clusters_of(all), c.cluster()) == keys.len()) by {
        assert forall|b: int| 0 <= b < keys.len() implies clusters_of(all)[b] != c.cluster() by {
            if keys[b] == c.cluster() {
                assert(keys.contains(c.cluster()));
            }
        }
        lemma_first_index_of_unique(clusters_of(all), c.cluster(), keys.len() as int);
    }
    assert(after[locations.len() as int] == c.location());
    assert forall|i: int| 0 <= i < after.len() implies cluster_ids(all).contains_pair(
        (#[trigger] after[i]).cluster,
        after[i].container_id,
    ) by {
        if i < locations.len() {
            assert(after[i] == locations[i]);
            assert(cluster_ids(containers).contains_pair(
                locations[i].cluster,
                locations[i].container_id,
            ));
        }
    }
    assert forall|k: Seq<char>| #[trigger] cluster_ids(all).dom().contains(k) implies exists|
        i: int,
    |
        0 <= i < after.len() && (#[trigger] after[i]).cluster == k by {
        if k == c.cluster() {
            assert(after[locations.len() as int].cluster == k);
        } else {
            assert(cluster_ids(containers).dom().contains(k));
            let i = choose|i: int|
                0 <= i < locations.len() && (#[trigger] locations[i]).cluster == k;
            assert(after[i].cluster == k);
        }
    }
    assert forall|i: int, j: int| 0 <= i < j < after.len() implies first_index_of(
        clusters_of(all),
        (#[trigger] after[i]).cluster,
    ) < first_index_of(clusters_of(all), (#[trigger] after[j]).cluster) by {
        if j < locations.len() {
            assert(after[j] == locations[j]);
        }
    }
}

/// The size of a deduplication: the number of distinct clusters, which is at most the
/// number of containers.
pub proof fn lemma_deduplication_size(
    locations: Seq<StorageLocationView>,
    containers: Seq<StorageContainerView>,
)
    requires
        is_deduplication_of(locations, containers),
    ensures
        locations.len() == cluster_ids(containers).dom().len(),
        locations.len() == clusters_of(containers).to_set().len(),
        locations.len() <= containers.len(),
{
    let kept = locations.map_values(|l: StorageLocationView| l.cluster);
    assert(kept.no_duplicates()) by {
        assert forall|i: int, j: int|
            0 <= i < kept.len() && 0 <= j < kept.len() && i != j implies kept[i] != kept[j] by {
            if i < j {
                assert(locations[i].cluster != locations[j].cluster);
            } else {
                assert(locations[j].cluster != locations[i].cluster);
            }
        }
    }
    kept.unique_seq_to_set();
    assert(kept.to_set() =~= cluster_ids(containers).dom()) by {
        assert forall|k: Seq<char>| kept.to_set().contains(k) implies cluster_ids(
            containers,
        ).dom().contains(k) by {
            let i = choose|i: int| 0 <= i < kept.len() && kept[i] == k;
            assert(cluster_ids(containers).contains_pair(
                locations[i].cluster,
                locations[i].container_id,
            ));
        }
        assert forall|k: Seq<char>|
            cluster_ids(containers).dom().contains(k) implies kept.to_set().contains(k) by {
            let i = choose|i: int|
                0 <= i < locations.len() && (#[trigger] locations[i]).cluster == k;
            assert(kept[i] == k);
        }
    }
    assert(clusters_of(containers).to_set() =~= cluster_ids(containers).dom()) by {
        assert forall|k: Seq<char>|
            clusters_of(containers).to_set().contains(k) == cluster_ids(containers).dom().contains(
                k,
            ) by {
            lemma_cluster_ids_keys(containers, k);
        }
    }
    lemma_cluster_ids_size(containers);
}

/// Last write wins: where a container is the last of its cluster, the deduplication holds
/// exactly one location for that cluster, and it carries the id of that container.
pub proof fn lemma_deduplication_last_wins(
    locations: Seq<StorageLocationView>,
    containers: Seq<StorageContainerView>,
    a: int,
)
    requires
        is_deduplication_of(locations, containers),
        0 <= a < containers.len(),
        forall|b: int|
            a < b < containers.len() ==> (#[trigger] containers[b]).cluster()
                != containers[a].cluster(),
    ensures
        exists|i: int|
            {
                &&& 0 <= i < locations.len()
                &&& #[trigger] locations[i] == containers[a].location()
                &&& forall|j: int|
                    0 <= j < locations.len() && (#[trigger] locations[j]).cluster
                        == containers[a].cluster() ==> j == i
            },
{
    let k = containers[a].cluster();
    lemma_cluster_ids_last_wins(containers, a);
    assert(cluster_ids(containers).dom().contains(k));
    let i = choose|i: int| 0 <= i < locations.len() && (#[trigger] locations[i]).cluster == k;
    assert(cluster_ids(containers).contains_pair(locations[i].cluster, locations[i].container_id));
    assert(locations[i] == containers[a].location());
    assert forall|j: int| 0 <= j < locations.len() && (#[trigger] locations[j]).cluster
        == k implies j == i by {
        if j < i {
            assert(locations[j].cluster != locations[i].cluster);
        } else if i < j {
            assert(locations[i].cluster != locations[j].cluster);
        }
    }
}

/// Over containers of pairwise distinct clusters, the first `n` locations of a
/// deduplication are the locations of the first `n` containers.
proof fn lemma_deduplication_prefix(
    locations: Seq<StorageLocationView>,
    containers: Seq<StorageContainerView>,
    n: int,
)
    requires
        is_deduplication_of(locations, containers),
        clusters_of(containers).no_duplicates(),
        locations.len() == containers.len(),
        0 <= n <= locations.len(),
    ensures
        forall|i: int| 0 <= i < n ==> #[trigger] locations[i] == containers[i].location(),
    decreases n,
{
    if n > 0 {
        lemma_deduplication_prefix(locations, containers, n - 1);
        let keys = clusters_of(containers);
        let i = n - 1;
        let k = locations[i].cluster;
        assert(cluster_ids(containers).contains_pair(k, locations[i].container_id));
        lemma_cluster_ids_keys(containers, k);
        lemma_first_index_of(keys, k);
        let a = first_index_of(keys, k);
        if a >= keys.len() {
            let b = choose|b: int| 0 <= b < keys.len() && keys[b] == k;
            assert(keys[b] != k);
        }
        assert(keys[a] == k);
        if a < i {
            assert(locations[a] == containers[a].location());
            assert(locations[a].cluster != locations[i].cluster);
        }
        if a > i {
            let other = keys[i];
            assert(keys.contains(other));
            lemma_cluster_ids_keys(containers, other);
            let j = choose|j: int|
                0 <= j < locations.len() && (#[trigger] locations[j]).cluster == other;
            if j < i {
                assert(locations[j] == containers[j].location());
                assert(keys[j] == keys[i]);
            }
            assert(j > i);
            lemma_first_index_of(keys, other);
            assert(first_index_of(keys, locations[i].cluster) < first_index_of(
                keys,
                locations[j].cluster,
            ));
            if first_index_of(keys, other) > i {
                assert(keys[i] != other);
            }
        }
        assert(a == i);
        assert forall|b: int| i < b < containers.len() implies (#[trigger] containers[b]).cluster()
            != containers[i].cluster() by {
            assert(keys[b] != keys[i]);
        }
        lemma_cluster_ids_last_wins(containers, i);
    }
}

/// Deduplication changes nothing where there is nothing to collapse: over containers of
/// pairwise distinct clusters it yields the location of each container, in order, and so
/// as many locations as there are containers, with the same clusters and ids.
pub proof fn lemma_deduplication_of_distinct(
    locations: Seq<StorageLocationView>,
    containers: Seq<StorageContainerView>,
)
    requires
        is_deduplication_of(locations, containers),
        clusters_of(containers).no_duplicates(),
    ensures
        locations.len() == containers.len(),
        locations == containers.map_values(|c: StorageContainerView| c.location()),
        locations.to_set() == containers.map_values(
            |c: StorageContainerView| c.location(),
        ).to_set(),
{
    lemma_deduplication_size(locations, containers);
    clusters_of(containers).unique_seq_to_set();
    lemma_deduplication_prefix(locations, containers, locations.len() as int);
    assert(locations =~= containers.map_values(|c: StorageContainerView| c.location()));
}

/// Two deduplications of the same containers agree on their first `n` locations.
proof fn lemma_deduplications_agree(
    a: Seq<StorageLocationView>,
    b: Seq<StorageLocationView>,
    containers: Seq<StorageContainerView>,
    n: int,
)
    requires
        is_deduplication_of(a, containers),
        is_deduplication_of(b, containers),
        a.len() == b.len(),
        0 <= n <= a.len(),
    ensures
        forall|i: int| 0 <= i < n ==> #[trigger] a[i] == b[i],
    decreases n,
{
    if n > 0 {
        lemma_deduplications_agree(a, b, containers, n - 1);
        let keys = clusters_of(containers);
        let i = n - 1;
        let ka = a[i].cluster;
        let kb = b[i].cluster;
        assert(cluster_ids(containers).contains_pair(ka, a[i].container_id));
        assert(cluster_ids(containers).contains_pair(kb, b[i].container_id));
        if ka != kb {
            let j = choose|j: int| 0 <= j < b.len() && (#[trigger] b[j]).cluster == ka;
            if j < i {
                assert(a[j] == b[j]);
                assert(a[j].cluster != a[i].cluster);
            }
            assert(first_index_of(keys, b[i].cluster) < first_index_of(keys, b[j].cluster));
            let m = choose|m: int| 0 <= m < a.len() && (#[trigger] a[m]).cluster == kb;
            if m < i {
                assert(a[m] == b[m]);
                assert(b[m].cluster != b[i].cluster);
            }
            assert(first_index_of(keys, a[i].cluster) < first_index_of(keys, a[m].cluster));
        }
    }
}

/// The containers determine their deduplication: there is only one.
pub proof fn lemma_deduplication_unique(
    a: Seq<StorageLocationView>,
    b: Seq<StorageLocationView>,
    containers: Seq<StorageContainerView>,
)
    requires
        is_deduplication_of(a, containers),
        is_deduplication_of(b, containers),
    ensures
        a == b,
{
    lemma_deduplication_size(a, containers);
    lemma_deduplication_size(b, containers);
    lemma_deduplications_agree(a, b, containers, a.len() as int);
    assert(a =~= b);
}

} // verus!
