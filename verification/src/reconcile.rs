//! The decision, for each storage location, whether the image is uploaded to its cluster.

use crate::config::Config;
use crate::config::ConfigView;
use crate::gallery::GalleryImage;
use crate::gallery::GalleryImageView;
use crate::helper::cluster_name_or_default;
use crate::helper::cluster_name_or_empty;
use crate::helper::exists_on_cluster;
use crate::helper::image_exists_on_cluster;
use crate::helper::is_image_on_cluster;
use crate::storage::StorageLocation;
use crate::storage::StorageLocationView;
use vstd::prelude::*;
use vstd::string::StringExecFns;

verus! {

/// What is done for one storage location.
#[derive(Debug, Clone, Copy, PartialEq, Eq, Structural)]
pub enum UploadAction {
    /// The image is uploaded to the cluster.
    Upload,
    /// The cluster has the image already, and nothing is sent.
    Skip,
}

/// The decision for one storage location, with what it rests on.
#[derive(Debug, Clone, PartialEq, Eq)]
pub struct UploadDecision {
    /// The name under which the cluster holds the image.
    pub composite_image_name: String,
    /// Whether the gallery holds an image of that name on that cluster.
    pub image_exists: bool,
    pub action: UploadAction,
}

/// A decision with its name as plain text.
pub struct UploadDecisionView {
    pub composite_image_name: Seq<char>,
    pub image_exists: bool,
    pub action: UploadAction,
}

impl View for UploadDecision {
    type V = UploadDecisionView;

    open spec fn view(&self) -> UploadDecisionView {
        UploadDecisionView {
            composite_image_name: self.composite_image_name@,
            image_exists: self.image_exists,
            action: self.action,
        }
    }
}

impl DeepView for UploadDecision {
    type V = UploadDecisionView;

    open spec fn deep_view(&self) -> UploadDecisionView {
        self@
    }
}

/// The name under which a cluster holds an image: the cluster's short name, two
/// hyphens, and the image's own name.
pub open spec fn composite_name(cluster_short_name: Seq<char>, image_name: Seq<char>) -> Seq<char> {
    cluster_short_name + "--"@ + image_name
}

/// The image is uploaded unless the cluster has it and no overwrite is asked for.
pub open spec fn action_for(image_exists: bool, overwrite: bool) -> UploadAction {
    if !image_exists || overwrite {
        UploadAction::Upload
    } else {
        UploadAction::Skip
    }
}

/// The decision for one location, given the gallery's images and the configuration.
pub open spec fn decision_for(
    location: StorageLocationView,
    images: Seq<GalleryImageView>,
    config: ConfigView,
) -> UploadDecisionView {
    let cluster = cluster_name_or_empty(location.cluster);
    let name = composite_name(cluster, config.image_name);
    let image_exists = exists_on_cluster(images, name, cluster);
    UploadDecisionView {
        composite_image_name: name,
        image_exists,
        action: action_for(image_exists, config.overwrite),
    }
}

/// The decisions for a list of locations: one for each, in order.
pub open spec fn plan_for(
    locations: Seq<StorageLocationView>,
    images: Seq<GalleryImageView>,
    config: ConfigView,
) -> Seq<UploadDecisionView> {
    Seq::new(locations.len(), |i: int| decision_for(locations[i], images, config))
}

/// Builds the name under which a cluster holds an image.
pub fn composite_image_name(cluster_short_name: &str, image_name: &str) -> (name: String)
    ensures
        name@ == composite_name(cluster_short_name@, image_name@),
{
    let mut name = String::from_str(cluster_short_name);
    name.append("--");
    name.append(image_name);
    name
}

/// Chooses between upload and skip.
pub fn choose_action(image_exists: bool, overwrite: bool) -> (action: UploadAction)
    ensures
        action == action_for(image_exists, overwrite),
{
    if !image_exists || overwrite {
        UploadAction::Upload
    } else {
        UploadAction::Skip
    }
}

/// Decides for one storage location whether the image is uploaded to its cluster.
///
/// The image counts as present only where the gallery holds an image of the composite
/// name on the location's own cluster.
pub fn decide(location: &StorageLocation, images: &Vec<GalleryImage>, config: &Config) -> (decision:
    UploadDecision)
    ensures
        decision@ == decision_for(location@, images.deep_view(), config@),
{
    let cluster_name = cluster_name_or_default(location.cluster.as_str());
    let image_name = composite_image_name(cluster_name.as_str(), config.image_name.as_str());
    let image_exists = image_exists_on_cluster(&image_name, &cluster_name, images);
    let action = choose_action(image_exists, config.overwrite);
    UploadDecision { composite_image_name: image_name, image_exists, action }
}

/// Decides for every storage location, in order: one decision per location, each
/// depending on its own location alone.
pub fn plan_uploads(
    locations: &Vec<StorageLocation>,
    images: &Vec<GalleryImage>,
    config: &Config,
) -> (plan: Vec<UploadDecision>)
    ensures
        plan.deep_view() == plan_for(locations.deep_view(), images.deep_view(), config@),
{
    let mut plan: Vec<UploadDecision> = Vec::new();
    let mut i: usize = 0;
    while i < locations.len()
        invariant
            i <= locations.len(),
            plan.len() == i,
            forall|k: int|
                0 <= k < i ==> (#[trigger] plan[k])@ == decision_for(
                    locations[k]@,
                    images.deep_view(),
                    config@,
                ),
        decreases locations.len() - i,
    {
        let decision = decide(&locations[i], images, config);
        plan.push(decision);
        i += 1;
    }
    assert(plan.deep_view() =~= plan_for(locations.deep_view(), images.deep_view(), config@));
    plan
}

/// A location is skipped exactly when its cluster has the image and no overwrite is
/// asked for; in every other case the image is uploaded.
pub proof fn lemma_skip_needs_image_and_no_overwrite(
    location: StorageLocationView,
    images: Seq<GalleryImageView>,
    config: ConfigView,
)
    ensures
        decision_for(location, images, config).action == UploadAction::Skip <==> decision_for(
            location,
            images,
            config,
        ).image_exists && !config.overwrite,
        decision_for(location, images, config).action == UploadAction::Upload
            <==> !decision_for(location, images, config).image_exists || config.overwrite,
{
}

/// An image of the composite name on the location's own cluster makes the image
/// present: without overwrite the location is skipped, with overwrite it is uploaded to.
pub proof fn lemma_image_on_own_cluster_is_present(
    location: StorageLocationView,
    images: Seq<GalleryImageView>,
    config: ConfigView,
    i: int,
)
    requires
        0 <= i < images.len(),
        images[i].name == composite_name(
            cluster_name_or_empty(location.cluster),
            config.image_name,
        ),
        cluster_name_or_empty(images[i].extended_location.name) == cluster_name_or_empty(
            location.cluster,
        ),
    ensures
        decision_for(location, images, config).image_exists,
        !config.overwrite ==> decision_for(location, images, config).action == UploadAction::Skip,
        config.overwrite ==> decision_for(location, images, config).action
            == UploadAction::Upload,
{
    let cluster = cluster_name_or_empty(location.cluster);
    assert(is_image_on_cluster(images[i], composite_name(cluster, config.image_name), cluster));
}

/// An image of the same name on another cluster does not make the image present:
/// where every image of the composite name belongs to another cluster, the image is
/// uploaded.
pub proof fn lemma_image_on_other_cluster_is_absent(
    location: StorageLocationView,
    images: Seq<GalleryImageView>,
    config: ConfigView,
)
    requires
        forall|i: int|
            0 <= i < images.len() && (#[trigger] images[i]).name == composite_name(
                cluster_name_or_empty(location.cluster),
                config.image_name,
            ) ==> cluster_name_or_empty(images[i].extended_location.name)
                != cluster_name_or_empty(location.cluster),
    ensures
        !decision_for(location, images, config).image_exists,
        decision_for(location, images, config).action == UploadAction::Upload,
{
}

/// The decision for a location depends on that location alone, not on its place in
/// the list nor on the other locations.
pub proof fn lemma_decisions_are_independent(
    locations: Seq<StorageLocationView>,
    others: Seq<StorageLocationView>,
    images: Seq<GalleryImageView>,
    config: ConfigView,
    i: int,
    j: int,
)
    requires
        0 <= i < locations.len(),
        0 <= j < others.len(),
        locations[i] == others[j],
    ensures
        plan_for(locations, images, config).len() == locations.len(),
        plan_for(locations, images, config)[i] == decision_for(locations[i], images, config),
        plan_for(locations, images, config)[i] == plan_for(others, images, config)[j],
{
}

} // verus!
