//! Records of the image gallery, and the requests that are sent to it.

use crate::config::Config;
use crate::config::ConfigView;
use crate::helper::cluster_name_or_default;
use crate::helper::cluster_name_or_empty;
use crate::helper::resource_group_or_default;
use crate::helper::resource_group_or_empty;
use crate::reconcile::composite_image_name;
use crate::reconcile::composite_name;
use crate::storage::StorageLocation;
use crate::storage::StorageLocationView;
use vstd::prelude::*;
use vstd::string::StringExecFns;

verus! {

/// The custom location that a record belongs to.
#[derive(Debug, Clone, PartialEq, Eq)]
pub struct ExtendedLocation {
    /// The kind of location, such as `CustomLocation`.
    pub kind: String,
    /// The resource path of the custom location.
    pub name: String,
}

/// An extended location as plain texts.
pub struct ExtendedLocationView {
    pub kind: Seq<char>,
    pub name: Seq<char>,
}

impl View for ExtendedLocation {
    type V = ExtendedLocationView;

    open spec fn view(&self) -> ExtendedLocationView {
        ExtendedLocationView { kind: self.kind@, name: self.name@ }
    }
}

impl DeepView for ExtendedLocation {
    type V = ExtendedLocationView;

    open spec fn deep_view(&self) -> ExtendedLocationView {
        self@
    }
}

/// An image registered in the gallery, on one cluster.
#[derive(Debug, Clone, PartialEq, Eq)]
pub struct GalleryImage {
    pub name: String,
    pub extended_location: ExtendedLocation,
}

/// A gallery image as plain texts.
pub struct GalleryImageView {
    pub name: Seq<char>,
    pub extended_location: ExtendedLocationView,
}

impl View for GalleryImage {
    type V = GalleryImageView;

    open spec fn view(&self) -> GalleryImageView {
        GalleryImageView { name: self.name@, extended_location: self.extended_location@ }
    }
}

impl DeepView for GalleryImage {
    type V = GalleryImageView;

    open spec fn deep_view(&self) -> GalleryImageView {
        self@
    }
}

/// What an upload says of the image itself.
#[derive(Debug, Clone, PartialEq, Eq)]
pub struct Properties {
    pub image_path: String,
    pub container_id: String,
    pub os_type: String,
}

/// The properties as plain texts.
pub struct PropertiesView {
    pub image_path: Seq<char>,
    pub container_id: Seq<char>,
    pub os_type: Seq<char>,
}

impl View for Properties {
    type V = PropertiesView;

    open spec fn view(&self) -> PropertiesView {
        PropertiesView {
            image_path: self.image_path@,
            container_id: self.container_id@,
            os_type: self.os_type@,
        }
    }
}

impl DeepView for Properties {
    type V = PropertiesView;

    open spec fn deep_view(&self) -> PropertiesView {
        self@
    }
}

/// The body of the request that uploads an image to one cluster.
#[derive(Debug, Clone, PartialEq, Eq)]
pub struct ImageUploadRequest {
    pub location: String,
    pub extended_location: ExtendedLocation,
    pub properties: Properties,
}

/// An upload request as plain texts.
pub struct ImageUploadRequestView {
    pub location: Seq<char>,
    pub extended_location: ExtendedLocationView,
    pub properties: PropertiesView,
}

impl View for ImageUploadRequest {
    type V = ImageUploadRequestView;

    open spec fn view(&self) -> ImageUploadRequestView {
        ImageUploadRequestView {
            location: self.location@,
            extended_location: self.extended_location@,
            properties: self.properties@,
        }
    }
}

impl DeepView for ImageUploadRequest {
    type V = ImageUploadRequestView;

    open spec fn deep_view(&self) -> ImageUploadRequestView {
        self@
    }
}

/// The kind of extended location that every upload names.
pub open spec fn custom_location_kind() -> Seq<char> {
    "CustomLocation"@
}

/// The version of the remote interface that every call asks for.
pub open spec fn api_version() -> Seq<char> {
    "2024-01-01"@
}

/// The body that uploads the configured image to a storage location: the region, image
/// path and operating system come from the configuration, the cluster and the
/// container from the location.
pub open spec fn upload_request_for(
    config: ConfigView,
    location: StorageLocationView,
) -> ImageUploadRequestView {
    ImageUploadRequestView {
        location: config.location,
        extended_location: ExtendedLocationView {
            kind: custom_location_kind(),
            name: location.cluster,
        },
        properties: PropertiesView {
            image_path: config.image_path,
            container_id: location.container_id,
            os_type: config.os_type,
        },
    }
}

/// The address that lists the gallery images of a subscription.
pub open spec fn list_images_url_for(subscription: Seq<char>) -> Seq<char> {
    "https://management.azure.com/subscriptions/"@ + subscription
        + "/providers/Microsoft.AzureStackHCI/galleryImages?api-version="@ + api_version()
}

/// The address of one gallery image in a resource group of a subscription.
pub open spec fn image_url_for(
    subscription: Seq<char>,
    resource_group: Seq<char>,
    image_name: Seq<char>,
) -> Seq<char> {
    "https://management.azure.com/subscriptions/"@ + subscription + "/resourceGroups/"@
        + resource_group + "/providers/Microsoft.AzureStackHCI/galleryImages/"@ + image_name
        + "?api-version="@ + api_version()
}

/// The address to which the configured image is uploaded for a storage location. The
/// resource group is the one in the cluster's path, and the image goes by its composite
/// name; a path that names no resource group or no cluster gives an empty text there.
pub open spec fn upload_url_for(config: ConfigView, location: StorageLocationView) -> Seq<char> {
    image_url_for(
        config.subscription,
        resource_group_or_empty(location.cluster),
        composite_name(cluster_name_or_empty(location.cluster), config.image_name),
    )
}

/// The value of the authorization header: the word `Bearer`, a space, and the token.
pub open spec fn bearer_for(token: Seq<char>) -> Seq<char> {
    "Bearer "@ + token
}

/// Builds the body of the request that uploads the configured image to a location.
pub fn upload_request(config: &Config, storage_location: &StorageLocation) -> (request:
    ImageUploadRequest)
    ensures
        request@ == upload_request_for(config@, storage_location@),
{
    ImageUploadRequest {
        location: config.location.clone(),
        extended_location: ExtendedLocation {
            kind: String::from_str("CustomLocation"),
            name: storage_location.cluster.clone(),
        },
        properties: Properties {
            image_path: config.image_path.clone(),
            container_id: storage_location.container_id.clone(),
            os_type: config.os_type.clone(),
        },
    }
}

/// Builds the address to which the configured image is uploaded for a location.
pub fn upload_url(config: &Config, storage_location: &StorageLocation) -> (url: String)
    ensures
        url@ == upload_url_for(config@, storage_location@),
{
    let resource_group = resource_group_or_default(storage_location.cluster.as_str());
    let cluster_name = cluster_name_or_default(storage_location.cluster.as_str());
    let image_name = composite_image_name(cluster_name.as_str(), config.image_name.as_str());
    let mut url = String::from_str("https://management.azure.com/subscriptions/");
    url.append(config.subscription.as_str());
    url.append("/resourceGroups/");
    url.append(resource_group.as_str());
    url.append("/providers/Microsoft.AzureStackHCI/galleryImages/");
    url.append(image_name.as_str());
    url.append("?api-version=");
    url.append("2024-01-01");
    url
}

/// Builds the address that lists the gallery images of the configured subscription.
pub fn list_images_url(config: &Config) -> (url: String)
    ensures
        url@ == list_images_url_for(config@.subscription),
{
    let mut url = String::from_str("https://management.azure.com/subscriptions/");
    url.append(config.subscription.as_str());
    url.append("/providers/Microsoft.AzureStackHCI/galleryImages?api-version=");
    url.append("2024-01-01");
    url
}

/// Builds the value of the authorization header that every remote call carries.
pub fn authorization_header(config: &Config) -> (value: String)
    ensures
        value@ == bearer_for(config@.token),
{
    let mut value = String::from_str("Bearer ");
    value.append(config.token.as_str());
    value
}

} // verus!
