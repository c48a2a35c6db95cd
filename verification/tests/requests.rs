use image_uploader::config::Config;
use image_uploader::config::ConfigError;
use image_uploader::config::Parameter;
use image_uploader::gallery::authorization_header;
use image_uploader::gallery::list_images_url;
use image_uploader::gallery::upload_request;
use image_uploader::gallery::upload_url;
use image_uploader::gallery::ExtendedLocation;
use image_uploader::gallery::ImageUploadRequest;
use image_uploader::gallery::Properties;
use image_uploader::storage::StorageLocation;

fn config() -> Config {
    Config {
        token: "secret".to_string(),
        image_path: "C:\\images\\disk.vhdx".to_string(),
        container_id: "container-0".to_string(),
        location: "westeurope".to_string(),
        extended_location_name: "location-0".to_string(),
        subscription: "sub-1".to_string(),
        resource_group: "group-0".to_string(),
        image_name: "img".to_string(),
        os_type: "Linux".to_string(),
        overwrite: false,
    }
}

fn build(values: [&str; 9], overwrite: bool) -> Result<Config, ConfigError> {
    Config::build(
        values[0].to_string(),
        values[1].to_string(),
        values[2].to_string(),
        values[3].to_string(),
        values[4].to_string(),
        values[5].to_string(),
        values[6].to_string(),
        values[7].to_string(),
        values[8].to_string(),
        overwrite,
    )
}

const VALUES: [&str; 9] = [
    "secret",
    "C:\\images\\disk.vhdx",
    "container-0",
    "westeurope",
    "location-0",
    "sub-1",
    "group-0",
    "img",
    "Linux",
];

#[test]
fn build_keeps_the_values_given() {
    assert_eq!(build(VALUES, false), Ok(config()));
    let mut with_overwrite = config();
    with_overwrite.overwrite = true;
    assert_eq!(build(VALUES, true), Ok(with_overwrite));
}

#[test]
fn build_names_each_missing_parameter() {
    let parameters = [
        Parameter::Token,
        Parameter::ImagePath,
        Parameter::ContainerId,
        Parameter::Location,
        Parameter::ExtendedLocationName,
        Parameter::Subscription,
        Parameter::ResourceGroup,
        Parameter::ImageName,
        Parameter::OsType,
    ];
    for (i, parameter) in parameters.iter().enumerate() {
        let mut values = VALUES;
        values[i] = "";
        assert_eq!(build(values, false), Err(ConfigError::Missing(*parameter)));
    }
}

#[test]
fn build_names_the_first_missing_parameter() {
    let mut values = VALUES;
    values[3] = "";
    values[7] = "";
    assert_eq!(build(values, false), Err(ConfigError::Missing(Parameter::Location)));
    assert_eq!(build([""; 9], true), Err(ConfigError::Missing(Parameter::Token)));
}

#[test]
fn upload_request_joins_configuration_and_location() {
    let place = StorageLocation {
        cluster: "/subscriptions/s/resourceGroups/rg1/providers/p/customLocations/cl1".to_string(),
        container_id: "c-1".to_string(),
    };
    assert_eq!(
        upload_request(&config(), &place),
        ImageUploadRequest {
            location: "westeurope".to_string(),
            extended_location: ExtendedLocation {
                kind: "CustomLocation".to_string(),
                name: "/subscriptions/s/resourceGroups/rg1/providers/p/customLocations/cl1"
                    .to_string(),
            },
            properties: Properties {
                image_path: "C:\\images\\disk.vhdx".to_string(),
                container_id: "c-1".to_string(),
                os_type: "Linux".to_string(),
            },
        }
    );
}

#[test]
fn upload_url_names_group_and_composite_image() {
    let place = StorageLocation {
        cluster: "/subscriptions/s/resourceGroups/rg1/providers/p/customLocations/cl1".to_string(),
        container_id: "c-1".to_string(),
    };
    assert_eq!(
        upload_url(&config(), &place),
        "https://management.azure.com/subscriptions/sub-1/resourceGroups/rg1/providers/Microsoft.AzureStackHCI/galleryImages/cl1--img?api-version=2024-01-01"
    );
}

#[test]
fn upload_url_of_a_path_without_keys_has_empty_segments() {
    let place =
        StorageLocation { cluster: "somewhere".to_string(), container_id: "c-1".to_string() };
    assert_eq!(
        upload_url(&config(), &place),
        "https://management.azure.com/subscriptions/sub-1/resourceGroups//providers/Microsoft.AzureStackHCI/galleryImages/--img?api-version=2024-01-01"
    );
}

#[test]
fn images_url_names_the_subscription() {
    assert_eq!(
        list_images_url(&config()),
        "https://management.azure.com/subscriptions/sub-1/providers/Microsoft.AzureStackHCI/galleryImages?api-version=2024-01-01"
    );
}

#[test]
fn authorization_header_carries_the_token() {
    assert_eq!(authorization_header(&config()), "Bearer secret");
}
