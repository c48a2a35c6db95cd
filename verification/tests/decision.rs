use image_uploader::config::Config;
use image_uploader::gallery::ExtendedLocation;
use image_uploader::gallery::GalleryImage;
use image_uploader::helper::image_exists_on_cluster;
use image_uploader::reconcile::choose_action;
use image_uploader::reconcile::composite_image_name;
use image_uploader::reconcile::decide;
use image_uploader::reconcile::plan_uploads;
use image_uploader::reconcile::UploadAction;
use image_uploader::reconcile::UploadDecision;
use image_uploader::storage::get_unique_storage_locations;
use image_uploader::storage::StorageContainer;
use image_uploader::storage::StorageLocation;

fn config(image_name: &str, overwrite: bool) -> Config {
    Config {
        token: "secret".to_string(),
        image_path: "C:\\images\\disk.vhdx".to_string(),
        container_id: "unused".to_string(),
        location: "westeurope".to_string(),
        extended_location_name: "unused".to_string(),
        subscription: "sub-1".to_string(),
        resource_group: "unused".to_string(),
        image_name: image_name.to_string(),
        os_type: "Linux".to_string(),
        overwrite,
    }
}

fn image(name: &str, cluster: &str) -> GalleryImage {
    GalleryImage {
        name: name.to_string(),
        extended_location: ExtendedLocation {
            kind: "CustomLocation".to_string(),
            name: cluster.to_string(),
        },
    }
}

fn location(cluster: &str, id: &str) -> StorageLocation {
    StorageLocation { cluster: cluster.to_string(), container_id: id.to_string() }
}

fn container(id: &str, cluster: &str) -> StorageContainer {
    StorageContainer {
        id: id.to_string(),
        name: "n".to_string(),
        kind: "k".to_string(),
        location: "westeurope".to_string(),
        extended_location: image_uploader::storage::ExtendedLocation {
            name: cluster.to_string(),
            kind: "CustomLocation".to_string(),
        },
        properties: image_uploader::storage::Properties {
            provisioning_state: "Succeeded".to_string(),
            path: "p".to_string(),
        },
    }
}

const CL1: &str = "/subscriptions/x/resourceGroups/rg1/providers/p/customLocations/cl1";
const CL2: &str = "/subscriptions/x/resourceGroups/rg1/providers/p/customLocations/cl2";

#[test]
fn composite_name_joins_with_two_hyphens() {
    assert_eq!(composite_image_name("cl1", "img"), "cl1--img");
}

#[test]
fn composite_name_of_empty_cluster_starts_with_hyphens() {
    assert_eq!(composite_image_name("", "img"), "--img");
    assert_eq!(composite_image_name("cl1", ""), "cl1--");
}

#[test]
fn action_table() {
    assert_eq!(choose_action(false, false), UploadAction::Upload);
    assert_eq!(choose_action(false, true), UploadAction::Upload);
    assert_eq!(choose_action(true, false), UploadAction::Skip);
    assert_eq!(choose_action(true, true), UploadAction::Upload);
}

#[test]
fn image_on_its_cluster_exists() {
    let images = vec![image("cl1--img", CL1)];
    assert!(image_exists_on_cluster(&"cl1--img".to_string(), &"cl1".to_string(), &images));
}

#[test]
fn image_of_another_name_does_not_exist() {
    let images = vec![image("cl1--other", CL1)];
    assert!(!image_exists_on_cluster(&"cl1--img".to_string(), &"cl1".to_string(), &images));
}

#[test]
fn image_on_another_cluster_does_not_exist() {
    let images = vec![image("cl1--img", CL2)];
    assert!(!image_exists_on_cluster(&"cl1--img".to_string(), &"cl1".to_string(), &images));
}

#[test]
fn empty_gallery_holds_no_image() {
    assert!(!image_exists_on_cluster(&"cl1--img".to_string(), &"cl1".to_string(), &Vec::new()));
}

#[test]
fn image_is_found_anywhere_in_the_gallery() {
    let images =
        vec![image("a", CL2), image("cl1--img", CL2), image("cl1--img", CL1), image("b", CL1)];
    assert!(image_exists_on_cluster(&"cl1--img".to_string(), &"cl1".to_string(), &images));
    let images = vec![image("cl1--img", CL1), image("a", CL2)];
    assert!(image_exists_on_cluster(&"cl1--img".to_string(), &"cl1".to_string(), &images));
}

#[test]
fn image_names_are_compared_exactly() {
    let images = vec![image("CL1--IMG", CL1)];
    assert!(!image_exists_on_cluster(&"cl1--img".to_string(), &"cl1".to_string(), &images));
}

#[test]
fn cluster_short_names_are_compared_exactly() {
    let images = vec![image("cl1--img", "/x/customLocations/CL1")];
    assert!(!image_exists_on_cluster(&"cl1--img".to_string(), &"cl1".to_string(), &images));
}

#[test]
fn image_without_cluster_counts_for_the_empty_cluster_name() {
    let images = vec![image("--img", "/no/cluster/here")];
    assert!(image_exists_on_cluster(&"--img".to_string(), &String::new(), &images));
    assert!(!image_exists_on_cluster(&"--img".to_string(), &"cl1".to_string(), &images));
}

#[test]
fn existing_image_without_overwrite_is_skipped() {
    let images = vec![image("cl1--img", CL1)];
    let decision = decide(&location(CL1, "c-1"), &images, &config("img", false));
    assert_eq!(
        decision,
        UploadDecision {
            composite_image_name: "cl1--img".to_string(),
            image_exists: true,
            action: UploadAction::Skip,
        }
    );
}

#[test]
fn existing_image_with_overwrite_is_uploaded() {
    let images = vec![image("cl1--img", CL1)];
    let decision = decide(&location(CL1, "c-1"), &images, &config("img", true));
    assert_eq!(
        decision,
        UploadDecision {
            composite_image_name: "cl1--img".to_string(),
            image_exists: true,
            action: UploadAction::Upload,
        }
    );
}

#[test]
fn name_collision_on_another_cluster_is_uploaded() {
    let images = vec![image("cl1--img", CL2)];
    let decision = decide(&location(CL1, "c-1"), &images, &config("img", false));
    assert_eq!(
        decision,
        UploadDecision {
            composite_image_name: "cl1--img".to_string(),
            image_exists: false,
            action: UploadAction::Upload,
        }
    );
}

#[test]
fn missing_image_is_uploaded() {
    let decision = decide(&location(CL1, "c-1"), &Vec::new(), &config("img", false));
    assert_eq!(decision.action, UploadAction::Upload);
    assert!(!decision.image_exists);
}

#[test]
fn location_without_cluster_segment_gets_an_odd_name() {
    let decision = decide(&location("/no/cluster", "c-1"), &Vec::new(), &config("img", false));
    assert_eq!(decision.composite_image_name, "--img");
    assert_eq!(decision.action, UploadAction::Upload);
}

#[test]
fn plan_has_one_decision_per_location() {
    let locations = vec![location(CL1, "c-1"), location(CL2, "c-2"), location(CL1, "c-3")];
    let images = vec![image("cl2--img", CL2)];
    let plan = plan_uploads(&locations, &images, &config("img", false));
    assert_eq!(plan.len(), 3);
    assert_eq!(plan[0].action, UploadAction::Upload);
    assert_eq!(plan[1].action, UploadAction::Skip);
    assert_eq!(plan[2].action, UploadAction::Upload);
    for (decision, place) in plan.iter().zip(locations.iter()) {
        assert_eq!(*decision, decide(place, &images, &config("img", false)));
    }
}

#[test]
fn plan_of_no_locations_is_empty() {
    let plan = plan_uploads(&Vec::new(), &vec![image("cl1--img", CL1)], &config("img", false));
    assert!(plan.is_empty());
}

#[test]
fn end_to_end_scenario() {
    let containers = vec![
        container("c-1", "/subscriptions/s/resourceGroups/rg/providers/p/customLocations/cl1"),
        container("c-2", "/subscriptions/s/resourceGroups/rg/providers/p/customLocations/cl2"),
    ];
    let images = vec![image(
        "cl1--myimg",
        "/subscriptions/s/resourceGroups/rg/providers/p/customLocations/cl1",
    )];
    let config = config("myimg", false);
    let locations = get_unique_storage_locations(containers);
    assert_eq!(locations.len(), 2);
    let plan = plan_uploads(&locations, &images, &config);
    assert_eq!(plan.len(), 2);
    for (place, decision) in locations.iter().zip(plan.iter()) {
        if place.container_id == "c-1" {
            assert_eq!(decision.composite_image_name, "cl1--myimg");
            assert!(decision.image_exists);
            assert_eq!(decision.action, UploadAction::Skip);
        } else {
            assert_eq!(place.container_id, "c-2");
            assert_eq!(decision.composite_image_name, "cl2--myimg");
            assert!(!decision.image_exists);
            assert_eq!(decision.action, UploadAction::Upload);
        }
    }
}
