use image_uploader::config::Config;
use image_uploader::gallery::GalleryImage;
use image_uploader::gallery::ImageUploadRequest;
use image_uploader::run::Action;
use image_uploader::run::Event;
use image_uploader::run::Listing;
use image_uploader::run::Outcome;
use image_uploader::run::Phase;
use image_uploader::run::Run;
use image_uploader::run::UploadFailure;
use image_uploader::storage::StorageContainer;

fn config(image_name: &str, overwrite: bool) -> Config {
    Config {
        token: "secret".to_string(),
        image_path: "C:\\images\\disk.vhdx".to_string(),
        container_id: "unused".to_string(),
        location: "westeurope".to_string(),
        extended_location_name: "unused".to_string(),
        subscription: "sub-1".to_string(),
        resource_group: "unused".to_string(),
        image_name: image_name.to_string(),
        os_type: "Linux".to_string(),
        overwrite,
    }
}

fn cluster(name: &str) -> String {
    format!("/subscriptions/s/resourceGroups/rg-{}/providers/p/customLocations/{}", name, name)
}

fn container(id: &str, cluster_name: &str) -> StorageContainer {
    StorageContainer {
        id: id.to_string(),
        name: "n".to_string(),
        kind: "k".to_string(),
        location: "westeurope".to_string(),
        extended_location: image_uploader::storage::ExtendedLocation {
            name: cluster(cluster_name),
            kind: "CustomLocation".to_string(),
        },
        properties: image_uploader::storage::Properties {
            provisioning_state: "Succeeded".to_string(),
            path: "p".to_string(),
        },
    }
}

fn image(name: &str, cluster_name: &str) -> GalleryImage {
    GalleryImage {
        name: name.to_string(),
        extended_location: image_uploader::gallery::ExtendedLocation {
            kind: "CustomLocation".to_string(),
            name: cluster(cluster_name),
        },
    }
}

fn upload(cluster_name: &str, container_id: &str, image_name: &str) -> Action {
    Action::Upload {
        url: format!(
            "https://management.azure.com/subscriptions/sub-1/resourceGroups/rg-{}/providers/Microsoft.AzureStackHCI/galleryImages/{}--{}?api-version=2024-01-01",
            cluster_name, cluster_name, image_name
        ),
        authorization: "Bearer secret".to_string(),
        request: ImageUploadRequest {
            location: "westeurope".to_string(),
            extended_location: image_uploader::gallery::ExtendedLocation {
                kind: "CustomLocation".to_string(),
                name: cluster(cluster_name),
            },
            properties: image_uploader::gallery::Properties {
                image_path: "C:\\images\\disk.vhdx".to_string(),
                container_id: container_id.to_string(),
                os_type: "Linux".to_string(),
            },
        },
        cluster_name: cluster_name.to_string(),
        image_name: format!("{}--{}", cluster_name, image_name),
    }
}

/// Feeds the events to a new run, and returns the run with the actions it asked for.
fn drive(config: Config, events: Vec<Event>) -> (Run, Vec<Action>) {
    let mut run = Run::new(config);
    let mut actions = Vec::new();
    for event in events {
        let (next, action) = run.step(event);
        run = next;
        actions.push(action);
    }
    (run, actions)
}

#[test]
fn new_run_is_idle() {
    assert_eq!(Run::new(config("img", false)).phase(), Phase::Idle);
}

#[test]
fn run_begins_with_the_container_listing() {
    let (run, actions) = drive(config("img", false), vec![Event::Started]);
    assert_eq!(run.phase(), Phase::ListingContainers);
    assert_eq!(
        actions,
        vec![Action::ListStorageContainers {
            url: "https://management.azure.com/subscriptions/sub-1/providers/Microsoft.AzureStackHCI/storageContainers?api-version=2024-01-01".to_string(),
            authorization: "Bearer secret".to_string(),
        }]
    );
}

#[test]
fn images_are_listed_after_the_containers() {
    let (run, actions) = drive(
        config("img", false),
        vec![Event::Started, Event::ContainersListed(vec![container("c-1", "cl1")])],
    );
    assert_eq!(run.phase(), Phase::ListingImages);
    assert_eq!(
        actions[1],
        Action::ListGalleryImages {
            url: "https://management.azure.com/subscriptions/sub-1/providers/Microsoft.AzureStackHCI/galleryImages?api-version=2024-01-01".to_string(),
            authorization: "Bearer secret".to_string(),
        }
    );
}

#[test]
fn run_skips_the_cluster_that_has_the_image_and_uploads_to_the_other() {
    let (run, actions) = drive(
        config("myimg", false),
        vec![
            Event::Started,
            Event::ContainersListed(vec![container("c-1", "cl1"), container("c-2", "cl2")]),
            Event::ImagesListed(vec![image("cl1--myimg", "cl1")]),
            Event::Skipped,
            Event::UploadSucceeded,
        ],
    );
    assert_eq!(run.phase(), Phase::Finished);
    assert_eq!(actions.len(), 5);
    assert_eq!(actions[2], Action::Skip { image_name: "cl1--myimg".to_string() });
    assert_eq!(actions[3], upload("cl2", "c-2", "myimg"));
    assert_eq!(
        actions[4],
        Action::Finish(Outcome::Completed { uploaded: 1, skipped: 1, failures: Vec::new() })
    );
}

#[test]
fn run_uploads_again_when_overwrite_is_set() {
    let (_, actions) = drive(
        config("myimg", true),
        vec![
            Event::Started,
            Event::ContainersListed(vec![container("c-1", "cl1")]),
            Event::ImagesListed(vec![image("cl1--myimg", "cl1")]),
            Event::UploadSucceeded,
        ],
    );
    assert_eq!(actions[2], upload("cl1", "c-1", "myimg"));
    assert_eq!(
        actions[3],
        Action::Finish(Outcome::Completed { uploaded: 1, skipped: 0, failures: Vec::new() })
    );
}

#[test]
fn run_uploads_on_a_name_collision_across_clusters() {
    let (_, actions) = drive(
        config("img", false),
        vec![
            Event::Started,
            Event::ContainersListed(vec![container("c-1", "cl1")]),
            Event::ImagesListed(vec![image("cl1--img", "cl2")]),
        ],
    );
    assert_eq!(actions[2], upload("cl1", "c-1", "img"));
}

#[test]
fn run_uploads_once_per_cluster_to_the_last_container() {
    let (run, actions) = drive(
        config("img", false),
        vec![
            Event::Started,
            Event::ContainersListed(vec![
                container("c-1", "cl1"),
                container("c-2", "cl2"),
                container("c-3", "cl1"),
            ]),
            Event::ImagesListed(Vec::new()),
            Event::UploadSucceeded,
            Event::UploadSucceeded,
        ],
    );
    assert_eq!(run.phase(), Phase::Finished);
    assert_eq!(actions[2], upload("cl1", "c-3", "img"));
    assert_eq!(actions[3], upload("cl2", "c-2", "img"));
    assert_eq!(
        actions[4],
        Action::Finish(Outcome::Completed { uploaded: 2, skipped: 0, failures: Vec::new() })
    );
}

#[test]
fn failed_upload_does_not_stop_the_run() {
    let (run, actions) = drive(
        config("img", false),
        vec![
            Event::Started,
            Event::ContainersListed(vec![
                container("c-1", "cl1"),
                container("c-2", "cl2"),
                container("c-3", "cl3"),
            ]),
            Event::ImagesListed(vec![image("cl3--img", "cl3")]),
            Event::UploadFailed("409 Conflict".to_string()),
            Event::UploadSucceeded,
            Event::Skipped,
        ],
    );
    assert_eq!(run.phase(), Phase::Finished);
    assert_eq!(actions[2], upload("cl1", "c-1", "img"));
    assert_eq!(actions[3], upload("cl2", "c-2", "img"));
    assert_eq!(actions[4], Action::Skip { image_name: "cl3--img".to_string() });
    let outcome = Outcome::Completed {
        uploaded: 1,
        skipped: 1,
        failures: vec![UploadFailure {
            cluster: cluster("cl1"),
            image_name: "cl1--img".to_string(),
            message: "409 Conflict".to_string(),
        }],
    };
    assert!(!outcome.is_success());
    assert_eq!(actions[5], Action::Finish(outcome));
}

#[test]
fn failed_container_listing_ends_the_run() {
    let (run, actions) = drive(
        config("img", false),
        vec![Event::Started, Event::ListingFailed("401 Unauthorized".to_string())],
    );
    assert_eq!(run.phase(), Phase::Finished);
    assert_eq!(
        actions[1],
        Action::Finish(Outcome::ListingFailed {
            listing: Listing::StorageContainers,
            message: "401 Unauthorized".to_string(),
        })
    );
}

#[test]
fn failed_image_listing_ends_the_run_before_any_upload() {
    let (run, actions) = drive(
        config("img", false),
        vec![
            Event::Started,
            Event::ContainersListed(vec![container("c-1", "cl1")]),
            Event::ListingFailed("503 Service Unavailable".to_string()),
        ],
    );
    assert_eq!(run.phase(), Phase::Finished);
    assert_eq!(actions.len(), 3);
    assert_eq!(
        actions[2],
        Action::Finish(Outcome::ListingFailed {
            listing: Listing::GalleryImages,
            message: "503 Service Unavailable".to_string(),
        })
    );
}

#[test]
fn run_without_containers_completes_at_once() {
    let (run, actions) = drive(
        config("img", false),
        vec![
            Event::Started,
            Event::ContainersListed(Vec::new()),
            Event::ImagesListed(vec![image("cl1--img", "cl1")]),
        ],
    );
    assert_eq!(run.phase(), Phase::Finished);
    let outcome = Outcome::Completed { uploaded: 0, skipped: 0, failures: Vec::new() };
    assert!(outcome.is_success());
    assert_eq!(actions[2], Action::Finish(outcome));
}

#[test]
fn outcome_succeeds_only_without_failures() {
    assert!(Outcome::Completed { uploaded: 3, skipped: 2, failures: Vec::new() }.is_success());
    let failure = UploadFailure {
        cluster: cluster("cl1"),
        image_name: "cl1--img".to_string(),
        message: "500".to_string(),
    };
    assert!(!Outcome::Completed { uploaded: 3, skipped: 2, failures: vec![failure] }.is_success());
    let listing_failed =
        Outcome::ListingFailed { listing: Listing::GalleryImages, message: "500".to_string() };
    assert!(!listing_failed.is_success());
    assert!(!Outcome::OutOfTurn.is_success());
}

#[test]
fn report_before_the_start_is_out_of_turn() {
    for event in [
        Event::ContainersListed(Vec::new()),
        Event::ImagesListed(Vec::new()),
        Event::ListingFailed("500".to_string()),
        Event::UploadSucceeded,
        Event::UploadFailed("500".to_string()),
        Event::Skipped,
    ] {
        let (run, actions) = drive(config("img", false), vec![event]);
        assert_eq!(run.phase(), Phase::Finished);
        assert_eq!(actions, vec![Action::Finish(Outcome::OutOfTurn)]);
    }
}

#[test]
fn second_start_is_out_of_turn() {
    let (run, actions) = drive(config("img", false), vec![Event::Started, Event::Started]);
    assert_eq!(run.phase(), Phase::Finished);
    assert_eq!(actions[1], Action::Finish(Outcome::OutOfTurn));
}

#[test]
fn images_before_containers_are_out_of_turn() {
    let (_, actions) =
        drive(config("img", false), vec![Event::Started, Event::ImagesListed(Vec::new())]);
    assert_eq!(actions[1], Action::Finish(Outcome::OutOfTurn));
}

#[test]
fn upload_report_for_a_skip_is_out_of_turn() {
    for event in [Event::UploadSucceeded, Event::UploadFailed("500".to_string())] {
        let (run, actions) = drive(
            config("img", false),
            vec![
                Event::Started,
                Event::ContainersListed(vec![container("c-1", "cl1")]),
                Event::ImagesListed(vec![image("cl1--img", "cl1")]),
                event,
            ],
        );
        assert_eq!(run.phase(), Phase::Finished);
        assert_eq!(actions[2], Action::Skip { image_name: "cl1--img".to_string() });
        assert_eq!(actions[3], Action::Finish(Outcome::OutOfTurn));
    }
}

#[test]
fn skip_report_for_an_upload_is_out_of_turn() {
    let (run, actions) = drive(
        config("img", false),
        vec![
            Event::Started,
            Event::ContainersListed(vec![container("c-1", "cl1")]),
            Event::ImagesListed(Vec::new()),
            Event::Skipped,
        ],
    );
    assert_eq!(run.phase(), Phase::Finished);
    assert_eq!(actions[3], Action::Finish(Outcome::OutOfTurn));
}

#[test]
fn listing_report_while_uploading_is_out_of_turn() {
    let (_, actions) = drive(
        config("img", false),
        vec![
            Event::Started,
            Event::ContainersListed(vec![container("c-1", "cl1")]),
            Event::ImagesListed(Vec::new()),
            Event::ListingFailed("500".to_string()),
        ],
    );
    assert_eq!(actions[3], Action::Finish(Outcome::OutOfTurn));
}

#[test]
fn every_report_after_the_end_is_out_of_turn() {
    let (run, actions) = drive(
        config("img", false),
        vec![
            Event::Started,
            Event::ContainersListed(Vec::new()),
            Event::ImagesListed(Vec::new()),
            Event::Started,
            Event::UploadSucceeded,
        ],
    );
    assert_eq!(run.phase(), Phase::Finished);
    assert_eq!(
        actions[2],
        Action::Finish(Outcome::Completed { uploaded: 0, skipped: 0, failures: Vec::new() })
    );
    assert_eq!(actions[3], Action::Finish(Outcome::OutOfTurn));
    assert_eq!(actions[4], Action::Finish(Outcome::OutOfTurn));
}

#[test]
fn failures_are_recorded_in_the_order_of_their_locations() {
    let (_, actions) = drive(
        config("img", false),
        vec![
            Event::Started,
            Event::ContainersListed(vec![
                container("c-1", "cl1"),
                container("c-2", "cl2"),
                container("c-3", "cl3"),
            ]),
            Event::ImagesListed(Vec::new()),
            Event::UploadFailed("first".to_string()),
            Event::UploadSucceeded,
            Event::UploadFailed("second".to_string()),
        ],
    );
    assert_eq!(actions[4], upload("cl3", "c-3", "img"));
    assert_eq!(
        actions[5],
        Action::Finish(Outcome::Completed {
            uploaded: 1,
            skipped: 0,
            failures: vec![
                UploadFailure {
                    cluster: cluster("cl1"),
                    image_name: "cl1--img".to_string(),
                    message: "first".to_string(),
                },
                UploadFailure {
                    cluster: cluster("cl3"),
                    image_name: "cl3--img".to_string(),
                    message: "second".to_string(),
                },
            ],
        })
    );
}
