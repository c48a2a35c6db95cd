//! One run, step by step. The library says what is to be done next; the caller does
//! it, and reports back what came of it.
//!
//! A run lists the storage containers, then the gallery images, and only then decides:
//! each storage location in turn is uploaded to or skipped. A listing that fails ends
//! the run before anything is decided. An upload that fails is counted, and the run
//! goes on with the next location.

use crate::config::Config;
use crate::config::ConfigView;
use crate::gallery::authorization_header;
use crate::gallery::bearer_for;
use crate::gallery::list_images_url;
use crate::gallery::list_images_url_for;
use crate::gallery::upload_request;
use crate::gallery::upload_request_for;
use crate::gallery::upload_url;
use crate::gallery::upload_url_for;
use crate::gallery::GalleryImage;
use crate::gallery::GalleryImageView;
use crate::gallery::ImageUploadRequest;
use crate::gallery::ImageUploadRequestView;
use crate::helper::cluster_name_or_default;
use crate::helper::cluster_name_or_empty;
use crate::reconcile::plan_for;
use crate::reconcile::plan_uploads;
use crate::reconcile::UploadAction;
use crate::reconcile::UploadDecision;
use crate::reconcile::UploadDecisionView;
use crate::storage::get_unique_storage_locations;
use crate::storage::is_deduplication_of;
use crate::storage::lemma_deduplication_unique;
use crate::storage::list_storage_containers_url;
use crate::storage::list_storage_containers_url_for;
use crate::storage::StorageContainer;
use crate::storage::StorageContainerView;
use crate::storage::StorageLocation;
use crate::storage::StorageLocationView;
use vstd::prelude::*;

verus! {

/// Where a run stands.
#[derive(Debug, Clone, Copy, PartialEq, Eq, Structural)]
pub enum Phase {
    /// Nothing has been asked for yet.
    Idle,
    /// The listing of storage containers is awaited.
    ListingContainers,
    /// The storage locations are known, and the listing of gallery images is awaited.
    ListingImages,
    /// The locations are dealt with in turn; the report on one of them is awaited.
    Reconciling,
    /// The run is over.
    Finished,
}

/// One of the two listings that a run asks for.
#[derive(Debug, Clone, Copy, PartialEq, Eq, Structural)]
pub enum Listing {
    StorageContainers,
    GalleryImages,
}

/// An upload that failed: where it was to go, and what the remote side said.
#[derive(Debug, Clone, PartialEq, Eq)]
pub struct UploadFailure {
    /// The resource path of the cluster.
    pub cluster: String,
    /// The composite name of the image.
    pub image_name: String,
    /// What was reported of the failure.
    pub message: String,
}

/// A failed upload as plain texts.
pub struct UploadFailureView {
    pub cluster: Seq<char>,
    pub image_name: Seq<char>,
    pub message: Seq<char>,
}

impl View for UploadFailure {
    type V = UploadFailureView;

    open spec fn view(&self) -> UploadFailureView {
        UploadFailureView {
            cluster: self.cluster@,
            image_name: self.image_name@,
            message: self.message@,
        }
    }
}

impl DeepView for UploadFailure {
    type V = UploadFailureView;

    open spec fn deep_view(&self) -> UploadFailureView {
        self@
    }
}

/// How a run ended.
#[derive(Debug, Clone, PartialEq, Eq)]
pub enum Outcome {
    /// Every location was dealt with.
    Completed {
        /// The number of uploads that succeeded.
        uploaded: usize,
        /// The number of locations that had the image already.
        skipped: usize,
        /// The uploads that failed, in the order of their locations.
        failures: Vec<UploadFailure>,
    },
    /// A listing failed, so nothing was decided and nothing uploaded.
    ListingFailed {
        listing: Listing,
        /// What was reported of the failure.
        message: String,
    },
    /// The caller reported something that it had not been asked for.
    OutOfTurn,
}

/// An outcome as plain values.
pub enum OutcomeView {
    Completed { uploaded: nat, skipped: nat, failures: Seq<UploadFailureView> },
    ListingFailed { listing: Listing, message: Seq<char> },
    OutOfTurn,
}

impl OutcomeView {
    /// A run succeeds when it dealt with every location and no upload failed.
    pub open spec fn succeeded(self) -> bool {
        match self {
            OutcomeView::Completed { uploaded, skipped, failures } => failures.len() == 0,
            OutcomeView::ListingFailed { listing, message } => false,
            OutcomeView::OutOfTurn => false,
        }
    }
}

impl View for Outcome {
    type V = OutcomeView;

    open spec fn view(&self) -> OutcomeView {
        match self {
            Outcome::Completed { uploaded, skipped, failures } => OutcomeView::Completed {
                uploaded: *uploaded as nat,
                skipped: *skipped as nat,
                failures: failures.deep_view(),
            },
            Outcome::ListingFailed { listing, message } => OutcomeView::ListingFailed {
                listing: *listing,
                message: message@,
            },
            Outcome::OutOfTurn => OutcomeView::OutOfTurn,
        }
    }
}

impl Outcome {
    /// Whether the run dealt with every location without a failed upload.
    pub fn is_success(&self) -> (success: bool)
        ensures
            success == self@.succeeded(),
    {
        match self {
            Outcome::Completed { uploaded, skipped, failures } => {
                assert(failures.deep_view().len() == failures.len());
                failures.len() == 0
            },
            Outcome::ListingFailed { listing, message } => false,
            Outcome::OutOfTurn => false,
        }
    }
}

/// What the caller reports back.
#[derive(Debug, Clone, PartialEq, Eq)]
pub enum Event {
    /// The run is to begin.
    Started,
    /// The storage containers were listed.
    ContainersListed(Vec<StorageContainer>),
    /// The gallery images were listed.
    ImagesListed(Vec<GalleryImage>),
    /// The listing that was asked for failed; the text says how.
    ListingFailed(String),
    /// The upload that was asked for succeeded.
    UploadSucceeded,
    /// The upload that was asked for failed; the text says how.
    UploadFailed(String),
    /// The skip was taken note of.
    Skipped,
}

/// A report with its listing as a sequence of plain records.
pub enum EventView {
    Started,
    ContainersListed(Seq<StorageContainerView>),
    ImagesListed(Seq<GalleryImageView>),
    ListingFailed(Seq<char>),
    UploadSucceeded,
    UploadFailed(Seq<char>),
    Skipped,
}

impl View for Event {
    type V = EventView;

    open spec fn view(&self) -> EventView {
        match self {
            Event::Started => EventView::Started,
            Event::ContainersListed(containers) => EventView::ContainersListed(
                containers.deep_view(),
            ),
            Event::ImagesListed(images) => EventView::ImagesListed(images.deep_view()),
            Event::ListingFailed(message) => EventView::ListingFailed(message@),
            Event::UploadSucceeded => EventView::UploadSucceeded,
            Event::UploadFailed(message) => EventView::UploadFailed(message@),
            Event::Skipped => EventView::Skipped,
        }
    }
}

/// What the caller is asked to do next.
#[derive(Debug, Clone, PartialEq, Eq)]
pub enum Action {
    /// List the storage containers, and report `ContainersListed` or `ListingFailed`.
    ListStorageContainers { url: String, authorization: String },
    /// List the gallery images, and report `ImagesListed` or `ListingFailed`.
    ListGalleryImages { url: String, authorization: String },
    /// Send the upload, and report `UploadSucceeded` or `UploadFailed`.
    Upload {
        url: String,
        authorization: String,
        request: ImageUploadRequest,
        /// The short name of the cluster that the upload goes to.
        cluster_name: String,
        /// The composite name of the image.
        image_name: String,
    },
    /// Send nothing: the cluster has the image. Report `Skipped`.
    Skip {
        /// The composite name of the image.
        image_name: String,
    },
    /// The run is over.
    Finish(Outcome),
}

/// An action with its texts as plain texts.
pub enum ActionView {
    ListStorageContainers { url: Seq<char>, authorization: Seq<char> },
    ListGalleryImages { url: Seq<char>, authorization: Seq<char> },
    Upload {
        url: Seq<char>,
        authorization: Seq<char>,
        request: ImageUploadRequestView,
        cluster_name: Seq<char>,
        image_name: Seq<char>,
    },
    Skip { image_name: Seq<char> },
    Finish(OutcomeView),
}

impl View for Action {
    type V = ActionView;

    open spec fn view(&self) -> ActionView {
        match self {
            Action::ListStorageContainers { url, authorization } => {
                ActionView::ListStorageContainers { url: url@, authorization: authorization@ }
            },
            Action::ListGalleryImages { url, authorization } => ActionView::ListGalleryImages {
                url: url@,
                authorization: authorization@,
            },
            Action::Upload { url, authorization, request, cluster_name, image_name } => {
                ActionView::Upload {
                    url: url@,
                    authorization: authorization@,
                    request: request@,
                    cluster_name: cluster_name@,
                    image_name: image_name@,
                }
            },
            Action::Skip { image_name } => ActionView::Skip { image_name: image_name@ },
            Action::Finish(outcome) => ActionView::Finish(outcome@),
        }
    }
}

/// The state of a run.
pub struct RunView {
    pub config: ConfigView,
    pub phase: Phase,
    /// The storage locations, once the containers are listed.
    pub locations: Seq<StorageLocationView>,
    /// The decision for each location, once the images are listed.
    pub plan: Seq<UploadDecisionView>,
    /// The number of locations that are dealt with.
    pub position: nat,
    /// The number of uploads that succeeded.
    pub uploaded: nat,
    /// The number of locations that were skipped.
    pub skipped: nat,
    /// The uploads that failed.
    pub failures: Seq<UploadFailureView>,
}

impl RunView {
    /// The state of a run that has not begun.
    pub open spec fn idle(config: ConfigView) -> RunView {
        RunView {
            config,
            phase: Phase::Idle,
            locations: Seq::empty(),
            plan: Seq::empty(),
            position: 0,
            uploaded: 0,
            skipped: 0,
            failures: Seq::empty(),
        }
    }

    /// Every location that is dealt with was uploaded to, skipped or failed; and while
    /// locations are dealt with, there is a decision for each and one of them is next.
    pub open spec fn well_formed(self) -> bool {
        &&& self.uploaded + self.skipped + self.failures.len() == self.position
        &&& self.position <= self.locations.len()
        &&& self.phase == Phase::Reconciling ==> self.plan.len() == self.locations.len()
            && self.position < self.locations.len()
    }

    /// The outcome of a run that dealt with every location.
    pub open spec fn completed(self) -> OutcomeView {
        OutcomeView::Completed {
            uploaded: self.uploaded,
            skipped: self.skipped,
            failures: self.failures,
        }
    }

    /// The run turns to the location at `position`, or ends where there is none.
    pub open spec fn turned_to(self, position: nat) -> (RunView, ActionView) {
        if position < self.locations.len() && position < self.plan.len() {
            (
                RunView { phase: Phase::Reconciling, position, ..self },
                location_action(
                    self.config,
                    self.locations[position as int],
                    self.plan[position as int],
                ),
            )
        } else {
            let end = RunView { phase: Phase::Finished, position, ..self };
            (end, ActionView::Finish(end.completed()))
        }
    }

    /// The run ends at once.
    pub open spec fn ended(self, outcome: OutcomeView) -> (RunView, ActionView) {
        (RunView { phase: Phase::Finished, ..self }, ActionView::Finish(outcome))
    }

    /// The decision for the location that is next.
    pub open spec fn pending(self) -> UploadAction {
        self.plan[self.position as int].action
    }

    /// The record of a failed upload to the location that is next.
    pub open spec fn failure(self, message: Seq<char>) -> UploadFailureView {
        UploadFailureView {
            cluster: self.locations[self.position as int].cluster,
            image_name: self.plan[self.position as int].composite_image_name,
            message,
        }
    }
}

/// What is asked for a location: the upload, with everything that is sent, or the skip.
pub open spec fn location_action(
    config: ConfigView,
    location: StorageLocationView,
    decision: UploadDecisionView,
) -> ActionView {
    match decision.action {
        UploadAction::Upload => ActionView::Upload {
            url: upload_url_for(config, location),
            authorization: bearer_for(config.token),
            request: upload_request_for(config, location),
            cluster_name: cluster_name_or_empty(location.cluster),
            image_name: decision.composite_image_name,
        },
        UploadAction::Skip => ActionView::Skip { image_name: decision.composite_image_name },
    }
}

/// One step of a run: in state `pre` the caller reports `event`; the run is then in
/// state `post`, and asks for `action`.
pub open spec fn is_step(
    pre: RunView,
    event: EventView,
    post: RunView,
    action: ActionView,
) -> bool {
    match (pre.phase, event) {
        (Phase::Idle, EventView::Started) => {
            &&& post == RunView { phase: Phase::ListingContainers, ..pre }
            &&& action == ActionView::ListStorageContainers {
                url: list_storage_containers_url_for(pre.config.subscription),
                authorization: bearer_for(pre.config.token),
            }
        },
        (Phase::ListingContainers, EventView::ContainersListed(containers)) => {
            &&& is_deduplication_of(post.locations, containers)
            &&& post == RunView {
                phase: Phase::ListingImages,
                locations: post.locations,
                position: 0,
                uploaded: 0,
                skipped: 0,
                failures: Seq::empty(),
                ..pre
            }
            &&& action == ActionView::ListGalleryImages {
                url: list_images_url_for(pre.config.subscription),
                authorization: bearer_for(pre.config.token),
            }
        },
        (Phase::ListingImages, EventView::ImagesListed(images)) => {
            let planned = RunView {
                plan: plan_for(pre.locations, images, pre.config),
                uploaded: 0,
                skipped: 0,
                failures: Seq::empty(),
                ..pre
            };
            (post, action) == planned.turned_to(0)
        },
        (Phase::ListingContainers, EventView::ListingFailed(message)) => (post, action)
            == pre.ended(
            OutcomeView::ListingFailed { listing: Listing::StorageContainers, message },
        ),
        (Phase::ListingImages, EventView::ListingFailed(message)) => (post, action) == pre.ended(
            OutcomeView::ListingFailed { listing: Listing::GalleryImages, message },
        ),
        (Phase::Reconciling, EventView::UploadSucceeded) => if pre.pending()
            == UploadAction::Upload {
            (post, action) == (RunView { uploaded: pre.uploaded + 1, ..pre }).turned_to(
                pre.position + 1,
            )
        } else {
            (post, action) == pre.ended(OutcomeView::OutOfTurn)
        },
        (Phase::Reconciling, EventView::UploadFailed(message)) => if pre.pending()
            == UploadAction::Upload {
            (post, action) == (RunView {
                failures: pre.failures.push(pre.failure(message)),
                ..pre
            }).turned_to(pre.position + 1)
        } else {
            (post, action) == pre.ended(OutcomeView::OutOfTurn)
        },
        (Phase::Reconciling, EventView::Skipped) => if pre.pending() == UploadAction::Skip {
            (post, action) == (RunView { skipped: pre.skipped + 1, ..pre }).turned_to(
                pre.position + 1,
            )
        } else {
            (post, action) == pre.ended(OutcomeView::OutOfTurn)
        },
        _ => (post, action) == pre.ended(OutcomeView::OutOfTurn),
    }
}

/// A course of a run: the states that the run goes through, with what is reported and
/// what is asked for between each state and the next.
pub open spec fn is_course(
    states: Seq<RunView>,
    events: Seq<EventView>,
    actions: Seq<ActionView>,
) -> bool {
    &&& states.len() == events.len() + 1
    &&& actions.len() == events.len()
    &&& forall|k: int|
        0 <= k < events.len() ==> is_step(
            #[trigger] states[k],
            events[k],
            states[k + 1],
            actions[k],
        )
}

/// The action is about a location: an upload or a skip.
pub open spec fn concerns_location(action: ActionView) -> bool {
    action is Upload || action is Skip
}

/// A run: the configuration, and how far the run has come.
#[derive(Debug)]
pub struct Run {
    config: Config,
    phase: Phase,
    locations: Vec<StorageLocation>,
    plan: Vec<UploadDecision>,
    position: usize,
    uploaded: usize,
    skipped: usize,
    failures: Vec<UploadFailure>,
}

impl View for Run {
    type V = RunView;

    closed spec fn view(&self) -> RunView {
        RunView {
            config: self.config@,
            phase: self.phase,
            locations: self.locations.deep_view(),
            plan: self.plan.deep_view(),
            position: self.position as nat,
            uploaded: self.uploaded as nat,
            skipped: self.skipped as nat,
            failures: self.failures.deep_view(),
        }
    }
}

/// Builds what is asked for a location.
fn action_for_location(
    config: &Config,
    location: &StorageLocation,
    decision: &UploadDecision,
) -> (action: Action)
    ensures
        action@ == location_action(config@, location@, decision@),
{
    match decision.action {
        UploadAction::Upload => Action::Upload {
            url: upload_url(config, location),
            authorization: authorization_header(config),
            request: upload_request(config, location),
            cluster_name: cluster_name_or_default(location.cluster.as_str()),
            image_name: decision.composite_image_name.clone(),
        },
        UploadAction::Skip => Action::Skip { image_name: decision.composite_image_name.clone() },
    }
}

/// Copies the records of failed uploads.
fn copy_failures(failures: &Vec<UploadFailure>) -> (copy: Vec<UploadFailure>)
    ensures
        copy.deep_view() == failures.deep_view(),
{
    let mut copy: Vec<UploadFailure> = Vec::new();
    let mut i: usize = 0;
    while i < failures.len()
        invariant
            i <= failures.len(),
            copy.len() == i,
            forall|k: int| 0 <= k < i ==> (#[trigger] copy[k])@ == failures[k]@,
        decreases failures.len() - i,
    {
        let failure = &failures[i];
        copy.push(
            UploadFailure {
                cluster: failure.cluster.clone(),
                image_name: failure.image_name.clone(),
                message: failure.message.clone(),
            },
        );
        i += 1;
    }
    assert(copy.deep_view() =~= failures.deep_view());
    copy
}

impl Run {
    #[verifier::type_invariant]
    spec fn holds(self) -> bool {
        self@.well_formed()
    }

    /// A run that has not begun.
    pub fn new(config: Config) -> (run: Run)
        ensures
            run@ == RunView::idle(config@),
            run@.well_formed(),
    {
        let run = Run {
            config,
            phase: Phase::Idle,
            locations: Vec::new(),
            plan: Vec::new(),
            position: 0,
            uploaded: 0,
            skipped: 0,
            failures: Vec::new(),
        };
        assert(run@ == RunView::idle(config@)) by {
            assert(run.locations.deep_view() =~= Seq::<StorageLocationView>::empty());
            assert(run.plan.deep_view() =~= Seq::<UploadDecisionView>::empty());
            assert(run.failures.deep_view() =~= Seq::<UploadFailureView>::empty());
        }
        run
    }

    /// Where the run stands.
    pub fn phase(&self) -> (phase: Phase)
        ensures
            phase == self@.phase,
    {
        self.phase
    }

    /// Ends the run at once.
    fn end(self, outcome: Outcome) -> (next: (Run, Action))
        ensures
            (next.0@, next.1@) == self@.ended(outcome@),
            next.0@.well_formed(),
    {
        proof {
            use_type_invariant(&self);
        }
        let run = Run {
            config: self.config,
            phase: Phase::Finished,
            locations: self.locations,
            plan: self.plan,
            position: self.position,
            uploaded: self.uploaded,
            skipped: self.skipped,
            failures: self.failures,
        };
        (run, Action::Finish(outcome))
    }

    /// Turns to the location at `position`, or ends the run where there is none.
    fn turn_to(
        config: Config,
        locations: Vec<StorageLocation>,
        plan: Vec<UploadDecision>,
        position: usize,
        uploaded: usize,
        skipped: usize,
        failures: Vec<UploadFailure>,
    ) -> (next: (Run, Action))
        requires
            plan.len() == locations.len(),
            position <= locations.len(),
            uploaded + skipped + failures.len() == position,
        ensures
            (next.0@, next.1@) == (RunView {
                config: config@,
                phase: Phase::Idle,
                locations: locations.deep_view(),
                plan: plan.deep_view(),
                position: 0,
                uploaded: uploaded as nat,
                skipped: skipped as nat,
                failures: failures.deep_view(),
            }).turned_to(position as nat),
            next.0@.well_formed(),
    {
        if position < locations.len() {
            let action = action_for_location(&config, &locations[position], &plan[position]);
            let run = Run {
                config,
                phase: Phase::Reconciling,
                locations,
                plan,
                position,
                uploaded,
                skipped,
                failures,
            };
            (run, action)
        } else {
            let outcome = Outcome::Completed {
                uploaded,
                skipped,
                failures: copy_failures(&failures),
            };
            let run = Run {
                config,
                phase: Phase::Finished,
                locations,
                plan,
                position,
                uploaded,
                skipped,
                failures,
            };
            (run, Action::Finish(outcome))
        }
    }

    /// Takes the caller's report, and says what is to be done next.
    ///
    /// A report that was not asked for ends the run as out of turn; so does every report
    /// after the end.
    pub fn step(self, event: Event) -> (next: (Run, Action))
        ensures
            is_step(self@, event@, next.0@, next.1@),
            next.0@.well_formed(),
    {
        proof {
            use_type_invariant(&self);
        }
        match self.phase {
            Phase::Idle => match event {
                Event::Started => {
                    let action = Action::ListStorageContainers {
                        url: list_storage_containers_url(&self.config),
                        authorization: authorization_header(&self.config),
                    };
                    let run = Run {
                        config: self.config,
                        phase: Phase::ListingContainers,
                        locations: self.locations,
                        plan: self.plan,
                        position: self.position,
                        uploaded: self.uploaded,
                        skipped: self.skipped,
                        failures: self.failures,
                    };
                    (run, action)
                },
                _ => self.end(Outcome::OutOfTurn),
            },
            Phase::ListingContainers => match event {
                Event::ContainersListed(containers) => {
                    let action = Action::ListGalleryImages {
                        url: list_images_url(&self.config),
                        authorization: authorization_header(&self.config),
                    };
                    let locations = get_unique_storage_locations(containers);
                    let failures: Vec<UploadFailure> = Vec::new();
                    assert(failures.deep_view() =~= Seq::<UploadFailureView>::empty());
                    let run = Run {
                        config: self.config,
                        phase: Phase::ListingImages,
                        locations,
                        plan: self.plan,
                        position: 0,
                        uploaded: 0,
                        skipped: 0,
                        failures,
                    };
                    (run, action)
                },
                Event::ListingFailed(message) => self.end(
                    Outcome::ListingFailed { listing: Listing::StorageContainers, message },
                ),
                _ => self.end(Outcome::OutOfTurn),
            },
            Phase::ListingImages => match event {
                Event::ImagesListed(images) => {
                    let plan = plan_uploads(&self.locations, &images, &self.config);
                    assert(plan.deep_view().len() == self.locations.deep_view().len());
                    let failures: Vec<UploadFailure> = Vec::new();
                    assert(failures.deep_view() =~= Seq::<UploadFailureView>::empty());
                    Run::turn_to(self.config, self.locations, plan, 0, 0, 0, failures)
                },
                Event::ListingFailed(message) => self.end(
                    Outcome::ListingFailed { listing: Listing::GalleryImages, message },
                ),
                _ => self.end(Outcome::OutOfTurn),
            },
            Phase::Reconciling => {
                assert(self.locations.deep_view().len() == self.locations.len());
                assert(self.plan.deep_view().len() == self.plan.len());
                assert(self.failures.deep_view().len() == self.failures.len());
                let pending = self.plan[self.position].action;
                match (pending, event) {
                    (UploadAction::Upload, Event::UploadSucceeded) => Run::turn_to(
                        self.config,
                        self.locations,
                        self.plan,
                        self.position + 1,
                        self.uploaded + 1,
                        self.skipped,
                        self.failures,
                    ),
                    (UploadAction::Upload, Event::UploadFailed(message)) => {
                        let failure = UploadFailure {
                            cluster: self.locations[self.position].cluster.clone(),
                            image_name: self.plan[self.position].composite_image_name.clone(),
                            message,
                        };
                        let ghost before = self.failures.deep_view();
                        let mut failures = self.failures;
                        failures.push(failure);
                        assert(failures.deep_view() =~= before.push(failure@));
                        Run::turn_to(
                            self.config,
                            self.locations,
                            self.plan,
                            self.position + 1,
                            self.uploaded,
                            self.skipped,
                            failures,
                        )
                    },
                    (UploadAction::Skip, Event::Skipped) => Run::turn_to(
                        self.config,
                        self.locations,
                        self.plan,
                        self.position + 1,
                        self.uploaded,
                        self.skipped + 1,
                        self.failures,
                    ),
                    _ => self.end(Outcome::OutOfTurn),
                }
            },
            Phase::Finished => self.end(Outcome::OutOfTurn),
        }
    }
}

/// A step is determined by the state and the report: there is one next state and one
/// action.
pub proof fn lemma_step_is_determined(
    pre: RunView,
    event: EventView,
    post: RunView,
    action: ActionView,
    other_post: RunView,
    other_action: ActionView,
)
    requires
        is_step(pre, event, post, action),
        is_step(pre, event, other_post, other_action),
    ensures
        post == other_post,
        action == other_action,
{
    if pre.phase == Phase::ListingContainers {
        if let EventView::ContainersListed(containers) = event {
            lemma_deduplication_unique(post.locations, other_post.locations, containers);
        }
    }
}

/// A step keeps the state well formed.
pub proof fn lemma_step_keeps_well_formed(
    pre: RunView,
    event: EventView,
    post: RunView,
    action: ActionView,
)
    requires
        pre.well_formed(),
        is_step(pre, event, post, action),
    ensures
        post.well_formed(),
{
}

/// A listing that fails ends the run at once: nothing is decided, and no upload is
/// asked for. The outcome names the listing and carries what was reported.
pub proof fn lemma_failed_listing_ends_run(
    pre: RunView,
    message: Seq<char>,
    post: RunView,
    action: ActionView,
)
    requires
        pre.phase == Phase::ListingContainers || pre.phase == Phase::ListingImages,
        is_step(pre, EventView::ListingFailed(message), post, action),
    ensures
        action == ActionView::Finish(
            OutcomeView::ListingFailed {
                listing: if pre.phase == Phase::ListingContainers {
                    Listing::StorageContainers
                } else {
                    Listing::GalleryImages
                },
                message,
            },
        ),
        post.phase == Phase::Finished,
        post.plan == pre.plan,
{
}

/// Nothing is decided before both listings are there: until the images are listed the
/// run asks for listings only, or ends.
pub proof fn lemma_no_upload_before_listings(
    pre: RunView,
    event: EventView,
    post: RunView,
    action: ActionView,
)
    requires
        pre.phase == Phase::Idle || pre.phase == Phase::ListingContainers,
        is_step(pre, event, post, action),
    ensures
        !(action is Upload),
        !(action is Skip),
        post.phase != Phase::Reconciling,
{
}

/// While locations are dealt with, a step moves on by exactly one location and asks
/// for what was decided for the next one, or it ends the run. The locations and the
/// decisions stay as they are.
pub proof fn lemma_each_location_in_turn(
    pre: RunView,
    event: EventView,
    post: RunView,
    action: ActionView,
)
    requires
        pre.well_formed(),
        pre.phase == Phase::Reconciling,
        is_step(pre, event, post, action),
    ensures
        post.locations == pre.locations,
        post.plan == pre.plan,
        post.phase == Phase::Reconciling || post.phase == Phase::Finished,
        post.phase == Phase::Reconciling ==> post.position == pre.position + 1 && action
            == location_action(
            pre.config,
            pre.locations[post.position as int],
            pre.plan[post.position as int],
        ),
        post.phase == Phase::Finished ==> action is Finish,
{
}

/// An upload is asked for only for a location whose decision is to upload, and a skip
/// only for one whose decision is to skip.
pub proof fn lemma_action_follows_decision(
    pre: RunView,
    event: EventView,
    post: RunView,
    action: ActionView,
)
    requires
        is_step(pre, event, post, action),
    ensures
        action is Upload ==> post.phase == Phase::Reconciling && post.pending()
            == UploadAction::Upload,
        action is Skip ==> post.phase == Phase::Reconciling && post.pending()
            == UploadAction::Skip,
{
}

/// An upload that fails does not hold up the others: the run turns to the same next
/// location, and asks for the same, as after an upload that succeeds. The failure is
/// put on record, with its cluster, its image and what was reported.
pub proof fn lemma_failed_upload_does_not_block(
    pre: RunView,
    message: Seq<char>,
    after_failure: RunView,
    action_after_failure: ActionView,
    after_success: RunView,
    action_after_success: ActionView,
)
    requires
        pre.well_formed(),
        pre.phase == Phase::Reconciling,
        pre.pending() == UploadAction::Upload,
        is_step(pre, EventView::UploadFailed(message), after_failure, action_after_failure),
        is_step(pre, EventView::UploadSucceeded, after_success, action_after_success),
    ensures
        after_failure.phase == after_success.phase,
        after_failure.position == after_success.position,
        after_failure.position == pre.position + 1,
        after_failure.failures == pre.failures.push(pre.failure(message)),
        after_failure.uploaded == pre.uploaded,
        after_success.uploaded == pre.uploaded + 1,
        after_success.failures == pre.failures,
        after_failure.phase == Phase::Reconciling ==> action_after_failure
            == action_after_success,
{
}

/// A run that deals with every location ends with counts that add up to the number of
/// locations.
pub proof fn lemma_completed_counts_every_location(
    pre: RunView,
    event: EventView,
    post: RunView,
    uploaded: nat,
    skipped: nat,
    failures: Seq<UploadFailureView>,
)
    requires
        pre.well_formed(),
        is_step(
            pre,
            event,
            post,
            ActionView::Finish(OutcomeView::Completed { uploaded, skipped, failures }),
        ),
    ensures
        uploaded + skipped + failures.len() == pre.locations.len(),
        post.phase == Phase::Finished,
{
}

/// Every state of a course that starts well formed is well formed.
pub proof fn lemma_course_stays_well_formed(
    states: Seq<RunView>,
    events: Seq<EventView>,
    actions: Seq<ActionView>,
    k: int,
)
    requires
        is_course(states, events, actions),
        states[0].well_formed(),
        0 <= k < states.len(),
    ensures
        states[k].well_formed(),
    decreases k,
{
    if k > 0 {
        lemma_course_stays_well_formed(states, events, actions, k - 1);
        assert(is_step(states[k - 1], events[k - 1], states[k - 1 + 1], actions[k - 1]));
        lemma_step_keeps_well_formed(states[k - 1], events[k - 1], states[k], actions[k - 1]);
    }
}

/// Once locations are dealt with, the run never goes back to listing.
proof fn lemma_course_never_lists_again(
    states: Seq<RunView>,
    events: Seq<EventView>,
    actions: Seq<ActionView>,
    from: int,
    k: int,
)
    requires
        is_course(states, events, actions),
        0 <= from <= k < states.len(),
        states[from].phase == Phase::Reconciling || states[from].phase == Phase::Finished,
    ensures
        states[k].phase == Phase::Reconciling || states[k].phase == Phase::Finished,
    decreases k - from,
{
    if from < k {
        lemma_course_never_lists_again(states, events, actions, from, k - 1);
        assert(is_step(states[k - 1], events[k - 1], states[k - 1 + 1], actions[k - 1]));
    }
}

/// Between two states in which locations are dealt with, the run moves on by one
/// location at each step, and the locations and decisions stay as they are.
proof fn lemma_course_moves_on(
    states: Seq<RunView>,
    events: Seq<EventView>,
    actions: Seq<ActionView>,
    from: int,
    to: int,
)
    requires
        is_course(states, events, actions),
        states[0].well_formed(),
        0 <= from <= to < states.len(),
        states[from].phase == Phase::Reconciling,
        states[to].phase == Phase::Reconciling,
    ensures
        states[to].config == states[from].config,
        states[to].locations == states[from].locations,
        states[to].plan == states[from].plan,
        states[to].position == states[from].position + (to - from),
    decreases to - from,
{
    if from < to {
        lemma_course_never_lists_again(states, events, actions, from, to - 1);
        assert(is_step(states[to - 1], events[to - 1], states[to - 1 + 1], actions[to - 1]));
        lemma_course_stays_well_formed(states, events, actions, to - 1);
        lemma_course_moves_on(states, events, actions, from, to - 1);
        lemma_each_location_in_turn(states[to - 1], events[to - 1], states[to], actions[to - 1]);
    }
}

/// In the course of a run no location is dealt with twice. Where two steps each ask for
/// an upload or a skip, the later one concerns a later location of the same list: each
/// asks for what was decided for its own location, and the locations lie as far apart
/// as the steps.
pub proof fn lemma_one_action_per_location(
    states: Seq<RunView>,
    events: Seq<EventView>,
    actions: Seq<ActionView>,
    i: int,
    j: int,
)
    requires
        is_course(states, events, actions),
        states[0].well_formed(),
        0 <= i < j < actions.len(),
        concerns_location(actions[i]),
        concerns_location(actions[j]),
    ensures
        states[i + 1].phase == Phase::Reconciling,
        states[j + 1].phase == Phase::Reconciling,
        states[j + 1].config == states[i + 1].config,
        states[j + 1].locations == states[i + 1].locations,
        states[j + 1].plan == states[i + 1].plan,
        states[j + 1].position == states[i + 1].position + (j - i),
        states[j + 1].position < states[i + 1].locations.len(),
        actions[i] == location_action(
            states[i + 1].config,
            states[i + 1].locations[states[i + 1].position as int],
            states[i + 1].plan[states[i + 1].position as int],
        ),
        actions[j] == location_action(
            states[i + 1].config,
            states[i + 1].locations[states[j + 1].position as int],
            states[i + 1].plan[states[j + 1].position as int],
        ),
{
    assert(is_step(states[i], events[i], states[i + 1], actions[i]));
    assert(is_step(states[j], events[j], states[j + 1], actions[j]));
    lemma_action_follows_decision(states[i], events[i], states[i + 1], actions[i]);
    lemma_action_follows_decision(states[j], events[j], states[j + 1], actions[j]);
    lemma_course_moves_on(states, events, actions, i + 1, j + 1);
    lemma_course_stays_well_formed(states, events, actions, i + 1);
    lemma_course_stays_well_formed(states, events, actions, j + 1);
    lemma_course_stays_well_formed(states, events, actions, i);
    lemma_course_stays_well_formed(states, events, actions, j);
    lemma_action_is_for_position(states[i], events[i], states[i + 1], actions[i]);
    lemma_action_is_for_position(states[j], events[j], states[j + 1], actions[j]);
}

/// An upload or a skip is what was decided for the location that the run has turned to.
pub proof fn lemma_action_is_for_position(
    pre: RunView,
    event: EventView,
    post: RunView,
    action: ActionView,
)
    requires
        pre.well_formed(),
        is_step(pre, event, post, action),
        concerns_location(action),
    ensures
        post.phase == Phase::Reconciling,
        post.position < post.locations.len(),
        post.plan.len() == post.locations.len(),
        action == location_action(
            post.config,
            post.locations[post.position as int],
            post.plan[post.position as int],
        ),
{
}

} // verus!
