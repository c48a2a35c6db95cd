//! The configuration of one run.

use vstd::prelude::*;

verus! {

/// The parameters of one run. They are set once, at startup, and never change.
#[derive(Debug, Clone, PartialEq, Eq)]
pub struct Config {
    /// The bearer token that authorizes every remote call.
    pub token: String,
    /// Where the image to upload is found.
    pub image_path: String,
    /// A container id given at startup; the locations to upload to come from the
    /// container listing, not from this field.
    pub container_id: String,
    /// The region of the gallery image.
    pub location: String,
    /// An extended location given at startup; no decision reads it.
    pub extended_location_name: String,
    pub subscription: String,
    /// A resource group given at startup; the one in use is read from each cluster's path.
    pub resource_group: String,
    /// The name of the image, without the cluster's prefix.
    pub image_name: String,
    pub os_type: String,
    /// Whether an image that a cluster already has is uploaded again.
    pub overwrite: bool,
}

/// The configuration as plain texts.
pub struct ConfigView {
    pub token: Seq<char>,
    pub image_path: Seq<char>,
    pub container_id: Seq<char>,
    pub location: Seq<char>,
    pub extended_location_name: Seq<char>,
    pub subscription: Seq<char>,
    pub resource_group: Seq<char>,
    pub image_name: Seq<char>,
    pub os_type: Seq<char>,
    pub overwrite: bool,
}

impl View for Config {
    type V = ConfigView;

    open spec fn view(&self) -> ConfigView {
        ConfigView {
            token: self.token@,
            image_path: self.image_path@,
            container_id: self.container_id@,
            location: self.location@,
            extended_location_name: self.extended_location_name@,
            subscription: self.subscription@,
            resource_group: self.resource_group@,
            image_name: self.image_name@,
            os_type: self.os_type@,
            overwrite: self.overwrite,
        }
    }
}

impl DeepView for Config {
    type V = ConfigView;

    open spec fn deep_view(&self) -> ConfigView {
        self@
    }
}

/// A text parameter of the configuration.
#[derive(Debug, Clone, Copy, PartialEq, Eq, Structural)]
pub enum Parameter {
    Token,
    ImagePath,
    ContainerId,
    Location,
    ExtendedLocationName,
    Subscription,
    ResourceGroup,
    ImageName,
    OsType,
}

/// Why a configuration could not be built.
#[derive(Debug, Clone, Copy, PartialEq, Eq, Structural)]
pub enum ConfigError {
    /// The parameter was given no text.
    Missing(Parameter),
}

impl ConfigView {
    /// The first text parameter, in the order of the fields, that is empty.
    pub open spec fn first_missing(self) -> Option<Parameter> {
        if self.token.len() == 0 {
            Some(Parameter::Token)
        } else if self.image_path.len() == 0 {
            Some(Parameter::ImagePath)
        } else if self.container_id.len() == 0 {
            Some(Parameter::ContainerId)
        } else if self.location.len() == 0 {
            Some(Parameter::Location)
        } else if self.extended_location_name.len() == 0 {
            Some(Parameter::ExtendedLocationName)
        } else if self.subscription.len() == 0 {
            Some(Parameter::Subscription)
        } else if self.resource_group.len() == 0 {
            Some(Parameter::ResourceGroup)
        } else if self.image_name.len() == 0 {
            Some(Parameter::ImageName)
        } else if self.os_type.len() == 0 {
            Some(Parameter::OsType)
        } else {
            None
        }
    }

    /// Every text parameter is non-empty.
    pub open spec fn well_formed(self) -> bool {
        &&& self.token.len() > 0
        &&& self.image_path.len() > 0
        &&& self.container_id.len() > 0
        &&& self.location.len() > 0
        &&& self.extended_location_name.len() > 0
        &&& self.subscription.len() > 0
        &&& self.resource_group.len() > 0
        &&& self.image_name.len() > 0
        &&& self.os_type.len() > 0
    }
}

fn is_blank(text: &String) -> (blank: bool)
    ensures
        blank == (text@.len() == 0),
{
    text.as_str().is_empty()
}

impl Config {
    /// Builds the configuration from the values given at startup.
    ///
    /// It succeeds exactly when every text parameter is non-empty, and then holds the
    /// values as given. Otherwise the error names the first parameter that is empty.
    pub fn build(
        token: String,
        image_path: String,
        container_id: String,
        location: String,
        extended_location_name: String,
        subscription: String,
        resource_group: String,
        image_name: String,
        os_type: String,
        overwrite: bool,
    ) -> (built: Result<Config, ConfigError>)
        ensures
            ({
                let given = ConfigView {
                    token: token@,
                    image_path: image_path@,
                    container_id: container_id@,
                    location: location@,
                    extended_location_name: extended_location_name@,
                    subscription: subscription@,
                    resource_group: resource_group@,
                    image_name: image_name@,
                    os_type: os_type@,
                    overwrite,
                };
                match built {
                    Ok(config) => given.well_formed() && config@ == given,
                    Err(ConfigError::Missing(parameter)) => given.first_missing() == Some(
                        parameter,
                    ),
                }
            }),
    {
        if is_blank(&token) {
            Err(ConfigError::Missing(Parameter::Token))
        } else if is_blank(&image_path) {
            Err(ConfigError::Missing(Parameter::ImagePath))
        } else if is_blank(&container_id) {
            Err(ConfigError::Missing(Parameter::ContainerId))
        } else if is_blank(&location) {
            Err(ConfigError::Missing(Parameter::Location))
        } else if is_blank(&extended_location_name) {
            Err(ConfigError::Missing(Parameter::ExtendedLocationName))
        } else if is_blank(&subscription) {
            Err(ConfigError::Missing(Parameter::Subscription))
        } else if is_blank(&resource_group) {
            Err(ConfigError::Missing(Parameter::ResourceGroup))
        } else if is_blank(&image_name) {
            Err(ConfigError::Missing(Parameter::ImageName))
        } else if is_blank(&os_type) {
            Err(ConfigError::Missing(Parameter::OsType))
        } else {
            Ok(
                Config {
                    token,
                    image_path,
                    container_id,
                    location,
                    extended_location_name,
                    subscription,
                    resource_group,
                    image_name,
                    os_type,
                    overwrite,
                },
            )
        }
    }
}

/// A configuration is well formed exactly when no text parameter is missing.
pub proof fn lemma_well_formed_iff_none_missing(config: ConfigView)
    ensures
        config.well_formed() <==> config.first_missing() is None,
{
}

} // verus!
