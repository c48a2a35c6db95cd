//! Brings a gallery image to every cluster that lacks it.
//!
//! The storage containers of a subscription tell which clusters there are; the gallery
//! tells which of them hold the image already. This library derives the clusters from
//! the containers, decides for each cluster whether the image is uploaded, and builds
//! what is sent. Sending is left to the caller.

pub mod config;
pub mod gallery;
pub mod helper;
pub mod reconcile;
pub mod run;
pub mod storage;
