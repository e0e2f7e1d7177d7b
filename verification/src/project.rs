//! A project manifest of any known format, and its report: each format's manifest is checked
//! and composed by the rules of its own module.

use vstd::prelude::*;

use crate::manifest;
use crate::manifest::composition::{compose_manifest, ComposedModel};
use crate::manifest::validation::{resolutions_failed_on_disk, validation_errors};
use crate::manifest::{errors_view, ComposeModelError, ResolvedNetworkSet, ValidationError};

verus! {

/// A project manifest, by format.
#[derive(Debug)]
pub enum ProjectManifest {
    V1(manifest::ProjectManifest),
}

/// The validation report of a project manifest, by format.
#[derive(Debug)]
pub enum ProjectManifestValidationReport {
    V1(manifest::ProjectManifestValidationReport),
}

impl ProjectManifestValidationReport {
    /// A manifest is valid when its validation found no error.
    pub fn is_valid(&self) -> (r: bool)
        ensures
            r == match self {
                ProjectManifestValidationReport::V1(report) => report.errors@.len() == 0,
            },
    {
        match self {
            ProjectManifestValidationReport::V1(report) => report.is_valid(),
        }
    }
}

impl ProjectManifest {
    /// Validates the manifest, given the resolution of its base model and of each of its
    /// network sets, by the rules of its format.
    pub fn validate_resolved(
        &self,
        base_model: Result<String, ComposeModelError>,
        sets: Vec<Result<ResolvedNetworkSet, ComposeModelError>>,
    ) -> (r: Result<ProjectManifestValidationReport, ValidationError>)
        requires
            resolutions_failed_on_disk(base_model, sets@),
        ensures
            match self {
                ProjectManifest::V1(m) => r matches Ok(ProjectManifestValidationReport::V1(report)) && errors_view(
                    report.errors@,
                ) == validation_errors(*m, base_model, sets@),
            },
    {
        match self {
            ProjectManifest::V1(m) => match m.validate_resolved(base_model, sets) {
                Ok(report) => Ok(ProjectManifestValidationReport::V1(report)),
                Err(e) => Err(e),
            },
        }
    }

    /// Composes the definition `definition_name`, given the resolution of the base model and
    /// of each network set, by the rules of the manifest's format.
    pub fn compose_resolved(
        &self,
        definition_name: &str,
        base_model: Result<String, ComposeModelError>,
        sets: Vec<Result<ResolvedNetworkSet, ComposeModelError>>,
    ) -> (r: Result<ComposedModel, ComposeModelError>)
        ensures
            match self {
                ProjectManifest::V1(m) => match compose_manifest(*m, definition_name@, base_model, sets@) {
                    Ok(model) => r matches Ok(c) && c@ == model,
                    Err(e) => r matches Err(x) && x@ == e,
                },
            },
    {
        match self {
            ProjectManifest::V1(m) => m.compose_resolved(definition_name, base_model, sets),
        }
    }
}

} // verus!
