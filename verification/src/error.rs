//! Error taxonomy of the engine: remote-index errors, build errors and
//! package-database errors, with helper constructors and human-readable
//! messages whose exact text is part of each contract.

use vstd::prelude::*;
use vstd::string::*;

verus! {

/// Errors from the remote package index.
#[derive(Debug)]
pub enum AurError {
    RequestFailed(String),
    ParseError(String),
    NotFound(String),
    ApiError(String),
}

/// Errors from source retrieval and native builds.
#[derive(Debug)]
pub enum BuildError {
    GitError { source: String, package: String },
    MakePkgError { source: String, stage: String },
}

/// Errors from the system package database.
#[derive(Debug)]
pub enum AlpmError {
    InitError(String),
    InstallError(String),
    DatabaseError(String),
    RemoveError(String),
    NotFound(String),
}

impl AurError {
    pub open spec fn spec_message(self) -> Seq<char> {
        match self {
            AurError::RequestFailed(e) => "AUR request failed: "@ + e@,
            AurError::ParseError(e) => "Failed to parse AUR response: "@ + e@,
            AurError::NotFound(e) => "Package not found in AUR: "@ + e@,
            AurError::ApiError(e) => "AUR API error: "@ + e@,
        }
    }

    /// The human-readable description of the error.
    pub fn message(&self) -> (r: String)
        ensures
            r@ == self.spec_message(),
    {
        match self {
            AurError::RequestFailed(e) => String::from_str("AUR request failed: ").concat(
                e.as_str(),
            ),
            AurError::ParseError(e) => String::from_str("Failed to parse AUR response: ").concat(
                e.as_str(),
            ),
            AurError::NotFound(e) => String::from_str("Package not found in AUR: ").concat(
                e.as_str(),
            ),
            AurError::ApiError(e) => String::from_str("AUR API error: ").concat(e.as_str()),
        }
    }
}

impl BuildError {
    pub open spec fn spec_message(self) -> Seq<char> {
        match self {
            BuildError::GitError { source, package } => "Git operation failed (package: "@
                + package@ + "): "@ + source@,
            BuildError::MakePkgError { source, stage } => "makepkg failed during "@ + stage@
                + ": "@ + source@,
        }
    }

    /// The human-readable description of the error.
    pub fn message(&self) -> (r: String)
        ensures
            r@ == self.spec_message(),
    {
        match self {
            BuildError::GitError { source, package } => String::from_str(
                "Git operation failed (package: ",
            ).concat(package.as_str()).concat("): ").concat(source.as_str()),
            BuildError::MakePkgError { source, stage } => String::from_str(
                "makepkg failed during ",
            ).concat(stage.as_str()).concat(": ").concat(source.as_str()),
        }
    }
}

impl AlpmError {
    pub open spec fn spec_message(self) -> Seq<char> {
        match self {
            AlpmError::InitError(e) => "ALPM initialization failed: "@ + e@,
            AlpmError::InstallError(e) => "Package installation failed: "@ + e@,
            AlpmError::DatabaseError(e) => "Database operation failed: "@ + e@,
            AlpmError::RemoveError(e) => "Package removal failed: "@ + e@,
            AlpmError::NotFound(e) => "Package not found in ALPM: "@ + e@,
        }
    }

    /// The human-readable description of the error.
    pub fn message(&self) -> (r: String)
        ensures
            r@ == self.spec_message(),
    {
        match self {
            AlpmError::InitError(e) => String::from_str("ALPM initialization failed: ").concat(
                e.as_str(),
            ),
            AlpmError::InstallError(e) => String::from_str("Package installation failed: ").concat(
                e.as_str(),
            ),
            AlpmError::DatabaseError(e) => String::from_str("Database operation failed: ").concat(
                e.as_str(),
            ),
            AlpmError::RemoveError(e) => String::from_str("Package removal failed: ").concat(
                e.as_str(),
            ),
            AlpmError::NotFound(e) => String::from_str("Package not found in ALPM: ").concat(
                e.as_str(),
            ),
        }
    }

    /// A database failure folded into the build taxonomy, as happens when a
    /// dependency install fails in the middle of a build.
    pub fn into_build_error(&self) -> (r: BuildError)
        ensures
            (r matches BuildError::MakePkgError { source, stage } && source@ == "ALPM error: "@
                + self.spec_message() && stage@ == "dependency installation"@),
    {
        BuildError::MakePkgError {
            source: String::from_str("ALPM error: ").concat(self.message().as_str()),
            stage: String::from_str("dependency installation"),
        }
    }
}

pub fn aur_request_failed(e: &str) -> (r: AurError)
    ensures
        (r matches AurError::RequestFailed(s) && s@ == e@),
{
    AurError::RequestFailed(e.to_owned())
}

pub fn aur_parse_error(e: &str) -> (r: AurError)
    ensures
        (r matches AurError::ParseError(s) && s@ == e@),
{
    AurError::ParseError(e.to_owned())
}

pub fn aur_api_error(e: &str) -> (r: AurError)
    ensures
        (r matches AurError::ApiError(s) && s@ == e@),
{
    AurError::ApiError(e.to_owned())
}

pub fn alpm_init_error(e: &str) -> (r: AlpmError)
    ensures
        (r matches AlpmError::InitError(s) && s@ == e@),
{
    AlpmError::InitError(e.to_owned())
}

pub fn alpm_install_error(e: &str) -> (r: AlpmError)
    ensures
        (r matches AlpmError::InstallError(s) && s@ == e@),
{
    AlpmError::InstallError(e.to_owned())
}

pub fn alpm_remove_error(e: &str) -> (r: AlpmError)
    ensures
        (r matches AlpmError::RemoveError(s) && s@ == e@),
{
    AlpmError::RemoveError(e.to_owned())
}

pub fn build_git_error(source: &str, package: &str) -> (r: BuildError)
    ensures
        (r matches BuildError::GitError { source: s, package: p } && s@ == source@ && p@
            == package@),
{
    BuildError::GitError { source: source.to_owned(), package: package.to_owned() }
}

pub fn build_makepkg_error(source: &str, stage: &str) -> (r: BuildError)
    ensures
        (r matches BuildError::MakePkgError { source: s, stage: t } && s@ == source@ && t@
            == stage@),
{
    BuildError::MakePkgError { source: source.to_owned(), stage: stage.to_owned() }
}

} // verus!
