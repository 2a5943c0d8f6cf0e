//! The configuration of a project made of several repositories.

use vstd::prelude::*;
use crate::run::Run;

verus! {

/// The configuration of a project.
#[derive(Debug)]
pub struct Config {
    pub project: ProjectConfig,
    pub publish: PublishConfig,
}

/// The repositories of a project and the commands to run in it.
#[derive(Debug)]
pub struct ProjectConfig {
    pub root: Option<String>,
    pub repositories: Vec<RepositoryConfig>,
    pub run: Option<Vec<Run>>,
}

/// One repository of a project.
#[derive(Debug)]
pub struct RepositoryConfig {
    pub url: String,
    pub branch: Option<String>,
    pub settings: Option<Vec<String>>,
    pub external: Option<bool>,
    pub publish: Option<bool>,
}

/// How the packages of a project are published.
#[derive(Debug)]
pub struct PublishConfig {
    pub delay: Option<String>,
}

} // verus!
