//! The snapshot submitted to the dependency-graph service: a manifest together
//! with the run's metadata, all taken from an explicit configuration.
use vstd::prelude::*;
use vstd::string::*;
use crate::manifest::Manifest;

verus! {

/// The run's metadata, gathered once when the process starts.
#[derive(Clone, Debug)]
pub struct RunConfig {
    /// The commit being scanned.
    pub sha: String,
    /// The branch reference being scanned.
    pub branch_ref: String,
    /// The workflow's name.
    pub workflow: String,
    /// The job's name, which is also its id.
    pub job: String,
    /// The detector's name.
    pub detector_name: String,
    /// The detector's version.
    pub detector_version: String,
    /// The repository, as `owner/name`.
    pub repository: String,
}

/// The job that produced a snapshot.
#[derive(Clone, Debug)]
pub struct Job {
    pub correlator: String,
    pub id: String,
}

impl Job {
    /// The job `job` of the workflow `workflow`: its correlator is `<workflow>_<job>`.
    pub fn new(workflow: &str, job: &str) -> (r: Job)
        ensures
            r.correlator@ == workflow@ + seq!['_'] + job@,
            r.id@ == job@,
    {
        let mut correlator = String::from_str(workflow);
        proof {
            reveal_strlit("_");
        }
        correlator.append("_");
        correlator.append(job);
        Job { correlator, id: String::from_str(job) }
    }
}

/// `https://github.com/`
pub open spec fn github_prefix() -> Seq<char> {
    seq!['h', 't', 't', 'p', 's', ':', '/', '/', 'g', 'i', 't', 'h', 'u', 'b', '.', 'c', 'o', 'm', '/']
}

/// The tool that produced a snapshot.
#[derive(Clone, Debug)]
pub struct Detector {
    pub name: String,
    pub version: String,
    pub url: String,
}

impl Detector {
    /// The detector `name` at `version`, hosted in the GitHub repository `repository`.
    pub fn new(name: &str, version: &str, repository: &str) -> (r: Detector)
        ensures
            r.name@ == name@,
            r.version@ == version@,
            r.url@ == github_prefix() + repository@,
    {
        proof {
            reveal_strlit("https://github.com/");
        }
        let mut url = String::from_str("https://github.com/");
        url.append(repository);
        Detector { name: String::from_str(name), version: String::from_str(version), url }
    }
}

/// A dependency snapshot of one run.
#[derive(Clone, Debug)]
pub struct Snapshot {
    pub scanned: String,
    pub sha: String,
    pub version: usize,
    pub job: Job,
    pub branch_ref: String,
    pub detector: Detector,
    /// The manifests, each keyed by its own name.
    pub manifests: Vec<Manifest>,
}

impl Snapshot {
    /// The snapshot of `manifest` scanned at `scanned`, with the run's metadata from `config`.
    pub fn new(manifest: Manifest, config: &RunConfig, scanned: String) -> (r: Snapshot)
        ensures
            r.scanned@ == scanned@,
            r.sha@ == config.sha@,
            r.version == 0,
            r.branch_ref@ == config.branch_ref@,
            r.job.correlator@ == config.workflow@ + seq!['_'] + config.job@,
            r.job.id@ == config.job@,
            r.detector.name@ == config.detector_name@,
            r.detector.version@ == config.detector_version@,
            r.detector.url@ == github_prefix() + config.repository@,
            r.manifests@ == seq![manifest],
    {
        let job = Job::new(config.workflow.as_str(), config.job.as_str());
        let detector = Detector::new(
            config.detector_name.as_str(),
            config.detector_version.as_str(),
            config.repository.as_str(),
        );
        let mut manifests: Vec<Manifest> = Vec::new();
        manifests.push(manifest);
        Snapshot {
            scanned,
            sha: config.sha.clone(),
            version: 0,
            job,
            branch_ref: config.branch_ref.clone(),
            detector,
            manifests,
        }
    }
}

} // verus!
