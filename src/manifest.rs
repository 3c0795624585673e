//! The manifest record: a descriptor's resolved packages with its provenance.
use vstd::prelude::*;
use vstd::string::*;
use crate::document::{
    dependency_items, dependency_purls, first_malformed_node, lemma_classified_list,
    read_declarations, yaml_parses, MAX_DESCRIPTOR_CHARS,
};
use crate::resolve::{
    all_purls, first_malformed, resolve_declarations, resolves_to, Declaration, Entry,
    ResolveError,
};

verus! {

/// Where a manifest's descriptor lies.
#[derive(Clone, Debug)]
pub struct EnvFile {
    pub source_location: String,
}

impl EnvFile {
    pub fn new(source_location: &str) -> (r: EnvFile)
        ensures
            r.source_location@ == source_location@,
    {
        EnvFile { source_location: String::from_str(source_location) }
    }
}

/// The resolved packages of one descriptor, labelled with the descriptor's path.
#[derive(Clone, Debug)]
pub struct Manifest {
    pub resolved: Vec<Entry>,
    pub name: String,
    pub env_file: EnvFile,
}

impl Manifest {
    /// An empty manifest for the descriptor at `env_file`.
    pub fn new(env_file: &str) -> (r: Manifest)
        ensures
            r.name@ == env_file@,
            r.env_file.source_location@ == env_file@,
            r.resolved@.len() == 0,
    {
        Manifest {
            resolved: Vec::new(),
            name: String::from_str(env_file),
            env_file: EnvFile::new(env_file),
        }
    }

    /// The manifest with its packages resolved from classified declarations;
    /// the first malformed declaration fails the whole pass.
    pub fn resolve(self, ds: &Vec<Declaration>) -> (r: Result<Manifest, ResolveError>)
        ensures
            match first_malformed(ds@) {
                Some(i) => r == Err::<Manifest, ResolveError>(
                    ResolveError::MalformedDependencyDeclaration(i as usize),
                ),
                None => r matches Ok(m) && m.name@ == self.name@
                    && m.env_file.source_location@ == self.env_file.source_location@
                    && resolves_to(m.resolved@, all_purls(ds@)),
            },
    {
        match resolve_declarations(ds) {
            Ok(resolved) => Ok(Manifest { resolved, ..self }),
            Err(e) => Err(e),
        }
    }

    /// The manifest with its packages resolved from the descriptor's text.
    pub fn parse_env_file(self, content: &str) -> (r: Result<Manifest, ResolveError>)
        requires
            content@.len() <= MAX_DESCRIPTOR_CHARS,
        ensures
            !yaml_parses(content@) ==> r == Err::<Manifest, ResolveError>(
                ResolveError::DescriptorParseError,
            ),
            yaml_parses(content@) ==> match dependency_items(content@) {
                None => r == Err::<Manifest, ResolveError>(ResolveError::MissingDependencyList),
                Some(items) => match first_malformed_node(items) {
                    Some(i) => r == Err::<Manifest, ResolveError>(
                        ResolveError::MalformedDependencyDeclaration(i as usize),
                    ),
                    None => r matches Ok(m) && m.name@ == self.name@
                        && m.env_file.source_location@ == self.env_file.source_location@
                        && resolves_to(m.resolved@, dependency_purls(items)),
                },
            },
    {
        match read_declarations(content) {
            Ok(ds) => {
                proof {
                    lemma_classified_list(ds@, dependency_items(content@)->0);
                }
                self.resolve(&ds)
            },
            Err(e) => Err(e),
        }
    }

    /// Hands the manifest over for submission; submission itself is done by the caller.
    pub fn submit_dependency_graph(self) {
    }
}

} // verus!
