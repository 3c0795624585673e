use conda_dep_check::document::{
    classify, descriptor_fits, field, read_declarations, YamlNode, MAX_DESCRIPTOR_CHARS,
};
use conda_dep_check::purl::{
    conda_package_url, hyphenate, purl_string, pypi_package_url, pypi_package_url_lowered,
    split_first, Ecosystem,
};
use conda_dep_check::resolve::resolve_declarations;
use conda_dep_check::{
    Declaration, Detector, Entry, EnvFile, Job, Manifest, ResolveError, RunConfig, Snapshot,
};

fn keys(entries: &[Entry]) -> Vec<String> {
    let mut ks: Vec<String> = entries.iter().map(|e| e.package_url.clone()).collect();
    ks.sort();
    ks
}

fn sorted(urls: &[&str]) -> Vec<String> {
    let mut ks: Vec<String> = urls.iter().map(|u| u.to_string()).collect();
    ks.sort();
    ks
}

fn resolve_text(content: &str) -> Result<Vec<Entry>, ResolveError> {
    let ds = read_declarations(content)?;
    resolve_declarations(&ds)
}

const ENVIRONMENT: &str = "name: nerf
channels:
  - pytorch
  - conda-forge
dependencies:
  - python=3.8
  - pytorch=1.10
  - torchvision
  - cudatoolkit=11.0
  - pip
  - pip:
    - pytorch-lightning==1.5.2
    - einops==0.3.2
    - kornia==0.6.1
    - opencv-python==4.5.4.58
    - matplotlib==3.5.0
    - imageio==2.10.4
    - imageio-ffmpeg==0.4.5
    - torch_optimizer==0.3.0
    - setuptools==58.2.0
    - PyMCubes==0.1.2
    - pycollada==0.7.1
    - trimesh==3.9.1
    - pyglet==1.5.10
    - networkx==2.5
    - plyfile==0.7.2
    - open3d==0.13.0
    - ConfigArgParse==1.5.3
    - ninja
";

#[test]
fn test_job() {
    let job = Job::new("Tests", "checks");
    assert_eq!(job.id, "checks");
    assert_eq!(job.correlator, "Tests_checks");
}

#[test]
fn test_detector() {
    let detector = Detector::new("conda-dep-check", "0.1.0", "DanW97/conda-dep-check/");
    assert_eq!(detector.name, "conda-dep-check");
    assert_eq!(detector.version, "0.1.0");
    assert_eq!(detector.url, "https://github.com/DanW97/conda-dep-check/");
}

#[test]
fn test_env_file() {
    let env_file = EnvFile::new("test/environment.yaml");
    assert_eq!(env_file.source_location, "test/environment.yaml");
}

#[test]
fn manifest_from_path() {
    let manifest = Manifest::new("test/environment.yaml");
    assert_eq!(manifest.name, "test/environment.yaml");
    assert_eq!(manifest.env_file.source_location, "test/environment.yaml");
    assert!(manifest.resolved.is_empty());
}

#[test]
fn test_manifest() {
    let manifest = Manifest::new("test/environment.yaml")
        .parse_env_file(ENVIRONMENT)
        .expect("The env file could not be read.");
    let expected = sorted(&[
        "pkg:conda/python@3.8",
        "pkg:conda/pytorch@1.10",
        "pkg:conda/torchvision",
        "pkg:conda/cudatoolkit@11.0",
        "pkg:conda/pip",
        "pkg:pypi/pytorch-lightning@1.5.2",
        "pkg:pypi/einops@0.3.2",
        "pkg:pypi/kornia@0.6.1",
        "pkg:pypi/opencv-python@4.5.4.58",
        "pkg:pypi/matplotlib@3.5.0",
        "pkg:pypi/imageio@2.10.4",
        "pkg:pypi/imageio-ffmpeg@0.4.5",
        "pkg:pypi/torch-optimizer@0.3.0",
        "pkg:pypi/setuptools@58.2.0",
        "pkg:pypi/pymcubes@0.1.2",
        "pkg:pypi/pycollada@0.7.1",
        "pkg:pypi/trimesh@3.9.1",
        "pkg:pypi/pyglet@1.5.10",
        "pkg:pypi/networkx@2.5",
        "pkg:pypi/plyfile@0.7.2",
        "pkg:pypi/open3d@0.13.0",
        "pkg:pypi/configargparse@1.5.3",
        "pkg:pypi/ninja",
    ]);
    assert_eq!(keys(&manifest.resolved), expected);
    for e in &manifest.resolved {
        assert_eq!(e.relationship, "direct");
        assert!(e.dependencies.is_empty());
    }
    assert_eq!(manifest.name, "test/environment.yaml");
    assert_eq!(manifest.env_file.source_location, "test/environment.yaml");
}

#[test]
fn conda_declaration_with_version() {
    assert_eq!(conda_package_url("numpy=1.21"), "pkg:conda/numpy@1.21");
}

#[test]
fn conda_declaration_without_version() {
    assert_eq!(conda_package_url("numpy"), "pkg:conda/numpy");
}

#[test]
fn conda_name_kept_verbatim() {
    assert_eq!(conda_package_url("Py_Yaml=5.4"), "pkg:conda/Py_Yaml@5.4");
}

#[test]
fn conda_extra_delimiters_stay_in_version() {
    assert_eq!(conda_package_url("python=3.8=h12_0"), "pkg:conda/python@3.8=h12_0");
}

#[test]
fn conda_empty_version_gives_no_suffix() {
    assert_eq!(conda_package_url("python="), "pkg:conda/python");
}

#[test]
fn pypi_declaration_with_version() {
    assert_eq!(pypi_package_url("Name_Extra==1.2.3"), "pkg:pypi/name-extra@1.2.3");
}

#[test]
fn pypi_declaration_without_version() {
    assert_eq!(pypi_package_url("Name_Extra"), "pkg:pypi/name-extra");
}

#[test]
fn pypi_extra_delimiters_stay_in_version() {
    assert_eq!(pypi_package_url("pkg==1.0==2"), "pkg:pypi/pkg@1.0==2");
}

#[test]
fn pypi_single_equals_is_part_of_name() {
    assert_eq!(pypi_package_url("a=b"), "pkg:pypi/a=b");
}

#[test]
fn pypi_url_from_lowered_name() {
    assert_eq!(pypi_package_url_lowered("name_extra", "1.2.3"), "pkg:pypi/name-extra@1.2.3");
    assert_eq!(pypi_package_url_lowered("name_extra", ""), "pkg:pypi/name-extra");
}

#[test]
fn purl_string_formats() {
    assert_eq!(purl_string(Ecosystem::Conda, "x", "1"), "pkg:conda/x@1");
    assert_eq!(purl_string(Ecosystem::Pypi, "x", ""), "pkg:pypi/x");
}

#[test]
fn hyphenate_replaces_every_underscore() {
    assert_eq!(hyphenate("a_b__c"), "a-b--c");
    assert_eq!(hyphenate(""), "");
}

#[test]
fn split_first_takes_first_delimiter() {
    assert_eq!(split_first("a==b==c", "=="), ("a", "b==c"));
    assert_eq!(split_first("abc", "="), ("abc", ""));
    assert_eq!(split_first("", "="), ("", ""));
}

#[test]
fn entry_new_is_direct() {
    let e = Entry::new("pkg:conda/x");
    assert_eq!(e.package_url, "pkg:conda/x");
    assert_eq!(e.relationship, "direct");
    assert!(e.dependencies.is_empty());
    let d = Entry::default();
    assert_eq!(d.package_url, "");
    assert_eq!(d.relationship, "direct");
}

#[test]
fn scenario_python_and_pip() {
    let content = "dependencies:\n  - python=3.8\n  - pip:\n    - Flask==2.0.1\n    - requests\n";
    let entries = resolve_text(content).unwrap();
    assert_eq!(
        keys(&entries),
        sorted(&["pkg:conda/python@3.8", "pkg:pypi/flask@2.0.1", "pkg:pypi/requests"])
    );
    for e in &entries {
        assert_eq!(e.relationship, "direct");
        assert!(e.dependencies.is_empty());
    }
}

#[test]
fn scenario_single_package() {
    let entries = resolve_text("dependencies:\n  - numpy\n").unwrap();
    assert_eq!(keys(&entries), sorted(&["pkg:conda/numpy"]));
}

#[test]
fn resolving_twice_gives_same_mapping() {
    let a = resolve_text(ENVIRONMENT).unwrap();
    let b = resolve_text(ENVIRONMENT).unwrap();
    assert_eq!(keys(&a), keys(&b));
}

#[test]
fn redeclared_package_gives_one_entry() {
    let content = "dependencies:\n  - numpy=1.0\n  - numpy=1.0\n  - pip:\n    - Foo_Bar\n    - foo-bar\n";
    let entries = resolve_text(content).unwrap();
    assert_eq!(keys(&entries), sorted(&["pkg:conda/numpy@1.0", "pkg:pypi/foo-bar"]));
}

#[test]
fn number_declaration_is_malformed() {
    let content = "dependencies:\n  - numpy\n  - 42\n";
    assert_eq!(resolve_text(content).map(|e| e.len()), Err(ResolveError::MalformedDependencyDeclaration(1)));
}

#[test]
fn null_declaration_is_malformed() {
    let content = "dependencies:\n  - null\n  - numpy\n";
    assert_eq!(resolve_text(content).map(|e| e.len()), Err(ResolveError::MalformedDependencyDeclaration(0)));
}

#[test]
fn mapping_without_pip_is_malformed() {
    let content = "dependencies:\n  - numpy\n  - other:\n    - x\n";
    assert_eq!(resolve_text(content).map(|e| e.len()), Err(ResolveError::MalformedDependencyDeclaration(1)));
}

#[test]
fn pip_list_with_number_is_malformed() {
    let content = "dependencies:\n  - pip:\n    - x\n    - 3\n";
    assert_eq!(resolve_text(content).map(|e| e.len()), Err(ResolveError::MalformedDependencyDeclaration(0)));
}

#[test]
fn missing_dependencies_is_reported() {
    assert_eq!(resolve_text("name: env\n").map(|e| e.len()), Err(ResolveError::MissingDependencyList));
    assert_eq!(resolve_text("").map(|e| e.len()), Err(ResolveError::MissingDependencyList));
    assert_eq!(resolve_text("dependencies: 3\n").map(|e| e.len()), Err(ResolveError::MissingDependencyList));
}

#[test]
fn invalid_yaml_is_a_parse_error() {
    assert_eq!(resolve_text("dependencies: [a, b\n").map(|e| e.len()), Err(ResolveError::DescriptorParseError));
}

#[test]
fn malformed_manifest_keeps_nothing() {
    let r = Manifest::new("env.yml").parse_env_file("dependencies:\n  - numpy\n  - ~\n");
    assert!(matches!(r, Err(ResolveError::MalformedDependencyDeclaration(1))));
}

#[test]
fn resolve_declarations_first_malformed_wins() {
    let ds = vec![
        Declaration::Scalar("a".to_string()),
        Declaration::Other,
        Declaration::Other,
    ];
    assert_eq!(
        resolve_declarations(&ds).map(|es| es.len()),
        Err(ResolveError::MalformedDependencyDeclaration(1))
    );
}

#[test]
fn resolve_declarations_mixed() {
    let ds = vec![
        Declaration::NestedPipList(vec!["A_b==1".to_string(), "a-B==1".to_string()]),
        Declaration::Scalar("a_b=1".to_string()),
    ];
    let entries = resolve_declarations(&ds).unwrap();
    assert_eq!(keys(&entries), sorted(&["pkg:conda/a_b@1", "pkg:pypi/a-b@1"]));
}

#[test]
fn classify_reads_declarations() {
    let ds = read_declarations("dependencies:\n  - x=1\n  - pip: [y]\n  - 5\n").unwrap();
    assert_eq!(ds.len(), 3);
    assert!(matches!(&ds[0], Declaration::Scalar(s) if s == "x=1"));
    assert!(matches!(&ds[1], Declaration::NestedPipList(v) if v == &vec!["y".to_string()]));
    assert!(matches!(&ds[2], Declaration::Other));
}

#[test]
fn snapshot_carries_config() {
    let config = RunConfig {
        sha: "abc".to_string(),
        branch_ref: "refs/heads/main".to_string(),
        workflow: "Tests".to_string(),
        job: "checks".to_string(),
        detector_name: "conda-dep-check".to_string(),
        detector_version: "0.1.0".to_string(),
        repository: "o/r".to_string(),
    };
    let s = Snapshot::new(Manifest::new("env.yml"), &config, "2024-01-02T03:04:05z".to_string());
    assert_eq!(s.scanned, "2024-01-02T03:04:05z");
    assert_eq!(s.sha, "abc");
    assert_eq!(s.version, 0);
    assert_eq!(s.branch_ref, "refs/heads/main");
    assert_eq!(s.job.correlator, "Tests_checks");
    assert_eq!(s.job.id, "checks");
    assert_eq!(s.detector.url, "https://github.com/o/r");
    assert_eq!(s.manifests.len(), 1);
    assert_eq!(s.manifests[0].name, "env.yml");
}

#[test]
fn deepest_block_nesting_within_bound_is_read() {
    let depth = MAX_DESCRIPTOR_CHARS / 2 - 1;
    let mut text = String::new();
    for _ in 0..depth {
        text.push_str("- ");
    }
    text.push('x');
    assert!(descriptor_fits(&text));
    assert_eq!(
        read_declarations(&text).map(|ds| ds.len()),
        Err(ResolveError::MissingDependencyList)
    );
}

#[test]
fn deep_nesting_under_dependencies_is_malformed() {
    let mut text = String::from("dependencies:\n  - ");
    while text.chars().count() + 3 <= MAX_DESCRIPTOR_CHARS {
        text.push_str("- ");
    }
    text.push('x');
    assert!(descriptor_fits(&text));
    assert_eq!(
        resolve_text(&text).map(|es| es.len()),
        Err(ResolveError::MalformedDependencyDeclaration(0))
    );
}

#[test]
fn deepest_mixed_nesting_within_bound_is_read() {
    let mut text = String::new();
    while text.chars().count() + 2 + 256 <= MAX_DESCRIPTOR_CHARS {
        text.push_str("- ");
    }
    for _ in 0..255 {
        text.push('[');
    }
    text.push('x');
    assert!(descriptor_fits(&text));
    assert_eq!(
        read_declarations(&text).map(|ds| ds.len()),
        Err(ResolveError::DescriptorParseError)
    );
}

#[test]
fn descriptor_length_bound() {
    assert!(descriptor_fits(""));
    assert!(descriptor_fits(&"a".repeat(MAX_DESCRIPTOR_CHARS)));
    assert!(!descriptor_fits(&"a".repeat(MAX_DESCRIPTOR_CHARS + 1)));
    assert!(descriptor_fits(&"\u{e9}".repeat(MAX_DESCRIPTOR_CHARS)));
}

#[test]
fn field_finds_string_key() {
    let node = YamlNode::Mapping(
        vec![YamlNode::Other, YamlNode::Str("pip".to_string())],
        vec![YamlNode::Str("a".to_string()), YamlNode::Str("b".to_string())],
    );
    assert!(matches!(field(&node, "pip"), Some(YamlNode::Str(s)) if s == "b"));
    assert!(field(&node, "other").is_none());
    assert!(field(&YamlNode::Str("pip".to_string()), "pip").is_none());
}

#[test]
fn classify_nodes() {
    assert!(matches!(classify(&YamlNode::Str("a=1".to_string())), Declaration::Scalar(s) if s == "a=1"));
    let pip = YamlNode::Mapping(
        vec![YamlNode::Str("pip".to_string())],
        vec![YamlNode::List(vec![YamlNode::Str("x".to_string()), YamlNode::Str("y".to_string())])],
    );
    assert!(matches!(classify(&pip), Declaration::NestedPipList(v) if v == vec!["x".to_string(), "y".to_string()]));
    let bad = YamlNode::Mapping(
        vec![YamlNode::Str("pip".to_string())],
        vec![YamlNode::List(vec![YamlNode::Other])],
    );
    assert!(matches!(classify(&bad), Declaration::Other));
    assert!(matches!(classify(&YamlNode::Other), Declaration::Other));
    assert!(matches!(classify(&YamlNode::List(vec![])), Declaration::Other));
}

#[test]
fn duplicate_keys_are_a_parse_error() {
    assert_eq!(
        resolve_text("dependencies: [a]\ndependencies: [b]\n").map(|e| e.len()),
        Err(ResolveError::DescriptorParseError)
    );
}
