use docpkg::compliance::{
    ApplicabilityDto, ControlDto, OutOfScopeDto, ReleaseDto, RequirementDto, StandardDto,
};
use docpkg::packaging::{
    DocumentationPackagingService, FileDescription, Manifest, ManifestDto, PackageDto,
    PackageId, PackagingError, MANIFEST_FILE_NAME, PUBLISH_MESSAGE, RELATIVE_TARGET_PATH,
};
use docpkg::tracking::{ExternalToolError, Outcome, Request, Step};

fn dto(id: &str, files: &[&str]) -> ManifestDto {
    ManifestDto {
        package: PackageDto {
            id: id.to_string(),
            files: files.iter().map(|f| f.to_string()).collect(),
        },
        release: None,
        standard: None,
    }
}

fn manifest(id: &str, files: &[&str]) -> Manifest {
    Manifest::from_dto(dto(id, files)).unwrap()
}

/// A request on one line: the directory, then the arguments.
fn line(request: &Request) -> String {
    match request {
        Request::Run(invocation) => format!(
            "{}{}$ git {}",
            invocation.directory.clone().unwrap_or_default(),
            if invocation.null_input { " <null" } else { "" },
            invocation.arguments.join(" ")
        ),
        Request::Copy { source, target } => format!("copy {} {}", source, target),
        Request::Clear(path) => format!("clear {}", path),
    }
}

/// Opens the service, letting `answer` stand for the repository; the
/// requests made are put into `log`.
fn open(
    files: &[&str],
    fallback: Option<&str>,
    answer: &dyn Fn(&str) -> Outcome,
    log: &mut Vec<String>,
) -> Result<DocumentationPackagingService, PackagingError> {
    let manifest = manifest("docs", files);
    let mut replies: Vec<Outcome> = Vec::new();
    loop {
        let step = DocumentationPackagingService::open("clone", &manifest, fallback, &replies)?;
        match step {
            Step::Next(request) => {
                let asked = line(&request);
                replies.push(answer(&asked));
                log.push(asked);
            }
            Step::Done(service) => return Ok(service),
        }
    }
}

fn run<T>(
    operation: &dyn Fn(&[Outcome]) -> Result<Step<T>, ExternalToolError>,
    answer: &dyn Fn(&str) -> Outcome,
    log: &mut Vec<String>,
) -> Result<T, ExternalToolError> {
    let mut replies: Vec<Outcome> = Vec::new();
    loop {
        match operation(&replies)? {
            Step::Next(request) => {
                let asked = line(&request);
                replies.push(answer(&asked));
                log.push(asked);
            }
            Step::Done(value) => return Ok(value),
        }
    }
}

/// A repository on the branch `main` whose remote has no distribution
/// branch yet, and in which every commit has something to commit.
fn fresh(asked: &str) -> Outcome {
    if asked.ends_with("git branch --show-current") {
        Outcome::new(Some(0), "main\n")
    } else if asked.ends_with("git mktree") {
        Outcome::new(Some(0), "4b825dc642cb6eb9a060e54bf8d69288fbee4904\n")
    } else if asked.contains("git commit-tree") {
        Outcome::new(Some(0), "1111111111111111111111111111111111111111\n")
    } else if asked.contains("git branch docpkg/docs/main origin/") {
        Outcome::new(Some(128), "")
    } else if asked.ends_with("git rev-parse HEAD") {
        Outcome::new(Some(0), "2222222222222222222222222222222222222222\n")
    } else {
        Outcome::new(Some(0), "")
    }
}

/// As `fresh`, but the remote has the distribution branch and nothing has
/// changed since it was published.
fn published(asked: &str) -> Outcome {
    if asked.contains("git branch docpkg/docs/main origin/") {
        Outcome::new(Some(0), "")
    } else if asked.contains("git commit -m") {
        Outcome::new(Some(1), "nothing to commit, working tree clean\n")
    } else {
        fresh(asked)
    }
}

#[test]
fn parse_manifest() {
    let input = "[package]\n\
                 id = \"docpkg\"\n\
                 name = \"Documentation Packager\"\n\
                 files = [\n\
                   \"README.md\"\n\
                 ]\n\
                 ";
    let table = input.parse::<toml::Value>().unwrap();
    let package = &table["package"];
    let read = ManifestDto {
        package: PackageDto {
            id: package["id"].as_str().unwrap().to_string(),
            files: package["files"]
                .as_array()
                .unwrap()
                .iter()
                .map(|file| file.as_str().unwrap().to_string())
                .collect(),
        },
        release: None,
        standard: None,
    };
    let manifest = Manifest::from_dto(read).unwrap();
    assert_eq!(manifest.id().as_str(), "docpkg");
    assert_eq!(manifest.files(), &vec![FileDescription("README.md".to_string())]);
}

#[test]
fn package_ids_are_short_slugs() {
    for id in ["a", "docs", "docpkg", "a-b/c-0", "z9", "abcdefghijklmnopqrst", "a/", "a-"] {
        assert_eq!(PackageId::from(id).unwrap().as_str(), id);
        assert!(Manifest::from_dto(dto(id, &[])).is_ok());
    }
}

#[test]
fn other_texts_are_no_package_ids() {
    for id in [
        "",
        "Docs",
        "dOcs",
        "0docs",
        "-docs",
        "/docs",
        "docs ",
        " docs",
        "docs\n",
        "do_cs",
        "do.cs",
        "d\u{00f6}cs",
        "abcdefghijklmnopqrstu",
    ] {
        assert!(PackageId::from(id).is_none());
        assert_eq!(Manifest::from_dto(dto(id, &[])).unwrap_err(), "could not parse package id");
    }
}

#[test]
fn package_ids_are_what_the_pattern_matches() {
    let pattern = regex::Regex::new(r"^[a-z][a-z0-9/-]{0,19}$").unwrap();
    let written = regex::Regex::new(r"^[a-z][a-z-/0-9]{0,19}$").unwrap();
    let alphabet = ['a', 'm', 'z', 'A', '0', '9', '-', '/', '_', '.', ' ', '\n', '\u{00e9}'];
    let mut texts = vec![String::new()];
    let mut longest = vec![String::new()];
    for _ in 0..3 {
        let mut longer = Vec::new();
        for text in &longest {
            for c in alphabet {
                let mut next = text.clone();
                next.push(c);
                longer.push(next);
            }
        }
        texts.extend(longer.iter().cloned());
        longest = longer;
    }
    for length in 18..=22 {
        for c in alphabet {
            texts.push(format!("a{}", c.to_string().repeat(length - 1)));
            texts.push(format!("{}{}", "b".repeat(length - 1), c));
        }
    }
    for text in texts {
        let expected = pattern.is_match(&text);
        assert_eq!(written.is_match(&text), expected, "{:?}", text);
        assert_eq!(PackageId::from(&text).is_some(), expected, "{:?}", text);
    }
}

#[test]
fn manifest_keeps_each_file_once() {
    let manifest = manifest("docs", &["b.md", "a.md", "b.md", "c/d.md", "a.md"]);
    let files: Vec<&str> = manifest.files().iter().map(|file| file.0.as_str()).collect();
    assert_eq!(files, vec!["b.md", "a.md", "c/d.md"]);
}

#[test]
fn manifest_reports_invalid_compliance_data() {
    let mut read = dto("docs", &[]);
    read.release = Some(vec![ReleaseDto { id: "1.0".to_string() }]);
    read.standard =
        Some(vec![StandardDto { id: None, title: None, uri: None, requirement: Vec::new() }]);
    assert_eq!(Manifest::from_dto(read).unwrap_err(), "invalid standard definition");
}

#[test]
fn manifest_reports_each_kind_of_invalid_compliance_data() {
    let requirement = |answer: ApplicabilityDto| RequirementDto {
        id: "Q".to_string(),
        annotation: None,
        since: Some(vec![("1.0".to_string(), answer)]),
    };
    let with = |answer: ApplicabilityDto| {
        let mut read = dto("docs", &[]);
        read.release = Some(vec![ReleaseDto { id: "1.0".to_string() }]);
        read.standard = Some(vec![StandardDto {
            id: Some("S".to_string()),
            title: None,
            uri: None,
            requirement: vec![requirement(answer)],
        }]);
        Manifest::from_dto(read)
    };
    let neither = ApplicabilityDto { control: None, out: None };
    assert_eq!(with(neither).unwrap_err(), "invalid applicability");
    let evidence = ControlDto { doc: None, code: None, annotation: None, demo: None };
    let unfounded = ApplicabilityDto { control: Some(vec![evidence]), out: None };
    assert_eq!(with(unfounded).unwrap_err(), "invalid design evidence");
    let out = ApplicabilityDto { control: None, out: Some(OutOfScopeDto {}) };
    assert!(with(out).is_ok());

    let mut read = dto("Docs", &[]);
    read.standard =
        Some(vec![StandardDto { id: None, title: None, uri: None, requirement: Vec::new() }]);
    assert_eq!(Manifest::from_dto(read).unwrap_err(), "could not parse package id");
}

#[test]
fn the_names_that_are_fixed() {
    assert_eq!(RELATIVE_TARGET_PATH, "target/docpkg");
    assert_eq!(MANIFEST_FILE_NAME, "Docpkg.toml");
    assert_eq!(PUBLISH_MESSAGE, "docs: new package");
}

#[test]
fn test_initialization() {
    let mut log = Vec::new();
    let service = open(&["README.md"], None, &fresh, &mut log).unwrap();
    assert_eq!(
        log,
        vec![
            "clone$ git branch --show-current",
            "clear clone/target/docpkg",
            "clone <null$ git mktree",
            "clone$ git commit-tree 4b825dc642cb6eb9a060e54bf8d69288fbee4904 -m build: new documentation package",
            "clone$ git branch docpkg/docs/main origin/docpkg/docs/main",
            "clone$ git branch docpkg/docs/main 1111111111111111111111111111111111111111",
            "clone$ git worktree add --force target/docpkg docpkg/docs/main",
        ]
    );
    assert_eq!(service.content().worktree(), "clone");
    assert_eq!(service.target_content().worktree(), "clone/target/docpkg");
    assert_eq!(service.target_branch_name().as_str(), "docpkg/docs/main");
    assert_eq!(service.manifest().id().as_str(), "docs");

    let teardown = service.close();
    let mut log = Vec::new();
    run(&|replies| teardown.remove(replies), &fresh, &mut log).unwrap();
    assert_eq!(log, vec!["clone$ git worktree remove target/docpkg"]);
}

#[test]
fn test_publishing() {
    let mut log = Vec::new();
    let service = open(&["README.md"], None, &fresh, &mut log).unwrap();
    let mut log = Vec::new();
    run(&|replies| service.publish(replies), &fresh, &mut log).unwrap();
    assert_eq!(
        log,
        vec![
            "copy clone/README.md clone/target/docpkg/README.md",
            "clone/target/docpkg$ git add README.md",
            "clone/target/docpkg$ git commit -m docs: new package",
            "clone/target/docpkg$ git rev-parse HEAD",
            "clone$ git push origin docpkg/docs/main",
        ]
    );
}

#[test]
fn publishing_again_without_changes_commits_nothing() {
    let mut log = Vec::new();
    let service = open(&["README.md", "guide/intro.md"], None, &published, &mut log).unwrap();
    assert_eq!(
        log[4..],
        [
            "clone$ git branch docpkg/docs/main origin/docpkg/docs/main",
            "clone$ git worktree add --force target/docpkg docpkg/docs/main",
        ]
    );
    let mut log = Vec::new();
    run(&|replies| service.publish(replies), &published, &mut log).unwrap();
    assert_eq!(
        log,
        vec![
            "copy clone/README.md clone/target/docpkg/README.md",
            "clone/target/docpkg$ git add README.md",
            "copy clone/guide/intro.md clone/target/docpkg/guide/intro.md",
            "clone/target/docpkg$ git add guide/intro.md",
            "clone/target/docpkg$ git commit -m docs: new package",
            "clone$ git push origin docpkg/docs/main",
        ]
    );
}

#[test]
fn publishing_nothing_still_commits_and_pushes() {
    let mut log = Vec::new();
    let service = open(&[], None, &fresh, &mut log).unwrap();
    let mut log = Vec::new();
    run(&|replies| service.publish(replies), &fresh, &mut log).unwrap();
    assert_eq!(
        log,
        vec![
            "clone/target/docpkg$ git commit -m docs: new package",
            "clone/target/docpkg$ git rev-parse HEAD",
            "clone$ git push origin docpkg/docs/main",
        ]
    );
}

#[test]
fn publishing_stops_at_the_first_failure() {
    let mut log = Vec::new();
    let service = open(&["README.md", "other.md"], None, &fresh, &mut log).unwrap();

    let no_add = |asked: &str| {
        if asked.contains("git add") { Outcome::new(Some(128), "") } else { fresh(asked) }
    };
    let mut log = Vec::new();
    let failure = run(&|replies| service.publish(replies), &no_add, &mut log).unwrap_err();
    assert_eq!(failure.status, Some(128));
    assert_eq!(log.len(), 2);

    let no_commit = |asked: &str| {
        if asked.contains("git commit") { Outcome::new(Some(128), "") } else { fresh(asked) }
    };
    let mut log = Vec::new();
    let failure = run(&|replies| service.publish(replies), &no_commit, &mut log).unwrap_err();
    assert_eq!(failure.status, Some(128));
    assert_eq!(log.len(), 5);

    let no_push = |asked: &str| {
        if asked.contains("git push") { Outcome::new(Some(1), "") } else { fresh(asked) }
    };
    let mut log = Vec::new();
    let failure = run(&|replies| service.publish(replies), &no_push, &mut log).unwrap_err();
    assert_eq!(failure.status, Some(1));
    assert_eq!(log.len(), 7);
}

#[test]
fn publishing_stops_where_the_commit_is_refused_with_status_one() {
    let mut log = Vec::new();
    let service = open(&["README.md"], None, &fresh, &mut log).unwrap();
    for printed in ["", "pre-commit hook declined\n"] {
        let hooked = |asked: &str| {
            if asked.contains("git commit -m") {
                Outcome::new(Some(1), printed)
            } else {
                fresh(asked)
            }
        };
        let mut log = Vec::new();
        let failure = run(&|replies| service.publish(replies), &hooked, &mut log).unwrap_err();
        assert_eq!(failure.status, Some(1));
        assert_eq!(
            log,
            vec![
                "copy clone/README.md clone/target/docpkg/README.md",
                "clone/target/docpkg$ git add README.md",
                "clone/target/docpkg$ git commit -m docs: new package",
            ]
        );
    }
}

#[test]
fn opening_falls_back_when_no_branch_is_checked_out() {
    let detached = |asked: &str| {
        if asked.ends_with("git branch --show-current") {
            Outcome::new(Some(0), "\n")
        } else {
            fresh(asked)
        }
    };
    let mut log = Vec::new();
    let service = open(&[], Some("release"), &detached, &mut log).unwrap();
    assert_eq!(service.target_branch_name().as_str(), "docpkg/docs/release");

    let mut log = Vec::new();
    let failure = open(&[], None, &detached, &mut log).unwrap_err();
    assert_eq!(failure, PackagingError::Precondition);
    assert_eq!(log, vec!["clone$ git branch --show-current"]);

    let mut log = Vec::new();
    let failure = open(&[], Some(""), &detached, &mut log).unwrap_err();
    assert_eq!(failure, PackagingError::Configuration);
}

#[test]
fn opening_prefers_the_branch_that_is_checked_out() {
    let mut log = Vec::new();
    let service = open(&[], Some("release"), &fresh, &mut log).unwrap();
    assert_eq!(service.target_branch_name().as_str(), "docpkg/docs/main");
}

#[test]
fn opening_fails_where_the_program_fails() {
    for (broken, requests) in [
        ("git branch --show-current", 1),
        ("git mktree", 3),
        ("git commit-tree", 4),
        ("git worktree add", 7),
    ] {
        let answer = |asked: &str| {
            if asked.contains(broken) { Outcome::new(Some(128), "") } else { fresh(asked) }
        };
        let mut log = Vec::new();
        let failure = open(&[], None, &answer, &mut log).unwrap_err();
        assert_eq!(
            failure,
            PackagingError::ExternalTool(ExternalToolError { status: Some(128) })
        );
        assert_eq!(log.len(), requests);
    }
}

#[test]
fn opening_goes_on_where_the_branch_is_there_already() {
    let taken = |asked: &str| {
        if asked.contains("git branch docpkg/") { Outcome::new(Some(128), "") } else { fresh(asked) }
    };
    let mut log = Vec::new();
    open(&[], None, &taken, &mut log).unwrap();
    assert_eq!(log.len(), 7);
    assert_eq!(log[6], "clone$ git worktree add --force target/docpkg docpkg/docs/main");
}

#[test]
fn closing_fails_where_the_removal_fails() {
    let mut log = Vec::new();
    let service = open(&[], None, &fresh, &mut log).unwrap();
    let stuck = |_: &str| Outcome::new(Some(128), "");
    let teardown = service.close();
    let mut log = Vec::new();
    let failure = run(&|replies| teardown.remove(replies), &stuck, &mut log).unwrap_err();
    assert_eq!(failure.status, Some(128));
}

#[test]
fn a_manifest_and_its_copy_are_alike() {
    let mut read = dto("docs", &["a.md", "b.md"]);
    read.release = Some(vec![ReleaseDto { id: "1.0".to_string() }]);
    read.standard = Some(vec![StandardDto {
        id: None,
        title: Some("Standard".to_string()),
        uri: None,
        requirement: Vec::new(),
    }]);
    let manifest = Manifest::from_dto(read).unwrap();
    let copy = manifest.clone();
    assert_eq!(copy.id().as_str(), "docs");
    assert_eq!(copy.files(), manifest.files());
    let mut table = String::new();
    manifest.compliance_matrix().to_csv(&mut table);
    let mut copied = String::new();
    copy.compliance_matrix().to_csv(&mut copied);
    assert_eq!(table, "\"Standard\",\"Requirement\",\"Annotation\",\"1.0: Design\",\"1.0: Demo \u{2013} who\",\"1.0: Demo \u{2013} what\",\"1.0: Demo \u{2013} how\"\n");
    assert_eq!(table, copied);
}
