use docpkg::compliance::{
    compliance_matrix, escape, try_compliance_matrix, write_row, ApplicabilityDto,
    ComplianceError, ControlDto, DemoDto, OutOfScopeDto, ReleaseDto, RequirementDto, StandardDto,
};

fn releases(ids: &[&str]) -> Vec<ReleaseDto> {
    ids.iter().map(|id| ReleaseDto { id: id.to_string() }).collect()
}

fn texts(items: &[&str]) -> Vec<String> {
    items.iter().map(|item| item.to_string()).collect()
}

fn document(path: &str, annotation: Option<&str>, demo: Option<Vec<DemoDto>>) -> ControlDto {
    ControlDto {
        doc: Some(path.to_string()),
        code: None,
        annotation: annotation.map(|a| a.to_string()),
        demo,
    }
}

fn code(path: &str) -> ControlDto {
    ControlDto { doc: None, code: Some(path.to_string()), annotation: None, demo: None }
}

fn controlled(release: &str, control: Vec<ControlDto>) -> (String, ApplicabilityDto) {
    (release.to_string(), ApplicabilityDto { control: Some(control), out: None })
}

fn out_of_scope(release: &str) -> (String, ApplicabilityDto) {
    (release.to_string(), ApplicabilityDto { control: None, out: Some(OutOfScopeDto {}) })
}

fn requirement(
    id: &str,
    annotation: Option<&str>,
    since: Option<Vec<(String, ApplicabilityDto)>>,
) -> RequirementDto {
    RequirementDto { id: id.to_string(), annotation: annotation.map(|a| a.to_string()), since }
}

fn standard(id: &str, requirement: Vec<RequirementDto>) -> StandardDto {
    StandardDto { id: Some(id.to_string()), title: None, uri: None, requirement }
}

fn csv(release: Vec<ReleaseDto>, standards: Vec<StandardDto>) -> String {
    let matrix = compliance_matrix(release, standards);
    let mut table = String::new();
    matrix.to_csv(&mut table);
    table
}

#[test]
fn escape_quotes_the_cell() {
    assert_eq!(escape(""), "\"\"");
    assert_eq!(escape("plain"), "\"plain\"");
    assert_eq!(escape("Say \"hi\""), "\"Say \\\"hi\\\"\"");
    assert_eq!(escape("a,b\nc"), "\"a,b\nc\"");
}

#[test]
fn write_row_appends_one_line() {
    let mut table = "x".to_string();
    write_row(&mut table, &texts(&["a", "b\"c", ""]));
    assert_eq!(table, "x\"a\",\"b\\\"c\",\"\"\n");
    write_row(&mut table, &Vec::new());
    assert_eq!(table, "x\"a\",\"b\\\"c\",\"\"\n\n");
}

#[test]
fn the_table_of_nothing_is_its_headings() {
    assert_eq!(
        csv(Vec::new(), Vec::new()),
        "\"Standard\",\"Requirement\",\"Annotation\"\n"
    );
}

#[test]
fn the_table_has_a_row_for_each_requirement() {
    let demo = DemoDto {
        person: texts(&["Ann", "Bob"]),
        thing: texts(&["app"]),
        instruction: texts(&["open", "click"]),
    };
    let first = requirement(
        "R1",
        Some("Say \"hi\""),
        Some(vec![controlled("1.0", vec![document("docs/a.md", Some("note"), Some(vec![demo]))])]),
    );
    let second = requirement("R2", None, Some(vec![out_of_scope("2.0")]));
    let table = csv(releases(&["1.0", "2.0"]), vec![standard("ISO", vec![first, second])]);
    let expected = [
        "\"Standard\",\"Requirement\",\"Annotation\",\"1.0: Design\",\"2.0: Design\",\
         \"1.0: Demo \u{2013} who\",\"1.0: Demo \u{2013} what\",\"1.0: Demo \u{2013} how\",\
         \"2.0: Demo \u{2013} who\",\"2.0: Demo \u{2013} what\",\"2.0: Demo \u{2013} how\"\n",
        "\"ISO\",\"R1\",\"Say \\\"hi\\\"\",\"Document: docs/a.md\nnote\",\"Document: docs/a.md\nnote\",\
         \"Ann\n\nBob\",\"app\",\"open\n\nclick\",\"Ann\n\nBob\",\"app\",\"open\n\nclick\"\n",
        "\"ISO\",\"R2\",\"N/A\",\"?\",\"N/A\",\"N/A\",\"N/A\",\"N/A\",\"N/A\",\"N/A\",\"N/A\"\n",
    ]
    .join("");
    assert_eq!(table, expected);
}

#[test]
fn controls_and_demos_are_joined_by_empty_lines() {
    let demos = vec![
        DemoDto { person: texts(&["Ann"]), thing: Vec::new(), instruction: texts(&["one"]) },
        DemoDto { person: texts(&["Bob"]), thing: texts(&["tool"]), instruction: Vec::new() },
    ];
    let more = vec![DemoDto {
        person: texts(&["Cy"]),
        thing: texts(&["kit"]),
        instruction: texts(&["two"]),
    }];
    let controls = vec![
        document("a.md", None, Some(demos)),
        code("src/lib.rs"),
        document("b.md", Some("see there"), Some(more)),
    ];
    let table = csv(
        releases(&["r"]),
        vec![standard("S", vec![requirement("Q", None, Some(vec![controlled("r", controls)]))])],
    );
    let row = table.lines().skip(1).collect::<Vec<&str>>().join("\n");
    assert_eq!(
        row,
        "\"S\",\"Q\",\"N/A\",\"Document: a.md\n\nCode: src/lib.rs\n\nDocument: b.md\nsee there\",\
         \"Ann\n\nBob\n\nCy\",\"tool\n\nkit\",\"one\n\ntwo\""
    );
}

#[test]
fn a_release_without_a_declaration_keeps_the_earlier_answer() {
    let since = vec![out_of_scope("2"), controlled("4", vec![code("x.rs")])];
    let table = csv(
        releases(&["1", "2", "3", "4", "5"]),
        vec![standard("S", vec![requirement("Q", None, Some(since))])],
    );
    let row = table.lines().nth(1).unwrap();
    assert!(row.starts_with(
        "\"S\",\"Q\",\"N/A\",\"?\",\"N/A\",\"N/A\",\"Code: x.rs\",\"Code: x.rs\","
    ));
}

#[test]
fn a_requirement_without_declarations_is_undefined() {
    let table = csv(
        releases(&["1", "2"]),
        vec![standard("S", vec![requirement("Q", Some("why"), None)])],
    );
    assert_eq!(
        table.lines().nth(1).unwrap(),
        "\"S\",\"Q\",\"why\",\"?\",\"?\",\"N/A\",\"N/A\",\"N/A\",\"N/A\",\"N/A\",\"N/A\""
    );
}

#[test]
fn the_first_declaration_for_a_release_counts() {
    let since = vec![out_of_scope("1"), controlled("1", vec![code("x.rs")])];
    let table =
        csv(releases(&["1"]), vec![standard("S", vec![requirement("Q", None, Some(since))])]);
    assert!(table.lines().nth(1).unwrap().starts_with("\"S\",\"Q\",\"N/A\",\"N/A\","));
}

#[test]
fn a_standard_goes_by_its_id_then_its_title_then_its_uri() {
    let named = |id: Option<&str>, title: Option<&str>, uri: Option<&str>| StandardDto {
        id: id.map(|t| t.to_string()),
        title: title.map(|t| t.to_string()),
        uri: uri.map(|t| t.to_string()),
        requirement: vec![requirement("Q", None, None)],
    };
    let table = csv(
        Vec::new(),
        vec![
            named(Some("id"), Some("title"), Some("uri")),
            named(None, Some("title"), Some("uri")),
            named(None, None, Some("uri")),
        ],
    );
    assert_eq!(
        table,
        "\"Standard\",\"Requirement\",\"Annotation\"\n\
         \"id\",\"Q\",\"N/A\"\n\
         \"title\",\"Q\",\"N/A\"\n\
         \"uri\",\"Q\",\"N/A\"\n"
    );
}

#[test]
fn a_standard_without_any_name_is_invalid() {
    let nameless = StandardDto { id: None, title: None, uri: None, requirement: Vec::new() };
    let error = try_compliance_matrix(Vec::new(), vec![standard("S", Vec::new()), nameless]);
    assert_eq!(error.unwrap_err(), ComplianceError::InvalidStandard);
}

#[test]
fn a_control_needs_exactly_one_design_evidence() {
    let both = ControlDto {
        doc: Some("a.md".to_string()),
        code: Some("a.rs".to_string()),
        annotation: None,
        demo: None,
    };
    let neither = ControlDto { doc: None, code: None, annotation: None, demo: None };
    for control in [both, neither] {
        let since = vec![controlled("1", vec![code("ok.rs"), control])];
        let error = try_compliance_matrix(
            releases(&["1"]),
            vec![standard("S", vec![requirement("Q", None, Some(since))])],
        );
        assert_eq!(error.unwrap_err(), ComplianceError::InvalidDesignEvidence);
    }
}

#[test]
fn an_answer_needs_exactly_one_of_controls_and_out_of_scope() {
    let both = ApplicabilityDto { control: Some(Vec::new()), out: Some(OutOfScopeDto {}) };
    let neither = ApplicabilityDto { control: None, out: None };
    for answer in [both, neither] {
        let error = try_compliance_matrix(
            releases(&["1"]),
            vec![standard(
                "S",
                vec![requirement("Q", None, Some(vec![("1".to_string(), answer)]))],
            )],
        );
        assert_eq!(error.unwrap_err(), ComplianceError::InvalidApplicability);
    }
}

#[test]
fn a_declaration_for_no_release_is_not_looked_at() {
    let neither = ApplicabilityDto { control: None, out: None };
    let since = vec![("unreleased".to_string(), neither)];
    let matrix = try_compliance_matrix(
        releases(&["1"]),
        vec![standard("S", vec![requirement("Q", None, Some(since))])],
    );
    assert!(matrix.is_ok());
}

#[test]
fn the_first_invalid_declaration_is_the_error() {
    let neither = ApplicabilityDto { control: None, out: None };
    let broken = ControlDto { doc: None, code: None, annotation: None, demo: None };
    let since = vec![("2".to_string(), neither), controlled("1", vec![broken])];
    let error = try_compliance_matrix(
        releases(&["1", "2"]),
        vec![
            standard("S", vec![requirement("Q", None, Some(since))]),
            StandardDto { id: None, title: None, uri: None, requirement: Vec::new() },
        ],
    );
    assert_eq!(error.unwrap_err(), ComplianceError::InvalidDesignEvidence);
}

#[test]
fn an_applicable_answer_may_have_no_controls() {
    let table = csv(
        releases(&["1"]),
        vec![standard("S", vec![requirement("Q", None, Some(vec![controlled("1", Vec::new())]))])],
    );
    assert_eq!(table.lines().nth(1).unwrap(), "\"S\",\"Q\",\"N/A\",\"\",\"\",\"\",\"\"");
}

#[test]
fn valid_declarations_give_the_same_matrix_either_way() {
    let declared = || {
        (
            releases(&["1", "2"]),
            vec![standard(
                "S",
                vec![requirement("Q", None, Some(vec![controlled("2", vec![code("x.rs")])]))],
            )],
        )
    };
    let (release, standards) = declared();
    let mut checked = String::new();
    try_compliance_matrix(release, standards).unwrap().to_csv(&mut checked);
    let (release, standards) = declared();
    assert_eq!(csv(release, standards), checked);
    assert!(checked.ends_with("\"S\",\"Q\",\"N/A\",\"?\",\"Code: x.rs\",\"N/A\",\"N/A\",\"N/A\",\"\",\"\",\"\"\n"));
}
