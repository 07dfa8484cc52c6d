//! The compliance matrix: for each requirement of each standard, how every
//! release in turn answers it, and the table that auditors read.

use crate::text::{join, joined, substitute, substituted};
use vstd::prelude::*;

verus! {

/// A release as the manifest declares it.
#[derive(Debug)]
pub struct ReleaseDto {
    pub id: String,
}

/// A demonstration as the manifest declares it.
#[derive(Debug)]
pub struct DemoDto {
    pub person: Vec<String>,
    pub thing: Vec<String>,
    pub instruction: Vec<String>,
}

/// A control as the manifest declares it: exactly one of `doc` and `code`
/// is expected.
#[derive(Debug)]
pub struct ControlDto {
    pub doc: Option<String>,
    pub code: Option<String>,
    pub annotation: Option<String>,
    pub demo: Option<Vec<DemoDto>>,
}

/// The manifest's mark for a requirement that is out of scope.
#[derive(Debug)]
pub struct OutOfScopeDto {}

/// How a requirement is answered from some release on, as the manifest
/// declares it: exactly one of `control` and `out` is expected.
#[derive(Debug)]
pub struct ApplicabilityDto {
    pub control: Option<Vec<ControlDto>>,
    pub out: Option<OutOfScopeDto>,
}

/// A requirement as the manifest declares it. `since` pairs release ids
/// with the answer that holds from that release on; of two entries for one
/// release the first counts.
#[derive(Debug)]
pub struct RequirementDto {
    pub id: String,
    pub annotation: Option<String>,
    pub since: Option<Vec<(String, ApplicabilityDto)>>,
}

/// A standard as the manifest declares it: at least one of `id`, `title`
/// and `uri` is expected.
#[derive(Debug)]
pub struct StandardDto {
    pub id: Option<String>,
    pub title: Option<String>,
    pub uri: Option<String>,
    pub requirement: Vec<RequirementDto>,
}

/// Who shows what, and how.
#[derive(Debug)]
pub struct Demo {
    people: Vec<String>,
    things: Vec<String>,
    instructions: Vec<String>,
}

/// Where the design of a control is laid down.
#[derive(Debug)]
pub enum ControlDesignEvidence {
    Document(String),
    Code(String),
}

/// A measure that answers a requirement.
#[derive(Debug)]
pub struct Control {
    design_evidence: ControlDesignEvidence,
    annotation: Option<String>,
    demos: Vec<Demo>,
}

/// How one release answers a requirement.
#[derive(Debug)]
pub enum Applicability {
    /// No release so far has said anything.
    Undefined,
    /// The requirement is out of scope.
    NotApplicable,
    /// The requirement is answered by these controls.
    Applicable(Vec<Control>),
}

/// A requirement with its answer for each release, in the order of the
/// releases.
#[derive(Debug)]
pub struct Requirement {
    id: String,
    annotation: Option<String>,
    timeline: Vec<Applicability>,
}

/// A standard and its requirements.
#[derive(Debug)]
pub struct Standard {
    id: Option<String>,
    title: Option<String>,
    uri: Option<String>,
    requirements: Vec<Requirement>,
}

/// The releases and, for each standard, the timeline of every requirement.
#[derive(Debug)]
pub struct ComplianceMatrix {
    releases: Vec<String>,
    standards: Vec<Standard>,
}

/// Why a manifest's compliance data cannot be made into a matrix.
#[derive(Debug, Clone, Copy, PartialEq, Eq, Structural)]
pub enum ComplianceError {
    /// A standard has neither id nor title nor uri.
    InvalidStandard,
    /// A control names both a document and code, or neither.
    InvalidDesignEvidence,
    /// An answer declares both controls and out of scope, or neither.
    InvalidApplicability,
}

pub struct DemoView {
    pub people: Seq<Seq<char>>,
    pub things: Seq<Seq<char>>,
    pub instructions: Seq<Seq<char>>,
}

pub struct ControlDtoView {
    pub doc: Option<Seq<char>>,
    pub code: Option<Seq<char>>,
    pub annotation: Option<Seq<char>>,
    pub demo: Option<Seq<DemoView>>,
}

pub struct ApplicabilityDtoView {
    pub control: Option<Seq<ControlDtoView>>,
    pub out: bool,
}

pub struct RequirementDtoView {
    pub id: Seq<char>,
    pub annotation: Option<Seq<char>>,
    pub since: Option<Seq<(Seq<char>, ApplicabilityDtoView)>>,
}

pub struct StandardDtoView {
    pub id: Option<Seq<char>>,
    pub title: Option<Seq<char>>,
    pub uri: Option<Seq<char>>,
    pub requirement: Seq<RequirementDtoView>,
}

pub enum EvidenceView {
    Document(Seq<char>),
    Code(Seq<char>),
}

pub struct ControlView {
    pub design_evidence: EvidenceView,
    pub annotation: Option<Seq<char>>,
    pub demos: Seq<DemoView>,
}

pub enum ApplicabilityView {
    Undefined,
    NotApplicable,
    Applicable(Seq<ControlView>),
}

pub struct RequirementView {
    pub id: Seq<char>,
    pub annotation: Option<Seq<char>>,
    pub timeline: Seq<ApplicabilityView>,
}

pub struct StandardView {
    pub id: Option<Seq<char>>,
    pub title: Option<Seq<char>>,
    pub uri: Option<Seq<char>>,
    pub requirements: Seq<RequirementView>,
}

pub struct ComplianceMatrixView {
    pub releases: Seq<Seq<char>>,
    pub standards: Seq<StandardView>,
}

impl DeepView for ReleaseDto {
    type V = Seq<char>;

    open spec fn deep_view(&self) -> Seq<char> {
        self.id@
    }
}

impl DeepView for DemoDto {
    type V = DemoView;

    open spec fn deep_view(&self) -> DemoView {
        DemoView {
            people: self.person.deep_view(),
            things: self.thing.deep_view(),
            instructions: self.instruction.deep_view(),
        }
    }
}

impl DeepView for ControlDto {
    type V = ControlDtoView;

    open spec fn deep_view(&self) -> ControlDtoView {
        ControlDtoView {
            doc: self.doc.deep_view(),
            code: self.code.deep_view(),
            annotation: self.annotation.deep_view(),
            demo: self.demo.deep_view(),
        }
    }
}

impl DeepView for ApplicabilityDto {
    type V = ApplicabilityDtoView;

    open spec fn deep_view(&self) -> ApplicabilityDtoView {
        ApplicabilityDtoView { control: self.control.deep_view(), out: self.out is Some }
    }
}

impl DeepView for RequirementDto {
    type V = RequirementDtoView;

    open spec fn deep_view(&self) -> RequirementDtoView {
        RequirementDtoView {
            id: self.id@,
            annotation: self.annotation.deep_view(),
            since: self.since.deep_view(),
        }
    }
}

impl DeepView for StandardDto {
    type V = StandardDtoView;

    open spec fn deep_view(&self) -> StandardDtoView {
        StandardDtoView {
            id: self.id.deep_view(),
            title: self.title.deep_view(),
            uri: self.uri.deep_view(),
            requirement: self.requirement.deep_view(),
        }
    }
}

impl DeepView for Demo {
    type V = DemoView;

    closed spec fn deep_view(&self) -> DemoView {
        DemoView {
            people: self.people.deep_view(),
            things: self.things.deep_view(),
            instructions: self.instructions.deep_view(),
        }
    }
}

impl DeepView for ControlDesignEvidence {
    type V = EvidenceView;

    open spec fn deep_view(&self) -> EvidenceView {
        match self {
            ControlDesignEvidence::Document(path) => EvidenceView::Document(path@),
            ControlDesignEvidence::Code(path) => EvidenceView::Code(path@),
        }
    }
}

impl DeepView for Control {
    type V = ControlView;

    closed spec fn deep_view(&self) -> ControlView {
        ControlView {
            design_evidence: self.design_evidence.deep_view(),
            annotation: self.annotation.deep_view(),
            demos: self.demos.deep_view(),
        }
    }
}

impl DeepView for Applicability {
    type V = ApplicabilityView;

    open spec fn deep_view(&self) -> ApplicabilityView {
        match self {
            Applicability::Undefined => ApplicabilityView::Undefined,
            Applicability::NotApplicable => ApplicabilityView::NotApplicable,
            Applicability::Applicable(controls) => ApplicabilityView::Applicable(
                controls.deep_view(),
            ),
        }
    }
}

impl DeepView for Requirement {
    type V = RequirementView;

    closed spec fn deep_view(&self) -> RequirementView {
        RequirementView {
            id: self.id@,
            annotation: self.annotation.deep_view(),
            timeline: self.timeline.deep_view(),
        }
    }
}

impl DeepView for Standard {
    type V = StandardView;

    closed spec fn deep_view(&self) -> StandardView {
        StandardView {
            id: self.id.deep_view(),
            title: self.title.deep_view(),
            uri: self.uri.deep_view(),
            requirements: self.requirements.deep_view(),
        }
    }
}

impl DeepView for ComplianceMatrix {
    type V = ComplianceMatrixView;

    closed spec fn deep_view(&self) -> ComplianceMatrixView {
        ComplianceMatrixView {
            releases: self.releases.deep_view(),
            standards: self.standards.deep_view(),
        }
    }
}

/// The answer that `since` holds for `release`: that of the first entry
/// with this release's id.
pub open spec fn declared(
    since: Seq<(Seq<char>, ApplicabilityDtoView)>,
    release: Seq<char>,
) -> Option<ApplicabilityDtoView>
    decreases since.len(),
{
    if since.len() == 0 {
        None
    } else if since[0].0 == release {
        Some(since[0].1)
    } else {
        declared(since.drop_first(), release)
    }
}

/// The design evidence of a control: the code or the document, where
/// exactly one of them is named.
pub open spec fn evidence_of(control: ControlDtoView) -> Option<EvidenceView> {
    match (control.code, control.doc) {
        (Some(code), None) => Some(EvidenceView::Code(code)),
        (None, Some(doc)) => Some(EvidenceView::Document(doc)),
        _ => None,
    }
}

/// The control that a declaration with valid design evidence stands for.
pub open spec fn control_of(control: ControlDtoView) -> ControlView {
    ControlView {
        design_evidence: evidence_of(control)->0,
        annotation: control.annotation,
        demos: match control.demo {
            Some(demos) => demos,
            None => Seq::empty(),
        },
    }
}

/// The controls that the declarations stand for, where each has valid
/// design evidence.
pub open spec fn controls_of(controls: Seq<ControlDtoView>) -> Option<Seq<ControlView>> {
    if forall|i: int| 0 <= i < controls.len() ==> evidence_of(#[trigger] controls[i]) is Some {
        Some(Seq::new(controls.len(), |i: int| control_of(controls[i])))
    } else {
        None
    }
}

/// How a release answers a requirement, given what the manifest declares
/// for it and the answer of the release before: a release without a
/// declaration keeps the earlier answer.
pub open spec fn applicability_of(
    found: Option<ApplicabilityDtoView>,
    last: ApplicabilityView,
) -> Result<ApplicabilityView, ComplianceError> {
    match found {
        None => Ok(last),
        Some(answer) => {
            if answer.out && answer.control is None {
                Ok(ApplicabilityView::NotApplicable)
            } else if !answer.out && answer.control is Some {
                match controls_of(answer.control->0) {
                    Some(controls) => Ok(ApplicabilityView::Applicable(controls)),
                    None => Err(ComplianceError::InvalidDesignEvidence),
                }
            } else {
                Err(ComplianceError::InvalidApplicability)
            }
        },
    }
}

/// The answer that the timeline `so_far` ends with; before the first
/// release nothing is defined.
pub open spec fn latest(so_far: Seq<ApplicabilityView>) -> ApplicabilityView {
    if so_far.len() == 0 {
        ApplicabilityView::Undefined
    } else {
        so_far.last()
    }
}

/// The answers of all `releases` in order. The first invalid declaration
/// that a release meets is the error.
pub open spec fn timeline_of(
    since: Seq<(Seq<char>, ApplicabilityDtoView)>,
    releases: Seq<Seq<char>>,
) -> Result<Seq<ApplicabilityView>, ComplianceError>
    decreases releases.len(),
{
    if releases.len() == 0 {
        Ok(Seq::empty())
    } else {
        match timeline_of(since, releases.drop_last()) {
            Err(e) => Err(e),
            Ok(so_far) => match applicability_of(
                declared(since, releases.last()),
                latest(so_far),
            ) {
                Err(e) => Err(e),
                Ok(answer) => Ok(so_far.push(answer)),
            },
        }
    }
}

pub open spec fn requirement_of(
    requirement: RequirementDtoView,
    releases: Seq<Seq<char>>,
) -> Result<RequirementView, ComplianceError> {
    let since = match requirement.since {
        Some(since) => since,
        None => Seq::empty(),
    };
    match timeline_of(since, releases) {
        Err(e) => Err(e),
        Ok(timeline) => Ok(
            RequirementView { id: requirement.id, annotation: requirement.annotation, timeline },
        ),
    }
}

pub open spec fn requirements_of(
    requirements: Seq<RequirementDtoView>,
    releases: Seq<Seq<char>>,
) -> Result<Seq<RequirementView>, ComplianceError>
    decreases requirements.len(),
{
    if requirements.len() == 0 {
        Ok(Seq::empty())
    } else {
        match requirements_of(requirements.drop_last(), releases) {
            Err(e) => Err(e),
            Ok(so_far) => match requirement_of(requirements.last(), releases) {
                Err(e) => Err(e),
                Ok(requirement) => Ok(so_far.push(requirement)),
            },
        }
    }
}

pub open spec fn standard_of(standard: StandardDtoView, releases: Seq<Seq<char>>) -> Result<
    StandardView,
    ComplianceError,
> {
    if standard.id is None && standard.uri is None && standard.title is None {
        Err(ComplianceError::InvalidStandard)
    } else {
        match requirements_of(standard.requirement, releases) {
            Err(e) => Err(e),
            Ok(requirements) => Ok(
                StandardView {
                    id: standard.id,
                    title: standard.title,
                    uri: standard.uri,
                    requirements,
                },
            ),
        }
    }
}

pub open spec fn standards_of(standards: Seq<StandardDtoView>, releases: Seq<Seq<char>>) -> Result<
    Seq<StandardView>,
    ComplianceError,
>
    decreases standards.len(),
{
    if standards.len() == 0 {
        Ok(Seq::empty())
    } else {
        match standards_of(standards.drop_last(), releases) {
            Err(e) => Err(e),
            Ok(so_far) => match standard_of(standards.last(), releases) {
                Err(e) => Err(e),
                Ok(standard) => Ok(so_far.push(standard)),
            },
        }
    }
}

/// The matrix that the declared releases and standards stand for. The
/// first invalid declaration, going through the standards, their
/// requirements and the releases in order, is the error.
pub open spec fn matrix_of(releases: Seq<Seq<char>>, standards: Seq<StandardDtoView>) -> Result<
    ComplianceMatrixView,
    ComplianceError,
> {
    match standards_of(standards, releases) {
        Err(e) => Err(e),
        Ok(standards) => Ok(ComplianceMatrixView { releases, standards }),
    }
}

/// A copy of the texts.
fn copy_texts(texts: &Vec<String>) -> (r: Vec<String>)
    ensures
        r.deep_view() == texts.deep_view(),
{
    let mut out: Vec<String> = Vec::new();
    let mut i: usize = 0;
    while i < texts.len()
        invariant
            i <= texts@.len(),
            out@.len() == i,
            forall|j: int| 0 <= j < i ==> out@[j]@ == texts@[j]@,
        decreases texts.len() - i,
    {
        out.push(texts[i].clone());
        i += 1;
    }
    assert(out.deep_view() =~= texts.deep_view());
    out
}

/// A copy of the text, if there is one.
fn copy_text(text: &Option<String>) -> (r: Option<String>)
    ensures
        r.deep_view() == text.deep_view(),
{
    match text {
        Some(text) => Some(text.clone()),
        None => None,
    }
}

fn demos_of(demos: &Option<Vec<DemoDto>>) -> (r: Vec<Demo>)
    ensures
        r.deep_view() == match demos.deep_view() {
            Some(demos) => demos,
            None => Seq::empty(),
        },
{
    let mut out: Vec<Demo> = Vec::new();
    match demos {
        None => {
            assert(out.deep_view() =~= Seq::<DemoView>::empty());
        },
        Some(demos) => {
            let mut i: usize = 0;
            while i < demos.len()
                invariant
                    i <= demos@.len(),
                    out@.len() == i,
                    forall|j: int| 0 <= j < i ==> out@[j].deep_view() == demos@[j].deep_view(),
                decreases demos.len() - i,
            {
                let demo = &demos[i];
                out.push(
                    Demo {
                        people: copy_texts(&demo.person),
                        things: copy_texts(&demo.thing),
                        instructions: copy_texts(&demo.instruction),
                    },
                );
                i += 1;
            }
            assert(out.deep_view() =~= demos.deep_view());
        },
    }
    out
}

fn convert_controls(controls: &Vec<ControlDto>) -> (r: Option<Vec<Control>>)
    ensures
        r.deep_view() == controls_of(controls.deep_view()),
{
    let mut out: Vec<Control> = Vec::new();
    let mut i: usize = 0;
    while i < controls.len()
        invariant
            i <= controls@.len(),
            out@.len() == i,
            forall|j: int|
                0 <= j < i ==> evidence_of(#[trigger] controls.deep_view()[j]) is Some,
            forall|j: int|
                0 <= j < i ==> out@[j].deep_view() == control_of(controls.deep_view()[j]),
        decreases controls.len() - i,
    {
        let control = &controls[i];
        assert(controls.deep_view()[i as int] == control.deep_view());
        let design_evidence = match (&control.code, &control.doc) {
            (Some(code), None) => ControlDesignEvidence::Code(code.clone()),
            (None, Some(doc)) => ControlDesignEvidence::Document(doc.clone()),
            _ => {
                return None;
            },
        };
        out.push(
            Control {
                design_evidence,
                annotation: copy_text(&control.annotation),
                demos: demos_of(&control.demo),
            },
        );
        i += 1;
    }
    assert(out.deep_view() =~= controls_of(controls.deep_view())->0);
    Some(out)
}

impl Clone for Demo {
    fn clone(&self) -> (r: Demo)
        ensures
            r.deep_view() == self.deep_view(),
    {
        Demo {
            people: copy_texts(&self.people),
            things: copy_texts(&self.things),
            instructions: copy_texts(&self.instructions),
        }
    }
}

impl Clone for ControlDesignEvidence {
    fn clone(&self) -> (r: ControlDesignEvidence)
        ensures
            r.deep_view() == self.deep_view(),
    {
        match self {
            ControlDesignEvidence::Code(path) => ControlDesignEvidence::Code(path.clone()),
            ControlDesignEvidence::Document(path) => ControlDesignEvidence::Document(path.clone()),
        }
    }
}

impl Clone for Control {
    fn clone(&self) -> (r: Control)
        ensures
            r.deep_view() == self.deep_view(),
    {
        let mut demos: Vec<Demo> = Vec::new();
        let mut i: usize = 0;
        while i < self.demos.len()
            invariant
                i <= self.demos@.len(),
                demos@.len() == i,
                forall|j: int| 0 <= j < i ==> demos@[j].deep_view() == self.demos@[j].deep_view(),
            decreases self.demos.len() - i,
        {
            demos.push(self.demos[i].clone());
            i += 1;
        }
        assert(demos.deep_view() =~= self.demos.deep_view());
        Control {
            design_evidence: self.design_evidence.clone(),
            annotation: copy_text(&self.annotation),
            demos,
        }
    }
}

impl Clone for Applicability {
    fn clone(&self) -> (r: Applicability)
        ensures
            r.deep_view() == self.deep_view(),
    {
        match self {
            Applicability::Undefined => Applicability::Undefined,
            Applicability::NotApplicable => Applicability::NotApplicable,
            Applicability::Applicable(controls) => {
                let mut out: Vec<Control> = Vec::new();
                let mut i: usize = 0;
                while i < controls.len()
                    invariant
                        i <= controls@.len(),
                        out@.len() == i,
                        forall|j: int|
                            0 <= j < i ==> out@[j].deep_view() == controls@[j].deep_view(),
                    decreases controls.len() - i,
                {
                    out.push(controls[i].clone());
                    i += 1;
                }
                assert(out.deep_view() =~= controls.deep_view());
                Applicability::Applicable(out)
            },
        }
    }
}

impl Clone for Requirement {
    fn clone(&self) -> (r: Requirement)
        ensures
            r.deep_view() == self.deep_view(),
    {
        let mut timeline: Vec<Applicability> = Vec::new();
        let mut i: usize = 0;
        while i < self.timeline.len()
            invariant
                i <= self.timeline@.len(),
                timeline@.len() == i,
                forall|j: int|
                    0 <= j < i ==> timeline@[j].deep_view() == self.timeline@[j].deep_view(),
            decreases self.timeline.len() - i,
        {
            timeline.push(self.timeline[i].clone());
            i += 1;
        }
        assert(timeline.deep_view() =~= self.timeline.deep_view());
        Requirement { id: self.id.clone(), annotation: copy_text(&self.annotation), timeline }
    }
}

impl Clone for Standard {
    fn clone(&self) -> (r: Standard)
        ensures
            r.deep_view() == self.deep_view(),
    {
        proof {
            use_type_invariant(self);
        }
        let mut requirements: Vec<Requirement> = Vec::new();
        let mut i: usize = 0;
        while i < self.requirements.len()
            invariant
                i <= self.requirements@.len(),
                requirements@.len() == i,
                forall|j: int|
                    0 <= j < i ==> requirements@[j].deep_view()
                        == self.requirements@[j].deep_view(),
            decreases self.requirements.len() - i,
        {
            requirements.push(self.requirements[i].clone());
            i += 1;
        }
        assert(requirements.deep_view() =~= self.requirements.deep_view());
        Standard {
            id: copy_text(&self.id),
            title: copy_text(&self.title),
            uri: copy_text(&self.uri),
            requirements,
        }
    }
}

impl Clone for ComplianceMatrix {
    fn clone(&self) -> (r: ComplianceMatrix)
        ensures
            r.deep_view() == self.deep_view(),
    {
        let mut standards: Vec<Standard> = Vec::new();
        let mut i: usize = 0;
        while i < self.standards.len()
            invariant
                i <= self.standards@.len(),
                standards@.len() == i,
                forall|j: int|
                    0 <= j < i ==> standards@[j].deep_view() == self.standards@[j].deep_view(),
            decreases self.standards.len() - i,
        {
            standards.push(self.standards[i].clone());
            i += 1;
        }
        assert(standards.deep_view() =~= self.standards.deep_view());
        ComplianceMatrix { releases: copy_texts(&self.releases), standards }
    }
}

fn find_declared<'a>(since: &'a Vec<(String, ApplicabilityDto)>, release: &String) -> (r: Option<
    &'a ApplicabilityDto,
>)
    ensures
        r.deep_view() == declared(since.deep_view(), release@),
{
    let mut i: usize = 0;
    assert(since.deep_view().skip(0) == since.deep_view());
    while i < since.len()
        invariant
            i <= since@.len(),
            declared(since.deep_view(), release@) == declared(
                since.deep_view().skip(i as int),
                release@,
            ),
        decreases since.len() - i,
    {
        assert(since.deep_view().skip(i as int)[0] == since@[i as int].deep_view());
        if since[i].0 == *release {
            return Some(&since[i].1);
        }
        assert(since.deep_view().skip(i as int).drop_first() == since.deep_view().skip(i + 1));
        i += 1;
    }
    None
}

fn convert_applicability(found: Option<&ApplicabilityDto>, so_far: &Vec<Applicability>) -> (r:
    Result<Applicability, ComplianceError>)
    ensures
        match r {
            Ok(answer) => Ok(answer.deep_view()),
            Err(e) => Err(e),
        } == applicability_of(found.deep_view(), latest(so_far.deep_view())),
{
    match found {
        None => {
            if so_far.len() == 0 {
                Ok(Applicability::Undefined)
            } else {
                Ok(so_far[so_far.len() - 1].clone())
            }
        },
        Some(answer) => match (&answer.out, &answer.control) {
            (Some(_), None) => Ok(Applicability::NotApplicable),
            (None, Some(controls)) => match convert_controls(controls) {
                Some(controls) => Ok(Applicability::Applicable(controls)),
                None => Err(ComplianceError::InvalidDesignEvidence),
            },
            _ => Err(ComplianceError::InvalidApplicability),
        },
    }
}

fn convert_requirement(requirement: &RequirementDto, releases: &Vec<String>) -> (r: Result<
    Requirement,
    ComplianceError,
>)
    ensures
        match r {
            Ok(requirement) => Ok(requirement.deep_view()),
            Err(e) => Err(e),
        } == requirement_of(requirement.deep_view(), releases.deep_view()),
{
    let none: Vec<(String, ApplicabilityDto)> = Vec::new();
    let since = match &requirement.since {
        Some(since) => since,
        None => &none,
    };
    let ghost declarations = match requirement.deep_view().since {
        Some(since) => since,
        None => Seq::empty(),
    };
    assert(since.deep_view() =~= declarations);
    let mut timeline: Vec<Applicability> = Vec::new();
    let mut i: usize = 0;
    assert(releases.deep_view().take(0) =~= Seq::<Seq<char>>::empty());
    assert(timeline.deep_view() =~= Seq::<ApplicabilityView>::empty());
    while i < releases.len()
        invariant
            i <= releases@.len(),
            since.deep_view() == declarations,
            declarations == match requirement.deep_view().since {
                Some(since) => since,
                None => Seq::empty(),
            },
            timeline_of(declarations, releases.deep_view().take(i as int)) == Ok::<
                Seq<ApplicabilityView>,
                ComplianceError,
            >(timeline.deep_view()),
        decreases releases.len() - i,
    {
        let ghost before = timeline.deep_view();
        assert(releases.deep_view().take(i + 1).drop_last() == releases.deep_view().take(
            i as int,
        ));
        assert(releases.deep_view().take(i + 1).last() == releases@[i as int]@);
        let found = find_declared(since, &releases[i]);
        match convert_applicability(found, &timeline) {
            Ok(answer) => {
                timeline.push(answer);
                assert(timeline.deep_view() =~= before.push(answer.deep_view()));
            },
            Err(e) => {
                proof {
                    assert(timeline_of(declarations, releases.deep_view().take(i + 1)) == Err::<
                        Seq<ApplicabilityView>,
                        ComplianceError,
                    >(e));
                    lemma_timeline_error_stays(declarations, releases.deep_view(), i + 1);
                }
                return Err(e);
            },
        }
        i += 1;
    }
    assert(releases.deep_view().take(releases@.len() as int) == releases.deep_view());
    Ok(
        Requirement {
            id: requirement.id.clone(),
            annotation: copy_text(&requirement.annotation),
            timeline,
        },
    )
}

/// An error among the first `n` releases is the error of them all.
proof fn lemma_timeline_error_stays(
    since: Seq<(Seq<char>, ApplicabilityDtoView)>,
    releases: Seq<Seq<char>>,
    n: int,
)
    requires
        0 <= n <= releases.len(),
        timeline_of(since, releases.take(n)) is Err,
    ensures
        timeline_of(since, releases) == timeline_of(since, releases.take(n)),
    decreases releases.len() - n,
{
    if n == releases.len() {
        assert(releases.take(n) == releases);
    } else {
        assert(releases.take(n + 1).drop_last() == releases.take(n));
        lemma_timeline_error_stays(since, releases, n + 1);
    }
}

/// An error among the first `n` requirements is the error of them all.
proof fn lemma_requirements_error_stays(
    requirements: Seq<RequirementDtoView>,
    releases: Seq<Seq<char>>,
    n: int,
)
    requires
        0 <= n <= requirements.len(),
        requirements_of(requirements.take(n), releases) is Err,
    ensures
        requirements_of(requirements, releases) == requirements_of(requirements.take(n), releases),
    decreases requirements.len() - n,
{
    if n == requirements.len() {
        assert(requirements.take(n) == requirements);
    } else {
        assert(requirements.take(n + 1).drop_last() == requirements.take(n));
        lemma_requirements_error_stays(requirements, releases, n + 1);
    }
}

/// An error among the first `n` standards is the error of them all.
proof fn lemma_standards_error_stays(
    standards: Seq<StandardDtoView>,
    releases: Seq<Seq<char>>,
    n: int,
)
    requires
        0 <= n <= standards.len(),
        standards_of(standards.take(n), releases) is Err,
    ensures
        standards_of(standards, releases) == standards_of(standards.take(n), releases),
    decreases standards.len() - n,
{
    if n == standards.len() {
        assert(standards.take(n) == standards);
    } else {
        assert(standards.take(n + 1).drop_last() == standards.take(n));
        lemma_standards_error_stays(standards, releases, n + 1);
    }
}

fn convert_requirements(requirements: &Vec<RequirementDto>, releases: &Vec<String>) -> (r: Result<
    Vec<Requirement>,
    ComplianceError,
>)
    ensures
        match r {
            Ok(requirements) => Ok(requirements.deep_view()),
            Err(e) => Err(e),
        } == requirements_of(requirements.deep_view(), releases.deep_view()),
{
    let mut out: Vec<Requirement> = Vec::new();
    let mut i: usize = 0;
    assert(requirements.deep_view().take(0) =~= Seq::<RequirementDtoView>::empty());
    assert(out.deep_view() =~= Seq::<RequirementView>::empty());
    while i < requirements.len()
        invariant
            i <= requirements@.len(),
            requirements_of(requirements.deep_view().take(i as int), releases.deep_view()) == Ok::<
                Seq<RequirementView>,
                ComplianceError,
            >(out.deep_view()),
        decreases requirements.len() - i,
    {
        let ghost before = out.deep_view();
        assert(requirements.deep_view().take(i + 1).drop_last() == requirements.deep_view().take(
            i as int,
        ));
        assert(requirements.deep_view().take(i + 1).last() == requirements@[i as int].deep_view());
        match convert_requirement(&requirements[i], releases) {
            Ok(requirement) => {
                out.push(requirement);
                assert(out.deep_view() =~= before.push(requirement.deep_view()));
            },
            Err(e) => {
                proof {
                    lemma_requirements_error_stays(
                        requirements.deep_view(),
                        releases.deep_view(),
                        i + 1,
                    );
                }
                return Err(e);
            },
        }
        i += 1;
    }
    assert(requirements.deep_view().take(requirements@.len() as int) == requirements.deep_view());
    Ok(out)
}

fn convert_standard(standard: &StandardDto, releases: &Vec<String>) -> (r: Result<
    Standard,
    ComplianceError,
>)
    ensures
        match r {
            Ok(standard) => Ok(standard.deep_view()),
            Err(e) => Err(e),
        } == standard_of(standard.deep_view(), releases.deep_view()),
{
    if standard.id.is_none() && standard.uri.is_none() && standard.title.is_none() {
        return Err(ComplianceError::InvalidStandard);
    }
    match convert_requirements(&standard.requirement, releases) {
        Ok(requirements) => Ok(
            Standard {
                id: copy_text(&standard.id),
                title: copy_text(&standard.title),
                uri: copy_text(&standard.uri),
                requirements,
            },
        ),
        Err(e) => Err(e),
    }
}

/// Builds the matrix from a manifest's releases and standards, which are
/// to be valid: see [`try_compliance_matrix`] for declarations of which
/// that is not known.
pub fn compliance_matrix(release: Vec<ReleaseDto>, standard: Vec<StandardDto>) -> (r:
    ComplianceMatrix)
    requires
        matrix_of(release.deep_view(), standard.deep_view()) is Ok,
    ensures
        matrix_of(release.deep_view(), standard.deep_view()) == Ok::<
            ComplianceMatrixView,
            ComplianceError,
        >(r.deep_view()),
{
    match try_compliance_matrix(release, standard) {
        Ok(matrix) => matrix,
        Err(_) => vstd::pervasive::unreached(),
    }
}

/// Builds the matrix from a manifest's releases and standards. Where a
/// declaration is invalid there is no matrix: the result is the error of
/// the first such declaration.
pub fn try_compliance_matrix(release: Vec<ReleaseDto>, standard: Vec<StandardDto>) -> (r: Result<
    ComplianceMatrix,
    ComplianceError,
>)
    ensures
        match r {
            Ok(matrix) => Ok(matrix.deep_view()),
            Err(e) => Err(e),
        } == matrix_of(release.deep_view(), standard.deep_view()),
{
    let mut releases: Vec<String> = Vec::new();
    let mut k: usize = 0;
    while k < release.len()
        invariant
            k <= release@.len(),
            releases@.len() == k,
            forall|j: int| 0 <= j < k ==> releases@[j]@ == release@[j].id@,
        decreases release.len() - k,
    {
        releases.push(release[k].id.clone());
        k += 1;
    }
    assert(releases.deep_view() =~= release.deep_view());
    let mut standards: Vec<Standard> = Vec::new();
    let mut i: usize = 0;
    assert(standard.deep_view().take(0) =~= Seq::<StandardDtoView>::empty());
    assert(standards.deep_view() =~= Seq::<StandardView>::empty());
    while i < standard.len()
        invariant
            i <= standard@.len(),
            releases.deep_view() == release.deep_view(),
            standards_of(standard.deep_view().take(i as int), releases.deep_view()) == Ok::<
                Seq<StandardView>,
                ComplianceError,
            >(standards.deep_view()),
        decreases standard.len() - i,
    {
        let ghost before = standards.deep_view();
        assert(standard.deep_view().take(i + 1).drop_last() == standard.deep_view().take(i as int));
        assert(standard.deep_view().take(i + 1).last() == standard@[i as int].deep_view());
        match convert_standard(&standard[i], &releases) {
            Ok(converted) => {
                standards.push(converted);
                assert(standards.deep_view() =~= before.push(converted.deep_view()));
            },
            Err(e) => {
                proof {
                    lemma_standards_error_stays(standard.deep_view(), releases.deep_view(), i + 1);
                }
                return Err(e);
            },
        }
        i += 1;
    }
    assert(standard.deep_view().take(standard@.len() as int) == standard.deep_view());
    Ok(ComplianceMatrix { releases, standards })
}

/// A cell as the table writes it: between double quotes, with a backslash
/// before each double quote of its own.
pub open spec fn escaped(cell: Seq<char>) -> Seq<char> {
    seq!['"'] + substituted(cell, '"', seq!['\\', '"']) + seq!['"']
}

pub open spec fn escaped_cells(cells: Seq<Seq<char>>) -> Seq<Seq<char>> {
    Seq::new(cells.len(), |i: int| escaped(cells[i]))
}

/// A row as the table writes it: its cells escaped, with commas between
/// them and a line end after them.
pub open spec fn row_text(cells: Seq<Seq<char>>) -> Seq<char> {
    joined(escaped_cells(cells), seq![',']) + seq!['\n']
}

/// The heading of each release's design column.
pub open spec fn design_headings(releases: Seq<Seq<char>>) -> Seq<Seq<char>> {
    Seq::new(releases.len(), |i: int| releases[i] + ": Design"@)
}

/// The headings of each release's three demonstration columns.
pub open spec fn demo_headings(releases: Seq<Seq<char>>) -> Seq<Seq<char>>
    decreases releases.len(),
{
    if releases.len() == 0 {
        Seq::empty()
    } else {
        demo_headings(releases.drop_last()) + seq![
            releases.last() + ": Demo – who"@,
            releases.last() + ": Demo – what"@,
            releases.last() + ": Demo – how"@,
        ]
    }
}

pub open spec fn headings(releases: Seq<Seq<char>>) -> Seq<Seq<char>> {
    seq!["Standard"@, "Requirement"@, "Annotation"@] + design_headings(releases) + demo_headings(
        releases,
    )
}

/// A control in a design cell: where its design is laid down, and its
/// annotation on a line of its own.
pub open spec fn control_text(control: ControlView) -> Seq<char> {
    (match control.design_evidence {
        EvidenceView::Code(path) => "Code: "@ + path,
        EvidenceView::Document(path) => "Document: "@ + path,
    }) + (match control.annotation {
        Some(annotation) => seq!['\n'] + annotation,
        None => Seq::empty(),
    })
}

pub open spec fn control_texts(controls: Seq<ControlView>) -> Seq<Seq<char>> {
    Seq::new(controls.len(), |i: int| control_text(controls[i]))
}

/// The design cell of one release.
pub open spec fn design_cell(answer: ApplicabilityView) -> Seq<char> {
    match answer {
        ApplicabilityView::Undefined => "?"@,
        ApplicabilityView::NotApplicable => "N/A"@,
        ApplicabilityView::Applicable(controls) => joined(control_texts(controls), "\n\n"@),
    }
}

pub open spec fn design_cells(timeline: Seq<ApplicabilityView>) -> Seq<Seq<char>> {
    Seq::new(timeline.len(), |i: int| design_cell(timeline[i]))
}

/// The demonstrations of all the controls, in order.
pub open spec fn all_demos(controls: Seq<ControlView>) -> Seq<DemoView>
    decreases controls.len(),
{
    if controls.len() == 0 {
        Seq::empty()
    } else {
        all_demos(controls.drop_last()) + controls.last().demos
    }
}

pub open spec fn all_people(demos: Seq<DemoView>) -> Seq<Seq<char>>
    decreases demos.len(),
{
    if demos.len() == 0 {
        Seq::empty()
    } else {
        all_people(demos.drop_last()) + demos.last().people
    }
}

pub open spec fn all_things(demos: Seq<DemoView>) -> Seq<Seq<char>>
    decreases demos.len(),
{
    if demos.len() == 0 {
        Seq::empty()
    } else {
        all_things(demos.drop_last()) + demos.last().things
    }
}

pub open spec fn all_instructions(demos: Seq<DemoView>) -> Seq<Seq<char>>
    decreases demos.len(),
{
    if demos.len() == 0 {
        Seq::empty()
    } else {
        all_instructions(demos.drop_last()) + demos.last().instructions
    }
}

/// The three demonstration cells of one release: who shows, what, and how.
pub open spec fn demo_cells_of(answer: ApplicabilityView) -> Seq<Seq<char>> {
    match answer {
        ApplicabilityView::Applicable(controls) => seq![
            joined(all_people(all_demos(controls)), "\n\n"@),
            joined(all_things(all_demos(controls)), "\n\n"@),
            joined(all_instructions(all_demos(controls)), "\n\n"@),
        ],
        _ => seq!["N/A"@, "N/A"@, "N/A"@],
    }
}

pub open spec fn demo_cells(timeline: Seq<ApplicabilityView>) -> Seq<Seq<char>>
    decreases timeline.len(),
{
    if timeline.len() == 0 {
        Seq::empty()
    } else {
        demo_cells(timeline.drop_last()) + demo_cells_of(timeline.last())
    }
}

/// What a standard goes by: its id, else its title, else its uri.
pub open spec fn standard_name(standard: StandardView) -> Seq<char> {
    match (standard.id, standard.title, standard.uri) {
        (Some(id), _, _) => id,
        (None, Some(title), _) => title,
        (None, None, Some(uri)) => uri,
        (None, None, None) => Seq::empty(),
    }
}

/// The cells of a requirement's row.
pub open spec fn row_cells(standard: StandardView, requirement: RequirementView) -> Seq<Seq<char>> {
    seq![
        standard_name(standard),
        requirement.id,
        match requirement.annotation {
            Some(annotation) => annotation,
            None => "N/A"@,
        },
    ] + design_cells(requirement.timeline) + demo_cells(requirement.timeline)
}

/// The rows of the requirements of one standard.
pub open spec fn requirement_rows(
    standard: StandardView,
    requirements: Seq<RequirementView>,
) -> Seq<char>
    decreases requirements.len(),
{
    if requirements.len() == 0 {
        Seq::empty()
    } else {
        requirement_rows(standard, requirements.drop_last()) + row_text(
            row_cells(standard, requirements.last()),
        )
    }
}

pub open spec fn standard_rows(standards: Seq<StandardView>) -> Seq<char>
    decreases standards.len(),
{
    if standards.len() == 0 {
        Seq::empty()
    } else {
        standard_rows(standards.drop_last()) + requirement_rows(
            standards.last(),
            standards.last().requirements,
        )
    }
}

/// The table: the row of headings, then one row for each requirement of
/// each standard.
pub open spec fn csv_text(matrix: ComplianceMatrixView) -> Seq<char> {
    row_text(headings(matrix.releases)) + standard_rows(matrix.standards)
}

pub fn escape(s: &str) -> (r: String)
    ensures
        r@ == escaped(s@),
{
    proof {
        reveal_strlit("\"");
        reveal_strlit("\\\"");
    }
    let mut out = "\"".to_owned();
    assert(out@ == seq!['"']);
    let body = substitute(s, '"', "\\\"");
    assert("\\\""@ == seq!['\\', '"']);
    out.append(body.as_str());
    out.append("\"");
    out
}

pub fn write_row(w: &mut String, r: &Vec<String>)
    ensures
        final(w)@ == old(w)@ + row_text(r.deep_view()),
{
    let mut cells: Vec<String> = Vec::new();
    let mut i: usize = 0;
    while i < r.len()
        invariant
            i <= r@.len(),
            cells@.len() == i,
            forall|j: int| 0 <= j < i ==> cells@[j]@ == escaped(r@[j]@),
        decreases r.len() - i,
    {
        cells.push(escape(r[i].as_str()));
        i += 1;
    }
    assert(cells.deep_view() =~= escaped_cells(r.deep_view()));
    proof {
        reveal_strlit(",");
        reveal_strlit("\n");
    }
    assert(","@ == seq![',']);
    assert("\n"@ == seq!['\n']);
    let line = join(&cells, ",");
    w.append(line.as_str());
    w.append("\n");
}

/// Puts copies of `texts` at the end of `out`.
fn append_texts(out: &mut Vec<String>, texts: &Vec<String>)
    ensures
        final(out).deep_view() == old(out).deep_view() + texts.deep_view(),
{
    let ghost before = out.deep_view();
    let mut i: usize = 0;
    assert(out.deep_view() =~= before + texts.deep_view().take(0));
    while i < texts.len()
        invariant
            i <= texts@.len(),
            out.deep_view() == before + texts.deep_view().take(i as int),
        decreases texts.len() - i,
    {
        let ghost so_far = out.deep_view();
        out.push(texts[i].clone());
        assert(out.deep_view() =~= so_far.push(texts@[i as int]@));
        assert(texts.deep_view().take(i + 1) =~= texts.deep_view().take(i as int).push(
            texts@[i as int]@,
        ));
        assert(out.deep_view() =~= before + texts.deep_view().take(i + 1));
        i += 1;
    }
    assert(texts.deep_view().take(texts@.len() as int) == texts.deep_view());
}

fn heading_cells(releases: &Vec<String>) -> (r: Vec<String>)
    ensures
        r.deep_view() == headings(releases.deep_view()),
{
    let mut header: Vec<String> = Vec::new();
    header.push("Standard".to_owned());
    header.push("Requirement".to_owned());
    header.push("Annotation".to_owned());
    let ghost fixed = seq!["Standard"@, "Requirement"@, "Annotation"@];
    assert(header.deep_view() =~= fixed + design_headings(releases.deep_view().take(0)));
    let mut i: usize = 0;
    while i < releases.len()
        invariant
            i <= releases@.len(),
            fixed == seq!["Standard"@, "Requirement"@, "Annotation"@],
            header.deep_view() == fixed + design_headings(releases.deep_view().take(i as int)),
        decreases releases.len() - i,
    {
        let ghost so_far = header.deep_view();
        let mut heading = releases[i].clone();
        heading.append(": Design");
        header.push(heading);
        assert(header.deep_view() =~= so_far.push(releases@[i as int]@ + ": Design"@));
        assert(design_headings(releases.deep_view().take(i + 1)) =~= design_headings(
            releases.deep_view().take(i as int),
        ).push(releases@[i as int]@ + ": Design"@));
        assert(header.deep_view() =~= fixed + design_headings(releases.deep_view().take(i + 1)));
        i += 1;
    }
    assert(releases.deep_view().take(releases@.len() as int) == releases.deep_view());
    let ghost designs = header.deep_view();
    let mut k: usize = 0;
    assert(header.deep_view() =~= designs + demo_headings(releases.deep_view().take(0)));
    while k < releases.len()
        invariant
            k <= releases@.len(),
            header.deep_view() == designs + demo_headings(releases.deep_view().take(k as int)),
        decreases releases.len() - k,
    {
        let ghost so_far = header.deep_view();
        let mut who = releases[k].clone();
        who.append(": Demo – who");
        let mut what = releases[k].clone();
        what.append(": Demo – what");
        let mut how = releases[k].clone();
        how.append(": Demo – how");
        header.push(who);
        header.push(what);
        header.push(how);
        assert(releases.deep_view().take(k + 1).drop_last() == releases.deep_view().take(k as int));
        assert(releases.deep_view().take(k + 1).last() == releases@[k as int]@);
        assert(header.deep_view() =~= so_far + seq![
            releases@[k as int]@ + ": Demo – who"@,
            releases@[k as int]@ + ": Demo – what"@,
            releases@[k as int]@ + ": Demo – how"@,
        ]);
        assert(header.deep_view() =~= designs + demo_headings(releases.deep_view().take(k + 1)));
        k += 1;
    }
    assert(releases.deep_view().take(releases@.len() as int) == releases.deep_view());
    header
}

fn control_cell(control: &Control) -> (r: String)
    ensures
        r@ == control_text(control.deep_view()),
{
    let mut out = String::new();
    match &control.design_evidence {
        ControlDesignEvidence::Code(path) => {
            out.append("Code: ");
            out.append(path.as_str());
            assert(out@ =~= "Code: "@ + path@);
        },
        ControlDesignEvidence::Document(path) => {
            out.append("Document: ");
            out.append(path.as_str());
            assert(out@ =~= "Document: "@ + path@);
        },
    }
    match &control.annotation {
        Some(annotation) => {
            proof {
                reveal_strlit("\n");
            }
            assert("\n"@ =~= seq!['\n']);
            let ghost so_far = out@;
            out.append("\n");
            out.append(annotation.as_str());
            assert(out@ =~= so_far + (seq!['\n'] + annotation@));
        },
        None => {
            assert(out@ =~= out@ + Seq::<char>::empty());
        },
    }
    out
}

fn design(answer: &Applicability) -> (r: String)
    ensures
        r@ == design_cell(answer.deep_view()),
{
    match answer {
        Applicability::Undefined => "?".to_owned(),
        Applicability::NotApplicable => "N/A".to_owned(),
        Applicability::Applicable(controls) => {
            let mut cells: Vec<String> = Vec::new();
            let mut i: usize = 0;
            while i < controls.len()
                invariant
                    i <= controls@.len(),
                    cells@.len() == i,
                    forall|j: int|
                        0 <= j < i ==> cells@[j]@ == control_text(controls@[j].deep_view()),
                decreases controls.len() - i,
            {
                cells.push(control_cell(&controls[i]));
                i += 1;
            }
            assert(cells.deep_view() =~= control_texts(controls.deep_view()));
            join(&cells, "\n\n")
        },
    }
}

fn demonstrations(row: &mut Vec<String>, answer: &Applicability)
    ensures
        final(row).deep_view() == old(row).deep_view() + demo_cells_of(answer.deep_view()),
{
    let ghost before = row.deep_view();
    match answer {
        Applicability::Applicable(controls) => {
            let mut who: Vec<String> = Vec::new();
            let mut what: Vec<String> = Vec::new();
            let mut how: Vec<String> = Vec::new();
            let mut i: usize = 0;
            assert(controls.deep_view().take(0) =~= Seq::<ControlView>::empty());
            assert(who.deep_view() =~= Seq::<Seq<char>>::empty());
            assert(what.deep_view() =~= Seq::<Seq<char>>::empty());
            assert(how.deep_view() =~= Seq::<Seq<char>>::empty());
            while i < controls.len()
                invariant
                    i <= controls@.len(),
                    who.deep_view() == all_people(all_demos(controls.deep_view().take(i as int))),
                    what.deep_view() == all_things(all_demos(controls.deep_view().take(i as int))),
                    how.deep_view() == all_instructions(
                        all_demos(controls.deep_view().take(i as int)),
                    ),
                decreases controls.len() - i,
            {
                let demos = &controls[i].demos;
                let ghost earlier = all_demos(controls.deep_view().take(i as int));
                assert(controls.deep_view().take(i + 1).drop_last() == controls.deep_view().take(
                    i as int,
                ));
                assert(controls.deep_view().take(i + 1).last().demos == demos.deep_view());
                let mut j: usize = 0;
                assert(earlier + demos.deep_view().take(0) =~= earlier);
                while j < demos.len()
                    invariant
                        j <= demos@.len(),
                        who.deep_view() == all_people(earlier + demos.deep_view().take(j as int)),
                        what.deep_view() == all_things(earlier + demos.deep_view().take(j as int)),
                        how.deep_view() == all_instructions(
                            earlier + demos.deep_view().take(j as int),
                        ),
                    decreases demos.len() - j,
                {
                    let ghost next = earlier + demos.deep_view().take(j + 1);
                    assert(next.drop_last() =~= earlier + demos.deep_view().take(j as int));
                    assert(next.last() == demos@[j as int].deep_view());
                    append_texts(&mut who, &demos[j].people);
                    append_texts(&mut what, &demos[j].things);
                    append_texts(&mut how, &demos[j].instructions);
                    j += 1;
                }
                assert(demos.deep_view().take(demos@.len() as int) == demos.deep_view());
                i += 1;
            }
            assert(controls.deep_view().take(controls@.len() as int) == controls.deep_view());
            row.push(join(&who, "\n\n"));
            row.push(join(&what, "\n\n"));
            row.push(join(&how, "\n\n"));
            assert(row.deep_view() =~= before + demo_cells_of(answer.deep_view()));
        },
        _ => {
            row.push("N/A".to_owned());
            row.push("N/A".to_owned());
            row.push("N/A".to_owned());
            assert(row.deep_view() =~= before + demo_cells_of(answer.deep_view()));
        },
    }
}

impl Standard {
    #[verifier::type_invariant]
    spec fn named(&self) -> bool {
        self.id is Some || self.title is Some || self.uri is Some
    }

    /// What the standard goes by: its id, else its title, else its uri.
    pub fn name(&self) -> (r: String)
        ensures
            r@ == standard_name(self.deep_view()),
    {
        proof {
            use_type_invariant(self);
        }
        match &self.id {
            Some(id) => id.clone(),
            None => match &self.title {
                Some(title) => title.clone(),
                None => match &self.uri {
                    Some(uri) => uri.clone(),
                    None => String::new(),
                },
            },
        }
    }
}

fn requirement_cells(standard: &Standard, requirement: &Requirement) -> (r: Vec<String>)
    ensures
        r.deep_view() == row_cells(standard.deep_view(), requirement.deep_view()),
{
    let mut row: Vec<String> = Vec::new();
    row.push(standard.name());
    row.push(requirement.id.clone());
    row.push(
        match &requirement.annotation {
            Some(annotation) => annotation.clone(),
            None => "N/A".to_owned(),
        },
    );
    let ghost fixed = row.deep_view();
    assert(fixed =~= seq![
        standard_name(standard.deep_view()),
        requirement.deep_view().id,
        match requirement.deep_view().annotation {
            Some(annotation) => annotation,
            None => "N/A"@,
        },
    ]);
    let timeline = &requirement.timeline;
    let mut i: usize = 0;
    assert(row.deep_view() =~= fixed + design_cells(timeline.deep_view().take(0)));
    while i < timeline.len()
        invariant
            i <= timeline@.len(),
            row.deep_view() == fixed + design_cells(timeline.deep_view().take(i as int)),
        decreases timeline.len() - i,
    {
        let ghost so_far = row.deep_view();
        row.push(design(&timeline[i]));
        assert(row.deep_view() =~= so_far.push(design_cell(timeline@[i as int].deep_view())));
        assert(design_cells(timeline.deep_view().take(i + 1)) =~= design_cells(
            timeline.deep_view().take(i as int),
        ).push(design_cell(timeline@[i as int].deep_view())));
        assert(row.deep_view() =~= fixed + design_cells(timeline.deep_view().take(i + 1)));
        i += 1;
    }
    assert(timeline.deep_view().take(timeline@.len() as int) == timeline.deep_view());
    let ghost designs = row.deep_view();
    let mut k: usize = 0;
    assert(row.deep_view() =~= designs + demo_cells(timeline.deep_view().take(0)));
    while k < timeline.len()
        invariant
            k <= timeline@.len(),
            row.deep_view() == designs + demo_cells(timeline.deep_view().take(k as int)),
        decreases timeline.len() - k,
    {
        assert(timeline.deep_view().take(k + 1).drop_last() == timeline.deep_view().take(k as int));
        assert(timeline.deep_view().take(k + 1).last() == timeline@[k as int].deep_view());
        demonstrations(&mut row, &timeline[k]);
        assert(row.deep_view() =~= designs + demo_cells(timeline.deep_view().take(k + 1)));
        k += 1;
    }
    assert(timeline.deep_view().take(timeline@.len() as int) == timeline.deep_view());
    row
}

impl ComplianceMatrix {
    /// Writes the table at the end of `w`.
    pub fn to_csv(&self, w: &mut String)
        ensures
            final(w)@ == old(w)@ + csv_text(self.deep_view()),
    {
        let ghost before = w@;
        let header = heading_cells(&self.releases);
        write_row(w, &header);
        let ghost headed = w@;
        let mut i: usize = 0;
        assert(self.standards.deep_view().take(0) =~= Seq::<StandardView>::empty());
        assert(w@ =~= headed + standard_rows(self.standards.deep_view().take(0)));
        while i < self.standards.len()
            invariant
                i <= self.standards@.len(),
                w@ == headed + standard_rows(self.standards.deep_view().take(i as int)),
            decreases self.standards.len() - i,
        {
            let standard = &self.standards[i];
            let ghost earlier = w@;
            assert(self.standards.deep_view().take(i + 1).drop_last()
                == self.standards.deep_view().take(i as int));
            assert(self.standards.deep_view().take(i + 1).last() == standard.deep_view());
            let requirements = &standard.requirements;
            let mut j: usize = 0;
            assert(requirements.deep_view().take(0) =~= Seq::<RequirementView>::empty());
            assert(w@ =~= earlier + requirement_rows(
                standard.deep_view(),
                requirements.deep_view().take(0),
            ));
            while j < requirements.len()
                invariant
                    j <= requirements@.len(),
                    w@ == earlier + requirement_rows(
                        standard.deep_view(),
                        requirements.deep_view().take(j as int),
                    ),
                decreases requirements.len() - j,
            {
                let ghost so_far = w@;
                assert(requirements.deep_view().take(j + 1).drop_last()
                    == requirements.deep_view().take(j as int));
                assert(requirements.deep_view().take(j + 1).last()
                    == requirements@[j as int].deep_view());
                let row = requirement_cells(standard, &requirements[j]);
                write_row(w, &row);
                assert(w@ =~= earlier + requirement_rows(
                    standard.deep_view(),
                    requirements.deep_view().take(j + 1),
                ));
                j += 1;
            }
            assert(requirements.deep_view().take(requirements@.len() as int)
                == requirements.deep_view());
            assert(w@ =~= headed + standard_rows(self.standards.deep_view().take(i + 1)));
            i += 1;
        }
        assert(self.standards.deep_view().take(self.standards@.len() as int)
            == self.standards.deep_view());
        assert(w@ =~= before + csv_text(self.deep_view()));
    }
}

/// A timeline has an answer for each release.
pub proof fn lemma_timeline_covers_releases(
    since: Seq<(Seq<char>, ApplicabilityDtoView)>,
    releases: Seq<Seq<char>>,
)
    ensures
        timeline_of(since, releases) matches Ok(timeline) ==> timeline.len() == releases.len(),
    decreases releases.len(),
{
    if releases.len() > 0 {
        lemma_timeline_covers_releases(since, releases.drop_last());
    }
}

/// Whether each requirement of each standard has an answer for each of
/// `count` releases.
pub open spec fn covers(standards: Seq<StandardView>, count: nat) -> bool {
    forall|i: int, j: int|
        0 <= i < standards.len() && 0 <= j < standards[i].requirements.len() ==> (
        #[trigger] standards[i].requirements[j]).timeline.len() == count
}

proof fn lemma_requirements_cover_releases(
    requirements: Seq<RequirementDtoView>,
    releases: Seq<Seq<char>>,
)
    ensures
        requirements_of(requirements, releases) matches Ok(made) ==> made.len()
            == requirements.len() && forall|j: int|
            0 <= j < made.len() ==> (#[trigger] made[j]).timeline.len() == releases.len(),
    decreases requirements.len(),
{
    if requirements.len() > 0 {
        lemma_requirements_cover_releases(requirements.drop_last(), releases);
        let since = match requirements.last().since {
            Some(since) => since,
            None => Seq::empty(),
        };
        lemma_timeline_covers_releases(since, releases);
    }
}

proof fn lemma_standards_cover_releases(standards: Seq<StandardDtoView>, releases: Seq<Seq<char>>)
    ensures
        standards_of(standards, releases) matches Ok(made) ==> covers(made, releases.len()),
    decreases standards.len(),
{
    if standards.len() > 0 {
        lemma_standards_cover_releases(standards.drop_last(), releases);
        lemma_requirements_cover_releases(standards.last().requirement, releases);
    }
}

/// The number of demonstration cells of a timeline: three for each release.
proof fn lemma_demo_cells_count(timeline: Seq<ApplicabilityView>)
    ensures
        demo_cells(timeline).len() == 3 * timeline.len(),
    decreases timeline.len(),
{
    if timeline.len() > 0 {
        lemma_demo_cells_count(timeline.drop_last());
    }
}

/// The number of demonstration headings: three for each release.
proof fn lemma_demo_headings_count(releases: Seq<Seq<char>>)
    ensures
        demo_headings(releases).len() == 3 * releases.len(),
    decreases releases.len(),
{
    if releases.len() > 0 {
        lemma_demo_headings_count(releases.drop_last());
    }
}

/// The table of a matrix is rectangular: in a matrix made from a
/// manifest's releases and standards, every requirement has an answer for
/// every release, so that its row has a cell under every heading.
pub proof fn lemma_rows_fit_headings(releases: Seq<Seq<char>>, standards: Seq<StandardDtoView>)
    requires
        matrix_of(releases, standards) is Ok,
    ensures
        ({
            let matrix = matrix_of(releases, standards)->Ok_0;
            &&& matrix.releases == releases
            &&& covers(matrix.standards, releases.len())
            &&& headings(matrix.releases).len() == 3 + 4 * releases.len()
            &&& forall|i: int, j: int|
                0 <= i < matrix.standards.len() && 0 <= j < matrix.standards[i].requirements.len()
                    ==> row_cells(
                    matrix.standards[i],
                    #[trigger] matrix.standards[i].requirements[j],
                ).len() == headings(matrix.releases).len()
        }),
{
    let matrix = matrix_of(releases, standards)->Ok_0;
    lemma_standards_cover_releases(standards, releases);
    lemma_demo_headings_count(releases);
    assert forall|i: int, j: int|
        0 <= i < matrix.standards.len() && 0 <= j < matrix.standards[i].requirements.len()
            implies row_cells(
        matrix.standards[i],
        #[trigger] matrix.standards[i].requirements[j],
    ).len() == headings(matrix.releases).len() by {
        lemma_demo_cells_count(matrix.standards[i].requirements[j].timeline);
    }
}

/// Whether a declared answer is invalid: it declares both controls and out
/// of scope, or neither, or a control of it names both a document and
/// code, or neither.
pub open spec fn is_invalid(answer: ApplicabilityDtoView) -> bool {
    applicability_of(Some(answer), ApplicabilityView::Undefined) is Err
}

proof fn lemma_timeline_refuses(
    since: Seq<(Seq<char>, ApplicabilityDtoView)>,
    releases: Seq<Seq<char>>,
    k: int,
)
    requires
        0 <= k < releases.len(),
        declared(since, releases[k]) is Some,
        is_invalid(declared(since, releases[k])->0),
    ensures
        timeline_of(since, releases) is Err,
    decreases releases.len(),
{
    if k < releases.len() - 1 {
        lemma_timeline_refuses(since, releases.drop_last(), k);
    }
}

proof fn lemma_requirements_refuse(
    requirements: Seq<RequirementDtoView>,
    releases: Seq<Seq<char>>,
    j: int,
)
    requires
        0 <= j < requirements.len(),
        requirement_of(requirements[j], releases) is Err,
    ensures
        requirements_of(requirements, releases) is Err,
    decreases requirements.len(),
{
    if j < requirements.len() - 1 {
        lemma_requirements_refuse(requirements.drop_last(), releases, j);
    }
}

proof fn lemma_standards_refuse(
    standards: Seq<StandardDtoView>,
    releases: Seq<Seq<char>>,
    i: int,
)
    requires
        0 <= i < standards.len(),
        standard_of(standards[i], releases) is Err,
    ensures
        standards_of(standards, releases) is Err,
    decreases standards.len(),
{
    if i < standards.len() - 1 {
        lemma_standards_refuse(standards.drop_last(), releases, i);
    }
}

/// A standard without id, title and uri leaves no matrix, whatever the
/// releases and the other standards are.
pub proof fn lemma_unnamed_standard_is_refused(
    releases: Seq<Seq<char>>,
    standards: Seq<StandardDtoView>,
    i: int,
)
    requires
        0 <= i < standards.len(),
        standards[i].id is None,
        standards[i].title is None,
        standards[i].uri is None,
    ensures
        matrix_of(releases, standards) is Err,
{
    lemma_standards_refuse(standards, releases, i);
}

/// An invalid answer that is declared for one of the releases leaves no
/// matrix, wherever it stands.
pub proof fn lemma_invalid_answer_is_refused(
    releases: Seq<Seq<char>>,
    standards: Seq<StandardDtoView>,
    i: int,
    j: int,
    k: int,
)
    requires
        0 <= i < standards.len(),
        0 <= j < standards[i].requirement.len(),
        0 <= k < releases.len(),
        standards[i].requirement[j].since is Some,
        declared(standards[i].requirement[j].since->0, releases[k]) is Some,
        is_invalid(declared(standards[i].requirement[j].since->0, releases[k])->0),
    ensures
        matrix_of(releases, standards) is Err,
{
    let requirement = standards[i].requirement[j];
    lemma_timeline_refuses(requirement.since->0, releases, k);
    lemma_requirements_refuse(standards[i].requirement, releases, j);
    lemma_standards_refuse(standards, releases, i);
}

/// What a requirement declares, release by release.
pub open spec fn declarations(requirement: RequirementDtoView) -> Seq<
    (Seq<char>, ApplicabilityDtoView),
> {
    match requirement.since {
        Some(since) => since,
        None => Seq::empty(),
    }
}

/// Whether what `since` declares for the release is a valid answer, or
/// nothing.
pub open spec fn answers(since: Seq<(Seq<char>, ApplicabilityDtoView)>, release: Seq<char>) -> bool {
    match declared(since, release) {
        Some(answer) => !is_invalid(answer),
        None => true,
    }
}

/// Whether the declarations are valid: every standard has an id, a title
/// or a uri, and what a requirement declares for a release is a valid
/// answer.
pub open spec fn valid_declarations(
    releases: Seq<Seq<char>>,
    standards: Seq<StandardDtoView>,
) -> bool {
    &&& forall|i: int|
        0 <= i < standards.len() ==> {
            let standard = #[trigger] standards[i];
            standard.id is Some || standard.title is Some || standard.uri is Some
        }
    &&& forall|i: int, j: int, k: int|
        0 <= i < standards.len() && 0 <= j < standards[i].requirement.len() && 0 <= k
            < releases.len() ==> answers(
            declarations(#[trigger] standards[i].requirement[j]),
            #[trigger] releases[k],
        )
}

proof fn lemma_timeline_accepts(
    since: Seq<(Seq<char>, ApplicabilityDtoView)>,
    releases: Seq<Seq<char>>,
)
    requires
        forall|k: int| 0 <= k < releases.len() ==> answers(since, #[trigger] releases[k]),
    ensures
        timeline_of(since, releases) is Ok,
    decreases releases.len(),
{
    if releases.len() > 0 {
        let front = releases.drop_last();
        assert forall|k: int| 0 <= k < front.len() implies answers(since, #[trigger] front[k]) by {
            assert(front[k] == releases[k]);
        }
        lemma_timeline_accepts(since, front);
        assert(answers(since, releases[releases.len() - 1]));
    }
}

proof fn lemma_requirements_accept(
    requirements: Seq<RequirementDtoView>,
    releases: Seq<Seq<char>>,
)
    requires
        forall|j: int, k: int|
            0 <= j < requirements.len() && 0 <= k < releases.len() ==> answers(
                declarations(#[trigger] requirements[j]),
                #[trigger] releases[k],
            ),
    ensures
        requirements_of(requirements, releases) is Ok,
    decreases requirements.len(),
{
    if requirements.len() > 0 {
        let front = requirements.drop_last();
        assert forall|j: int, k: int|
            0 <= j < front.len() && 0 <= k < releases.len() implies answers(
            declarations(#[trigger] front[j]),
            #[trigger] releases[k],
        ) by {
            assert(front[j] == requirements[j]);
        }
        lemma_requirements_accept(front, releases);
        let last = requirements[requirements.len() - 1];
        assert forall|k: int| 0 <= k < releases.len() implies answers(
            declarations(last),
            #[trigger] releases[k],
        ) by {}
        lemma_timeline_accepts(declarations(last), releases);
    }
}

proof fn lemma_standards_accept(standards: Seq<StandardDtoView>, releases: Seq<Seq<char>>)
    requires
        valid_declarations(releases, standards),
    ensures
        standards_of(standards, releases) is Ok,
    decreases standards.len(),
{
    if standards.len() > 0 {
        let front = standards.drop_last();
        assert(valid_declarations(releases, front)) by {
            assert forall|i: int| 0 <= i < front.len() implies {
                let standard = #[trigger] front[i];
                standard.id is Some || standard.title is Some || standard.uri is Some
            } by {
                assert(front[i] == standards[i]);
            }
            assert forall|i: int, j: int, k: int|
                0 <= i < front.len() && 0 <= j < front[i].requirement.len() && 0 <= k
                    < releases.len() implies answers(
                declarations(#[trigger] front[i].requirement[j]),
                #[trigger] releases[k],
            ) by {
                assert(front[i] == standards[i]);
                assert(answers(declarations(standards[i].requirement[j]), releases[k]));
            }
        }
        lemma_standards_accept(front, releases);
        let last = standards[standards.len() - 1];
        assert forall|j: int, k: int|
            0 <= j < last.requirement.len() && 0 <= k < releases.len() implies answers(
            declarations(#[trigger] last.requirement[j]),
            #[trigger] releases[k],
        ) by {
            assert(answers(
                declarations(standards[standards.len() - 1].requirement[j]),
                releases[k],
            ));
        }
        lemma_requirements_accept(last.requirement, releases);
    }
}

/// There is a matrix for the valid declarations, and for no others.
pub proof fn lemma_matrix_of_valid_declarations(
    releases: Seq<Seq<char>>,
    standards: Seq<StandardDtoView>,
)
    ensures
        matrix_of(releases, standards) is Ok <==> valid_declarations(releases, standards),
{
    if valid_declarations(releases, standards) {
        lemma_standards_accept(standards, releases);
    } else if exists|i: int|
        0 <= i < standards.len() && (#[trigger] standards[i]).id is None && standards[i].title
            is None && standards[i].uri is None {
        let i = choose|i: int|
            0 <= i < standards.len() && (#[trigger] standards[i]).id is None && standards[i].title
                is None && standards[i].uri is None;
        lemma_unnamed_standard_is_refused(releases, standards, i);
    } else {
        let (i, j, k) = choose|i: int, j: int, k: int|
            0 <= i < standards.len() && 0 <= j < standards[i].requirement.len() && 0 <= k
                < releases.len() && !answers(
                declarations(#[trigger] standards[i].requirement[j]),
                #[trigger] releases[k],
            );
        let requirement = standards[i].requirement[j];
        lemma_timeline_refuses(declarations(requirement), releases, k);
        lemma_requirements_refuse(standards[i].requirement, releases, j);
        lemma_standards_refuse(standards, releases, i);
    }
}

} // verus!
