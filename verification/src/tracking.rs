//! Content tracking: the handful of version-control operations that
//! publishing needs.
//!
//! Nothing here starts a process or touches a file. Each operation is a
//! function of the replies received so far: it answers with the next
//! [`Request`] that its caller has to carry out, or with its result once the
//! replies suffice.

use crate::pattern::{accepted, captured, captures};
use crate::text::{
    contains, join_path, joined_path, occurs, parse_small_number, remove_char, small_number,
    without,
};
use vstd::prelude::*;

verus! {

/// Anything that names a commit to the version-control system.
pub trait Point {
    /// The text by which the version-control system knows this point.
    spec fn reference_text(&self) -> Seq<char>;

    fn reference(&self) -> (r: &str)
        ensures
            r@ == self.reference_text(),
    ;
}

/// The name of a branch: a mutable pointer to a commit. Never empty.
#[derive(Debug)]
pub struct BranchName(String);

/// The identifier of an immutable commit. There is none but what a commit
/// gave.
#[derive(Debug)]
pub struct CommitId(String);

/// The identifier of an immutable tree object. There is none but what the
/// writing of a tree gave.
#[derive(Debug)]
pub struct ObjectName(String);

/// The message attached to a commit. Never empty.
#[derive(Debug)]
pub struct CommitMessage(String);

impl View for BranchName {
    type V = Seq<char>;

    closed spec fn view(&self) -> Seq<char> {
        self.0@
    }
}

impl DeepView for BranchName {
    type V = Seq<char>;

    open spec fn deep_view(&self) -> Seq<char> {
        self@
    }
}

impl View for CommitId {
    type V = Seq<char>;

    closed spec fn view(&self) -> Seq<char> {
        self.0@
    }
}

impl DeepView for CommitId {
    type V = Seq<char>;

    open spec fn deep_view(&self) -> Seq<char> {
        self@
    }
}

impl View for ObjectName {
    type V = Seq<char>;

    closed spec fn view(&self) -> Seq<char> {
        self.0@
    }
}

impl DeepView for ObjectName {
    type V = Seq<char>;

    open spec fn deep_view(&self) -> Seq<char> {
        self@
    }
}

impl View for CommitMessage {
    type V = Seq<char>;

    closed spec fn view(&self) -> Seq<char> {
        self.0@
    }
}

impl BranchName {
    #[verifier::type_invariant]
    spec fn named(&self) -> bool {
        self.0@.len() > 0
    }

    /// Accepts every text but the empty one.
    pub fn from_str(s: &str) -> (r: Result<BranchName, ()>)
        ensures
            r is Ok <==> s@.len() > 0,
            r matches Ok(name) ==> name@ == s@,
    {
        if s.is_empty() {
            Err(())
        } else {
            Ok(BranchName(s.to_owned()))
        }
    }

    /// The branch whose name is `prefix` followed by this name.
    pub fn prefixed(&self, prefix: &str) -> (r: BranchName)
        ensures
            r@ == prefix@ + self@,
    {
        proof {
            use_type_invariant(self);
        }
        let mut name = prefix.to_owned();
        name.append(self.0.as_str());
        BranchName(name)
    }

    pub fn to_string(&self) -> (r: String)
        ensures
            r@ == self@,
            r@.len() > 0,
    {
        proof {
            use_type_invariant(self);
        }
        self.0.clone()
    }

    pub fn as_str(&self) -> (r: &str)
        ensures
            r@ == self@,
            r@.len() > 0,
    {
        proof {
            use_type_invariant(self);
        }
        self.0.as_str()
    }
}

impl Clone for BranchName {
    fn clone(&self) -> (r: BranchName)
        ensures
            r@ == self@,
    {
        proof {
            use_type_invariant(self);
        }
        BranchName(self.0.clone())
    }
}

impl Clone for CommitId {
    fn clone(&self) -> (r: CommitId)
        ensures
            r@ == self@,
    {
        CommitId(self.0.clone())
    }
}

impl Clone for ObjectName {
    fn clone(&self) -> (r: ObjectName)
        ensures
            r@ == self@,
    {
        ObjectName(self.0.clone())
    }
}

impl Clone for CommitMessage {
    fn clone(&self) -> (r: CommitMessage)
        ensures
            r@ == self@,
    {
        proof {
            use_type_invariant(self);
        }
        CommitMessage(self.0.clone())
    }
}

impl PartialEq for BranchName {
    fn eq(&self, other: &BranchName) -> (r: bool) {
        self.0 == other.0
    }
}

impl vstd::std_specs::cmp::PartialEqSpecImpl for BranchName {
    open spec fn obeys_eq_spec() -> bool {
        true
    }

    open spec fn eq_spec(&self, other: &BranchName) -> bool {
        self@ == other@
    }
}

impl Point for BranchName {
    open spec fn reference_text(&self) -> Seq<char> {
        self@
    }

    fn reference(&self) -> (r: &str) {
        self.0.as_str()
    }
}

impl CommitId {
    /// The identifier that the version-control system printed as `text`.
    pub(crate) fn new(text: &str) -> (r: CommitId)
        ensures
            r@ == text@,
    {
        CommitId(text.to_owned())
    }

    pub fn as_str(&self) -> (r: &str)
        ensures
            r@ == self@,
    {
        self.0.as_str()
    }
}

impl Point for CommitId {
    open spec fn reference_text(&self) -> Seq<char> {
        self@
    }

    fn reference(&self) -> (r: &str) {
        self.0.as_str()
    }
}

impl ObjectName {
    /// The identifier that the version-control system printed as `text`.
    pub(crate) fn new(text: &str) -> (r: ObjectName)
        ensures
            r@ == text@,
    {
        ObjectName(text.to_owned())
    }

    pub fn as_str(&self) -> (r: &str)
        ensures
            r@ == self@,
    {
        self.0.as_str()
    }
}

impl CommitMessage {
    #[verifier::type_invariant]
    spec fn worded(&self) -> bool {
        self.0@.len() > 0
    }

    /// Accepts every text but the empty one.
    pub fn from_str(s: &str) -> (r: Result<CommitMessage, ()>)
        ensures
            r is Ok <==> s@.len() > 0,
            r matches Ok(message) ==> message@ == s@,
    {
        if s.is_empty() {
            Err(())
        } else {
            Ok(CommitMessage(s.to_owned()))
        }
    }

    pub fn as_str(&self) -> (r: &str)
        ensures
            r@ == self@,
            r@.len() > 0,
    {
        proof {
            use_type_invariant(self);
        }
        self.0.as_str()
    }
}

/// The pattern of the line by which a program reports its version.
pub const VERSION_PATTERN: &'static str = r"([^ ]+) version (\d+)\.(\d+)\.(\d+)(?: \(.*\))?";

/// A program's name and its version.
#[derive(Debug)]
pub struct SemanticVersion {
    name: String,
    major: u16,
    minor: u16,
    patch: u16,
}

/// A [`SemanticVersion`] as a mathematical value.
pub struct SemanticVersionView {
    pub name: Seq<char>,
    pub major: u16,
    pub minor: u16,
    pub patch: u16,
}

impl SemanticVersionView {
    /// Whether `candidate` satisfies `self` taken as a requirement: the same
    /// program and major version, and a minor version and patch that are not
    /// older.
    pub open spec fn is_met_by(self, candidate: SemanticVersionView) -> bool {
        &&& self.name == candidate.name
        &&& self.major == candidate.major
        &&& self.minor <= candidate.minor
        &&& (self.minor < candidate.minor || self.patch <= candidate.patch)
    }

    /// The version that a match of [`VERSION_PATTERN`] denotes: the groups
    /// after the whole match are the name and the three numbers.
    pub open spec fn of_groups(groups: Seq<Option<Seq<char>>>) -> Option<SemanticVersionView> {
        if groups.len() == 5 && groups[1] is Some && groups[2] is Some && groups[3] is Some
            && groups[4] is Some && small_number(groups[2]->0) is Some && small_number(
            groups[3]->0,
        ) is Some && small_number(groups[4]->0) is Some {
            Some(
                SemanticVersionView {
                    name: groups[1]->0,
                    major: small_number(groups[2]->0)->0,
                    minor: small_number(groups[3]->0)->0,
                    patch: small_number(groups[4]->0)->0,
                },
            )
        } else {
            None
        }
    }

    /// The version that the line `text` reports, if it reports one.
    pub open spec fn of_line(text: Seq<char>) -> Option<SemanticVersionView> {
        if !accepted(VERSION_PATTERN@) {
            None
        } else {
            match captured(VERSION_PATTERN@, text) {
                Some(groups) => Self::of_groups(groups),
                None => None,
            }
        }
    }
}

impl View for SemanticVersion {
    type V = SemanticVersionView;

    closed spec fn view(&self) -> SemanticVersionView {
        SemanticVersionView {
            name: self.name@,
            major: self.major,
            minor: self.minor,
            patch: self.patch,
        }
    }
}

impl SemanticVersion {
    pub fn new(name: &str, major: u16, minor: u16, patch: u16) -> (r: SemanticVersion)
        ensures
            r@ == (SemanticVersionView { name: name@, major, minor, patch }),
    {
        SemanticVersion { name: name.to_owned(), major, minor, patch }
    }

    pub fn is_met_by(&self, candidate: SemanticVersion) -> (r: bool)
        ensures
            r == self@.is_met_by(candidate@),
    {
        let name_matches = self.name == candidate.name;
        let compatible_design = self.major == candidate.major && self.minor <= candidate.minor;
        name_matches && compatible_design && (self.minor < candidate.minor || self.patch
            <= candidate.patch)
    }

    /// Builds the version from the groups of a match of [`VERSION_PATTERN`].
    pub fn from_groups(groups: &Vec<Option<String>>) -> (r: Option<SemanticVersion>)
        ensures
            r.deep_view() == SemanticVersionView::of_groups(groups.deep_view()),
    {
        if groups.len() != 5 {
            return None;
        }
        assert(groups.deep_view()[1] == groups@[1].deep_view());
        assert(groups.deep_view()[2] == groups@[2].deep_view());
        assert(groups.deep_view()[3] == groups@[3].deep_view());
        assert(groups.deep_view()[4] == groups@[4].deep_view());
        match (&groups[1], &groups[2], &groups[3], &groups[4]) {
            (Some(name), Some(major), Some(minor), Some(patch)) => {
                match (
                    parse_small_number(major.as_str()),
                    parse_small_number(minor.as_str()),
                    parse_small_number(patch.as_str()),
                ) {
                    (Some(major), Some(minor), Some(patch)) => Some(
                        SemanticVersion { name: name.clone(), major, minor, patch },
                    ),
                    _ => None,
                }
            },
            _ => None,
        }
    }

    /// Reads a version from the line that a program prints when asked for
    /// it, such as `git version 2.37.0`.
    pub fn from_str(s: &str) -> (r: Result<SemanticVersion, String>)
        ensures
            r is Ok <==> SemanticVersionView::of_line(s@) is Some,
            r matches Ok(version) ==> Some(version@) == SemanticVersionView::of_line(s@),
            r matches Err(reason) ==> reason@ == "Could not capture"@,
    {
        let found = match captures(VERSION_PATTERN, s) {
            Ok(Some(groups)) => Self::from_groups(&groups),
            _ => None,
        };
        match found {
            Some(version) => Ok(version),
            None => Err("Could not capture".to_owned()),
        }
    }

    pub fn name(&self) -> (r: &str)
        ensures
            r@ == self@.name,
    {
        self.name.as_str()
    }

    pub fn major(&self) -> (r: u16)
        ensures
            r == self@.major,
    {
        self.major
    }

    pub fn minor(&self) -> (r: u16)
        ensures
            r == self@.minor,
    {
        self.minor
    }

    pub fn patch(&self) -> (r: u16)
        ensures
            r == self@.patch,
    {
        self.patch
    }
}

impl DeepView for SemanticVersion {
    type V = SemanticVersionView;

    open spec fn deep_view(&self) -> SemanticVersionView {
        self@
    }
}

/// The version-control program.
pub const PROGRAM: &'static str = "git";

/// The variable of the environment by which [`PROGRAM`] picks the language
/// of what it prints. A run is to be made with it set to [`LANGUAGE`].
pub const LANGUAGE_VARIABLE: &'static str = "LC_ALL";

/// The language in which [`PROGRAM`] prints the words that are read here.
pub const LANGUAGE: &'static str = "C";

/// The words by which [`PROGRAM`] reports that a commit found nothing
/// staged, and nothing else to tell of.
pub const NOTHING_TO_COMMIT: &'static str = "nothing to commit";

/// The words by which [`PROGRAM`] reports that a commit found nothing
/// staged, beside files that it does not track.
pub const NOTHING_ADDED_TO_COMMIT: &'static str = "nothing added to commit";

/// The words by which [`PROGRAM`] reports that a commit found nothing
/// staged, beside changes that were not added.
pub const NO_CHANGES_ADDED_TO_COMMIT: &'static str = "no changes added to commit";

/// Whether `output` holds one of the reports that a commit found nothing
/// staged.
pub open spec fn reports_nothing_staged(output: Seq<char>) -> bool {
    ||| occurs(output, NOTHING_TO_COMMIT@)
    ||| occurs(output, NOTHING_ADDED_TO_COMMIT@)
    ||| occurs(output, NO_CHANGES_ADDED_TO_COMMIT@)
}

/// The name of the branch that a new repository starts on.
pub const INITIAL_BRANCH_NAME: &'static str = "main";

/// The message of the commit that [`ContentTrackingService::commit_tree`]
/// creates.
pub const TREE_COMMIT_MESSAGE: &'static str = "build: new documentation package";

/// One run of [`PROGRAM`], with [`LANGUAGE_VARIABLE`] set to [`LANGUAGE`].
#[derive(Debug)]
pub struct Invocation {
    /// The arguments after the program's name.
    pub arguments: Vec<String>,
    /// The directory to run in; `None` for the caller's own.
    pub directory: Option<String>,
    /// Whether the program gets an empty standard input.
    pub null_input: bool,
}

/// An [`Invocation`] as a mathematical value.
pub struct InvocationView {
    pub arguments: Seq<Seq<char>>,
    pub directory: Option<Seq<char>>,
    pub null_input: bool,
}

impl View for Invocation {
    type V = InvocationView;

    open spec fn view(&self) -> InvocationView {
        InvocationView {
            arguments: self.arguments.deep_view(),
            directory: self.directory.deep_view(),
            null_input: self.null_input,
        }
    }
}

/// What the caller has to carry out before an operation can go on.
#[derive(Debug)]
pub enum Request {
    /// Run [`PROGRAM`] and report how it ended.
    Run(Invocation),
    /// Create the directories above `target`, then copy the file `source`
    /// onto `target`.
    Copy { source: String, target: String },
    /// Remove the directory and all below it; it may be absent.
    Clear(String),
}

/// A [`Request`] as a mathematical value.
pub enum RequestView {
    Run(InvocationView),
    Copy { source: Seq<char>, target: Seq<char> },
    Clear(Seq<char>),
}

impl View for Request {
    type V = RequestView;

    open spec fn view(&self) -> RequestView {
        match self {
            Request::Run(invocation) => RequestView::Run(invocation@),
            Request::Copy { source, target } => RequestView::Copy {
                source: source@,
                target: target@,
            },
            Request::Clear(path) => RequestView::Clear(path@),
        }
    }
}

/// How a request ended: the exit status of the program, `None` where a
/// signal ended it, and what it printed. A request that ran no program is
/// answered with status `0` and no output.
#[derive(Debug)]
pub struct Outcome {
    pub status: Option<i32>,
    pub output: String,
}

/// An [`Outcome`] as a mathematical value.
pub struct OutcomeView {
    pub status: Option<i32>,
    pub output: Seq<char>,
}

impl OutcomeView {
    pub open spec fn succeeded(self) -> bool {
        self.status == Some(0i32)
    }

    /// What was printed, without its line ends.
    pub open spec fn line(self) -> Seq<char> {
        without(self.output, '\n')
    }

    /// Whether the program reports that there was nothing to commit: it
    /// ended with status `1`, and one of its reports that nothing was
    /// staged stands in what it printed.
    pub open spec fn nothing_to_commit(self) -> bool {
        self.status == Some(1i32) && reports_nothing_staged(self.output)
    }

    /// The error that stands for this outcome.
    pub open spec fn failure(self) -> ExternalToolError {
        ExternalToolError { status: self.status }
    }
}

impl View for Outcome {
    type V = OutcomeView;

    open spec fn view(&self) -> OutcomeView {
        OutcomeView { status: self.status, output: self.output@ }
    }
}

impl DeepView for Outcome {
    type V = OutcomeView;

    open spec fn deep_view(&self) -> OutcomeView {
        self@
    }
}

/// The version-control program ended with a status that the operation does
/// not provide for.
#[derive(Debug, Clone, Copy, PartialEq, Eq, Structural)]
pub struct ExternalToolError {
    pub status: Option<i32>,
}

impl Outcome {
    pub fn new(status: Option<i32>, output: &str) -> (r: Outcome)
        ensures
            r@ == (OutcomeView { status, output: output@ }),
    {
        Outcome { status, output: output.to_owned() }
    }

    pub fn succeeded(&self) -> (r: bool)
        ensures
            r == self@.succeeded(),
    {
        match self.status {
            Some(code) => code == 0,
            None => false,
        }
    }

    pub fn line(&self) -> (r: String)
        ensures
            r@ == self@.line(),
    {
        remove_char(self.output.as_str(), '\n')
    }

    pub fn nothing_to_commit(&self) -> (r: bool)
        ensures
            r == self@.nothing_to_commit(),
    {
        match self.status {
            Some(1) => {
                let output = self.output.as_str();
                contains(output, NOTHING_TO_COMMIT) || contains(output, NOTHING_ADDED_TO_COMMIT)
                    || contains(output, NO_CHANGES_ADDED_TO_COMMIT)
            },
            _ => false,
        }
    }

    pub fn failure(&self) -> (r: ExternalToolError)
        ensures
            r == self@.failure(),
    {
        ExternalToolError { status: self.status }
    }
}

/// Where an operation stands after the replies it was given.
#[derive(Debug)]
pub enum Step<T> {
    /// The caller carries out the request and calls again with its outcome
    /// added to the replies.
    Next(Request),
    /// The operation is over.
    Done(T),
}

/// A [`Step`] as a mathematical value.
pub enum StepView<T> {
    Next(RequestView),
    Done(T),
}

impl<T: DeepView> DeepView for Step<T> {
    type V = StepView<T::V>;

    open spec fn deep_view(&self) -> StepView<T::V> {
        match self {
            Step::Next(request) => StepView::Next(request@),
            Step::Done(value) => StepView::Done(value.deep_view()),
        }
    }
}

/// The result of an operation as a mathematical value.
pub open spec fn modelled<T: DeepView, E>(r: Result<Step<T>, E>) -> Result<StepView<T::V>, E> {
    match r {
        Ok(step) => Ok(step.deep_view()),
        Err(e) => Err(e),
    }
}

/// An operation of one request, which must succeed: before any reply the
/// request is due; after a reply the operation is over, with `result` where
/// the reply reports success and with the reply's failure elsewhere.
pub open spec fn exchange<T>(request: RequestView, replies: Seq<OutcomeView>, result: T) -> Result<
    StepView<T>,
    ExternalToolError,
> {
    if replies.len() == 0 {
        Ok(StepView::Next(request))
    } else if replies[0].succeeded() {
        Ok(StepView::Done(result))
    } else {
        Err(replies[0].failure())
    }
}

/// The version-control operations on one working directory. The service
/// holds nothing but the directory's path.
#[derive(Debug)]
pub struct ContentTrackingService {
    worktree: String,
}

impl View for ContentTrackingService {
    type V = Seq<char>;

    closed spec fn view(&self) -> Seq<char> {
        self.worktree@
    }
}

/// A run of the version-control program in `directory`.
pub open spec fn run_in(directory: Seq<char>, arguments: Seq<Seq<char>>) -> RequestView {
    RequestView::Run(
        InvocationView { arguments, directory: Some(directory), null_input: false },
    )
}

impl ContentTrackingService {
    pub fn new(worktree: String) -> (r: ContentTrackingService)
        ensures
            r@ == worktree@,
    {
        ContentTrackingService { worktree }
    }

    pub fn worktree(&self) -> (r: &str)
        ensures
            r@ == self@,
    {
        self.worktree.as_str()
    }

    fn run(&self, arguments: Vec<String>) -> (r: Request)
        ensures
            r@ == run_in(self@, arguments.deep_view()),
    {
        Request::Run(
            Invocation { arguments, directory: Some(self.worktree.clone()), null_input: false },
        )
    }

    /// Creating a repository in the directory, on the branch
    /// [`INITIAL_BRANCH_NAME`].
    pub open spec fn initialize_spec(worktree: Seq<char>, replies: Seq<OutcomeView>) -> Result<
        StepView<()>,
        ExternalToolError,
    > {
        exchange(
            run_in(worktree, seq!["init"@, "--initial-branch="@ + INITIAL_BRANCH_NAME@]),
            replies,
            (),
        )
    }

    pub fn initialize(&self, replies: &[Outcome]) -> (r: Result<Step<()>, ExternalToolError>)
        ensures
            modelled(r) == Self::initialize_spec(self@, replies.deep_view()),
    {
        let mut branch = "--initial-branch=".to_owned();
        branch.append(INITIAL_BRANCH_NAME);
        let mut arguments: Vec<String> = Vec::new();
        arguments.push("init".to_owned());
        arguments.push(branch);
        assert(arguments.deep_view() == seq!["init"@, "--initial-branch="@ + INITIAL_BRANCH_NAME@]);
        settle(self.run(arguments), replies)
    }

    /// Asking for the branch that is checked out. There is none where the
    /// answer is empty: the repository has no commit yet on a branch of its
    /// own, or a commit is checked out directly.
    pub open spec fn get_current_branch_name_spec(
        worktree: Seq<char>,
        replies: Seq<OutcomeView>,
    ) -> Result<StepView<Option<Seq<char>>>, ExternalToolError> {
        exchange(
            run_in(worktree, seq!["branch"@, "--show-current"@]),
            replies,
            if replies[0].line().len() == 0 {
                None
            } else {
                Some(replies[0].line())
            },
        )
    }

    pub fn get_current_branch_name(&self, replies: &[Outcome]) -> (r: Result<
        Step<Option<BranchName>>,
        ExternalToolError,
    >)
        ensures
            modelled(r) == Self::get_current_branch_name_spec(self@, replies.deep_view()),
    {
        if replies.len() == 0 {
            let mut arguments: Vec<String> = Vec::new();
            arguments.push("branch".to_owned());
            arguments.push("--show-current".to_owned());
            assert(arguments.deep_view() == seq!["branch"@, "--show-current"@]);
            Ok(Step::Next(self.run(arguments)))
        } else if replies[0].succeeded() {
            let line = replies[0].line();
            match BranchName::from_str(line.as_str()) {
                Ok(name) => Ok(Step::Done(Some(name))),
                Err(_) => Ok(Step::Done(None)),
            }
        } else {
            Err(replies[0].failure())
        }
    }

    /// Cloning the repository of this directory into `target`. Nothing
    /// checks that the directory holds a repository.
    pub open spec fn clone_to_spec(
        worktree: Seq<char>,
        target: Seq<char>,
        replies: Seq<OutcomeView>,
    ) -> Result<StepView<()>, ExternalToolError> {
        exchange(
            RequestView::Run(
                InvocationView {
                    arguments: seq!["clone"@, worktree, target],
                    directory: None,
                    null_input: false,
                },
            ),
            replies,
            (),
        )
    }

    pub fn clone_to(&self, target: &str, replies: &[Outcome]) -> (r: Result<
        Step<()>,
        ExternalToolError,
    >)
        ensures
            modelled(r) == Self::clone_to_spec(self@, target@, replies.deep_view()),
    {
        let mut arguments: Vec<String> = Vec::new();
        arguments.push("clone".to_owned());
        arguments.push(self.worktree.clone());
        arguments.push(target.to_owned());
        assert(arguments.deep_view() == seq!["clone"@, self@, target@]);
        settle(
            Request::Run(Invocation { arguments, directory: None, null_input: false }),
            replies,
        )
    }

    /// Copying the file `source` to `target` inside the directory, then
    /// staging it: two requests, of which the second must succeed.
    pub open spec fn add_file_spec(
        worktree: Seq<char>,
        source: Seq<char>,
        target: Seq<char>,
        replies: Seq<OutcomeView>,
    ) -> Result<StepView<()>, ExternalToolError> {
        if replies.len() == 0 {
            Ok(StepView::Next(RequestView::Copy { source, target: joined_path(worktree, target) }))
        } else {
            exchange(run_in(worktree, seq!["add"@, target]), replies.skip(1), ())
        }
    }

    pub fn add_file(&self, source: &str, target: &str, replies: &[Outcome]) -> (r: Result<
        Step<()>,
        ExternalToolError,
    >)
        ensures
            modelled(r) == Self::add_file_spec(self@, source@, target@, replies.deep_view()),
    {
        if replies.len() == 0 {
            Ok(
                Step::Next(
                    Request::Copy {
                        source: source.to_owned(),
                        target: join_path(self.worktree.as_str(), target),
                    },
                ),
            )
        } else {
            let mut arguments: Vec<String> = Vec::new();
            arguments.push("add".to_owned());
            arguments.push(target.to_owned());
            assert(arguments.deep_view() == seq!["add"@, target@]);
            let rest = vstd::slice::slice_subrange(replies, 1, replies.len());
            assert(rest.deep_view() == replies.deep_view().skip(1));
            settle(self.run(arguments), rest)
        }
    }

    /// Staging all that the directory holds.
    pub open spec fn add_current_worktree_spec(
        worktree: Seq<char>,
        replies: Seq<OutcomeView>,
    ) -> Result<StepView<()>, ExternalToolError> {
        exchange(run_in(worktree, seq!["add"@, "."@]), replies, ())
    }

    pub fn add_current_worktree(&self, replies: &[Outcome]) -> (r: Result<
        Step<()>,
        ExternalToolError,
    >)
        ensures
            modelled(r) == Self::add_current_worktree_spec(self@, replies.deep_view()),
    {
        let mut arguments: Vec<String> = Vec::new();
        arguments.push("add".to_owned());
        arguments.push(".".to_owned());
        assert(arguments.deep_view() == seq!["add"@, "."@]);
        settle(self.run(arguments), replies)
    }

    /// Checking the branch `name` out into a second working directory at
    /// `path`, over whatever `path` held.
    pub open spec fn add_worktree_spec(
        worktree: Seq<char>,
        path: Seq<char>,
        name: Seq<char>,
        replies: Seq<OutcomeView>,
    ) -> Result<StepView<()>, ExternalToolError> {
        exchange(
            run_in(worktree, seq!["worktree"@, "add"@, "--force"@, path, name]),
            replies,
            (),
        )
    }

    pub fn add_worktree(&self, path: &str, name: &BranchName, replies: &[Outcome]) -> (r: Result<
        Step<()>,
        ExternalToolError,
    >)
        ensures
            modelled(r) == Self::add_worktree_spec(self@, path@, name@, replies.deep_view()),
    {
        let mut arguments: Vec<String> = Vec::new();
        arguments.push("worktree".to_owned());
        arguments.push("add".to_owned());
        arguments.push("--force".to_owned());
        arguments.push(path.to_owned());
        arguments.push(name.to_string());
        assert(arguments.deep_view() == seq!["worktree"@, "add"@, "--force"@, path@, name@]);
        settle(self.run(arguments), replies)
    }

    /// Detaching and deleting the second working directory at `path`.
    pub open spec fn remove_work_tree_spec(
        worktree: Seq<char>,
        path: Seq<char>,
        replies: Seq<OutcomeView>,
    ) -> Result<StepView<()>, ExternalToolError> {
        exchange(run_in(worktree, seq!["worktree"@, "remove"@, path]), replies, ())
    }

    pub fn remove_work_tree(&self, path: &str, replies: &[Outcome]) -> (r: Result<
        Step<()>,
        ExternalToolError,
    >)
        ensures
            modelled(r) == Self::remove_work_tree_spec(self@, path@, replies.deep_view()),
    {
        let mut arguments: Vec<String> = Vec::new();
        arguments.push("worktree".to_owned());
        arguments.push("remove".to_owned());
        arguments.push(path.to_owned());
        assert(arguments.deep_view() == seq!["worktree"@, "remove"@, path@]);
        settle(self.run(arguments), replies)
    }

    /// Creating the branch `name` at `point`. The result tells whether the
    /// branch was created; it is not where the program refused, as it does
    /// for a name that is taken or a point that it does not know.
    pub open spec fn create_branch_spec(
        worktree: Seq<char>,
        name: Seq<char>,
        point: Seq<char>,
        replies: Seq<OutcomeView>,
    ) -> StepView<bool> {
        if replies.len() == 0 {
            StepView::Next(run_in(worktree, seq!["branch"@, name, point]))
        } else {
            StepView::Done(replies[0].succeeded())
        }
    }

    pub fn create_branch<P: Point>(&self, name: &BranchName, point: &P, replies: &[Outcome]) -> (r:
        Step<bool>)
        ensures
            r.deep_view() == Self::create_branch_spec(
                self@,
                name@,
                point.reference_text(),
                replies.deep_view(),
            ),
    {
        if replies.len() == 0 {
            let mut arguments: Vec<String> = Vec::new();
            arguments.push("branch".to_owned());
            arguments.push(name.to_string());
            arguments.push(point.reference().to_owned());
            assert(arguments.deep_view() == seq!["branch"@, name@, point.reference_text()]);
            Step::Next(self.run(arguments))
        } else {
            Step::Done(replies[0].succeeded())
        }
    }

    /// Committing what is staged, under `message`. Where the program
    /// succeeds, a second request asks for the commit that the branch now
    /// points to, and that is the result. Where it reports that there was
    /// nothing to commit, for want of anything staged, the result is
    /// `None`, and no error. Whatever else it ends with is an error, status
    /// `1` too where it comes for another reason.
    pub open spec fn commit_spec(
        worktree: Seq<char>,
        message: Seq<char>,
        replies: Seq<OutcomeView>,
    ) -> Result<StepView<Option<Seq<char>>>, ExternalToolError> {
        if replies.len() == 0 {
            Ok(StepView::Next(run_in(worktree, seq!["commit"@, "-m"@, message])))
        } else if replies[0].succeeded() {
            exchange(
                run_in(worktree, seq!["rev-parse"@, "HEAD"@]),
                replies.skip(1),
                Some(replies[1].line()),
            )
        } else if replies[0].nothing_to_commit() {
            Ok(StepView::Done(None))
        } else {
            Err(replies[0].failure())
        }
    }

    pub fn commit(&self, message: &CommitMessage, replies: &[Outcome]) -> (r: Result<
        Step<Option<CommitId>>,
        ExternalToolError,
    >)
        ensures
            modelled(r) == Self::commit_spec(self@, message@, replies.deep_view()),
    {
        if replies.len() == 0 {
            let mut arguments: Vec<String> = Vec::new();
            arguments.push("commit".to_owned());
            arguments.push("-m".to_owned());
            arguments.push(message.as_str().to_owned());
            assert(arguments.deep_view() == seq!["commit"@, "-m"@, message@]);
            Ok(Step::Next(self.run(arguments)))
        } else if replies[0].succeeded() {
            assert(replies.deep_view().skip(1).len() == replies.len() - 1);
            if replies.len() == 1 {
                let mut arguments: Vec<String> = Vec::new();
                arguments.push("rev-parse".to_owned());
                arguments.push("HEAD".to_owned());
                assert(arguments.deep_view() == seq!["rev-parse"@, "HEAD"@]);
                Ok(Step::Next(self.run(arguments)))
            } else if replies[1].succeeded() {
                let line = replies[1].line();
                Ok(Step::Done(Some(CommitId::new(line.as_str()))))
            } else {
                Err(replies[1].failure())
            }
        } else if replies[0].nothing_to_commit() {
            Ok(Step::Done(None))
        } else {
            Err(replies[0].failure())
        }
    }

    /// Committing the tree `name` under [`TREE_COMMIT_MESSAGE`], whatever
    /// the directory holds. The result is the new commit.
    pub open spec fn commit_tree_spec(
        worktree: Seq<char>,
        name: Seq<char>,
        replies: Seq<OutcomeView>,
    ) -> Result<StepView<Seq<char>>, ExternalToolError> {
        exchange(
            run_in(worktree, seq!["commit-tree"@, name, "-m"@, TREE_COMMIT_MESSAGE@]),
            replies,
            replies[0].line(),
        )
    }

    pub fn commit_tree(&self, name: &ObjectName, replies: &[Outcome]) -> (r: Result<
        Step<CommitId>,
        ExternalToolError,
    >)
        ensures
            modelled(r) == Self::commit_tree_spec(self@, name@, replies.deep_view()),
    {
        if replies.len() == 0 {
            let mut arguments: Vec<String> = Vec::new();
            arguments.push("commit-tree".to_owned());
            arguments.push(name.as_str().to_owned());
            arguments.push("-m".to_owned());
            arguments.push(TREE_COMMIT_MESSAGE.to_owned());
            assert(arguments.deep_view() == seq![
                "commit-tree"@,
                name@,
                "-m"@,
                TREE_COMMIT_MESSAGE@,
            ]);
            Ok(Step::Next(self.run(arguments)))
        } else if replies[0].succeeded() {
            let line = replies[0].line();
            Ok(Step::Done(CommitId::new(line.as_str())))
        } else {
            Err(replies[0].failure())
        }
    }

    /// Writing a tree object from an empty listing. The result is the
    /// tree's identifier.
    pub open spec fn make_tree_spec(worktree: Seq<char>, replies: Seq<OutcomeView>) -> Result<
        StepView<Seq<char>>,
        ExternalToolError,
    > {
        exchange(
            RequestView::Run(
                InvocationView {
                    arguments: seq!["mktree"@],
                    directory: Some(worktree),
                    null_input: true,
                },
            ),
            replies,
            replies[0].line(),
        )
    }

    pub fn make_tree(&self, replies: &[Outcome]) -> (r: Result<Step<ObjectName>, ExternalToolError>)
        ensures
            modelled(r) == Self::make_tree_spec(self@, replies.deep_view()),
    {
        if replies.len() == 0 {
            let mut arguments: Vec<String> = Vec::new();
            arguments.push("mktree".to_owned());
            assert(arguments.deep_view() == seq!["mktree"@]);
            Ok(
                Step::Next(
                    Request::Run(
                        Invocation {
                            arguments,
                            directory: Some(self.worktree.clone()),
                            null_input: true,
                        },
                    ),
                ),
            )
        } else if replies[0].succeeded() {
            let line = replies[0].line();
            Ok(Step::Done(ObjectName::new(line.as_str())))
        } else {
            Err(replies[0].failure())
        }
    }

    /// Pushing the branch `name` to the remote called `origin`. Nothing
    /// checks that there is such a remote.
    pub open spec fn push_to_origin_spec(
        worktree: Seq<char>,
        name: Seq<char>,
        replies: Seq<OutcomeView>,
    ) -> Result<StepView<()>, ExternalToolError> {
        exchange(run_in(worktree, seq!["push"@, "origin"@, name]), replies, ())
    }

    pub fn push_to_origin(&self, name: &BranchName, replies: &[Outcome]) -> (r: Result<
        Step<()>,
        ExternalToolError,
    >)
        ensures
            modelled(r) == Self::push_to_origin_spec(self@, name@, replies.deep_view()),
    {
        let mut arguments: Vec<String> = Vec::new();
        arguments.push("push".to_owned());
        arguments.push("origin".to_owned());
        arguments.push(name.to_string());
        assert(arguments.deep_view() == seq!["push"@, "origin"@, name@]);
        settle(self.run(arguments), replies)
    }
}

/// A commit with nothing staged is no commit and no error: whatever else
/// was replied, the result is `None` once the program has reported that
/// there was nothing to commit, and only then.
pub proof fn lemma_commit_of_nothing(
    worktree: Seq<char>,
    message: Seq<char>,
    replies: Seq<OutcomeView>,
)
    requires
        replies.len() > 0,
    ensures
        replies[0].nothing_to_commit() <==> ContentTrackingService::commit_spec(
            worktree,
            message,
            replies,
        ) == Ok::<StepView<Option<Seq<char>>>, ExternalToolError>(StepView::Done(None)),
{
    if replies[0].succeeded() {
        let head = exchange(
            run_in(worktree, seq!["rev-parse"@, "HEAD"@]),
            replies.skip(1),
            Some(replies[1].line()),
        );
        assert(head != Ok::<StepView<Option<Seq<char>>>, ExternalToolError>(StepView::Done(None)));
    }
}

/// A commit that the program refuses is an error, with status `1` as with
/// any other: where it neither succeeded nor reported that there was
/// nothing to commit, the commit fails with what the program ended with.
pub proof fn lemma_commit_refused(
    worktree: Seq<char>,
    message: Seq<char>,
    replies: Seq<OutcomeView>,
)
    requires
        replies.len() > 0,
        !replies[0].succeeded(),
        !replies[0].nothing_to_commit(),
    ensures
        ContentTrackingService::commit_spec(worktree, message, replies) == Err::<
            StepView<Option<Seq<char>>>,
            ExternalToolError,
        >(replies[0].failure()),
{
}

/// A commit that succeeds is followed by the question for the head of the
/// branch, and the id that is answered is the result.
pub proof fn lemma_commit_is_head(
    worktree: Seq<char>,
    message: Seq<char>,
    committed: OutcomeView,
    head: OutcomeView,
)
    requires
        committed.succeeded(),
        head.succeeded(),
    ensures
        ContentTrackingService::commit_spec(worktree, message, seq![committed]) == Ok::<
            StepView<Option<Seq<char>>>,
            ExternalToolError,
        >(StepView::Next(run_in(worktree, seq!["rev-parse"@, "HEAD"@]))),
        ContentTrackingService::commit_spec(worktree, message, seq![committed, head]) == Ok::<
            StepView<Option<Seq<char>>>,
            ExternalToolError,
        >(StepView::Done(Some(head.line()))),
{
    assert(seq![committed].skip(1).len() == 0);
    assert(seq![committed, head].skip(1)[0] == head);
}

/// Whether an operation is over, with a result or with an error.
pub open spec fn settled<T, E>(step: Result<StepView<T>, E>) -> bool {
    !(step matches Ok(StepView::Next(_)))
}

/// What comes after the first `n` of `replies` is the same with more
/// replies behind them, up to those.
pub proof fn lemma_skip_of_more(replies: Seq<OutcomeView>, more: Seq<OutcomeView>, n: int)
    requires
        0 <= n <= replies.len(),
    ensures
        (replies + more).skip(n) == replies.skip(n) + more,
        n < replies.len() ==> (replies + more)[n] == replies[n],
{
    assert((replies + more).skip(n) =~= replies.skip(n) + more);
}

/// Ends an operation of one request that has no result of its own.
fn settle(request: Request, replies: &[Outcome]) -> (r: Result<Step<()>, ExternalToolError>)
    ensures
        modelled(r) == exchange(request@, replies.deep_view(), ()),
{
    if replies.len() == 0 {
        Ok(Step::Next(request))
    } else if replies[0].succeeded() {
        Ok(Step::Done(()))
    } else {
        Err(replies[0].failure())
    }
}

/// Asking the version-control program for its version. The result is
/// `None` where the answer is no version line.
pub open spec fn get_version_spec(replies: Seq<OutcomeView>) -> StepView<
    Option<SemanticVersionView>,
> {
    if replies.len() == 0 {
        StepView::Next(
            RequestView::Run(
                InvocationView { arguments: seq!["version"@], directory: None, null_input: false },
            ),
        )
    } else {
        StepView::Done(SemanticVersionView::of_line(replies[0].output))
    }
}

pub fn get_version(replies: &[Outcome]) -> (r: Step<Option<SemanticVersion>>)
    ensures
        r.deep_view() == get_version_spec(replies.deep_view()),
{
    if replies.len() == 0 {
        let mut arguments: Vec<String> = Vec::new();
        arguments.push("version".to_owned());
        assert(arguments.deep_view() == seq!["version"@]);
        Step::Next(Request::Run(Invocation { arguments, directory: None, null_input: false }))
    } else {
        match SemanticVersion::from_str(replies[0].output.as_str()) {
            Ok(version) => Step::Done(Some(version)),
            Err(_) => Step::Done(None),
        }
    }
}

/// A commit that is over stays as it is, whatever is replied after it.
pub proof fn lemma_commit_settled(
    worktree: Seq<char>,
    message: Seq<char>,
    replies: Seq<OutcomeView>,
    more: Seq<OutcomeView>,
)
    requires
        settled(ContentTrackingService::commit_spec(worktree, message, replies)),
    ensures
        ContentTrackingService::commit_spec(worktree, message, replies + more)
            == ContentTrackingService::commit_spec(worktree, message, replies),
{
    lemma_skip_of_more(replies, more, 0);
    if replies[0].succeeded() {
        lemma_skip_of_more(replies, more, 1);
        assert(replies.skip(1).len() > 0);
        assert(replies.skip(1)[0] == replies[1]);
        assert((replies.skip(1) + more)[0] == replies[1]);
    }
}

/// The addition of a file that is over stays as it is, whatever is
/// replied after it.
pub proof fn lemma_add_file_settled(
    worktree: Seq<char>,
    source: Seq<char>,
    target: Seq<char>,
    replies: Seq<OutcomeView>,
    more: Seq<OutcomeView>,
)
    requires
        settled(ContentTrackingService::add_file_spec(worktree, source, target, replies)),
    ensures
        ContentTrackingService::add_file_spec(worktree, source, target, replies + more)
            == ContentTrackingService::add_file_spec(worktree, source, target, replies),
        replies.len() >= 2,
{
    lemma_skip_of_more(replies, more, 1);
    assert(replies.skip(1).len() > 0);
    assert((replies.skip(1) + more)[0] == replies.skip(1)[0]);
}

} // verus!
