//! Packaging: the manifest of a documentation package, and the service
//! that publishes the package to its distribution branch.

use crate::compliance::{
    matrix_of, try_compliance_matrix, ComplianceError, ComplianceMatrix, ComplianceMatrixView,
    ReleaseDto, StandardDto, StandardDtoView,
};
use crate::text::{chars_of, join_path, joined_path};
use crate::tracking::{
    lemma_add_file_settled, lemma_commit_settled, lemma_skip_of_more, settled, BranchName,
    CommitId, CommitMessage, ContentTrackingService, ExternalToolError, Outcome, OutcomeView,
    Request, RequestView, Step, StepView,
};
use vstd::prelude::*;

verus! {

/// Whether `c` may start a package id: a lower-case letter.
pub open spec fn is_id_start(c: char) -> bool {
    'a' <= c && c <= 'z'
}

/// Whether `c` may follow in a package id: a lower-case letter, a digit, a
/// hyphen or a slash.
pub open spec fn is_id_part(c: char) -> bool {
    ('a' <= c && c <= 'z') || ('0' <= c && c <= '9') || c == '-' || c == '/'
}

/// Whether `text` is a package id: the texts that the pattern
/// `^[a-z][a-z0-9/-]{0,19}$` matches.
pub open spec fn is_package_id(text: Seq<char>) -> bool {
    &&& 1 <= text.len() <= 20
    &&& is_id_start(text[0])
    &&& forall|i: int| 1 <= i < text.len() ==> is_id_part(#[trigger] text[i])
}

/// The id of a package: a short slug.
#[derive(Debug)]
pub struct PackageId(String);

impl View for PackageId {
    type V = Seq<char>;

    closed spec fn view(&self) -> Seq<char> {
        self.0@
    }
}

impl PackageId {
    #[verifier::type_invariant]
    spec fn valid(&self) -> bool {
        is_package_id(self.0@)
    }

    /// The package id that `s` spells, if it spells one.
    pub fn from(s: &str) -> (r: Option<PackageId>)
        ensures
            r is Some <==> is_package_id(s@),
            r matches Some(id) ==> id@ == s@,
    {
        let chars = chars_of(s);
        if chars.len() < 1 || chars.len() > 20 {
            return None;
        }
        let first = chars[0];
        if !('a' <= first && first <= 'z') {
            return None;
        }
        let mut i: usize = 1;
        while i < chars.len()
            invariant
                1 <= i <= chars@.len(),
                chars@ == s@,
                forall|j: int| 1 <= j < i ==> is_id_part(#[trigger] s@[j]),
            decreases chars.len() - i,
        {
            let c = chars[i];
            if !(('a' <= c && c <= 'z') || ('0' <= c && c <= '9') || c == '-' || c == '/') {
                return None;
            }
            i += 1;
        }
        Some(PackageId(s.to_owned()))
    }

    pub fn as_str(&self) -> (r: &str)
        ensures
            r@ == self@,
            is_package_id(r@),
    {
        proof {
            use_type_invariant(self);
        }
        self.0.as_str()
    }
}

impl Clone for PackageId {
    fn clone(&self) -> (r: PackageId)
        ensures
            r@ == self@,
    {
        proof {
            use_type_invariant(self);
        }
        PackageId(self.0.clone())
    }
}

/// A file of the package, by its path relative to the repository's root.
#[derive(Debug)]
pub struct FileDescription(pub String);

impl View for FileDescription {
    type V = Seq<char>;

    open spec fn view(&self) -> Seq<char> {
        self.0@
    }
}

impl DeepView for FileDescription {
    type V = Seq<char>;

    open spec fn deep_view(&self) -> Seq<char> {
        self.0@
    }
}

impl Clone for FileDescription {
    fn clone(&self) -> (r: FileDescription)
        ensures
            r@ == self@,
    {
        FileDescription(self.0.clone())
    }
}

impl PartialEq for FileDescription {
    fn eq(&self, other: &FileDescription) -> (r: bool) {
        self.0 == other.0
    }
}

impl vstd::std_specs::cmp::PartialEqSpecImpl for FileDescription {
    open spec fn obeys_eq_spec() -> bool {
        true
    }

    open spec fn eq_spec(&self, other: &FileDescription) -> bool {
        self@ == other@
    }
}

/// The package table of a manifest, as read.
#[derive(Debug)]
pub struct PackageDto {
    pub id: String,
    pub files: Vec<String>,
}

/// A manifest, as read.
#[derive(Debug)]
pub struct ManifestDto {
    pub package: PackageDto,
    pub release: Option<Vec<ReleaseDto>>,
    pub standard: Option<Vec<StandardDto>>,
}

pub struct ManifestDtoView {
    pub id: Seq<char>,
    pub files: Seq<Seq<char>>,
    pub release: Seq<Seq<char>>,
    pub standard: Seq<StandardDtoView>,
}

impl DeepView for ManifestDto {
    type V = ManifestDtoView;

    open spec fn deep_view(&self) -> ManifestDtoView {
        ManifestDtoView {
            id: self.package.id@,
            files: self.package.files.deep_view(),
            release: match self.release.deep_view() {
                Some(release) => release,
                None => Seq::empty(),
            },
            standard: match self.standard.deep_view() {
                Some(standard) => standard,
                None => Seq::empty(),
            },
        }
    }
}

/// The paths in the order of their first occurrence, each once.
pub open spec fn distinct(paths: Seq<Seq<char>>) -> Seq<Seq<char>>
    decreases paths.len(),
{
    if paths.len() == 0 {
        Seq::empty()
    } else if distinct(paths.drop_last()).contains(paths.last()) {
        distinct(paths.drop_last())
    } else {
        distinct(paths.drop_last()).push(paths.last())
    }
}

/// A sequence with one more element at its end holds that element and
/// what it held before.
proof fn lemma_push_contains(paths: Seq<Seq<char>>, last: Seq<char>, path: Seq<char>)
    ensures
        paths.push(last).contains(path) <==> paths.contains(path) || path == last,
{
    let longer = paths.push(last);
    if paths.contains(path) {
        let i = choose|i: int| 0 <= i < paths.len() && paths[i] == path;
        assert(longer[i] == path);
    }
    if path == last {
        assert(longer[paths.len() as int] == path);
    }
    if longer.contains(path) {
        let i = choose|i: int| 0 <= i < longer.len() && longer[i] == path;
        if i < paths.len() {
            assert(paths[i] == path);
        }
    }
}

/// `distinct` keeps every path and repeats none.
pub proof fn lemma_distinct(paths: Seq<Seq<char>>)
    ensures
        forall|path: Seq<char>| #[trigger] distinct(paths).contains(path) <==> paths.contains(path),
        distinct(paths).no_duplicates(),
    decreases paths.len(),
{
    if paths.len() > 0 {
        let front = paths.drop_last();
        let last = paths.last();
        lemma_distinct(front);
        assert(paths == front.push(last));
        assert forall|path: Seq<char>| #[trigger]
            distinct(paths).contains(path) <==> paths.contains(path) by {
            lemma_push_contains(front, last, path);
            lemma_push_contains(distinct(front), last, path);
            assert(distinct(front).contains(path) <==> front.contains(path));
            assert(distinct(front).contains(last) <==> front.contains(last));
        }
    }
}

/// A manifest as a mathematical value.
pub struct ManifestView {
    pub id: Seq<char>,
    pub files: Seq<Seq<char>>,
    pub compliance_matrix: ComplianceMatrixView,
}

/// The manifest that a manifest as read stands for. It stands for none
/// where its id is no package id, and for none where its releases and
/// standards make no compliance matrix.
pub open spec fn manifest_of(dto: ManifestDtoView) -> Result<ManifestView, Seq<char>> {
    if !is_package_id(dto.id) {
        Err("could not parse package id"@)
    } else {
        match matrix_of(dto.release, dto.standard) {
            Err(ComplianceError::InvalidStandard) => Err("invalid standard definition"@),
            Err(ComplianceError::InvalidDesignEvidence) => Err("invalid design evidence"@),
            Err(ComplianceError::InvalidApplicability) => Err("invalid applicability"@),
            Ok(compliance_matrix) => Ok(
                ManifestView { id: dto.id, files: distinct(dto.files), compliance_matrix },
            ),
        }
    }
}

/// What a documentation package consists of.
#[derive(Debug)]
pub struct Manifest {
    id: PackageId,
    files: Vec<FileDescription>,
    compliance_matrix: ComplianceMatrix,
}

impl DeepView for Manifest {
    type V = ManifestView;

    closed spec fn deep_view(&self) -> ManifestView {
        ManifestView {
            id: self.id@,
            files: self.files.deep_view(),
            compliance_matrix: self.compliance_matrix.deep_view(),
        }
    }
}

fn holds(files: &Vec<FileDescription>, path: &String) -> (r: bool)
    ensures
        r == files.deep_view().contains(path@),
{
    let mut i: usize = 0;
    while i < files.len()
        invariant
            i <= files@.len(),
            forall|j: int| 0 <= j < i ==> files.deep_view()[j] != path@,
        decreases files.len() - i,
    {
        if files[i].0 == *path {
            assert(files.deep_view()[i as int] == path@);
            return true;
        }
        i += 1;
    }
    false
}

impl Manifest {
    #[verifier::type_invariant]
    spec fn valid(&self) -> bool {
        &&& is_package_id(self.id@)
        &&& self.files.deep_view().no_duplicates()
    }

    /// Makes the manifest that `dto` stands for.
    pub fn from_dto(dto: ManifestDto) -> (r: Result<Manifest, String>)
        ensures
            match r {
                Ok(manifest) => Ok(manifest.deep_view()),
                Err(reason) => Err(reason@),
            } == manifest_of(dto.deep_view()),
    {
        let ghost declared = dto.deep_view();
        let id = match PackageId::from(dto.package.id.as_str()) {
            Some(id) => id,
            None => {
                return Err("could not parse package id".to_owned());
            },
        };
        let mut files: Vec<FileDescription> = Vec::new();
        let paths = dto.package.files;
        let mut i: usize = 0;
        assert(paths.deep_view().take(0) =~= Seq::<Seq<char>>::empty());
        assert(files.deep_view() =~= Seq::<Seq<char>>::empty());
        while i < paths.len()
            invariant
                i <= paths@.len(),
                files.deep_view() == distinct(paths.deep_view().take(i as int)),
            decreases paths.len() - i,
        {
            let ghost so_far = files.deep_view();
            assert(paths.deep_view().take(i + 1).drop_last() == paths.deep_view().take(i as int));
            assert(paths.deep_view().take(i + 1).last() == paths@[i as int]@);
            if !holds(&files, &paths[i]) {
                files.push(FileDescription(paths[i].clone()));
                assert(files.deep_view() =~= so_far.push(paths@[i as int]@));
            }
            i += 1;
        }
        assert(paths.deep_view().take(paths@.len() as int) == paths.deep_view());
        proof {
            lemma_distinct(paths.deep_view());
        }
        let release = match dto.release {
            Some(release) => release,
            None => Vec::new(),
        };
        let standard = match dto.standard {
            Some(standard) => standard,
            None => Vec::new(),
        };
        assert(release.deep_view() =~= declared.release);
        assert(standard.deep_view() =~= declared.standard);
        match try_compliance_matrix(release, standard) {
            Ok(compliance_matrix) => {
                proof {
                    use_type_invariant(&id);
                }
                Ok(Manifest { id, files, compliance_matrix })
            },
            Err(ComplianceError::InvalidStandard) => Err("invalid standard definition".to_owned()),
            Err(ComplianceError::InvalidDesignEvidence) => Err("invalid design evidence".to_owned()),
            Err(ComplianceError::InvalidApplicability) => Err("invalid applicability".to_owned()),
        }
    }

    pub fn id(&self) -> (r: &PackageId)
        ensures
            r@ == self.deep_view().id,
            is_package_id(r@),
    {
        proof {
            use_type_invariant(self);
        }
        &self.id
    }

    /// The files of the package, each once.
    pub fn files(&self) -> (r: &Vec<FileDescription>)
        ensures
            r.deep_view() == self.deep_view().files,
            r.deep_view().no_duplicates(),
    {
        proof {
            use_type_invariant(self);
        }
        &self.files
    }

    pub fn compliance_matrix(&self) -> (r: &ComplianceMatrix)
        ensures
            r.deep_view() == self.deep_view().compliance_matrix,
    {
        &self.compliance_matrix
    }
}

impl Clone for Manifest {
    fn clone(&self) -> (r: Manifest)
        ensures
            r.deep_view() == self.deep_view(),
    {
        proof {
            use_type_invariant(self);
        }
        let mut files: Vec<FileDescription> = Vec::new();
        let mut i: usize = 0;
        while i < self.files.len()
            invariant
                i <= self.files@.len(),
                files@.len() == i,
                forall|j: int| 0 <= j < i ==> files@[j]@ == self.files@[j]@,
            decreases self.files.len() - i,
        {
            files.push(self.files[i].clone());
            i += 1;
        }
        assert(files.deep_view() =~= self.files.deep_view());
        Manifest {
            id: self.id.clone(),
            files,
            compliance_matrix: self.compliance_matrix.clone(),
        }
    }
}

/// A manifest is accepted for the package ids and for nothing else, as far
/// as its releases and standards make a compliance matrix. The manifest
/// that is made has the id as read, and the files as read, each once.
pub proof fn lemma_manifest_accepts_package_ids(dto: ManifestDtoView)
    requires
        matrix_of(dto.release, dto.standard) is Ok,
    ensures
        manifest_of(dto) is Ok <==> is_package_id(dto.id),
        manifest_of(dto) matches Ok(manifest) ==> {
            &&& manifest.id == dto.id
            &&& manifest.files.no_duplicates()
            &&& forall|path: Seq<char>| #[trigger]
                manifest.files.contains(path) <==> dto.files.contains(path)
        },
{
    lemma_distinct(dto.files);
}

/// A manifest whose id is no package id is rejected, whatever else it
/// holds.
pub proof fn lemma_manifest_rejects_other_ids(dto: ManifestDtoView)
    requires
        !is_package_id(dto.id),
    ensures
        manifest_of(dto) == Err::<ManifestView, Seq<char>>("could not parse package id"@),
{
}

/// Where the worktree of the distribution branch is kept, relative to the
/// repository's root.
pub const RELATIVE_TARGET_PATH: &'static str = "target/docpkg";

/// The name of the manifest's file in the repository's root.
pub const MANIFEST_FILE_NAME: &'static str = "Docpkg.toml";

/// The message of the commit that publishing makes.
pub const PUBLISH_MESSAGE: &'static str = "docs: new package";

/// Why a package cannot be published.
#[derive(Debug, Clone, Copy, PartialEq, Eq, Structural)]
pub enum PackagingError {
    /// What was configured cannot be used: the branch named as a fallback
    /// is no branch name.
    Configuration,
    /// The repository is on no branch, and no fallback was named.
    Precondition,
    /// The version-control program failed.
    ExternalTool(ExternalToolError),
}

/// Publishes a package from a repository to the package's distribution
/// branch, through a worktree of that branch kept inside the repository.
///
/// A service is opening until [`DocumentationPackagingService::open`] is
/// done. From then on there is a value of this type, and the service is
/// ready: it publishes as often as it is asked to. It is closed by
/// [`DocumentationPackagingService::close`], which takes the value away and
/// leaves the [`Teardown`] of the worktree; a service that was opened is to
/// be closed whatever happened in between.
#[derive(Debug)]
pub struct DocumentationPackagingService {
    content: ContentTrackingService,
    target_content: ContentTrackingService,
    target_branch_name: BranchName,
    manifest: Manifest,
}

/// A service as a mathematical value.
pub struct ServiceView {
    /// The repository's root.
    pub source: Seq<char>,
    /// The worktree of the distribution branch.
    pub target: Seq<char>,
    /// The distribution branch.
    pub branch: Seq<char>,
    pub manifest: ManifestView,
}

impl DeepView for DocumentationPackagingService {
    type V = ServiceView;

    closed spec fn deep_view(&self) -> ServiceView {
        ServiceView {
            source: self.content@,
            target: self.target_content@,
            branch: self.target_branch_name@,
            manifest: self.manifest.deep_view(),
        }
    }
}

/// The rest of `replies` from the reply at `from` on.
fn rest_from(replies: &[Outcome], from: usize) -> (r: &[Outcome])
    requires
        from <= replies@.len(),
    ensures
        r.deep_view() == replies.deep_view().skip(from as int),
{
    let rest = vstd::slice::slice_subrange(replies, from, replies.len());
    assert(rest.deep_view() =~= replies.deep_view().skip(from as int));
    rest
}

/// The branch that a package is published from: the one that is checked
/// out, else the fallback. A missing fallback is a failed precondition,
/// an empty one a configuration error.
pub open spec fn origin_branch(found: Option<Seq<char>>, fallback: Option<Seq<char>>) -> Result<
    Seq<char>,
    PackagingError,
> {
    match found {
        Some(name) => Ok(name),
        None => match fallback {
            None => Err(PackagingError::Precondition),
            Some(name) => if name.len() == 0 {
                Err(PackagingError::Configuration)
            } else {
                Ok(name)
            },
        },
    }
}

/// The distribution branch of the package `id` as published from the
/// branch `origin`.
pub open spec fn distribution_branch(id: Seq<char>, origin: Seq<char>) -> Seq<char> {
    "docpkg/"@ + id + "/"@ + origin
}

/// The branch of the remote `origin` that tracks `name`.
pub open spec fn remote_branch(name: Seq<char>) -> Seq<char> {
    "origin/"@ + name
}

/// Making a commit that holds nothing, so that there is a commit to put a
/// new branch on: a tree is written, then committed.
pub open spec fn create_initial_commit_spec(source: Seq<char>, replies: Seq<OutcomeView>) -> Result<
    StepView<Seq<char>>,
    ExternalToolError,
> {
    match ContentTrackingService::make_tree_spec(source, replies) {
        Err(e) => Err(e),
        Ok(StepView::Next(request)) => Ok(StepView::Next(request)),
        Ok(StepView::Done(tree)) => ContentTrackingService::commit_tree_spec(
            source,
            tree,
            replies.skip(1),
        ),
    }
}

/// Seeing to it that the branch `name` exists: it is created where the
/// remote has it, and only if that is refused at `commit`. A refusal there
/// is no error: the branch was there before.
pub open spec fn ensure_branch_spec(
    source: Seq<char>,
    name: Seq<char>,
    commit: Seq<char>,
    replies: Seq<OutcomeView>,
) -> StepView<()> {
    match ContentTrackingService::create_branch_spec(source, name, remote_branch(name), replies) {
        StepView::Next(request) => StepView::Next(request),
        StepView::Done(true) => StepView::Done(()),
        StepView::Done(false) => match ContentTrackingService::create_branch_spec(
            source,
            name,
            commit,
            replies.skip(1),
        ) {
            StepView::Next(request) => StepView::Next(request),
            StepView::Done(_) => StepView::Done(()),
        },
    }
}

/// The number of replies that seeing to the branch takes.
pub open spec fn ensure_branch_replies(replies: Seq<OutcomeView>) -> int {
    if replies[0].succeeded() {
        1
    } else {
        2
    }
}

/// Setting the worktree up: what is left of an earlier one is cleared, the
/// initial commit is made, the branch `name` is seen to, and the worktree
/// is attached to it. The clearing takes the first reply and the initial
/// commit the two after it, so that the branch is seen to from the fourth
/// reply on.
pub open spec fn create_worktree_spec(
    source: Seq<char>,
    name: Seq<char>,
    replies: Seq<OutcomeView>,
) -> Result<StepView<()>, ExternalToolError> {
    if replies.len() == 0 {
        Ok(StepView::Next(RequestView::Clear(joined_path(source, RELATIVE_TARGET_PATH@))))
    } else {
        match create_initial_commit_spec(source, replies.skip(1)) {
            Err(e) => Err(e),
            Ok(StepView::Next(request)) => Ok(StepView::Next(request)),
            Ok(StepView::Done(commit)) => match ensure_branch_spec(
                source,
                name,
                commit,
                replies.skip(3),
            ) {
                StepView::Next(request) => Ok(StepView::Next(request)),
                StepView::Done(_) => ContentTrackingService::add_worktree_spec(
                    source,
                    RELATIVE_TARGET_PATH@,
                    name,
                    replies.skip(3 + ensure_branch_replies(replies.skip(3))),
                ),
            },
        }
    }
}

/// Opening: the branch that is checked out is asked for, the distribution
/// branch is named after the package and that branch, and the worktree is
/// set up with the replies after the first. The result is the service,
/// ready to publish.
pub open spec fn open_spec(
    path: Seq<char>,
    manifest: ManifestView,
    fallback: Option<Seq<char>>,
    replies: Seq<OutcomeView>,
) -> Result<StepView<ServiceView>, PackagingError> {
    match ContentTrackingService::get_current_branch_name_spec(path, replies) {
        Err(e) => Err(PackagingError::ExternalTool(e)),
        Ok(StepView::Next(request)) => Ok(StepView::Next(request)),
        Ok(StepView::Done(found)) => match origin_branch(found, fallback) {
            Err(e) => Err(e),
            Ok(origin) => {
                let service = ServiceView {
                    source: path,
                    target: joined_path(path, RELATIVE_TARGET_PATH@),
                    branch: distribution_branch(manifest.id, origin),
                    manifest,
                };
                match create_worktree_spec(path, service.branch, replies.skip(1)) {
                    Err(e) => Err(PackagingError::ExternalTool(e)),
                    Ok(StepView::Next(request)) => Ok(StepView::Next(request)),
                    Ok(StepView::Done(_)) => Ok(StepView::Done(service)),
                }
            },
        },
    }
}

/// Copying each of `files` from under `source` to the same path under
/// `target` and staging it there, two replies a file.
pub open spec fn add_files_spec(
    source: Seq<char>,
    target: Seq<char>,
    files: Seq<Seq<char>>,
    replies: Seq<OutcomeView>,
) -> Result<StepView<()>, ExternalToolError>
    decreases files.len(),
{
    if files.len() == 0 {
        Ok(StepView::Done(()))
    } else {
        match ContentTrackingService::add_file_spec(
            target,
            joined_path(source, files[0]),
            files[0],
            replies,
        ) {
            Err(e) => Err(e),
            Ok(StepView::Next(request)) => Ok(StepView::Next(request)),
            Ok(StepView::Done(_)) => add_files_spec(
                source,
                target,
                files.drop_first(),
                replies.skip(2),
            ),
        }
    }
}

/// The number of replies that a commit takes which is done: one where the
/// program reported that there was nothing to commit, else two.
pub open spec fn commit_replies(replies: Seq<OutcomeView>) -> int {
    if replies[0].nothing_to_commit() {
        1
    } else {
        2
    }
}

/// Publishing: the files of the manifest are added to the worktree, the
/// worktree is committed, and the distribution branch is pushed from the
/// repository. Nothing to commit is no error.
pub open spec fn publish_spec(service: ServiceView, replies: Seq<OutcomeView>) -> Result<
    StepView<()>,
    ExternalToolError,
> {
    match add_files_spec(service.source, service.target, service.manifest.files, replies) {
        Err(e) => Err(e),
        Ok(StepView::Next(request)) => Ok(StepView::Next(request)),
        Ok(StepView::Done(_)) => {
            let rest = replies.skip(2 * (service.manifest.files.len() as int));
            match ContentTrackingService::commit_spec(service.target, PUBLISH_MESSAGE@, rest) {
                Err(e) => Err(e),
                Ok(StepView::Next(request)) => Ok(StepView::Next(request)),
                Ok(StepView::Done(_)) => ContentTrackingService::push_to_origin_spec(
                    service.source,
                    service.branch,
                    rest.skip(commit_replies(rest)),
                ),
            }
        },
    }
}

/// Tearing down: the worktree that opening attached in the repository at
/// `source` is removed. A failure to do so is an error.
pub open spec fn remove_spec(source: Seq<char>, replies: Seq<OutcomeView>) -> Result<
    StepView<()>,
    ExternalToolError,
> {
    ContentTrackingService::remove_work_tree_spec(source, RELATIVE_TARGET_PATH@, replies)
}

/// What is left to do for a service that was closed: the removal of its
/// worktree.
#[derive(Debug)]
pub struct Teardown {
    content: ContentTrackingService,
}

impl View for Teardown {
    type V = Seq<char>;

    /// The root of the repository.
    closed spec fn view(&self) -> Seq<char> {
        self.content@
    }
}

impl Teardown {
    /// Removes the worktree.
    pub fn remove(&self, replies: &[Outcome]) -> (r: Result<Step<()>, ExternalToolError>)
        ensures
            crate::tracking::modelled(r) == remove_spec(self@, replies.deep_view()),
    {
        self.content.remove_work_tree(RELATIVE_TARGET_PATH, replies)
    }
}

impl DocumentationPackagingService {
    #[verifier::type_invariant]
    spec fn placed(&self) -> bool {
        self.target_content@ == joined_path(self.content@, RELATIVE_TARGET_PATH@)
    }

    /// Opens the package of `manifest` in the repository at `path`.
    /// `fallback` names the branch to publish from where the repository is
    /// on none.
    pub fn open(path: &str, manifest: &Manifest, fallback: Option<&str>, replies: &[Outcome]) -> (r:
        Result<Step<DocumentationPackagingService>, PackagingError>)
        ensures
            crate::tracking::modelled(r) == open_spec(
                path@,
                manifest.deep_view(),
                fallback.deep_view(),
                replies.deep_view(),
            ),
    {
        let content = ContentTrackingService::new(path.to_owned());
        let found = match content.get_current_branch_name(replies) {
            Err(e) => {
                return Err(PackagingError::ExternalTool(e));
            },
            Ok(Step::Next(request)) => {
                return Ok(Step::Next(request));
            },
            Ok(Step::Done(found)) => found,
        };
        let origin = match found {
            Some(name) => name,
            None => match fallback {
                None => {
                    return Err(PackagingError::Precondition);
                },
                Some(name) => match BranchName::from_str(name) {
                    Ok(name) => name,
                    Err(_) => {
                        return Err(PackagingError::Configuration);
                    },
                },
            },
        };
        let mut prefix = "docpkg/".to_owned();
        prefix.append(manifest.id().as_str());
        prefix.append("/");
        let target_branch_name = origin.prefixed(prefix.as_str());
        assert(target_branch_name@ == distribution_branch(manifest.deep_view().id, origin@));
        match Self::create_worktree(&content, &target_branch_name, rest_from(replies, 1)) {
            Err(e) => Err(PackagingError::ExternalTool(e)),
            Ok(Step::Next(request)) => Ok(Step::Next(request)),
            Ok(Step::Done(_)) => {
                let target_content = ContentTrackingService::new(
                    join_path(content.worktree(), RELATIVE_TARGET_PATH),
                );
                Ok(
                    Step::Done(
                        DocumentationPackagingService {
                            content,
                            target_content,
                            target_branch_name,
                            manifest: manifest.clone(),
                        },
                    ),
                )
            },
        }
    }

    fn ensure_branch_exists_with_default_commit(
        content: &ContentTrackingService,
        name: &BranchName,
        id: &CommitId,
        replies: &[Outcome],
    ) -> (r: Step<()>)
        ensures
            r.deep_view() == ensure_branch_spec(content@, name@, id@, replies.deep_view()),
    {
        let point = name.prefixed("origin/");
        match content.create_branch(name, &point, replies) {
            Step::Next(request) => Step::Next(request),
            Step::Done(true) => Step::Done(()),
            Step::Done(false) => match content.create_branch(name, id, rest_from(replies, 1)) {
                Step::Next(request) => Step::Next(request),
                Step::Done(_) => Step::Done(()),
            },
        }
    }

    fn create_initial_commit(content: &ContentTrackingService, replies: &[Outcome]) -> (r: Result<
        Step<CommitId>,
        ExternalToolError,
    >)
        ensures
            crate::tracking::modelled(r) == create_initial_commit_spec(
                content@,
                replies.deep_view(),
            ),
    {
        match content.make_tree(replies) {
            Err(e) => Err(e),
            Ok(Step::Next(request)) => Ok(Step::Next(request)),
            Ok(Step::Done(tree_id)) => content.commit_tree(&tree_id, rest_from(replies, 1)),
        }
    }

    fn create_worktree(
        content: &ContentTrackingService,
        name: &BranchName,
        replies: &[Outcome],
    ) -> (r: Result<Step<()>, ExternalToolError>)
        ensures
            crate::tracking::modelled(r) == create_worktree_spec(
                content@,
                name@,
                replies.deep_view(),
            ),
    {
        if replies.len() == 0 {
            return Ok(
                Step::Next(Request::Clear(join_path(content.worktree(), RELATIVE_TARGET_PATH))),
            );
        }
        let commit_id = match Self::create_initial_commit(content, rest_from(replies, 1)) {
            Err(e) => {
                return Err(e);
            },
            Ok(Step::Next(request)) => {
                return Ok(Step::Next(request));
            },
            Ok(Step::Done(commit_id)) => commit_id,
        };
        assert(replies.deep_view().skip(1).skip(1) == replies.deep_view().skip(2));
        let rest = rest_from(replies, 3);
        match Self::ensure_branch_exists_with_default_commit(content, name, &commit_id, rest) {
            Step::Next(request) => {
                return Ok(Step::Next(request));
            },
            Step::Done(_) => {},
        }
        let used: usize = if rest[0].succeeded() {
            1
        } else {
            2
        };
        content.add_worktree(RELATIVE_TARGET_PATH, name, rest_from(replies, 3 + used))
    }

    /// Publishes the package.
    pub fn publish(&self, replies: &[Outcome]) -> (r: Result<Step<()>, ExternalToolError>)
        ensures
            crate::tracking::modelled(r) == publish_spec(self.deep_view(), replies.deep_view()),
    {
        let files = self.manifest.files();
        let ghost source = self.content@;
        let ghost target = self.target_content@;
        let mut i: usize = 0;
        let mut used: usize = 0;
        assert(files.deep_view().skip(0) == files.deep_view());
        assert(replies.deep_view().skip(0) == replies.deep_view());
        while i < files.len()
            invariant
                i <= files@.len(),
                used == 2 * i,
                used <= replies@.len(),
                source == self.content@,
                target == self.target_content@,
                files.deep_view() == self.deep_view().manifest.files,
                add_files_spec(source, target, files.deep_view(), replies.deep_view())
                    == add_files_spec(
                    source,
                    target,
                    files.deep_view().skip(i as int),
                    replies.deep_view().skip(used as int),
                ),
            decreases files.len() - i,
        {
            let file = &files[i];
            assert(files.deep_view().skip(i as int)[0] == file@);
            let from = join_path(self.content.worktree(), file.0.as_str());
            match self.target_content.add_file(
                from.as_str(),
                file.0.as_str(),
                rest_from(replies, used),
            ) {
                Err(e) => {
                    return Err(e);
                },
                Ok(Step::Next(request)) => {
                    return Ok(Step::Next(request));
                },
                Ok(Step::Done(_)) => {
                    assert(replies.deep_view().skip(used as int).skip(1).len() > 0);
                },
            }
            assert(files.deep_view().skip(i as int).drop_first() == files.deep_view().skip(i + 1));
            assert(replies.deep_view().skip(used as int).skip(2) == replies.deep_view().skip(
                used + 2,
            ));
            assert(used + 2 <= replies.len());
            i += 1;
            used += 2;
        }
        proof {
            reveal_strlit("docs: new package");
        }
        let message = match CommitMessage::from_str(PUBLISH_MESSAGE) {
            Ok(message) => message,
            Err(_) => vstd::pervasive::unreached(),
        };
        let rest = rest_from(replies, used);
        match self.target_content.commit(&message, rest) {
            Err(e) => {
                return Err(e);
            },
            Ok(Step::Next(request)) => {
                return Ok(Step::Next(request));
            },
            Ok(Step::Done(_)) => {},
        }
        let taken: usize = if rest[0].succeeded() {
            2
        } else {
            1
        };
        self.content.push_to_origin(&self.target_branch_name, rest_from(rest, taken))
    }

    /// Closes the service. Nothing can be published through it any more;
    /// what is left to do is to remove its worktree.
    pub fn close(self) -> (r: Teardown)
        ensures
            r@ == self.deep_view().source,
    {
        Teardown { content: self.content }
    }

    pub fn content(&self) -> (r: &ContentTrackingService)
        ensures
            r@ == self.deep_view().source,
    {
        &self.content
    }

    pub fn target_content(&self) -> (r: &ContentTrackingService)
        ensures
            r@ == self.deep_view().target,
            r@ == joined_path(self.deep_view().source, RELATIVE_TARGET_PATH@),
    {
        proof {
            use_type_invariant(self);
        }
        &self.target_content
    }

    pub fn target_branch_name(&self) -> (r: &BranchName)
        ensures
            r@ == self.deep_view().branch,
    {
        &self.target_branch_name
    }

    pub fn manifest(&self) -> (r: &Manifest)
        ensures
            r.deep_view() == self.deep_view().manifest,
    {
        &self.manifest
    }
}

/// Publishing when there is nothing to commit: once the files are added
/// and the program has reported that there was nothing to commit,
/// publishing asks for no commit id and reports no error, but goes on to
/// push the branch.
pub proof fn lemma_publish_without_changes(service: ServiceView, replies: Seq<OutcomeView>)
    requires
        add_files_spec(service.source, service.target, service.manifest.files, replies) == Ok::<
            StepView<()>,
            ExternalToolError,
        >(StepView::Done(())),
        replies.len() > 2 * service.manifest.files.len(),
        replies[2 * (service.manifest.files.len() as int)].nothing_to_commit(),
    ensures
        publish_spec(service, replies) == ContentTrackingService::push_to_origin_spec(
            service.source,
            service.branch,
            replies.skip(2 * (service.manifest.files.len() as int) + 1),
        ),
        replies.len() == 2 * service.manifest.files.len() + 1 ==> publish_spec(service, replies)
            == Ok::<StepView<()>, ExternalToolError>(
            StepView::Next(
                crate::tracking::run_in(
                    service.source,
                    seq!["push"@, "origin"@, service.branch],
                ),
            ),
        ),
{
    let n = 2 * (service.manifest.files.len() as int);
    let rest = replies.skip(n);
    assert(rest[0] == replies[n]);
    assert(rest.skip(1) == replies.skip(n + 1));
}

/// Publishing stops at a commit that the program refuses: once the files
/// are added and the commit neither succeeded nor found nothing to commit,
/// publishing fails with what the program ended with, status `1` too, and
/// pushes nothing.
pub proof fn lemma_publish_stops_at_refused_commit(service: ServiceView, replies: Seq<OutcomeView>)
    requires
        add_files_spec(service.source, service.target, service.manifest.files, replies) == Ok::<
            StepView<()>,
            ExternalToolError,
        >(StepView::Done(())),
        replies.len() > 2 * service.manifest.files.len(),
        !replies[2 * (service.manifest.files.len() as int)].succeeded(),
        !replies[2 * (service.manifest.files.len() as int)].nothing_to_commit(),
    ensures
        publish_spec(service, replies) == Err::<StepView<()>, ExternalToolError>(
            replies[2 * (service.manifest.files.len() as int)].failure(),
        ),
{
    let n = 2 * (service.manifest.files.len() as int);
    assert(replies.skip(n)[0] == replies[n]);
}

/// A service that was opened is torn down by removing the worktree that
/// opening attached: the one request of the teardown is that removal, in
/// the repository that was opened; the teardown is done once it succeeds,
/// and fails where it fails.
pub proof fn lemma_teardown_after_open(
    path: Seq<char>,
    manifest: ManifestView,
    fallback: Option<Seq<char>>,
    replies: Seq<OutcomeView>,
    removal: OutcomeView,
)
    requires
        open_spec(path, manifest, fallback, replies) matches Ok(StepView::Done(_)),
    ensures
        ({
            let service = open_spec(path, manifest, fallback, replies)->Ok_0->Done_0;
            &&& service.source == path
            &&& service.target == joined_path(path, RELATIVE_TARGET_PATH@)
            &&& remove_spec(service.source, Seq::empty()) == Ok::<StepView<()>, ExternalToolError>(
                StepView::Next(
                    crate::tracking::run_in(
                        path,
                        seq!["worktree"@, "remove"@, RELATIVE_TARGET_PATH@],
                    ),
                ),
            )
            &&& removal.succeeded() ==> remove_spec(service.source, seq![removal]) == Ok::<
                StepView<()>,
                ExternalToolError,
            >(StepView::Done(()))
            &&& !removal.succeeded() ==> remove_spec(service.source, seq![removal]) == Err::<
                StepView<()>,
                ExternalToolError,
            >(removal.failure())
        }),
{
}

/// The addition of files that is over stays as it is, whatever is replied
/// after it; and it took two replies a file.
pub proof fn lemma_add_files_settled(
    source: Seq<char>,
    target: Seq<char>,
    files: Seq<Seq<char>>,
    replies: Seq<OutcomeView>,
    more: Seq<OutcomeView>,
)
    requires
        settled(add_files_spec(source, target, files, replies)),
    ensures
        add_files_spec(source, target, files, replies + more) == add_files_spec(
            source,
            target,
            files,
            replies,
        ),
        add_files_spec(source, target, files, replies) is Ok ==> replies.len() >= 2 * files.len(),
    decreases files.len(),
{
    if files.len() > 0 {
        let first = ContentTrackingService::add_file_spec(
            target,
            joined_path(source, files[0]),
            files[0],
            replies,
        );
        lemma_add_file_settled(target, joined_path(source, files[0]), files[0], replies, more);
        if first is Ok {
            lemma_skip_of_more(replies, more, 2);
            lemma_add_files_settled(source, target, files.drop_first(), replies.skip(2), more);
        }
    }
}

/// Publishing that is over stays as it is, whatever is replied after it:
/// what was asked for and what came of it does not depend on what follows.
pub proof fn lemma_publish_settled(
    service: ServiceView,
    replies: Seq<OutcomeView>,
    more: Seq<OutcomeView>,
)
    requires
        settled(publish_spec(service, replies)),
    ensures
        publish_spec(service, replies + more) == publish_spec(service, replies),
{
    let files = service.manifest.files;
    lemma_add_files_settled(service.source, service.target, files, replies, more);
    if add_files_spec(service.source, service.target, files, replies) is Ok {
        let n = 2 * (files.len() as int);
        lemma_skip_of_more(replies, more, n);
        let rest = replies.skip(n);
        lemma_commit_settled(service.target, PUBLISH_MESSAGE@, rest, more);
        if ContentTrackingService::commit_spec(service.target, PUBLISH_MESSAGE@, rest) is Ok {
            assert(rest.len() >= commit_replies(rest)) by {
                if rest[0].succeeded() {
                    assert(rest.skip(1).len() > 0);
                }
            }
            lemma_skip_of_more(rest, more, commit_replies(rest));
            lemma_skip_of_more(rest, more, 0);
            let last = rest.skip(commit_replies(rest));
            assert(last.len() > 0);
            assert((last + more)[0] == last[0]);
        }
    }
}

/// Opening that is over stays as it is, whatever is replied after it.
pub proof fn lemma_open_settled(
    path: Seq<char>,
    manifest: ManifestView,
    fallback: Option<Seq<char>>,
    replies: Seq<OutcomeView>,
    more: Seq<OutcomeView>,
)
    requires
        settled(open_spec(path, manifest, fallback, replies)),
    ensures
        open_spec(path, manifest, fallback, replies + more) == open_spec(
            path,
            manifest,
            fallback,
            replies,
        ),
{
    lemma_skip_of_more(replies, more, 0);
    let found = ContentTrackingService::get_current_branch_name_spec(path, replies);
    if found is Ok && origin_branch(found->Ok_0->Done_0, fallback) is Ok {
        let origin = origin_branch(found->Ok_0->Done_0, fallback)->Ok_0;
        let branch = distribution_branch(manifest.id, origin);
        lemma_skip_of_more(replies, more, 1);
        let rest = replies.skip(1);
        assert(settled(create_worktree_spec(path, branch, rest)));
        assert(rest.len() > 0);
        lemma_skip_of_more(rest, more, 1);
        let made = create_initial_commit_spec(path, rest.skip(1));
        assert(rest.skip(1).len() > 0);
        lemma_skip_of_more(rest.skip(1), more, 0);
        if ContentTrackingService::make_tree_spec(path, rest.skip(1)) is Ok {
            lemma_skip_of_more(rest.skip(1), more, 1);
            assert(rest.skip(1).skip(1).len() > 0);
            lemma_skip_of_more(rest.skip(1).skip(1), more, 0);
            if made is Ok {
                assert(rest.skip(1).skip(1) == rest.skip(2));
                lemma_skip_of_more(rest, more, 3);
                let named = rest.skip(3);
                assert(named.len() > 0);
                lemma_skip_of_more(named, more, 0);
                if !named[0].succeeded() {
                    lemma_skip_of_more(named, more, 1);
                    assert(named.skip(1).len() > 0);
                    lemma_skip_of_more(named.skip(1), more, 0);
                }
                let used = 3 + ensure_branch_replies(named);
                assert(used <= rest.len());
                lemma_skip_of_more(rest, more, used);
                assert(rest.skip(used).len() > 0);
                lemma_skip_of_more(rest.skip(used), more, 0);
            }
        }
    }
}

/// The addition of files is over after two replies a file.
pub proof fn lemma_add_files_ends(
    source: Seq<char>,
    target: Seq<char>,
    files: Seq<Seq<char>>,
    replies: Seq<OutcomeView>,
)
    requires
        replies.len() >= 2 * files.len(),
    ensures
        settled(add_files_spec(source, target, files, replies)),
    decreases files.len(),
{
    if files.len() > 0 {
        assert(replies.skip(1).len() > 0);
        lemma_add_files_ends(source, target, files.drop_first(), replies.skip(2));
    }
}

/// Publishing is over after two replies a file and three more.
pub proof fn lemma_publish_ends(service: ServiceView, replies: Seq<OutcomeView>)
    requires
        replies.len() >= 2 * service.manifest.files.len() + 3,
    ensures
        settled(publish_spec(service, replies)),
{
    let files = service.manifest.files;
    lemma_add_files_ends(service.source, service.target, files, replies);
    let rest = replies.skip(2 * (files.len() as int));
    assert(rest.len() >= 3);
    assert(rest.skip(1).len() > 0);
    assert(rest.skip(commit_replies(rest)).len() > 0);
}

/// Opening is over after eight replies.
pub proof fn lemma_open_ends(
    path: Seq<char>,
    manifest: ManifestView,
    fallback: Option<Seq<char>>,
    replies: Seq<OutcomeView>,
)
    requires
        replies.len() >= 8,
    ensures
        settled(open_spec(path, manifest, fallback, replies)),
{
    let rest = replies.skip(1);
    assert(rest.skip(1).len() > 0);
    assert(rest.skip(1).skip(1).len() > 0);
    let named = rest.skip(3);
    assert(named.len() >= 4);
    assert(named.skip(1).len() > 0);
    assert(rest.skip(3 + ensure_branch_replies(named)).len() > 0);
}

} // verus!
