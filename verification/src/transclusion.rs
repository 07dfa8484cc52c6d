//! Transclusion: a document names other documents between a pair of
//! marks, and what lies between the marks is replaced by their text.

use crate::pattern::{accepted, captured_all, captures_all, separated, split};
use crate::text::{trim, trimmed};
use relative_path::RelativePath;
use vstd::prelude::*;

verus! {

/// The pattern of a block: the mark that starts it and names a document,
/// anything, and the mark that ends it. The three groups are the opening
/// mark, the name in it, and the closing mark.
pub const BLOCK_PATTERN: &'static str =
    r"(?ms)(<!-- *Start transclusion: ?(.*?[^ ]) *-->).*?(<!-- *End transclusion *-->)";

/// Whether the marks of a block stay around the text that replaces it.
#[derive(Debug, Clone, Copy, PartialEq, Eq, Structural)]
pub enum TagInclusion {
    RenderTags,
    HideTags,
}

/// Where the expansion of a document stands.
#[derive(Debug)]
pub enum Expansion {
    /// The expansion of the document `name` is needed first, made in the
    /// way `inclusion`. It is to be put at the end of the insertions.
    Needs { name: String, inclusion: TagInclusion },
    /// The expansion is complete, and this is its text.
    Complete(String),
}

/// An [`Expansion`] as a mathematical value.
pub enum ExpansionView {
    Needs { name: Seq<char>, inclusion: TagInclusion },
    Complete(Seq<char>),
}

impl DeepView for Expansion {
    type V = ExpansionView;

    open spec fn deep_view(&self) -> ExpansionView {
        match self {
            Expansion::Needs { name, inclusion } => ExpansionView::Needs {
                name: name@,
                inclusion: *inclusion,
            },
            Expansion::Complete(text) => ExpansionView::Complete(text@),
        }
    }
}

impl Expansion {
    /// This expansion with the document that it needs given by `path`
    /// in place of its name. Without a path nothing stands for a needed
    /// document.
    pub fn located(self, path: Option<String>) -> (r: Option<Expansion>)
        ensures
            r.deep_view() == match self.deep_view() {
                ExpansionView::Complete(text) => Some(ExpansionView::Complete(text)),
                ExpansionView::Needs { name, inclusion } => match path.deep_view() {
                    Some(path) => Some(ExpansionView::Needs { name: path, inclusion }),
                    None => None,
                },
            },
    {
        match self {
            Expansion::Complete(text) => Some(Expansion::Complete(text)),
            Expansion::Needs { name, inclusion } => match path {
                Some(path) => Some(Expansion::Needs { name: path, inclusion }),
                None => None,
            },
        }
    }
}

/// The text of a group, empty where the group took no part in the match.
pub open spec fn group(groups: Seq<Option<Seq<char>>>, index: int) -> Seq<char> {
    if 0 <= index < groups.len() {
        match groups[index] {
            Some(text) => text,
            None => Seq::empty(),
        }
    } else {
        Seq::empty()
    }
}

/// What replaces a block: the expansion of the named document without the
/// white space around it, between the block's own marks and on lines of
/// its own where the marks stay.
pub open spec fn rendered(
    inclusion: TagInclusion,
    groups: Seq<Option<Seq<char>>>,
    insertion: Seq<char>,
) -> Seq<char> {
    match inclusion {
        TagInclusion::RenderTags => group(groups, 1) + seq!['\n'] + trimmed(insertion) + seq!['\n']
            + group(groups, 3),
        TagInclusion::HideTags => trimmed(insertion),
    }
}

/// The parts of a document with what replaces its blocks between them:
/// part, replacement, part, and so on, as far as there are parts. Once the
/// blocks run out the parts follow each other.
pub open spec fn spliced(
    inclusion: TagInclusion,
    parts: Seq<Seq<char>>,
    blocks: Seq<Seq<Option<Seq<char>>>>,
    insertions: Seq<Seq<char>>,
) -> Seq<char>
    decreases parts.len(),
{
    if parts.len() == 0 {
        Seq::empty()
    } else if parts.len() == 1 {
        parts[0]
    } else {
        let front = spliced(inclusion, parts.drop_last(), blocks, insertions);
        let block = parts.len() - 2;
        if block < blocks.len() && block < insertions.len() {
            front + rendered(inclusion, blocks[block], insertions[block]) + parts.last()
        } else {
            front + parts.last()
        }
    }
}

/// What replaces each block, given the expansion of the document that it
/// names.
pub open spec fn replacements(
    inclusion: TagInclusion,
    blocks: Seq<Seq<Option<Seq<char>>>>,
    insertions: Seq<Seq<char>>,
) -> Seq<Seq<char>> {
    Seq::new(blocks.len(), |k: int| rendered(inclusion, blocks[k], insertions[k]))
}

/// The parts with a filling between each two: part, filling, part, and so
/// on to the last part. There is one part more than there are fillings.
pub open spec fn woven(parts: Seq<Seq<char>>, fillings: Seq<Seq<char>>) -> Seq<char>
    decreases fillings.len(),
{
    if fillings.len() == 0 {
        parts[0]
    } else {
        woven(parts.drop_last(), fillings.drop_last()) + fillings.last() + parts.last()
    }
}

/// The name in the first block that has no insertion yet, if there is
/// such a block.
pub open spec fn needed_name(blocks: Seq<Seq<Option<Seq<char>>>>, insertions: nat) -> Option<
    Seq<char>,
> {
    if insertions < blocks.len() {
        Some(group(blocks[insertions as int], 2))
    } else {
        None
    }
}

/// The expansion of the document `content`, given the expansions of the
/// documents that its first blocks name: where a block is left, the name
/// in it, to be expanded with its marks hidden; where none is, the spliced
/// text. There is no expansion where the pattern of a block is rejected.
pub open spec fn expansion_of(
    content: Seq<char>,
    inclusion: TagInclusion,
    insertions: Seq<Seq<char>>,
) -> Option<ExpansionView> {
    if !accepted(BLOCK_PATTERN@) {
        None
    } else {
        let blocks = captured_all(BLOCK_PATTERN@, content);
        match needed_name(blocks, insertions.len()) {
            Some(name) => Some(ExpansionView::Needs { name, inclusion: TagInclusion::HideTags }),
            None => Some(
                ExpansionView::Complete(
                    spliced(inclusion, separated(BLOCK_PATTERN@, content), blocks, insertions),
                ),
            ),
        }
    }
}

proof fn lemma_spliced_prefix(
    inclusion: TagInclusion,
    parts: Seq<Seq<char>>,
    blocks: Seq<Seq<Option<Seq<char>>>>,
    insertions: Seq<Seq<char>>,
    n: int,
)
    requires
        parts.len() == blocks.len() + 1,
        insertions.len() >= blocks.len(),
        0 <= n <= blocks.len(),
    ensures
        spliced(inclusion, parts.take(n + 1), blocks, insertions) == woven(
            parts.take(n + 1),
            replacements(inclusion, blocks, insertions).take(n),
        ),
    decreases n,
{
    let fillings = replacements(inclusion, blocks, insertions);
    if n > 0 {
        lemma_spliced_prefix(inclusion, parts, blocks, insertions, n - 1);
        assert(parts.take(n + 1).drop_last() == parts.take(n));
        assert(fillings.take(n).drop_last() == fillings.take(n - 1));
        assert(fillings.take(n).last() == rendered(inclusion, blocks[n - 1], insertions[n - 1]));
    }
}

/// Where there is one part more than blocks, and an insertion for each
/// block, every block is replaced: the spliced text is the parts with the
/// replacement of each block between them.
pub proof fn lemma_every_block_is_replaced(
    inclusion: TagInclusion,
    parts: Seq<Seq<char>>,
    blocks: Seq<Seq<Option<Seq<char>>>>,
    insertions: Seq<Seq<char>>,
)
    requires
        parts.len() == blocks.len() + 1,
        insertions.len() >= blocks.len(),
    ensures
        spliced(inclusion, parts, blocks, insertions) == woven(
            parts,
            replacements(inclusion, blocks, insertions),
        ),
{
    let n = blocks.len() as int;
    lemma_spliced_prefix(inclusion, parts, blocks, insertions, n);
    assert(parts.take(n + 1) == parts);
    assert(replacements(inclusion, blocks, insertions).take(n) == replacements(
        inclusion,
        blocks,
        insertions,
    ));
}

fn group_text(groups: &Vec<Option<String>>, index: usize) -> (r: String)
    ensures
        r@ == group(groups.deep_view(), index as int),
{
    if index < groups.len() {
        assert(groups.deep_view()[index as int] == groups@[index as int].deep_view());
        match &groups[index] {
            Some(text) => text.clone(),
            None => String::new(),
        }
    } else {
        String::new()
    }
}

fn render(out: &mut String, inclusion: TagInclusion, groups: &Vec<Option<String>>, insertion: &str)
    ensures
        final(out)@ == old(out)@ + rendered(inclusion, groups.deep_view(), insertion@),
{
    proof {
        reveal_strlit("\n");
    }
    assert("\n"@ =~= seq!['\n']);
    let ghost before = out@;
    let inner = trim(insertion);
    match inclusion {
        TagInclusion::RenderTags => {
            let open = group_text(groups, 1);
            let close = group_text(groups, 3);
            out.append(open.as_str());
            out.append("\n");
            out.append(inner.as_str());
            out.append("\n");
            out.append(close.as_str());
            assert(out@ =~= before + rendered(inclusion, groups.deep_view(), insertion@));
        },
        TagInclusion::HideTags => {
            out.append(inner.as_str());
        },
    }
}

/// The name in the first of `blocks` that none of the `insertions` is for.
pub fn needed(blocks: &Vec<Vec<Option<String>>>, insertions: usize) -> (r: Option<String>)
    ensures
        r.deep_view() == needed_name(blocks.deep_view(), insertions as nat),
{
    if insertions < blocks.len() {
        assert(blocks.deep_view()[insertions as int] == blocks@[insertions as int].deep_view());
        Some(group_text(&blocks[insertions], 2))
    } else {
        None
    }
}

/// Puts the `parts` of a document together again, with what replaces each
/// of its `blocks` between them.
pub fn splice(
    inclusion: TagInclusion,
    parts: &Vec<String>,
    blocks: &Vec<Vec<Option<String>>>,
    insertions: &[String],
) -> (r: String)
    ensures
        r@ == spliced(inclusion, parts.deep_view(), blocks.deep_view(), insertions.deep_view()),
{
    let mut out = String::new();
    let mut i: usize = 0;
    assert(parts.deep_view().take(0) =~= Seq::<Seq<char>>::empty());
    while i < parts.len()
        invariant
            i <= parts@.len(),
            out@ == spliced(
                inclusion,
                parts.deep_view().take(i as int),
                blocks.deep_view(),
                insertions.deep_view(),
            ),
        decreases parts.len() - i,
    {
        assert(parts.deep_view().take(i + 1).drop_last() == parts.deep_view().take(i as int));
        assert(parts.deep_view().take(i + 1).last() == parts@[i as int]@);
        if i > 0 && i - 1 < blocks.len() && i - 1 < insertions.len() {
            assert(blocks.deep_view()[i - 1] == blocks@[i - 1].deep_view());
            assert(insertions.deep_view()[i - 1] == insertions@[i - 1]@);
            render(&mut out, inclusion, &blocks[i - 1], insertions[i - 1].as_str());
        }
        out.append(parts[i].as_str());
        assert(out@ =~= spliced(
            inclusion,
            parts.deep_view().take(i + 1),
            blocks.deep_view(),
            insertions.deep_view(),
        ));
        i += 1;
    }
    assert(parts.deep_view().take(parts@.len() as int) == parts.deep_view());
    out
}

/// Expands `content` as far as the `insertions` reach. In the complete
/// expansion every block is replaced.
pub fn expand(content: &str, inclusion: TagInclusion, insertions: &[String]) -> (r: Option<
    Expansion,
>)
    ensures
        r.deep_view() == expansion_of(content@, inclusion, insertions.deep_view()),
        r matches Some(Expansion::Complete(text)) ==> text@ == woven(
            separated(BLOCK_PATTERN@, content@),
            replacements(
                inclusion,
                captured_all(BLOCK_PATTERN@, content@),
                insertions.deep_view(),
            ),
        ),
{
    let blocks = match captures_all(BLOCK_PATTERN, content) {
        Ok(blocks) => blocks,
        Err(_) => {
            return None;
        },
    };
    match needed(&blocks, insertions.len()) {
        Some(name) => Some(Expansion::Needs { name, inclusion: TagInclusion::HideTags }),
        None => match split(BLOCK_PATTERN, content) {
            Ok(parts) => {
                proof {
                    lemma_every_block_is_replaced(
                        inclusion,
                        parts.deep_view(),
                        blocks.deep_view(),
                        insertions.deep_view(),
                    );
                }
                Some(Expansion::Complete(splice(inclusion, &parts, &blocks, insertions)))
            },
            Err(_) => None,
        },
    }
}

/// `path` with the rest of a name put behind it, `separator` standing
/// before each piece of the name unless nothing stands before the piece.
/// The pieces of a name are what lies between its slashes, where anything
/// does. `fresh` tells that the next character begins a piece.
pub open spec fn extended(path: Seq<char>, name: Seq<char>, separator: char, fresh: bool) -> Seq<
    char,
>
    decreases name.len(),
{
    if name.len() == 0 {
        path
    } else if name[0] == '/' {
        extended(path, name.drop_first(), separator, true)
    } else if fresh && path.len() > 0 {
        extended(path.push(separator).push(name[0]), name.drop_first(), separator, false)
    } else {
        extended(path.push(name[0]), name.drop_first(), separator, false)
    }
}

/// The path of the document `name` as seen from `directory`, where the
/// system separates the pieces of a path by `separator`.
pub open spec fn resolved(directory: Seq<char>, name: Seq<char>, separator: char) -> Seq<char> {
    extended(directory, name, separator, true)
}

/// Whether `path` is the path of the document `name` as seen from
/// `directory`, on a system that separates by a slash or on one that
/// separates by a backslash.
pub open spec fn leads_to(path: Seq<char>, directory: Seq<char>, name: Seq<char>) -> bool {
    path == resolved(directory, name, '/') || path == resolved(directory, name, '\\')
}

/// Calls `relative_path::RelativePath::to_path` on `name`, with
/// `directory` as the base, and `Path::to_str` on what it gives.
///
/// Trusted: `to_path` starts from the text of `directory` and puts each
/// piece of `name` behind it, after the system's separator where anything
/// stands before the piece. That is text again, so that `to_str` finds
/// it. The separator is a slash or a backslash; which of them is not
/// claimed.
#[verifier::external_body]
pub(crate) fn resolve(directory: &str, name: &str) -> (r: Option<String>)
    ensures
        r is Some,
        leads_to(r->0@, directory@, name@),
{
    RelativePath::new(name).to_path(directory).to_str().map(|path| path.to_string())
}

/// Expands the document `content`, which lies in `directory`, as
/// [`expand`] does, but gives a document that is needed by its path: the
/// name in the block as seen from `directory`, in the system's way of
/// writing paths.
pub fn transclude_impl(
    directory: &str,
    content: &str,
    inclusion: TagInclusion,
    insertions: &[String],
) -> (r: Option<Expansion>)
    ensures
        match expansion_of(content@, inclusion, insertions.deep_view()) {
            None => r is None,
            Some(ExpansionView::Complete(text)) => r.deep_view() == Some(
                ExpansionView::Complete(text),
            ),
            Some(ExpansionView::Needs { name, inclusion }) => r matches Some(
                Expansion::Needs { name: path, inclusion: way },
            ) && way == inclusion && leads_to(path@, directory@, name),
        },
{
    match expand(content, inclusion, insertions) {
        None => None,
        Some(Expansion::Complete(text)) => Some(Expansion::Complete(text)),
        Some(Expansion::Needs { name, inclusion }) => {
            let path = resolve(directory, name.as_str());
            Expansion::Needs { name, inclusion }.located(path)
        },
    }
}

/// Expands the document `content`, which lies in `directory`, with the
/// marks of its own blocks kept.
pub fn transclude(directory: &str, content: &str, insertions: &[String]) -> (r: Option<Expansion>)
    ensures
        match expansion_of(content@, TagInclusion::RenderTags, insertions.deep_view()) {
            None => r is None,
            Some(ExpansionView::Complete(text)) => r.deep_view() == Some(
                ExpansionView::Complete(text),
            ),
            Some(ExpansionView::Needs { name, inclusion }) => r matches Some(
                Expansion::Needs { name: path, inclusion: way },
            ) && way == inclusion && leads_to(path@, directory@, name),
        },
{
    transclude_impl(directory, content, TagInclusion::RenderTags, insertions)
}

} // verus!
