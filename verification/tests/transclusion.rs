use docpkg::transclusion::{
    expand, needed, splice, transclude, transclude_impl, Expansion, TagInclusion, BLOCK_PATTERN,
};

const DOCUMENT: &str = "# Title\n\
    <!-- Start transclusion: document.md -->\n\
    old text\n\
    <!-- End transclusion -->\n\
    between\n\
    <!--Start transclusion:sub/other.md   -->stale<!--  End transclusion-->\n\
    end\n";

fn needs(expansion: Option<Expansion>) -> (String, TagInclusion) {
    match expansion {
        Some(Expansion::Needs { name, inclusion }) => (name, inclusion),
        _ => panic!("a document was expected to be needed"),
    }
}

fn complete(expansion: Option<Expansion>) -> String {
    match expansion {
        Some(Expansion::Complete(text)) => text,
        _ => panic!("the expansion was expected to be complete"),
    }
}

#[test]
fn a_document_without_blocks_is_its_own_expansion() {
    assert_eq!(complete(expand("plain\ntext\n", TagInclusion::RenderTags, &[])), "plain\ntext\n");
    assert_eq!(complete(expand("", TagInclusion::HideTags, &[])), "");
}

#[test]
fn the_blocks_are_asked_for_in_order_with_their_marks_hidden() {
    assert_eq!(
        needs(expand(DOCUMENT, TagInclusion::RenderTags, &[])),
        ("document.md".to_string(), TagInclusion::HideTags)
    );
    assert_eq!(
        needs(expand(DOCUMENT, TagInclusion::HideTags, &["first".to_string()])),
        ("sub/other.md".to_string(), TagInclusion::HideTags)
    );
}

#[test]
fn the_marks_stay_where_they_are_rendered() {
    let insertions = ["\n  Example content.\n\n".to_string(), "Second.".to_string()];
    assert_eq!(
        complete(expand(DOCUMENT, TagInclusion::RenderTags, &insertions)),
        "# Title\n\
         <!-- Start transclusion: document.md -->\n\
         Example content.\n\
         <!-- End transclusion -->\n\
         between\n\
         <!--Start transclusion:sub/other.md   -->\nSecond.\n<!--  End transclusion-->\n\
         end\n"
    );
}

#[test]
fn the_marks_go_where_they_are_hidden() {
    let insertions = ["\n  Example content.\n\n".to_string(), "Second.".to_string()];
    assert_eq!(
        complete(expand(DOCUMENT, TagInclusion::HideTags, &insertions)),
        "# Title\nExample content.\nbetween\nSecond.\nend\n"
    );
}

#[test]
fn a_block_may_span_lines_and_ends_at_the_first_closing_mark() {
    let document = "<!-- Start transclusion: a.md -->x\ny<!-- End transclusion -->z<!-- End transclusion -->";
    assert_eq!(
        complete(expand(document, TagInclusion::HideTags, &["A".to_string()])),
        "Az<!-- End transclusion -->"
    );
}

#[test]
fn test() {
    let readme = "# Example\n\n<!-- Start transclusion: document.md -->\n<!-- End transclusion -->\n";
    let document = "Example content.\n\n<!-- Start transclusion: document-2.md -->\n<!-- End transclusion -->\n";
    let second = "Second example content.\n";

    let inner = needs(transclude_impl("example", document, TagInclusion::HideTags, &[]));
    assert!(inner.0.ends_with("document-2.md"));
    let innermost = complete(transclude_impl("example", second, inner.1, &[]));
    let expanded = complete(transclude_impl(
        "example",
        document,
        TagInclusion::HideTags,
        &[innermost],
    ));
    let outer = needs(transclude("example", readme, &[]));
    assert!(outer.0.ends_with("document.md"));
    let content = complete(transclude("example", readme, &[expanded]));

    assert!(content.find("Second example content.").is_some());
    assert!(content.find("<!-- Start transclusion: document.md -->").is_some());
    assert!(content.find("<!-- Start transclusion: document-2.md -->").is_none());
}

#[test]
fn a_needed_document_is_resolved_against_the_directory() {
    let (path, inclusion) =
        needs(transclude_impl("docs/guide", DOCUMENT, TagInclusion::RenderTags, &[]));
    assert_eq!(std::path::Path::new(&path), std::path::Path::new("docs/guide").join("document.md"));
    assert_eq!(inclusion, TagInclusion::HideTags);
    let (path, _) = needs(transclude("", DOCUMENT, &["x".to_string()]));
    assert_eq!(std::path::Path::new(&path), std::path::Path::new("sub").join("other.md"));
}

#[test]
fn a_needed_document_is_located_by_its_path() {
    let needed = Expansion::Needs { name: "a.md".to_string(), inclusion: TagInclusion::HideTags };
    assert_eq!(
        needs(needed.located(Some("docs/a.md".to_string()))),
        ("docs/a.md".to_string(), TagInclusion::HideTags)
    );
    let needed = Expansion::Needs { name: "a.md".to_string(), inclusion: TagInclusion::HideTags };
    assert!(needed.located(None).is_none());
    let done = Expansion::Complete("text".to_string());
    assert_eq!(complete(done.located(None)), "text");
}

fn block(name: &str) -> Vec<Option<String>> {
    let open = format!("<!-- Start transclusion: {} -->", name);
    let close = "<!-- End transclusion -->".to_string();
    vec![Some(format!("{}old{}", open, close)), Some(open), Some(name.to_string()), Some(close)]
}

fn texts(items: &[&str]) -> Vec<String> {
    items.iter().map(|item| item.to_string()).collect()
}

#[test]
fn needed_is_the_name_in_the_first_block_without_an_insertion() {
    let blocks = vec![block("a.md"), block("b.md"), vec![Some("whole".to_string())]];
    assert_eq!(needed(&blocks, 0), Some("a.md".to_string()));
    assert_eq!(needed(&blocks, 1), Some("b.md".to_string()));
    assert_eq!(needed(&blocks, 2), Some(String::new()));
    assert_eq!(needed(&blocks, 3), None);
    assert_eq!(needed(&blocks, 4), None);
    assert_eq!(needed(&Vec::new(), 0), None);
}

#[test]
fn splice_puts_a_replacement_between_each_two_parts() {
    let blocks = vec![block("a.md"), block("b.md")];
    let parts = texts(&["one ", " two ", " three"]);
    assert_eq!(
        splice(TagInclusion::HideTags, &parts, &blocks, &texts(&[" A\n", "\tB "])),
        "one A two B three"
    );
    assert_eq!(
        splice(TagInclusion::RenderTags, &parts, &blocks, &texts(&[" A\n", "B"])),
        "one <!-- Start transclusion: a.md -->\nA\n<!-- End transclusion --> two \
         <!-- Start transclusion: b.md -->\nB\n<!-- End transclusion --> three"
    );
}

#[test]
fn splice_leaves_the_parts_alone_where_a_replacement_is_missing() {
    let blocks = vec![block("a.md"), block("b.md")];
    let parts = texts(&["one ", " two ", " three", " four"]);
    assert_eq!(splice(TagInclusion::HideTags, &parts, &blocks, &texts(&["A"])), "one A two  three four");
    assert_eq!(
        splice(TagInclusion::HideTags, &parts, &blocks, &texts(&["A", "B", "C"])),
        "one A two B three four"
    );
    assert_eq!(splice(TagInclusion::HideTags, &parts[..1].to_vec(), &blocks, &texts(&["A"])), "one ");
    assert_eq!(splice(TagInclusion::HideTags, &Vec::new(), &blocks, &texts(&["A"])), "");
    let bare = vec![vec![Some("whole".to_string())]];
    assert_eq!(
        splice(TagInclusion::RenderTags, &parts[..2].to_vec(), &bare, &texts(&["A"])),
        "one \nA\n two "
    );
}

#[test]
fn there_is_one_part_more_than_blocks() {
    let texts = [
        "",
        "plain",
        DOCUMENT,
        "<!-- Start transclusion: a --><!-- End transclusion -->",
        "<!-- Start transclusion: a --><!-- End transclusion --><!-- Start transclusion: b -->\n<!-- End transclusion -->",
        "x<!-- Start transclusion: a -->y",
    ];
    for pattern in [BLOCK_PATTERN, "", "a*", " ", "(x)|(y)"] {
        let expression = regex::Regex::new(pattern).unwrap();
        for text in texts {
            let blocks = expression.captures_iter(text).count();
            let parts = expression.split(text).count();
            assert_eq!(parts, blocks + 1, "{:?} in {:?}", pattern, text);
        }
    }
}

#[test]
fn every_block_is_replaced_in_the_complete_expansion() {
    let insertions = ["A".to_string(), "B".to_string()];
    let text = complete(expand(DOCUMENT, TagInclusion::HideTags, &insertions));
    assert_eq!(text, "# Title\nA\nbetween\nB\nend\n");
    assert!(!text.contains("transclusion"));
}

/// The path of `name` as seen from `directory`, put together by hand.
fn expected(directory: &str, name: &str) -> String {
    let mut path = directory.to_string();
    for piece in name.split('/') {
        if piece.is_empty() {
            continue;
        }
        if !path.is_empty() {
            path.push(std::path::MAIN_SEPARATOR);
        }
        path.push_str(piece);
    }
    path
}

#[test]
fn a_needed_document_is_the_name_piece_by_piece_behind_the_directory() {
    for directory in ["", "docs", "docs/", "/", "a/b", "./"] {
        for name in ["a.md", "sub/a.md", "a//b///c", "/abs/a.md", "./x/../y.md", "..", "x/"] {
            let document =
                format!("<!-- Start transclusion: {} -->\n<!-- End transclusion -->", name);
            let (path, _) =
                needs(transclude_impl(directory, &document, TagInclusion::HideTags, &[]));
            assert_eq!(path, expected(directory, name), "{:?} from {:?}", name, directory);
        }
    }
    assert_eq!(expected("docs", "a//b/"), format!("docs{0}a{0}b", std::path::MAIN_SEPARATOR));
    assert_eq!(expected("", "/a/./b"), format!("a{0}.{0}b", std::path::MAIN_SEPARATOR));
}
