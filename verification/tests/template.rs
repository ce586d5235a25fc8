use swift_precompiled::codec::{can_encode, encode};
use swift_precompiled::registry::DirectiveRegistry;
use swift_precompiled::scanner::DirectiveKind;
use swift_precompiled::template::{TemplateRewriter, DATA_MARKER, STR_MARKER};

const TEMPLATE: &str = "switch path {\n        // <precompile-content-str>\n        default: break\n}\nswitch path {\n        // <precompile-content-data>\n        default: break\n}\n";

#[test]
fn the_markers_are_the_two_comment_lines() {
    assert_eq!(STR_MARKER, "// <precompile-content-str>");
    assert_eq!(DATA_MARKER, "// <precompile-content-data>");
}

#[test]
fn a_new_rewriter_holds_the_template() {
    let rewriter = TemplateRewriter::new(TEMPLATE);
    assert_eq!(rewriter.content(), TEMPLATE);
    assert_eq!(rewriter.into_content(), TEMPLATE);
}

#[test]
fn insert_writes_the_entry_under_both_markers() {
    let mut rewriter = TemplateRewriter::new(TEMPLATE);
    rewriter.insert(DirectiveKind::Str, "a.txt", "aGk=");
    assert_eq!(
        rewriter.content(),
        "switch path {\n        // <precompile-content-str>\n        case \"a.txt\":\n            content = \"aGk=\"\n\n        default: break\n}\nswitch path {\n        // <precompile-content-data>\n        case \"a.txt\":\n            content = \"aGk=\"\n\n        default: break\n}\n"
    );
}

#[test]
fn insert_replaces_a_marker_by_marker_line_feed_and_clause() {
    let mut rewriter = TemplateRewriter::new("<// <precompile-content-str>>");
    rewriter.insert(DirectiveKind::Data, "r", "E");
    assert_eq!(
        rewriter.content(),
        "<// <precompile-content-str>\n        case \"r\":\n            content = \"E\"\n>"
    );
}

#[test]
fn the_newest_entry_stands_directly_under_the_marker() {
    let mut rewriter = TemplateRewriter::new("// <precompile-content-data>|");
    rewriter.insert(DirectiveKind::Str, "one", "MQ==");
    rewriter.insert(DirectiveKind::Str, "two", "Mg==");
    assert_eq!(
        rewriter.content(),
        "// <precompile-content-data>\n        case \"two\":\n            content = \"Mg==\"\n\n        case \"one\":\n            content = \"MQ==\"\n|"
    );
}

#[test]
fn the_markers_stay_after_every_insertion() {
    let mut rewriter = TemplateRewriter::new(TEMPLATE);
    for i in 0..5 {
        rewriter.insert(DirectiveKind::Str, &format!("file{}.txt", i), "QQ==");
        assert_eq!(rewriter.content().matches(STR_MARKER).count(), 1);
        assert_eq!(rewriter.content().matches(DATA_MARKER).count(), 1);
        assert_eq!(rewriter.content().matches("case \"").count(), 2 * (i + 1));
    }
}

#[test]
fn the_entries_stand_behind_each_marker_whichever_comes_first() {
    let one = "\n        case \"one\":\n            content = \"MQ==\"\n";
    let two = "\n        case \"two\":\n            content = \"Mg==\"\n";
    for (left, right) in [(STR_MARKER, DATA_MARKER), (DATA_MARKER, STR_MARKER)] {
        let template = format!("a {} b {} c", left, right);
        let mut rewriter = TemplateRewriter::new(&template);
        rewriter.insert(DirectiveKind::Str, "one", "MQ==");
        rewriter.insert(DirectiveKind::Data, "two", "Mg==");
        assert_eq!(
            rewriter.content(),
            format!("a {}{}{} b {}{}{} c", left, two, one, right, two, one)
        );
    }
}

#[test]
fn only_the_leftmost_marker_takes_entries() {
    let mut rewriter = TemplateRewriter::new("// <precompile-content-str>\n// <precompile-content-str>\n");
    rewriter.insert(DirectiveKind::Str, "a", "QQ==");
    assert_eq!(
        rewriter.content(),
        "// <precompile-content-str>\n        case \"a\":\n            content = \"QQ==\"\n\n// <precompile-content-str>\n"
    );
}

#[test]
fn a_reference_that_holds_a_marker_does_not_take_entries() {
    let mut rewriter = TemplateRewriter::new("[// <precompile-content-str>]");
    rewriter.insert(DirectiveKind::Str, "// <precompile-content-str>", "QQ==");
    rewriter.insert(DirectiveKind::Str, "b", "Qg==");
    assert_eq!(
        rewriter.content(),
        "[// <precompile-content-str>\n        case \"b\":\n            content = \"Qg==\"\n\n        case \"// <precompile-content-str>\":\n            content = \"QQ==\"\n]"
    );
}

#[test]
fn a_template_without_markers_stays_as_it_is() {
    let mut rewriter = TemplateRewriter::new("nothing here\n");
    rewriter.insert(DirectiveKind::Str, "a", "QQ==");
    assert_eq!(rewriter.content(), "nothing here\n");
    let mut half = TemplateRewriter::new("// <precompile-content-data>");
    half.insert(DirectiveKind::Str, "a", "QQ==");
    assert_eq!(half.content(), "// <precompile-content-data>\n        case \"a\":\n            content = \"QQ==\"\n");
}

#[test]
fn encode_gives_padded_standard_base64() {
    assert_eq!(encode(b""), Some(String::new()));
    assert_eq!(encode(b"f"), Some("Zg==".to_string()));
    assert_eq!(encode(b"fo"), Some("Zm8=".to_string()));
    assert_eq!(encode(b"foo"), Some("Zm9v".to_string()));
    assert_eq!(encode(b"hello world"), Some("aGVsbG8gd29ybGQ=".to_string()));
    assert_eq!(encode(&[0xFF, 0xEC, 0x20, 0x55, 0x00]), Some("/+wgVQA=".to_string()));
    assert_eq!(encode(&[0xFB, 0xFF]), Some("+/8=".to_string()));
}

#[test]
fn can_encode_tells_when_the_text_fits() {
    assert!(can_encode(0));
    assert!(can_encode(1));
    assert!(can_encode(1 << 20));
    assert!(can_encode(usize::MAX / 4 * 3));
    assert!(!can_encode(usize::MAX / 4 * 3 + 1));
    assert!(!can_encode(usize::MAX));
}

#[test]
fn mark_and_check_is_true_the_first_time_only() {
    let mut registry = DirectiveRegistry::new();
    assert_eq!(registry.len(), 0);
    assert!(!registry.contains("a.txt"));
    assert!(registry.mark_and_check("a.txt"));
    assert!(registry.contains("a.txt"));
    assert!(!registry.mark_and_check("a.txt"));
    assert!(!registry.mark_and_check("a.txt"));
    assert_eq!(registry.len(), 1);
    assert!(registry.mark_and_check("b.txt"));
    assert!(!registry.mark_and_check("a.txt"));
    assert_eq!(registry.len(), 2);
}

#[test]
fn references_are_the_same_only_when_written_the_same() {
    let mut registry = DirectiveRegistry::new();
    assert!(registry.mark_and_check("a.txt"));
    assert!(registry.mark_and_check("./a.txt"));
    assert!(registry.mark_and_check("A.txt"));
    assert!(registry.mark_and_check("a.txt "));
    assert!(registry.mark_and_check(""));
    assert!(!registry.mark_and_check(""));
    assert_eq!(registry.len(), 5);
}
