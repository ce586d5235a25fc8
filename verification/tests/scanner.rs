use swift_precompiled::expression::Expression;
use swift_precompiled::scanner::{
    directives_from, line_number, scan, Capture, Directive, DirectiveKind,
};

fn directive(kind: DirectiveKind, raw: &str, file: &str, line: usize) -> Directive {
    Directive {
        kind,
        raw_reference: raw.to_string(),
        source_file: file.to_string(),
        line_number: line,
    }
}

#[test]
fn the_patterns_are_the_two_directive_forms() {
    assert_eq!(
        Expression::INCLUDE_STR_RGX,
        "precompileIncludeStr\\s*\\(\\s*[\"']([^\"']+)[\"']\\s*\\)"
    );
    assert_eq!(
        Expression::INCLUDE_DATA_RGX,
        "precompileIncludeData\\s*\\(\\s*[\"']([^\"']+)[\"']\\s*\\)"
    );
}

#[test]
fn line_number_counts_the_line_feeds_before_the_offset() {
    let content = "one\ntwo\n\nfour";
    assert_eq!(line_number(content, 0), 1);
    assert_eq!(line_number(content, 3), 1);
    assert_eq!(line_number(content, 4), 2);
    assert_eq!(line_number(content, 7), 2);
    assert_eq!(line_number(content, 8), 3);
    assert_eq!(line_number(content, 9), 4);
    assert_eq!(line_number(content, content.len()), 4);
    assert_eq!(line_number("", 0), 1);
    assert_eq!(line_number("\n", 1), 2);
}

#[test]
fn line_number_takes_offsets_in_bytes() {
    let content = "é\n→\nx";
    assert_eq!(content.len(), 8);
    assert_eq!(line_number(content, 2), 1);
    assert_eq!(line_number(content, 3), 2);
    assert_eq!(line_number(content, 6), 2);
    assert_eq!(line_number(content, 7), 3);
    assert_eq!(line_number("a\r\nb", 3), 2);
}

#[test]
fn directives_from_keeps_order_kind_file_and_line() {
    let content = "a\nb\nc";
    let captures = vec![
        Capture { start: 4, reference: "late".to_string() },
        Capture { start: 0, reference: "early".to_string() },
        Capture { start: 2, reference: "late".to_string() },
    ];
    let found = directives_from(DirectiveKind::Data, &captures, content, "/src/A.swift");
    assert_eq!(
        found,
        vec![
            directive(DirectiveKind::Data, "late", "/src/A.swift", 3),
            directive(DirectiveKind::Data, "early", "/src/A.swift", 1),
            directive(DirectiveKind::Data, "late", "/src/A.swift", 2),
        ]
    );
    assert_eq!(directives_from(DirectiveKind::Str, &Vec::new(), content, "f"), Vec::new());
}

#[test]
fn scan_finds_a_string_directive() {
    let content = "let a = precompileIncludeStr(\"path/to/file\")\n";
    assert_eq!(
        scan(content, "/src/A.swift"),
        Ok(vec![directive(DirectiveKind::Str, "path/to/file", "/src/A.swift", 1)])
    );
}

#[test]
fn scan_finds_a_data_directive() {
    let content = "\n\nlet d = precompileIncludeData(\"blob.bin\")";
    assert_eq!(
        scan(content, "/src/B.swift"),
        Ok(vec![directive(DirectiveKind::Data, "blob.bin", "/src/B.swift", 3)])
    );
}

#[test]
fn scan_takes_single_quotes_and_space_around_the_parentheses() {
    let content = "precompileIncludeStr  (  'a.txt'  )\nprecompileIncludeData\n(\n\"b.bin\"\n)";
    assert_eq!(
        scan(content, "f"),
        Ok(vec![
            directive(DirectiveKind::Str, "a.txt", "f", 1),
            directive(DirectiveKind::Data, "b.bin", "f", 2),
        ])
    );
}

#[test]
fn scan_gives_string_directives_before_data_directives() {
    let content = "precompileIncludeData(\"first.bin\")\nprecompileIncludeStr(\"second.txt\")\nprecompileIncludeData(\"third.bin\")\nprecompileIncludeStr(\"fourth.txt\")";
    assert_eq!(
        scan(content, "f"),
        Ok(vec![
            directive(DirectiveKind::Str, "second.txt", "f", 2),
            directive(DirectiveKind::Str, "fourth.txt", "f", 4),
            directive(DirectiveKind::Data, "first.bin", "f", 1),
            directive(DirectiveKind::Data, "third.bin", "f", 3),
        ])
    );
}

#[test]
fn scan_takes_the_reference_as_written() {
    let content = "precompileIncludeStr(\"$Assets/../a b\\n.txt\")";
    assert_eq!(
        scan(content, "f"),
        Ok(vec![directive(DirectiveKind::Str, "$Assets/../a b\\n.txt", "f", 1)])
    );
}

#[test]
fn scan_is_case_sensitive_and_wants_a_quoted_reference() {
    let content = "precompileincludestr(\"a\")\nprecompileIncludeStr(a)\nprecompileIncludeStr(\"\")\nprecompileIncludeStr \"a\"";
    assert_eq!(scan(content, "f"), Ok(Vec::new()));
    assert_eq!(scan("", "f"), Ok(Vec::new()));
}

#[test]
fn scan_counts_lines_in_text_with_wide_characters() {
    let content = "// été → hiver\n// 冬\nprecompileIncludeStr(\"données.txt\")";
    assert_eq!(
        scan(content, "f"),
        Ok(vec![directive(DirectiveKind::Str, "données.txt", "f", 3)])
    );
}

#[test]
fn scan_finds_several_directives_on_one_line() {
    let content = "f(precompileIncludeStr(\"a\"), precompileIncludeStr('b'))";
    assert_eq!(
        scan(content, "f"),
        Ok(vec![
            directive(DirectiveKind::Str, "a", "f", 1),
            directive(DirectiveKind::Str, "b", "f", 1),
        ])
    );
}

#[test]
fn scan_ends_a_reference_at_the_first_quote_of_either_kind() {
    let content = "precompileIncludeStr(\"it's\")\nprecompileIncludeStr(\"precompileIncludeData('x')\")";
    assert_eq!(scan(content, "f"), Ok(vec![directive(DirectiveKind::Data, "x", "f", 2)]));
    assert_eq!(
        scan("precompileIncludeStr(\"a')", "f"),
        Ok(vec![directive(DirectiveKind::Str, "a", "f", 1)])
    );
}
