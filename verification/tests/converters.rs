use pdf2clipboard::converters::{
    converter_for_name, create_converter, ends_label, merge_key_value_pairs, Converter, HtmlOutputConverter,
    MarkdownOutputConverter, OutputConverter, PlainTextConverter,
};

#[test]
fn test_create_converter_markdown() {
    let converter = create_converter("markdown").unwrap();
    assert_eq!(converter.name(), "MarkdownOutputConverter");
    assert_eq!(converter.mime_type(), "text/markdown");
}

#[test]
fn test_create_converter_html() {
    let converter = create_converter("html").unwrap();
    assert_eq!(converter.name(), "HtmlOutputConverter");
    assert_eq!(converter.mime_type(), "text/html");
}

#[test]
fn test_create_converter_text() {
    let converter = create_converter("text").unwrap();
    assert_eq!(converter.name(), "PlainTextConverter");
    assert_eq!(converter.mime_type(), "text/plain");
}

#[test]
fn test_create_converter_unknown() {
    assert!(create_converter("unknown").is_none());
}

#[test]
fn create_converter_aliases_and_case() {
    assert_eq!(create_converter("md"), Some(Converter::Markdown(MarkdownOutputConverter::new())));
    assert_eq!(create_converter("MarkDown"), Some(Converter::Markdown(MarkdownOutputConverter)));
    assert_eq!(create_converter("HTML"), Some(Converter::Html(HtmlOutputConverter::new())));
    assert_eq!(create_converter("Plain"), Some(Converter::PlainText(PlainTextConverter::new())));
    assert_eq!(create_converter("TXT"), Some(Converter::PlainText(PlainTextConverter)));
    assert_eq!(create_converter(""), None);
    assert_eq!(create_converter(" html"), None);
    // KELVIN SIGN lowercases to an ASCII `k`.
    assert_eq!(create_converter("mar\u{212A}down"), Some(Converter::Markdown(MarkdownOutputConverter)));
}

#[test]
fn converter_for_name_needs_lower_case() {
    assert_eq!(converter_for_name("html"), Some(Converter::Html(HtmlOutputConverter)));
    assert_eq!(converter_for_name("HTML"), None);
}

#[test]
fn test_key_value_pair_merging_basic() {
    let input = "Grand Total\n$750.00\nNet Amount\n$250.00\n";
    let expected = "Grand Total $750.00\nNet Amount $250.00\n";
    assert_eq!(merge_key_value_pairs(input), expected);
}

#[test]
fn test_key_value_pair_merging_no_false_positive_on_sentences() {
    // Lines ending with period should not be treated as labels.
    let input = "This is a sentence.\n$100.00\n";
    assert_eq!(merge_key_value_pairs(input), input);
}

#[test]
fn test_key_value_pair_merging_negative_numbers() {
    let input = "Balance Due\n-$42.50\n";
    let expected = "Balance Due -$42.50\n";
    assert_eq!(merge_key_value_pairs(input), expected);
}

#[test]
fn test_key_value_pair_merging_plain_numbers() {
    let input = "Account Number\n434508032\n";
    let expected = "Account Number 434508032\n";
    assert_eq!(merge_key_value_pairs(input), expected);
}

#[test]
fn test_key_value_pair_merging_skips_long_values() {
    // A long "value" line should not be merged (it is probably a paragraph).
    let input = "Introduction\nThis is a full paragraph of text that continues.\n";
    assert_eq!(merge_key_value_pairs(input), input);
}

#[test]
fn test_key_value_pair_merging_preserves_blank_lines() {
    let input = "Section A\n\nTotal\n$100\n";
    let expected = "Section A\n\nTotal $100\n";
    assert_eq!(merge_key_value_pairs(input), expected);
}

#[test]
fn test_key_value_pair_merging_consecutive_pairs() {
    let input = "Subtotal\n$200.00\nTax\n$18.00\nTotal\n$218.00\n";
    let expected = "Subtotal $200.00\nTax $18.00\nTotal $218.00\n";
    assert_eq!(merge_key_value_pairs(input), expected);
}

#[test]
fn test_key_value_pair_merging_euro_and_pound() {
    let input = "Price\n€49.99\nShipping\n£5.00\n";
    let expected = "Price €49.99\nShipping £5.00\n";
    assert_eq!(merge_key_value_pairs(input), expected);
}

#[test]
fn test_key_value_pair_merging_parenthesized_negative() {
    let input = "Net Loss\n(1,234.56)\n";
    let expected = "Net Loss (1,234.56)\n";
    assert_eq!(merge_key_value_pairs(input), expected);
}

#[test]
fn test_key_value_pair_merging_no_merge_value_value() {
    // Two consecutive value-only lines should not merge.
    let input = "$100\n$200\n";
    assert_eq!(merge_key_value_pairs(input), input);
}

#[test]
fn test_key_value_pair_merging_empty_input() {
    assert_eq!(merge_key_value_pairs(""), "");
    assert_eq!(merge_key_value_pairs("single line\n"), "single line\n");
}

#[test]
fn merging_across_one_blank_line() {
    assert_eq!(merge_key_value_pairs("Total\n\n$5\nEnd"), "Total $5\nEnd");
    // Two blank lines are too many.
    assert_eq!(merge_key_value_pairs("Total\n\n\n$5\n"), "Total\n\n\n$5\n");
}

#[test]
fn merging_keeps_trailing_newline_count() {
    assert_eq!(merge_key_value_pairs("Tax\n$1"), "Tax $1");
    assert_eq!(merge_key_value_pairs("Tax\n$1\n\n\n"), "Tax $1\n\n\n");
    assert_eq!(merge_key_value_pairs("a\nb\n\n"), "a\nb\n\n");
}

#[test]
fn merging_trims_only_where_lines_join() {
    assert_eq!(merge_key_value_pairs("  Due:  \n   $3  \nnext"), "  Due: $3  \nnext");
    // CRLF line endings become LF.
    assert_eq!(merge_key_value_pairs("Tax\r\n$1\r\nx\r\n"), "Tax $1\nx\n");
}

#[test]
fn value_must_be_under_thirty_characters() {
    // 29 digits: a value.
    let short = "1".repeat(29);
    assert_eq!(merge_key_value_pairs(&format!("Total\n{short}\n")), format!("Total {short}\n"));
    // 30 digits: too long to be a value.
    let input = "Total\n123456789012345678901234567890\n";
    assert_eq!(merge_key_value_pairs(input), input);
    // Length counts characters: ten euro signs are short.
    let ten = "€".repeat(10);
    assert_eq!(merge_key_value_pairs(&format!("Cost\n{ten}")), format!("Cost {ten}"));
}

#[test]
fn label_may_end_in_colon_paren_or_non_ascii_letter() {
    assert_eq!(merge_key_value_pairs("Total (EUR)\n12\n"), "Total (EUR) 12\n");
    assert_eq!(merge_key_value_pairs("合計\n¥500\n"), "合計 ¥500\n");
    assert_eq!(merge_key_value_pairs("Total!\n12\n"), "Total!\n12\n");
}

#[test]
fn merging_changes_only_whitespace() {
    let visible = |s: &str| s.chars().filter(|c| !c.is_whitespace()).collect::<String>();
    for input in [
        "Grand Total\n$750.00\nNet Amount\n$250.00\n",
        "  Due:  \n   $3  \nnext",
        "Total\n\n$5\nEnd\r\n",
        "a\n\n\nb",
    ] {
        assert_eq!(visible(&merge_key_value_pairs(input)), visible(input));
    }
}

#[test]
fn label_endings() {
    for c in ['a', 'Z', '7', ')', ':', 'é', '合'] {
        assert!(ends_label(c), "{c}");
    }
    for c in ['.', '!', '?', ' ', '$', '-'] {
        assert!(!ends_label(c), "{c}");
    }
}
