use spica_to_epub2::parser::{comment, paragraph, tex_ligature, text_span};

fn chars(s: &str) -> Vec<char> {
    s.chars().collect()
}

fn span(v: &[char], from: usize, to: usize) -> String {
    v[from..to].iter().collect()
}

fn rest(v: &[char], from: usize) -> String {
    v[from..].iter().collect()
}

#[test]
fn smoke_test() {}

#[test]
fn parses_double_quotes() {
    let input = chars("``rem");
    let (end, out) = tex_ligature(&input, 0).unwrap();
    assert_eq!((rest(&input, end), out.as_str()), ("rem".to_string(), "\u{201c}"));
    let input = chars("''rem");
    let (end, out) = tex_ligature(&input, 0).unwrap();
    assert_eq!((rest(&input, end), out.as_str()), ("rem".to_string(), "\u{201d}"));
}

#[test]
fn parses_single_quotes() {
    let input = chars("`rem");
    let (end, out) = tex_ligature(&input, 0).unwrap();
    assert_eq!((rest(&input, end), out.as_str()), ("rem".to_string(), "\u{2018}"));
    let input = chars("'rem");
    let (end, out) = tex_ligature(&input, 0).unwrap();
    assert_eq!((rest(&input, end), out.as_str()), ("rem".to_string(), "\u{2019}"));
}

#[test]
fn parses_dashes() {
    let input = chars("-- rem");
    let (end, out) = tex_ligature(&input, 0).unwrap();
    assert_eq!((rest(&input, end), out.as_str()), (" rem".to_string(), "\u{2013}"));
    let input = chars("--- rem");
    let (end, out) = tex_ligature(&input, 0).unwrap();
    assert_eq!((rest(&input, end), out.as_str()), (" rem".to_string(), "\u{2014}"));
    let input = chars("$-$rem");
    let (end, out) = tex_ligature(&input, 0).unwrap();
    assert_eq!((rest(&input, end), out.as_str()), ("rem".to_string(), "\u{2212}"));
}

#[test]
fn parses_a_comment() {
    let input = chars("%comment\nrem");
    let end = comment(&input, 0);
    assert_eq!((rest(&input, end), span(&input, 1, end)), ("\nrem".to_string(), "comment".to_string()));
    let input = chars("%comment\r\nrem");
    let end = comment(&input, 0);
    assert_eq!((rest(&input, end), span(&input, 1, end)), ("\r\nrem".to_string(), "comment".to_string()));
}

#[test]
fn parses_a_comment_terminated_by_eof() {
    let input = chars("%comment");
    let end = comment(&input, 0);
    assert_eq!((rest(&input, end), span(&input, 1, end)), ("".to_string(), "comment".to_string()));
}

#[test]
fn parses_an_empty_comment() {
    let input = chars("%");
    let end = comment(&input, 0);
    assert_eq!((rest(&input, end), span(&input, 1, end)), ("".to_string(), "".to_string()));
}

#[test]
fn parses_utf8_text() {
    let input = chars("Introdução");
    let end = text_span(&input, 0);
    assert_eq!((rest(&input, end), span(&input, 0, end)), ("".to_string(), "Introdução".to_string()));
}

#[test]
fn stops_on_reserved_chars() {
    for (src, rem, txt) in [
        (r"text\rem", r"\rem", "text"),
        ("text%rem", "%rem", "text"),
        ("text{rem", "{rem", "text"),
        ("text}rem", "}rem", "text"),
    ] {
        let input = chars(src);
        let end = text_span(&input, 0);
        assert_eq!((rest(&input, end), span(&input, 0, end)), (rem.to_string(), txt.to_string()));
    }
}

#[test]
fn stops_on_tex_ligatures() {
    for (src, rem, txt) in [
        ("text`rem", "`rem", "text"),
        ("text'rem", "'rem", "text"),
        ("text-rem", "-rem", "text"),
        ("text$rem", "$rem", "text"),
    ] {
        let input = chars(src);
        let end = text_span(&input, 0);
        assert_eq!((rest(&input, end), span(&input, 0, end)), (rem.to_string(), txt.to_string()));
    }
}

#[test]
fn stops_on_newlines() {
    for (src, rem, txt) in [("text\nrem", "\nrem", "text"), ("text\r\nrem", "\r\nrem", "text")] {
        let input = chars(src);
        let end = text_span(&input, 0);
        assert_eq!((rest(&input, end), span(&input, 0, end)), (rem.to_string(), txt.to_string()));
    }
}

#[test]
fn parses_ending_explicitly_with_par() {
    let input = chars(r"text\par rem");
    let (end, out) = paragraph(&input, 0).unwrap();
    assert_eq!((rest(&input, end), out), ("rem".to_string(), vec!["text".to_string()]));
}

#[test]
fn parses_ending_implicitly_at_eof() {
    let input = chars("text");
    let (end, out) = paragraph(&input, 0).unwrap();
    assert_eq!((rest(&input, end), out), ("".to_string(), vec!["text".to_string()]));
}

#[test]
fn parses_ending_implicitly_in_double_newline() {
    let input = chars("text\n\nrem");
    let (end, out) = paragraph(&input, 0).unwrap();
    assert_eq!((rest(&input, end), out), ("rem".to_string(), vec!["text".to_string()]));
    let input = chars("text\r\n\r\nrem");
    let (end, out) = paragraph(&input, 0).unwrap();
    assert_eq!((rest(&input, end), out), ("rem".to_string(), vec!["text".to_string()]));
}

#[test]
fn parses_internal_comments() {
    let input = chars("text1%comment\ntext2\\par rem");
    let (end, out) = paragraph(&input, 0).unwrap();
    assert_eq!(
        (rest(&input, end), out),
        ("rem".to_string(), vec!["text1".to_string(), "comment".to_string(), "text2".to_string()])
    );
}

#[test]
fn parses_isolated_samples() {
    let input = chars("%!TEX root = ..Mercado 2014.tex\n");
    let end = comment(&input, 0);
    assert!(end <= input.len());
}
