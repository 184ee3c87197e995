use spica_to_epub2::builder::parse_book;
use spica_to_epub2::generator::write_book;
use spica_to_epub2::{collapse, Atom, Book, BuildError, RenderError};

fn sources(files: &[(&str, &str)]) -> Vec<(String, String)> {
    files.iter().map(|(p, t)| (p.to_string(), t.to_string())).collect()
}

fn convert(text: &str) -> Vec<String> {
    let book = parse_book(&sources(&[("book.tex", text)]), "book.tex").unwrap();
    write_book(&book).unwrap()
}

#[test]
fn plain_text_is_one_paragraph() {
    let book = parse_book(&sources(&[("book.tex", "Hello, World!")]), "book.tex").unwrap();
    assert_eq!(book.ast, Atom::Text("Hello, World!".to_string()));
    let bufs = write_book(&book).unwrap();
    assert_eq!(bufs, vec!["<p id=0>Hello, World!</p>\n\n".to_string()]);
}

#[test]
fn chapter_heading_then_paragraph() {
    let book =
        parse_book(&sources(&[("book.tex", "\\chapter{Intro}\nHello.")]), "book.tex").unwrap();
    assert_eq!(
        book.ast,
        Atom::List(vec![
            Atom::StartChapter(Box::new(Atom::Text("Intro".to_string()))),
            Atom::Special("\n".to_string()),
            Atom::Text("Hello.".to_string()),
        ])
    );
    let bufs = write_book(&book).unwrap();
    assert_eq!(bufs, vec!["<h1>Intro</h1>\n\n<p id=0>\nHello.</p>\n\n".to_string()]);
}

#[test]
fn em_dash_ligature_stays_in_one_paragraph() {
    let book = parse_book(&sources(&[("book.tex", "Hello---World")]), "book.tex").unwrap();
    assert_eq!(
        book.ast,
        Atom::List(vec![
            Atom::Text("Hello".to_string()),
            Atom::Special("---".to_string()),
            Atom::Text("World".to_string()),
        ])
    );
    let bufs = write_book(&book).unwrap();
    assert_eq!(bufs, vec!["<p id=0>Hello\u{2014}World</p>\n\n".to_string()]);
}

#[test]
fn blank_line_starts_a_second_paragraph() {
    let book = parse_book(&sources(&[("book.tex", "A\n\nB")]), "book.tex").unwrap();
    assert_eq!(
        book.ast,
        Atom::List(vec![
            Atom::Text("A".to_string()),
            Atom::ParagraphEnd,
            Atom::Text("B".to_string()),
        ])
    );
    let bufs = write_book(&book).unwrap();
    assert_eq!(bufs, vec!["<p id=0>A</p>\n\n<p id=1>B</p>\n\n".to_string()]);
}

#[test]
fn unknown_environment_is_reported_with_location() {
    let r = parse_book(&sources(&[("book.tex", "\\begin{fancybox}")]), "book.tex");
    assert_eq!(
        r,
        Err(BuildError::UnsupportedConstruct {
            kind: "fancybox".to_string(),
            path: "book.tex".to_string(),
            line: 1,
            column: 8,
        })
    );
}

#[test]
fn direct_self_include_is_a_cycle() {
    let r = parse_book(&sources(&[("book.tex", "\\include{book}")]), "book.tex");
    assert_eq!(
        r,
        Err(BuildError::IncludeCycle(vec!["book.tex".to_string(), "book.tex".to_string()]))
    );
}

#[test]
fn transitive_include_cycle_is_detected() {
    let fs = sources(&[("a.tex", "\\include{b}"), ("b.tex", "\\include{a}")]);
    let r = parse_book(&fs, "a.tex");
    assert_eq!(
        r,
        Err(BuildError::IncludeCycle(vec![
            "a.tex".to_string(),
            "b.tex".to_string(),
            "a.tex".to_string(),
        ]))
    );
}

#[test]
fn include_splices_the_other_file() {
    let fs = sources(&[("book.tex", "\\include{ch1}"), ("ch1.tex", "Hi")]);
    let book = parse_book(&fs, "book.tex").unwrap();
    assert_eq!(book.ast, Atom::Text("Hi".to_string()));
}

#[test]
fn include_resolves_relative_to_including_file() {
    let fs = sources(&[("dir/book.tex", "\\include{ch1}"), ("dir/ch1.tex", "Hi")]);
    let book = parse_book(&fs, "dir/book.tex").unwrap();
    assert_eq!(book.ast, Atom::Text("Hi".to_string()));
}

#[test]
fn missing_root_is_an_io_error() {
    let r = parse_book(&sources(&[]), "missing.tex");
    assert_eq!(r, Err(BuildError::IoError("missing.tex".to_string())));
}

#[test]
fn missing_include_is_an_io_error() {
    let r = parse_book(&sources(&[("book.tex", "\\include{gone}")]), "book.tex");
    assert_eq!(r, Err(BuildError::IoError("gone.tex".to_string())));
}

#[test]
fn markup_characters_are_escaped() {
    assert_eq!(
        convert("a&b<c>d\"e"),
        vec!["<p id=0>a&amp;b&lt;c&gt;d&quot;e</p>\n\n".to_string()]
    );
}

#[test]
fn quotation_wraps_its_contents() {
    assert_eq!(
        convert("\\begin{quotation}Q\\end{quotation}"),
        vec!["<q>\n\n<p id=0>Q</p>\n\n</q>\n\n".to_string()]
    );
}

#[test]
fn italic_run_stays_inside_the_paragraph() {
    assert_eq!(convert("a\\textit{b}c"), vec!["<p id=0>a<i>b</i>\nc</p>\n\n".to_string()]);
}

#[test]
fn footnote_is_numbered_but_not_emitted() {
    let book = parse_book(&sources(&[("book.tex", "x\\footnote{y}z")]), "book.tex").unwrap();
    assert_eq!(
        book.ast,
        Atom::List(vec![
            Atom::Text("x".to_string()),
            Atom::Footnote(Box::new(Atom::Text("y".to_string()))),
            Atom::Text("z".to_string()),
        ])
    );
    assert_eq!(write_book(&book).unwrap(), vec!["<p id=0>xz</p>\n\n".to_string()]);
}

#[test]
fn escaped_characters_lose_their_meaning() {
    assert_eq!(convert("a\\&b"), vec!["<p id=0>a&amp;b</p>\n\n".to_string()]);
    assert_eq!(convert("a\\%b"), vec!["<p id=0>a%b</p>\n\n".to_string()]);
}

#[test]
fn named_symbols_resolve_through_the_table() {
    assert_eq!(convert("a~b"), vec!["<p id=0>a\u{a0}b</p>\n\n".to_string()]);
    assert_eq!(convert("a\\textbackslash b"), vec!["<p id=0>a\\b</p>\n\n".to_string()]);
    assert_eq!(convert("a\\omission b"), vec!["<p id=0>a[...]b</p>\n\n".to_string()]);
    assert_eq!(convert("``x''"), vec!["<p id=0>\u{201c}x\u{201d}</p>\n\n".to_string()]);
}

#[test]
fn section_heading_opens_no_new_buffer() {
    assert_eq!(
        convert("\\section{S}T"),
        vec!["<h2>S</h2>\n\n<p id=0>T</p>\n\n".to_string()]
    );
}

#[test]
fn paragraph_ids_continue_across_chapters() {
    assert_eq!(
        convert("\\chapter{A}x\\chapter{B}y"),
        vec![
            "<h1>A</h1>\n\n<p id=0>x</p>\n\n".to_string(),
            "<h1>B</h1>\n\n<p id=1>y</p>\n\n".to_string(),
        ]
    );
}

#[test]
fn math_minus_token_is_not_supported() {
    let r = parse_book(&sources(&[("book.tex", "a$-$b")]), "book.tex");
    assert_eq!(
        r,
        Err(BuildError::UnsupportedConstruct {
            kind: "$-$".to_string(),
            path: "book.tex".to_string(),
            line: 1,
            column: 2,
        })
    );
}

#[test]
fn unknown_command_is_not_supported() {
    let r = parse_book(&sources(&[("book.tex", "\\frobnicate")]), "book.tex");
    assert_eq!(
        r,
        Err(BuildError::UnsupportedConstruct {
            kind: "frobnicate".to_string(),
            path: "book.tex".to_string(),
            line: 1,
            column: 1,
        })
    );
}

#[test]
fn chapter_without_argument_is_a_syntax_error() {
    let r = parse_book(&sources(&[("book.tex", "\\chapter")]), "book.tex");
    assert_eq!(
        r,
        Err(BuildError::SyntaxError {
            path: "book.tex".to_string(),
            line: 1,
            column: 9,
            expected: "{".to_string(),
        })
    );
}

#[test]
fn unknown_environment_in_a_tree_fails_rendering() {
    let book = Book { ast: Atom::BeginEnvironment("sidebar".to_string()) };
    assert_eq!(
        write_book(&book),
        Err(RenderError::UnsupportedConstruct { kind: "sidebar".to_string() })
    );
}

#[test]
fn singleton_sequences_collapse_to_the_element() {
    assert_eq!(collapse(vec![Atom::Text("x".to_string())]), Atom::Text("x".to_string()));
    assert_eq!(collapse(vec![]), Atom::List(vec![]));
    assert_eq!(
        collapse(vec![Atom::Ignore, Atom::ParagraphEnd]),
        Atom::List(vec![Atom::Ignore, Atom::ParagraphEnd])
    );
}

#[test]
fn comments_are_kept_in_the_tree_but_never_rendered() {
    let book = parse_book(&sources(&[("book.tex", "a%note\nb")]), "book.tex").unwrap();
    assert_eq!(
        book.ast,
        Atom::List(vec![
            Atom::Text("a".to_string()),
            Atom::Comment("note".to_string()),
            Atom::Special("\n".to_string()),
            Atom::Text("b".to_string()),
        ])
    );
    assert_eq!(write_book(&book).unwrap(), vec!["<p id=0>a\nb</p>\n\n".to_string()]);
}

#[test]
fn empty_document_renders_no_buffers() {
    let book = parse_book(&sources(&[("book.tex", "")]), "book.tex").unwrap();
    assert_eq!(book.ast, Atom::List(vec![]));
    assert_eq!(write_book(&book).unwrap(), Vec::<String>::new());
}

#[test]
fn optional_argument_is_skipped_for_the_title() {
    let book =
        parse_book(&sources(&[("book.tex", "\\chapter[short]{Long}x")]), "book.tex").unwrap();
    assert_eq!(
        book.ast,
        Atom::List(vec![
            Atom::StartChapter(Box::new(Atom::Text("Long".to_string()))),
            Atom::Text("x".to_string()),
        ])
    );
}

#[test]
fn error_location_counts_lines() {
    let r = parse_book(&sources(&[("book.tex", "ok\nalso ok\nbad \\nope here")]), "book.tex");
    assert_eq!(
        r,
        Err(BuildError::UnsupportedConstruct {
            kind: "nope".to_string(),
            path: "book.tex".to_string(),
            line: 3,
            column: 5,
        })
    );
}

#[test]
fn included_text_keeps_its_place() {
    let fs = sources(&[("book.tex", "a\\include{mid}b"), ("mid.tex", "M")]);
    let book = parse_book(&fs, "book.tex").unwrap();
    assert_eq!(
        book.ast,
        Atom::List(vec![
            Atom::Text("a".to_string()),
            Atom::Text("M".to_string()),
            Atom::Text("b".to_string()),
        ])
    );
    assert_eq!(write_book(&book).unwrap(), vec!["<p id=0>aMb</p>\n\n".to_string()]);
}

#[test]
fn single_dash_and_en_dash_resolve() {
    assert_eq!(convert("a-b"), vec!["<p id=0>a-b</p>\n\n".to_string()]);
    assert_eq!(convert("a--b"), vec!["<p id=0>a\u{2013}b</p>\n\n".to_string()]);
}

#[test]
fn noop_directives_render_nothing() {
    assert_eq!(convert("a\\noindent b"), vec!["<p id=0>ab</p>\n\n".to_string()]);
}

#[test]
fn unknown_token_in_a_tree_fails_rendering_and_writes_nothing() {
    let book = Book { ast: Atom::Special("zzz".to_string()) };
    assert_eq!(
        write_book(&book),
        Err(RenderError::UnsupportedConstruct { kind: "zzz".to_string() })
    );
}

#[test]
fn footnote_bodies_are_not_rendered_even_when_unrenderable() {
    let book = Book {
        ast: Atom::Footnote(Box::new(Atom::BeginEnvironment("fancybox".to_string()))),
    };
    assert_eq!(write_book(&book), Ok(Vec::<String>::new()));
}
