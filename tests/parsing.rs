use lilscript::partition::{command_bounds, partition_chars};
use lilscript::script::{ContainerKind, Script, SeriesEntry, TextContainer, TextSpan};
use lilscript::tex_handler::{parse_tags, regex_partition, search_tex, ScriptError, Tex};
use lilscript::{convert, FileFormat};
use regex::Regex;
use std::path::PathBuf;

const TITLE: &str = "\\renewcommand{\\SceneName}{A Title}\n";
const AUTHOR: &str = "\\scriptAuthor{someone}\n";
const SERIES: &str = "\\scriptSeries{\\textemdash}\n";
const TAGS: &str = "\\scriptTags{}\n";
const SUMMARY: &str = "\\summary{A summary.}\n";
const BODY: &str = "\\clearpage\n\\spoken{Hello there.}\n\\end{document}\n";

fn document(skip: usize) -> String {
    let header = [TITLE, AUTHOR, SERIES, TAGS, SUMMARY];
    let mut s = String::new();
    for (i, h) in header.iter().enumerate() {
        if i != skip {
            s.push_str(h);
        }
    }
    s.push_str(BODY);
    s
}

fn missing_field_of(skip: usize) -> ScriptError {
    Script::try_from(&Tex::from(document(skip).as_str())).unwrap_err()
}

#[test]
fn minimal_document_assembles() {
    let script = Script::try_from(&Tex::from(document(usize::MAX).as_str())).unwrap();
    assert_eq!(script.title, "A Title");
    assert_eq!(script.author, "someone");
    assert_eq!(script.series, SeriesEntry { title: None, part: None });
    assert!(script.tags.is_empty());
    assert_eq!(script.summary, "A summary.");
    assert!(script.date.is_none());
    assert!(script.characters.is_empty());
    assert_eq!(script.paragraphs.len(), 1);
    assert_eq!(
        script.paragraphs[0],
        TextContainer::new(ContainerKind::Spoken).push(TextSpan::normal("Hello there."))
    );
}

#[test]
fn missing_title_is_named() {
    assert_eq!(missing_field_of(0), ScriptError::MissingField("title".to_string()));
}

#[test]
fn missing_author_is_named() {
    assert_eq!(missing_field_of(1), ScriptError::MissingField("author".to_string()));
}

#[test]
fn missing_series_is_named() {
    assert_eq!(missing_field_of(2), ScriptError::MissingField("series".to_string()));
}

#[test]
fn missing_tags_is_named() {
    assert_eq!(missing_field_of(3), ScriptError::MissingField("tags".to_string()));
}

#[test]
fn missing_summary_is_named() {
    assert_eq!(missing_field_of(4), ScriptError::MissingField("summary".to_string()));
}

#[test]
fn full_header_is_read() {
    let text = "\\renewcommand{\\SceneName}{T}\n\\scriptAuthor{A}\n\
        \\scriptSeries{A Very Cool Series (Part 7)}\n\\scriptTags{[x][y][x]}\n\\summary{S}\n\
        \\clearpage\n\n\\stagedir{She enters.}\n\n\\spoken{Hi \\direct{softly} \\ul{you}.}\n\
        \\end{document}";
    let script = Script::try_from(&Tex::from(text)).unwrap();
    assert_eq!(script.series, SeriesEntry::new("A Very Cool Series", 7));
    assert_eq!(script.tags, vec!["x", "y", "x"]);
    assert_eq!(script.paragraphs.len(), 2);
    assert_eq!(
        script.paragraphs[1],
        TextContainer::new(ContainerKind::Spoken)
            .push(TextSpan::normal("Hi"))
            .push(TextSpan::inline("softly"))
            .push(TextSpan::normal(""))
            .push(TextSpan::emphasis("you"))
            .push(TextSpan::normal("."))
    );
}

#[test]
fn body_starts_at_the_top_without_page_break() {
    let text = "\\renewcommand{\\SceneName}{T}\\scriptAuthor{A}\\scriptSeries{}\
        \\scriptTags{}\\summary{S}";
    let err = Script::try_from(&Tex::from(text)).unwrap_err();
    match err {
        ScriptError::Line(line, cause) => {
            assert_eq!(line, text);
            assert_eq!(
                *cause,
                ScriptError::Line(
                    text.to_string(),
                    Box::new(ScriptError::UnknownInlineCommand("SceneName}".to_string()))
                )
            );
        }
        other => panic!("unexpected {:?}", other),
    }
}

#[test]
fn bad_line_fails_the_document() {
    let text = format!("{}{}{}{}{}\\clearpage\nnot a command\n", TITLE, AUTHOR, SERIES, TAGS, SUMMARY);
    let err = Script::try_from(&Tex::from(text.as_str())).unwrap_err();
    assert_eq!(
        err,
        ScriptError::Line(
            "not a command".to_string(),
            Box::new(ScriptError::InvalidLine("not a command".to_string()))
        )
    );
}

#[test]
fn unknown_inline_command_is_an_error() {
    let err = TextSpan::try_from(&Tex::from("\\bold{x}")).unwrap_err();
    assert_eq!(err, ScriptError::UnknownInlineCommand("bold".to_string()));
    let err = TextContainer::try_from(&Tex::from("\\spoken{a \\bold{b} c}")).unwrap_err();
    assert_eq!(
        err,
        ScriptError::Line(
            "\\spoken{a \\bold{b} c}".to_string(),
            Box::new(ScriptError::UnknownInlineCommand("bold".to_string()))
        )
    );
}

#[test]
fn unknown_line_command_is_plain_text() {
    let c = TextContainer::try_from(&Tex::from("\\bold{Hello}")).unwrap();
    assert_eq!(
        c,
        TextContainer::new(ContainerKind::PlainText).push(TextSpan::normal("Hello"))
    );
    let c = TextContainer::try_from(&Tex::from("\\sfx{bang}")).unwrap();
    assert_eq!(c.kind, ContainerKind::Sfx);
    let c = TextContainer::try_from(&Tex::from("\\stagedir{x}")).unwrap();
    assert_eq!(c.kind, ContainerKind::StageDir);
}

#[test]
fn malformed_lines_are_invalid() {
    let err = TextContainer::try_from(&Tex::from("  plain words ")).unwrap_err();
    assert_eq!(err, ScriptError::InvalidLine("plain words".to_string()));
    let err = TextContainer::try_from(&Tex::from("\\spoken{unclosed")).unwrap_err();
    assert_eq!(err, ScriptError::InvalidLine("\\spoken{unclosed".to_string()));
    let err = TextContainer::try_from(&Tex::from("")).unwrap_err();
    assert_eq!(err, ScriptError::InvalidLine(String::new()));
}

#[test]
fn series_values() {
    assert_eq!(
        SeriesEntry::from("A Very Cool Series (Part 7)"),
        SeriesEntry::new("A Very Cool Series", 7)
    );
    let none = SeriesEntry { title: None, part: None };
    assert_eq!(SeriesEntry::from(""), none);
    assert_eq!(SeriesEntry::from("—"), none);
    assert_eq!(SeriesEntry::from("\\textemdash"), none);
    assert_eq!(SeriesEntry::from("Just a title"), none);
    assert_eq!(SeriesEntry::from("T (Part )"), none);
    assert_eq!(SeriesEntry::from(" (Part 3)"), SeriesEntry::new("", 3));
    assert_eq!(
        SeriesEntry::from("Big (Part 99999999999999999999999)"),
        SeriesEntry::new("Big", 0)
    );
}

#[test]
fn tags_keep_order_and_duplicates() {
    let chars: Vec<char> = "[a][b c][a] junk [d".chars().collect();
    assert_eq!(parse_tags(&chars), vec!["a", "b c", "a"]);
    let empty: Vec<char> = Vec::new();
    assert!(parse_tags(&empty).is_empty());
}

#[test]
fn search_finds_the_first_value() {
    let s = r"This is some text with a \randomCommand{6} and another \differentCommand{-3px}.";
    assert_eq!(search_tex("randomCommand", s), Some("6"));
    assert_eq!(search_tex("differentCommand", s), Some("-3px"));
    assert_eq!(search_tex("nonexistentCommand", s), None);
    assert_eq!(search_tex("k", "\\k{a\nb} \\k{c}"), Some("c"));
}

#[test]
fn unescape_quotes_and_unknown_commands() {
    assert_eq!(Tex::unescaped("say ``hi'' now"), "say \"hi\" now");
    assert_eq!(
        Tex::unescaped(r"This is\anotherCommand{3} some text\textellipsis{} and some more text."),
        r"This is\anotherCommand{3} some text... and some more text."
    );
    assert_eq!(Tex::unescaped("  \t\n "), "");
}

#[test]
fn partition_keeps_every_character() {
    let s = "ねaぇ\u{223C}aa";
    let v = regex_partition(Regex::new("a+").unwrap(), s);
    assert_eq!(v, vec!["ね", "a", "ぇ\u{223C}", "aa"]);
    assert_eq!(v.concat(), s);
    let v = regex_partition(Regex::new("x").unwrap(), "");
    assert!(v.is_empty());
}

#[test]
fn file_formats_from_paths() {
    let p = PathBuf::from(r"/home/user/Documents/f.tex");
    assert_eq!(FileFormat::from_path(&p).unwrap(), FileFormat::Tex);
    let p = PathBuf::from(r"/home/user/Documents/f.md");
    assert_eq!(FileFormat::from_path(&p).unwrap(), FileFormat::Markdown);
    let p = PathBuf::from(r"/home/user/Documents/g.csv");
    assert_eq!(
        FileFormat::from_path(&p).unwrap_err(),
        "Invalid file extension: should be .tex / .md"
    );
    let p = PathBuf::from(r"/home/user/Documents/g");
    assert_eq!(
        FileFormat::from_path(&p).unwrap_err(),
        "Invalid file extension: could not be determined"
    );
}

#[test]
fn only_tex_to_markdown_converts() {
    assert_eq!(
        convert(FileFormat::Markdown, FileFormat::Tex, ""),
        Err(ScriptError::UnsupportedConversion)
    );
    assert_eq!(
        convert(FileFormat::Tex, FileFormat::Tex, ""),
        Err(ScriptError::UnsupportedConversion)
    );
    let out = convert(FileFormat::Tex, FileFormat::Markdown, &document(usize::MAX)).unwrap();
    assert!(out.ends_with("--8<--\n\n**Hello there.**"));
}

#[test]
fn unknown_line_commands_are_reported() {
    let text = "\\clearpage\n\\spoken{a}\n\\narrator{b}\n\\sfx{c}\n\\aside{d}\n";
    assert_eq!(
        Script::unknown_line_commands(&Tex::from(text)),
        vec!["narrator", "aside"]
    );
    assert!(Script::unknown_line_commands(&Tex::from("\\spoken{a}")).is_empty());
}

#[test]
fn commands_split_a_line_body() {
    let body: Vec<char> = "Hi \\direct{softly} there \\ul{you}".chars().collect();
    let bounds = command_bounds(&body);
    assert_eq!(bounds, vec![(3, 18), (25, 33)]);
    let pieces: Vec<String> = partition_chars(&body, &bounds)
        .iter()
        .map(|p| p.iter().collect())
        .collect();
    assert_eq!(pieces, vec!["Hi ", "\\direct{softly}", " there ", "\\ul{you}"]);
}

#[test]
fn series_part_in_other_scripts_keeps_the_title() {
    assert_eq!(SeriesEntry::from("T (Part ٣)"), SeriesEntry::new("T", 0));
    assert_eq!(SeriesEntry::from("T (Part ３)"), SeriesEntry::new("T", 0));
    assert_eq!(SeriesEntry::from("Saga (Part 1٣)"), SeriesEntry::new("Saga", 0));
    assert_eq!(SeriesEntry::from("Saga (Part ٣x)"), SeriesEntry { title: None, part: None });
}

#[test]
fn warnings_stop_at_the_first_failing_line() {
    let text = "\\clearpage\n\\narrator{a}\n\\aside{b \\bold{c}}\n\\other{d}\n";
    assert_eq!(
        Script::unknown_line_commands(&Tex::from(text)),
        vec!["narrator", "aside"]
    );
}

#[test]
fn tex_from_an_owned_string() {
    let tex: Tex = String::from("\\ul{x}").into();
    assert_eq!(tex.text, "\\ul{x}");
}
