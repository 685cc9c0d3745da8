use lilscript::script::{ContainerKind, TextContainer, TextSpan};
use lilscript::tex_handler::{regex_partition, search_tex, Tex};
use regex::Regex;

#[test]
fn test_text_span_parse_normal() {
    let tex = Tex::from("This is some text");
    let span = TextSpan::try_from(&tex).unwrap();

    let expected = TextSpan::normal("This is some text");
    assert_eq!(span, expected);
}

#[test]
fn test_text_span_parse_inline() {
    let tex = Tex::from("\\direct{an inline!}");
    let span = TextSpan::try_from(&tex).unwrap();

    let expected = TextSpan::inline("an inline!");
    assert_eq!(span, expected);
}

#[test]
fn test_text_span_parse_emphasis() {
    let tex = Tex::from("\\ul{EMPHASIS}");
    let span = TextSpan::try_from(&tex).unwrap();

    let expected = TextSpan::emphasis("EMPHASIS");
    assert_eq!(span, expected);
}

#[test]
fn test_text_container_parse_one_span() {
    let tex = Tex::from("\\spoken{This is some text.}");
    let container = TextContainer::try_from(&tex).unwrap();

    let spans = vec![TextSpan::normal("This is some text.")];
    let expected = TextContainer {
        kind: ContainerKind::Spoken,
        spans,
    };

    assert_eq!(container, expected);
}

#[test]
fn test_text_container_parse_multiple_spans() {
    let tex = Tex::from(
        "\\spoken{This is some text. \\direct{an inline direction} And some more dialogue.}",
    );
    let container = TextContainer::try_from(&tex).unwrap();

    let spans = vec![
        TextSpan::normal("This is some text."),
        TextSpan::inline("an inline direction"),
        TextSpan::normal("And some more dialogue."),
    ];
    let expected = TextContainer {
        kind: ContainerKind::Spoken,
        spans,
    };

    assert_eq!(container, expected);
}

#[test]
fn test_text_container_parse_multiple_spans_2() {
    let tex = Tex::from("\\listener{\\direct{slowly, quietly} some text?}");
    let container = TextContainer::try_from(&tex).unwrap();

    let spans = vec![
        TextSpan::inline("slowly, quietly"),
        TextSpan::normal("some text?"),
    ];
    let expected = TextContainer {
        kind: ContainerKind::ListenerDialogue,
        spans,
    };

    assert_eq!(container, expected);
}

#[test]
fn test_regex_partition() {
    let s = "ABCCQBCPCCCS";
    let re = Regex::new("C+").unwrap();
    let v = regex_partition(re, &s);
    assert_eq!(v, vec!["AB", "CC", "QB", "C", "P", "CCC", "S"]);
}

#[test]
fn test_regex_partition_trailing_delim() {
    let s = "ABCCQBCPCCC";
    let re = Regex::new("C+").unwrap();
    let v = regex_partition(re, &s);
    assert_eq!(v, vec!["AB", "CC", "QB", "C", "P", "CCC"]);
}

#[test]
fn test_search_tex_success() {
    let contents = r"blah blah \randomCommand{7} and more blah.";
    let value = search_tex("randomCommand", &contents).unwrap();
    assert_eq!(value, "7");
}

#[test]
fn test_search_tex_fail() {
    let contents = r"blah blah \randomCommand{7} and more blah.";
    let value = search_tex("differentCommand", &contents);
    assert!(value.is_none());
}

#[test]
fn test_unescaped_ellipsis() {
    let s = r"This is some text\textellipsis{} and some\ldots{} more text\textellipsis?";
    let expected = "This is some text... and some... more text...?";

    assert_eq!(Tex::unescaped(s), expected);
}

#[test]
fn test_unescaped_symbols() {
    let s = r"This is some text\$ with \& a few \%symbols thrown in.";
    let expected = "This is some text$ with & a few %symbols thrown in.";

    assert_eq!(Tex::unescaped(s), expected);
}

#[test]
fn test_unescaped_dupe_spaces() {
    let s = r"This is some      normal text, except there is additional space in the middle";
    let expected = "This is some normal text, except there is additional space in the middle";
    assert_eq!(Tex::unescaped(s), expected);
}

#[test]
fn test_unescaped_custom_commands() {
    let s = r"This is some text, with some curious stuff\Tilde \Tilde{} \kaosmile{}";
    let expected = "This is some text, with some curious stuff\u{223C} \u{223C} ^_^";
    assert_eq!(Tex::unescaped(s), expected);
}

#[test]
fn test_unescaped_href() {
    let s = r"This is some text with a \href{https://google.com}{link} in it.";
    let expected = "This is some text with a [link](https://google.com) in it.";
    assert_eq!(Tex::unescaped(s), expected);
}

#[test]
fn test_prettify_ellipsis() {
    let mut tex =
        Tex::from(r"This is some text\textellipsis{} and some\ldots{} more text\textellipsis?");
    tex.unescape();
    assert_eq!(tex.text, "This is some text... and some... more text...?")
}

#[test]
fn test_prettify_symbols() {
    let mut tex = Tex::from(r"This is some text\$ with \& a few \%symbols thrown in.");
    tex.unescape();
    assert_eq!(
        tex.text,
        "This is some text$ with & a few %symbols thrown in."
    );
}

#[test]
fn test_prettify_dupe_spaces() {
    let mut tex = Tex::from(
        r"This is some very      normal text, except there is additional space in the middle",
    );
    tex.unescape();
    assert_eq!(
        tex.text,
        "This is some very normal text, except there is additional space in the middle"
    )
}

#[test]
fn test_prettify_custom_commands() {
    let mut tex = Tex::from(
        r"This is some text, but it ends with some curious stuff\Tilde \Tilde{} \kaosmile{}",
    );
    tex.unescape();
    assert_eq!(
        tex.text,
        "This is some text, but it ends with some curious stuff\u{223C} \u{223C} ^_^"
    );
}

#[test]
fn test_prettify_href() {
    let mut tex = Tex::from(r"This is some text with a \href{https://google.com}{link} in it.");
    tex.unescape();
    assert_eq!(
        tex.text,
        "This is some text with a [link](https://google.com) in it."
    );
}
