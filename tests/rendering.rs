use lilscript::md_handler::ToMarkdown;
use lilscript::script::{Character, ContainerKind, Script, TextContainer, TextSpan};

fn mixed(kind: ContainerKind) -> TextContainer {
    TextContainer {
        kind,
        spans: vec![
            TextSpan::normal("some text"),
            TextSpan::inline("loudly"),
            TextSpan::emphasis("EMPHASIS"),
        ],
    }
}

#[test]
fn span_renders_by_kind() {
    assert_eq!(TextSpan::normal("Some normal text").to_markdown(), "Some normal text");
    assert_eq!(TextSpan::emphasis("impact").to_markdown(), "/impact/");
    assert_eq!(TextSpan::inline("an inline").to_markdown(), "*(an inline)*");
}

#[test]
fn spoken_line_bolds_speech_but_not_cues() {
    let c = TextContainer::new(ContainerKind::Spoken)
        .push(TextSpan::inline("quietly"))
        .push(TextSpan::normal("hi"));
    assert_eq!(c.to_markdown(), "*(quietly)* **hi**");
}

#[test]
fn plain_text_line_joins_spans() {
    assert_eq!(
        mixed(ContainerKind::PlainText).to_markdown(),
        "some text *(loudly)* /EMPHASIS/"
    );
}

#[test]
fn stage_direction_strips_inline_asterisks() {
    assert_eq!(
        mixed(ContainerKind::StageDir).to_markdown(),
        "> *[some text (loudly) /EMPHASIS/]*"
    );
}

#[test]
fn sound_effect_is_wrapped() {
    assert_eq!(
        mixed(ContainerKind::Sfx).to_markdown(),
        "> *[sfx: some text (loudly) /EMPHASIS/]*"
    );
}

#[test]
fn listener_dialogue_is_wrapped() {
    assert_eq!(
        mixed(ContainerKind::ListenerDialogue).to_markdown(),
        "> *« some text (loudly) /EMPHASIS/ »*"
    );
}

#[test]
fn spoken_emphasis_is_bold() {
    let c = TextContainer {
        kind: ContainerKind::Spoken,
        spans: vec![
            TextSpan::inline("quietly, slowly"),
            TextSpan::normal("some text"),
            TextSpan::inline("loudly"),
            TextSpan::emphasis("EMPHASIS"),
            TextSpan::normal("...hm?"),
        ],
    };
    assert_eq!(
        c.to_markdown(),
        "*(quietly, slowly)* **some text** *(loudly)* **/EMPHASIS/** **...hm?**"
    );
}

#[test]
fn empty_containers_render_empty_bodies() {
    assert_eq!(TextContainer::new(ContainerKind::PlainText).to_markdown(), "");
    assert_eq!(TextContainer::new(ContainerKind::StageDir).to_markdown(), "> *[]*");
}

#[test]
fn whitespace_inside_spans_collapses() {
    let c = TextContainer::new(ContainerKind::PlainText).push(TextSpan::normal("  a \t  b  "));
    assert_eq!(c.to_markdown(), "a b");
}

#[test]
fn script_renders_characters_guide_and_lines() {
    let mut script = Script::new("someone", "A Title");
    script.characters.push(Character::new("Ann", "the narrator"));
    script
        .paragraphs
        .push(TextContainer::new(ContainerKind::Spoken).push(TextSpan::normal("Hello.")));
    script
        .paragraphs
        .push(TextContainer::new(ContainerKind::Sfx).push(TextSpan::normal("a door")));
    let expected = "## Characters\n\n\
        - **Ann** \u{223C} the narrator\n\n\
        ## Formatting guide\n\n\
        **spoken text**\n\n\
        **/emphasis/**\n\n\
        *(tone cue, suggested)*\n\n\
        > *[stage direction and/or sfx]*\n\n\
        > *« example listener dialogue, not intended to be voiced »*\n\n\
        --8<--\n\n\
        **Hello.**\n\n\
        > *[sfx: a door]*";
    assert_eq!(script.to_markdown(), expected);
}

#[test]
fn script_without_characters_or_lines_renders_the_guide() {
    let script = Script::new("someone", "A Title");
    let out = script.to_markdown();
    assert!(out.starts_with("## Characters\n\n## Formatting guide\n\n"));
    assert!(out.ends_with("--8<--"));
}

#[test]
fn spoken_emphasis_is_reported() {
    let c = TextContainer::new(ContainerKind::Spoken)
        .push(TextSpan::normal("a"))
        .push(TextSpan::emphasis("b"))
        .push(TextSpan::emphasis("c"));
    assert_eq!(c.spoken_emphasis(), vec!["/b/", "/c/"]);
    let d = TextContainer::new(ContainerKind::StageDir).push(TextSpan::emphasis("b"));
    assert!(d.spoken_emphasis().is_empty());
}
