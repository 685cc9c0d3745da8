use lilscript::script::{
    Character, ContainerKind, Script, SeriesEntry, SpanKind, TextContainer, TextSpan, WordCount,
};

#[test]
fn words_are_runs_of_latin_letters() {
    assert_eq!(TextSpan::normal("This isn't some text, is it?").num_words(), 6);
    assert_eq!(
        TextSpan::normal("C'est même en français, avec les accents.").num_words(),
        7
    );
    assert_eq!(TextSpan::emphasis("hyphenated-words-count-once").num_words(), 1);
    assert_eq!(TextSpan::normal("").num_words(), 0);
}

#[test]
fn non_latin_text_counts_no_words() {
    assert_eq!(TextSpan::normal("ねぇ、大丈夫？").num_words(), 0);
    assert_eq!(TextSpan::normal("Привет мир").num_words(), 0);
}

#[test]
fn spoken_only_in_spoken_containers() {
    let span = TextSpan::normal("Some text");
    assert!(span.is_spoken(ContainerKind::Spoken));
    assert!(!span.is_spoken(ContainerKind::StageDir));
    assert!(!TextSpan::inline("cue").is_spoken(ContainerKind::Spoken));
    assert!(TextSpan::emphasis("word").is_spoken(ContainerKind::Spoken));
}

#[test]
fn container_routes_each_span_to_one_bucket() {
    let c = TextContainer::new(ContainerKind::Spoken)
        .push(TextSpan::normal("one two"))
        .push(TextSpan::inline("three four five"))
        .push(TextSpan::emphasis("six"));
    assert_eq!(c.wordcount(), WordCount::new(3, 3));
    let d = TextContainer::new(ContainerKind::StageDir).push(TextSpan::normal("one two"));
    assert_eq!(d.wordcount(), WordCount::new(0, 2));
}

#[test]
fn script_count_is_the_sum_of_its_lines() {
    let mut script = Script::new("a", "b");
    script
        .paragraphs
        .push(TextContainer::new(ContainerKind::Spoken).push(TextSpan::normal("one two")));
    script
        .paragraphs
        .push(TextContainer::new(ContainerKind::Sfx).push(TextSpan::normal("bang")));
    let w = script.wordcount();
    assert_eq!(w, WordCount::new(2, 1));
    assert_eq!(w.total(), 3);
    assert_eq!(Script::new("a", "b").wordcount(), WordCount::zero());
}

#[test]
fn word_count_addition() {
    let a = || WordCount::new(1, 2);
    let b = || WordCount::new(10, 20);
    let c = || WordCount::new(100, 200);
    assert_eq!(a().add(b()).add(c()), a().add(b().add(c())));
    assert_eq!(a().add(b()), b().add(a()));
    assert_eq!(a().add(WordCount::zero()), a());
    assert_eq!(a().add(b()), WordCount::new(11, 22));
    assert_eq!(WordCount::only_spoken(4), WordCount::new(4, 0));
    assert_eq!(WordCount::only_unspoken(4), WordCount::new(0, 4));
}

#[test]
fn word_count_total_and_density() {
    let w = WordCount::new(100, 200);
    assert_eq!(w.total(), 300);
    assert_eq!(w.spoken(), 100);
    assert_eq!(w.unspoken(), 200);
    assert_eq!(w.speech_density(), Some((100, 300)));
    assert_eq!(WordCount::zero().speech_density(), None);
    assert_eq!(WordCount::new(0, 5).speech_density(), Some((0, 5)));
}

#[test]
fn container_helpers() {
    let container = TextContainer::new(ContainerKind::Spoken)
        .push(TextSpan::normal("some text"))
        .push(TextSpan::inline("a cue"))
        .push(TextSpan::normal("more text"));
    assert_eq!(container.plain_text(), "some text a cue more text");
    assert_eq!(container.len(), 3);
    assert_eq!(TextContainer::new(ContainerKind::Sfx).plain_text(), "");
    let span = TextSpan::normal("x").as_variant(SpanKind::Emphasis);
    assert_eq!(span, TextSpan::emphasis("x"));
    assert_eq!(TextSpan::new(SpanKind::Normal, "y"), TextSpan::normal("y"));
}

#[test]
fn series_and_character_text() {
    let s = SeriesEntry::new("A Very Cool Series", 7);
    assert_eq!(s.display(), "A Very Cool Series (Part 7)");
    assert_eq!(SeriesEntry::new("S", 120).display(), "S (Part 120)");
    assert_eq!(SeriesEntry::from("").display(), "");
    let c = Character::new("Ann", "the narrator");
    assert_eq!(c.display(), "Ann => the narrator");
}

#[test]
fn counts_text_groups_thousands() {
    assert_eq!(
        WordCount::new(1234567, 0).counts_text(),
        "1,234,567 spoken + 0 unspoken -> 1,234,567 total"
    );
    assert_eq!(
        WordCount::new(999, 1).counts_text(),
        "999 spoken + 1 unspoken -> 1,000 total"
    );
    assert_eq!(
        WordCount::new(1000, 1005).counts_text(),
        "1,000 spoken + 1,005 unspoken -> 2,005 total"
    );
}

#[test]
fn checked_counts() {
    assert_eq!(
        WordCount::new(usize::MAX, 0).checked_add(WordCount::new(1, 0)),
        None
    );
    assert_eq!(
        WordCount::new(1, 2).checked_add(WordCount::new(3, 4)),
        Some(WordCount::new(4, 6))
    );
    let c = TextContainer::new(ContainerKind::Spoken)
        .push(TextSpan::normal("one two"))
        .push(TextSpan::inline("three"));
    assert_eq!(c.checked_wordcount(), Some(WordCount::new(2, 1)));
    let mut script = Script::new("a", "b");
    script.paragraphs.push(c);
    assert_eq!(script.checked_wordcount(), Some(WordCount::new(2, 1)));
}
