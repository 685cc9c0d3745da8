use vstd::prelude::*;

use crate::script::{
    containers_view, Character, ContainerKind, Script, SpanKind, TextContainer, TextSpan,
};
use crate::text::{chars_of, collapse_spaces, collapse_spaces_exec, extend, string_of, trim, trim_exec};

verus! {

/// Rendering to Markdown.
pub trait ToMarkdown {
    /// The Markdown text of the value.
    spec fn markdown(&self) -> Seq<char>;

    /// Converts the value to Markdown.
    fn to_markdown(&self) -> (r: String)
        ensures
            r@ == self.markdown(),
    ;
}

/// A span on its own: normal text unchanged, emphasis as `/text/`, an inline direction
/// as `*(text)*`.
pub open spec fn span_markdown(s: (SpanKind, Seq<char>)) -> Seq<char> {
    match s.0 {
        SpanKind::Normal => s.1,
        SpanKind::Emphasis => "/"@ + s.1 + "/"@,
        SpanKind::InlineDirection => "*("@ + s.1 + ")*"@,
    }
}

/// A span inside a container of kind `ck`. In stage directions, sound effects and
/// listener dialogue an inline direction loses its asterisks; in spoken lines everything
/// but an inline direction is bold.
pub open spec fn span_in_context(ck: ContainerKind, s: (SpanKind, Seq<char>)) -> Seq<char> {
    match ck {
        ContainerKind::PlainText => span_markdown(s),
        ContainerKind::Spoken => if s.0 == SpanKind::InlineDirection {
            span_markdown(s)
        } else {
            "**"@ + span_markdown(s) + "**"@
        },
        _ => if s.0 == SpanKind::InlineDirection {
            "("@ + s.1 + ")"@
        } else {
            span_markdown(s)
        },
    }
}

/// The spans rendered in context, with a single space between each pair.
pub open spec fn spans_joined(ck: ContainerKind, spans: Seq<(SpanKind, Seq<char>)>) -> Seq<char>
    decreases spans.len(),
{
    if spans.len() == 0 {
        seq![]
    } else if spans.len() == 1 {
        span_in_context(ck, spans[0])
    } else {
        spans_joined(ck, spans.drop_last()) + seq![' '] + span_in_context(ck, spans.last())
    }
}

/// A container: its spans joined by single spaces (whitespace runs collapsed and the
/// ends trimmed), then wrapped as its kind asks.
pub open spec fn container_markdown(c: (ContainerKind, Seq<(SpanKind, Seq<char>)>)) -> Seq<char> {
    let body = trim(collapse_spaces(spans_joined(c.0, c.1)));
    match c.0 {
        ContainerKind::StageDir => "> *["@ + body + "]*"@,
        ContainerKind::Sfx => "> *[sfx: "@ + body + "]*"@,
        ContainerKind::ListenerDialogue => "> *« "@ + body + " »*"@,
        _ => body,
    }
}

/// The rendered emphasis spans of a spoken line, in order. Each is rendered bold as
/// speech although it may belong to a direction, which is worth a warning.
pub open spec fn spoken_emphasis(ck: ContainerKind, spans: Seq<(SpanKind, Seq<char>)>) -> Seq<
    Seq<char>,
>
    decreases spans.len(),
{
    if spans.len() == 0 {
        seq![]
    } else if ck == ContainerKind::Spoken && spans.last().0 == SpanKind::Emphasis {
        spoken_emphasis(ck, spans.drop_last()).push(span_markdown(spans.last()))
    } else {
        spoken_emphasis(ck, spans.drop_last())
    }
}

impl TextContainer {
    /// The emphasis spans of a spoken container, as rendered on their own.
    pub fn spoken_emphasis(&self) -> (r: Vec<String>)
        ensures
            r@.map_values(|c: String| c@) == spoken_emphasis(self@.0, self@.1),
    {
        let mut out: Vec<String> = Vec::new();
        let mut i: usize = 0;
        assert(out@.map_values(|c: String| c@) == Seq::<Seq<char>>::empty());
        while i < self.spans.len()
            invariant
                0 <= i <= self.spans.len(),
                out@.map_values(|c: String| c@) == spoken_emphasis(self.kind, self@.1.take(i as int)),
            decreases self.spans.len() - i,
        {
            assert(self@.1.take(i + 1).drop_last() == self@.1.take(i as int));
            let ghost before = out@.map_values(|c: String| c@);
            if self.kind == ContainerKind::Spoken && self.spans[i].kind == SpanKind::Emphasis {
                let md = string_of(&span_chars(&self.spans[i]));
                out.push(md);
                assert(out@.map_values(|c: String| c@) == before.push(md@));
            }
            i = i + 1;
        }
        assert(self@.1.take(self.spans.len() as int) == self@.1);
        out
    }
}

/// `lines` joined with `sep` between each pair.
pub open spec fn join_with(lines: Seq<Seq<char>>, sep: Seq<char>) -> Seq<char>
    decreases lines.len(),
{
    if lines.len() == 0 {
        seq![]
    } else if lines.len() == 1 {
        lines[0]
    } else {
        join_with(lines.drop_last(), sep) + sep + lines.last()
    }
}

/// The bullet for one character.
pub open spec fn character_line(c: Character) -> Seq<char> {
    "- **"@ + c.name@ + "** ∼ "@ + c.description@
}

/// The fixed guide to the formatting, one example of each kind of line.
pub open spec fn guide_lines() -> Seq<Seq<char>> {
    seq![
        "## Formatting guide"@,
        container_markdown((ContainerKind::Spoken, seq![(SpanKind::Normal, "spoken text"@)])),
        container_markdown((ContainerKind::Spoken, seq![(SpanKind::Emphasis, "emphasis"@)])),
        container_markdown(
            (ContainerKind::Spoken, seq![(SpanKind::InlineDirection, "tone cue, suggested"@)]),
        ),
        container_markdown(
            (ContainerKind::StageDir, seq![(SpanKind::Normal, "stage direction and/or sfx"@)]),
        ),
        container_markdown(
            (
                ContainerKind::ListenerDialogue,
                seq![(SpanKind::Normal, "example listener dialogue, not intended to be voiced"@)],
            ),
        ),
        container_markdown((ContainerKind::PlainText, seq![(SpanKind::Normal, "--8<--"@)])),
    ]
}

/// The blocks of a rendered script: the characters section, the formatting guide, then
/// one block per line.
pub open spec fn script_lines(s: Script) -> Seq<Seq<char>> {
    seq!["## Characters"@] + s.characters@.map_values(|c: Character| character_line(c))
        + guide_lines() + containers_view(s.paragraphs@).map_values(
        |c: (ContainerKind, Seq<(SpanKind, Seq<char>)>)| container_markdown(c),
    )
}

/// The whole rendered script: its blocks with a blank line between each pair.
pub open spec fn script_markdown(s: Script) -> Seq<char> {
    join_with(script_lines(s), "\n\n"@)
}

impl ToMarkdown for TextSpan {
    open spec fn markdown(&self) -> Seq<char> {
        span_markdown(self@)
    }

    fn to_markdown(&self) -> (r: String) {
        let out = span_chars(self);
        string_of(&out)
    }
}

fn span_chars(span: &TextSpan) -> (r: Vec<char>)
    ensures
        r@ == span_markdown(span@),
{
    let c = chars_of(span.contents.as_str());
    match span.kind {
        SpanKind::Normal => c,
        SpanKind::Emphasis => {
            let mut out = chars_of("/");
            extend(&mut out, &c);
            extend(&mut out, &chars_of("/"));
            out
        },
        SpanKind::InlineDirection => {
            let mut out = chars_of("*(");
            extend(&mut out, &c);
            extend(&mut out, &chars_of(")*"));
            out
        },
    }
}

fn span_in_context_chars(ck: ContainerKind, span: &TextSpan) -> (r: Vec<char>)
    ensures
        r@ == span_in_context(ck, span@),
{
    match ck {
        ContainerKind::PlainText => span_chars(span),
        ContainerKind::Spoken => {
            if span.kind == SpanKind::InlineDirection {
                span_chars(span)
            } else {
                let mut out = chars_of("**");
                extend(&mut out, &span_chars(span));
                extend(&mut out, &chars_of("**"));
                out
            }
        },
        _ => {
            if span.kind == SpanKind::InlineDirection {
                let mut out = chars_of("(");
                extend(&mut out, &chars_of(span.contents.as_str()));
                extend(&mut out, &chars_of(")"));
                out
            } else {
                span_chars(span)
            }
        },
    }
}

fn container_chars(c: &TextContainer) -> (r: Vec<char>)
    ensures
        r@ == container_markdown(c@),
{
    let mut buf: Vec<char> = Vec::new();
    let mut i: usize = 0;
    while i < c.spans.len()
        invariant
            0 <= i <= c.spans.len(),
            buf@ == spans_joined(c.kind, c@.1.take(i as int)),
        decreases c.spans.len() - i,
    {
        if i > 0 {
            buf.push(' ');
        }
        extend(&mut buf, &span_in_context_chars(c.kind, &c.spans[i]));
        assert(c@.1.take(i + 1).drop_last() == c@.1.take(i as int));
        i = i + 1;
    }
    assert(c@.1.take(c.spans.len() as int) == c@.1);
    let body = trim_exec(&collapse_spaces_exec(&buf));
    match c.kind {
        ContainerKind::StageDir => {
            let mut out = chars_of("> *[");
            extend(&mut out, &body);
            extend(&mut out, &chars_of("]*"));
            out
        },
        ContainerKind::Sfx => {
            let mut out = chars_of("> *[sfx: ");
            extend(&mut out, &body);
            extend(&mut out, &chars_of("]*"));
            out
        },
        ContainerKind::ListenerDialogue => {
            let mut out = chars_of("> *« ");
            extend(&mut out, &body);
            extend(&mut out, &chars_of(" »*"));
            out
        },
        _ => body,
    }
}

impl ToMarkdown for TextContainer {
    open spec fn markdown(&self) -> Seq<char> {
        container_markdown(self@)
    }

    fn to_markdown(&self) -> (r: String) {
        string_of(&container_chars(self))
    }
}

/// Joins `lines` with `sep` between each pair.
fn join_lines(lines: &Vec<Vec<char>>, sep: &[char]) -> (r: Vec<char>)
    ensures
        r@ == join_with(lines@.map_values(|l: Vec<char>| l@), sep@),
{
    let ghost ls = lines@.map_values(|l: Vec<char>| l@);
    let mut out: Vec<char> = Vec::new();
    let mut i: usize = 0;
    while i < lines.len()
        invariant
            0 <= i <= lines.len(),
            ls == lines@.map_values(|l: Vec<char>| l@),
            out@ == join_with(ls.take(i as int), sep@),
        decreases lines.len() - i,
    {
        if i > 0 {
            extend(&mut out, sep);
        }
        extend(&mut out, &lines[i]);
        assert(ls.take(i + 1).drop_last() == ls.take(i as int));
        i = i + 1;
    }
    assert(ls.take(lines.len() as int) == ls);
    out
}

fn push_line(lines: &mut Vec<Vec<char>>, line: Vec<char>)
    ensures
        final(lines)@.map_values(|l: Vec<char>| l@) == old(lines)@.map_values(|l: Vec<char>| l@).push(
            line@,
        ),
{
    let ghost before = lines@;
    lines.push(line);
    assert(lines@.map_values(|l: Vec<char>| l@) == before.map_values(|l: Vec<char>| l@).push(
        line@,
    ));
}

fn guide_container(kind: ContainerKind, sk: SpanKind, text: &str) -> (r: Vec<char>)
    ensures
        r@ == container_markdown((kind, seq![(sk, text@)])),
{
    let c = TextContainer::new(kind).push(TextSpan::new(sk, text));
    assert(c@.1 == seq![(sk, text@)]);
    container_chars(&c)
}

impl ToMarkdown for Script {
    open spec fn markdown(&self) -> Seq<char> {
        script_markdown(*self)
    }

    fn to_markdown(&self) -> (r: String) {
        let ghost all = script_lines(*self);
        let mut lines: Vec<Vec<char>> = Vec::new();
        push_line(&mut lines, chars_of("## Characters"));
        let ghost chars_part = self.characters@.map_values(|c: Character| character_line(c));
        let mut i: usize = 0;
        while i < self.characters.len()
            invariant
                0 <= i <= self.characters.len(),
                chars_part == self.characters@.map_values(|c: Character| character_line(c)),
                lines@.map_values(|l: Vec<char>| l@) == seq!["## Characters"@] + chars_part.take(
                    i as int,
                ),
            decreases self.characters.len() - i,
        {
            let ch = &self.characters[i];
            let mut line = chars_of("- **");
            extend(&mut line, &chars_of(ch.name.as_str()));
            extend(&mut line, &chars_of("** ∼ "));
            extend(&mut line, &chars_of(ch.description.as_str()));
            let ghost before = lines@.map_values(|l: Vec<char>| l@);
            push_line(&mut lines, line);
            assert(chars_part.take(i + 1) == chars_part.take(i as int).push(chars_part[i as int]));
            i = i + 1;
        }
        assert(chars_part.take(self.characters.len() as int) == chars_part);
        let ghost head = lines@.map_values(|l: Vec<char>| l@);
        push_line(&mut lines, chars_of("## Formatting guide"));
        push_line(&mut lines, guide_container(ContainerKind::Spoken, SpanKind::Normal, "spoken text"));
        push_line(&mut lines, guide_container(ContainerKind::Spoken, SpanKind::Emphasis, "emphasis"));
        push_line(
            &mut lines,
            guide_container(ContainerKind::Spoken, SpanKind::InlineDirection, "tone cue, suggested"),
        );
        push_line(
            &mut lines,
            guide_container(ContainerKind::StageDir, SpanKind::Normal, "stage direction and/or sfx"),
        );
        push_line(
            &mut lines,
            guide_container(
                ContainerKind::ListenerDialogue,
                SpanKind::Normal,
                "example listener dialogue, not intended to be voiced",
            ),
        );
        push_line(&mut lines, guide_container(ContainerKind::PlainText, SpanKind::Normal, "--8<--"));
        assert(lines@.map_values(|l: Vec<char>| l@) == head + guide_lines());
        let ghost head2 = lines@.map_values(|l: Vec<char>| l@);
        let ghost paras = containers_view(self.paragraphs@).map_values(
            |c: (ContainerKind, Seq<(SpanKind, Seq<char>)>)| container_markdown(c),
        );
        let mut j: usize = 0;
        while j < self.paragraphs.len()
            invariant
                0 <= j <= self.paragraphs.len(),
                paras == containers_view(self.paragraphs@).map_values(
                    |c: (ContainerKind, Seq<(SpanKind, Seq<char>)>)| container_markdown(c),
                ),
                lines@.map_values(|l: Vec<char>| l@) == head2 + paras.take(j as int),
            decreases self.paragraphs.len() - j,
        {
            push_line(&mut lines, container_chars(&self.paragraphs[j]));
            assert(paras.take(j + 1) == paras.take(j as int).push(paras[j as int]));
            j = j + 1;
        }
        assert(paras.take(self.paragraphs.len() as int) == paras);
        assert(lines@.map_values(|l: Vec<char>| l@) == all);
        let out = join_lines(&lines, &chars_of("\n\n"));
        string_of(&out)
    }
}

} // verus!
