use vstd::prelude::*;

pub use crate::partition::regex_partition;

use crate::partition::{command_bounds, command_bounds_from, partition_chars, pieces};
use crate::script::{
    containers_view, series_of, spans_view, ContainerKind, Script, SeriesEntry, SpanKind,
    TextContainer, TextSpan,
};
use crate::text::{
    chars_eq, chars_of, extend, find_char, find_char_exec, lemma_find_char, lemma_rfind_char,
    lemma_stop_at, occurs_at, occurs_at_exec, replace_all, replace_chars, rfind_char,
    rfind_char_exec, slice_chars, stop_at, stop_at_exec, string_of, trim, trim_exec,
};
use crate::unescape::{unescape_chars, unescape_text};

verus! {

/// Where the command of a span of text lies: the first backslash, the last `}`, and the
/// last `{` before that, which must stand at least two places after the backslash.
pub open spec fn command_parts(t: Seq<char>) -> Option<(int, int, int)> {
    let b = find_char(t, 0, '\\');
    let q = rfind_char(t, t.len() as int, '}');
    let p = rfind_char(t, q, '{');
    if b < t.len() && q >= 0 && p >= b + 2 {
        Some((b, p, q))
    } else {
        None
    }
}

/// The span that a piece of a line stands for, or the name of the command if it is
/// neither `direct` nor `ul`. Text without a command is a Normal span.
pub open spec fn span_result(raw: Seq<char>) -> Result<(SpanKind, Seq<char>), Seq<char>> {
    let t = unescape_text(raw);
    match command_parts(t) {
        None => Ok((SpanKind::Normal, unescape_text(trim(raw)))),
        Some(parts) => command_span(t, parts),
    }
}

/// The span that the command at `parts` of `t` stands for: `direct` gives an inline
/// direction, `ul` emphasis; any other name is refused.
pub open spec fn command_span(t: Seq<char>, parts: (int, int, int)) -> Result<
    (SpanKind, Seq<char>),
    Seq<char>,
> {
    let cmd = t.subrange(parts.0 + 1, parts.1);
    let arg = unescape_text(trim(t.subrange(parts.1 + 1, parts.2)));
    if cmd == "direct"@ {
        Ok((SpanKind::InlineDirection, arg))
    } else if cmd == "ul"@ {
        Ok((SpanKind::Emphasis, arg))
    } else {
        Err(cmd)
    }
}

proof fn lemma_rfind_at(s: Seq<char>, n: int, p: int, c: char)
    requires
        0 <= p < n <= s.len(),
        s[p] == c,
        forall|j: int| p < j < n ==> s[j] != c,
    ensures
        rfind_char(s, n, c) == p,
    decreases n,
{
    if n - 1 > p {
        lemma_rfind_at(s, n - 1, p, c);
    }
}

proof fn lemma_find_at(s: Seq<char>, i: int, p: int, c: char)
    requires
        0 <= i <= p < s.len(),
        s[p] == c,
        forall|j: int| i <= j < p ==> s[j] != c,
    ensures
        find_char(s, i, c) == p,
    decreases p - i,
{
    if i < p {
        lemma_find_at(s, i + 1, p, c);
    }
}

/// A piece of a line that reads as `\name{arg}` once unescaped, with a name other than
/// `direct` or `ul`, is refused as an unknown inline command that names it.
pub proof fn lemma_unknown_inline_command(raw: Seq<char>, name: Seq<char>, arg: Seq<char>)
    requires
        name.len() >= 1,
        name != "direct"@,
        name != "ul"@,
        forall|j: int| 0 <= j < arg.len() ==> #[trigger] arg[j] != '{',
        unescape_text(raw) == seq!['\\'] + name + seq!['{'] + arg + seq!['}'],
    ensures
        span_result(raw) == Err::<(SpanKind, Seq<char>), Seq<char>>(name),
{
    let t = unescape_text(raw);
    let n = t.len() as int;
    let p = name.len() + 1int;
    assert(t[0] == '\\');
    assert(find_char(t, 0, '\\') == 0);
    lemma_rfind_at(t, n, n - 1, '}');
    assert forall|j: int| p < j < n - 1 implies t[j] != '{' by {
        assert(t[j] == arg[j - p - 1]);
    }
    lemma_rfind_at(t, n - 1, p, '{');
    assert(command_parts(t) == Some((0int, p, n - 1)));
    assert(t.subrange(1, p) == name);
}

/// A line that reads as `\name{body}` once unescaped, with a name that is not `spoken`,
/// `stagedir`, `listener` or `sfx`, is not refused for its name: if it parses, it is a
/// plain-text container.
pub proof fn lemma_unknown_line_command(raw: Seq<char>, name: Seq<char>, body: Seq<char>)
    requires
        name.len() >= 1,
        forall|j: int| 0 <= j < name.len() ==> #[trigger] name[j] != '{',
        name != "spoken"@,
        name != "stagedir"@,
        name != "listener"@,
        name != "sfx"@,
        unescape_text(raw) == seq!['\\'] + name + seq!['{'] + body + seq!['}'],
    ensures
        line_ok(unescape_text(raw)),
        container_result(raw) is Ok ==> container_result(raw)->Ok_0.0 == ContainerKind::PlainText,
{
    let t = unescape_text(raw);
    let p = name.len() + 1int;
    assert forall|j: int| 1 <= j < p implies t[j] != '{' by {
        assert(t[j] == name[j - 1]);
    }
    lemma_find_at(t, 1, p, '{');
    assert(t.subrange(1, p) == name);
}

/// Why a script could not be read.
#[derive(Debug, PartialEq)]
pub enum ScriptError {
    /// A mandatory header command is absent; holds the field's name.
    MissingField(String),
    /// A line is not of the form `\command{body}`; holds the line.
    InvalidLine(String),
    /// A command other than `direct` or `ul` stands inside a line; holds its name.
    UnknownInlineCommand(String),
    /// A line failed to parse; holds the line and the reason.
    Line(String, Box<ScriptError>),
    /// Only the conversion from TeX to Markdown is supported.
    UnsupportedConversion,
}

pub open spec fn is_unknown_command(e: ScriptError, cmd: Seq<char>) -> bool {
    match e {
        ScriptError::UnknownInlineCommand(c) => c@ == cmd,
        _ => false,
    }
}

/// The kind of container that a line command names; any other name gives plain text.
pub open spec fn container_kind_of(cmd: Seq<char>) -> ContainerKind {
    if cmd == "spoken"@ {
        ContainerKind::Spoken
    } else if cmd == "stagedir"@ {
        ContainerKind::StageDir
    } else if cmd == "listener"@ {
        ContainerKind::ListenerDialogue
    } else if cmd == "sfx"@ {
        ContainerKind::Sfx
    } else {
        ContainerKind::PlainText
    }
}

/// Where the body of a line opens: the first `{` after the leading backslash.
pub open spec fn line_brace(t: Seq<char>) -> int {
    find_char(t, 1, '{')
}

/// The line is `\command{body}`: a backslash, a name up to the first `{`, and a body that
/// runs to the `}` that ends the line.
pub open spec fn line_ok(t: Seq<char>) -> bool {
    t.len() >= 1 && t[0] == '\\' && line_brace(t) < t.len() - 1 && t[t.len() - 1] == '}'
}

/// The pieces of the body of a line, split around its commands.
pub open spec fn line_fragments(t: Seq<char>) -> Seq<Seq<char>> {
    let body = t.subrange(line_brace(t) + 1, t.len() - 1);
    pieces(body, command_bounds_from(body, 0), 0)
}

/// The spans of the non-empty pieces, in order, or the first unknown command.
pub open spec fn spans_of(frags: Seq<Seq<char>>) -> Result<Seq<(SpanKind, Seq<char>)>, Seq<char>>
    decreases frags.len(),
{
    if frags.len() == 0 {
        Ok(seq![])
    } else {
        match spans_of(frags.drop_last()) {
            Err(c) => Err(c),
            Ok(v) => if frags.last().len() == 0 {
                Ok(v)
            } else {
                match span_result(frags.last()) {
                    Ok(sp) => Ok(v.push(sp)),
                    Err(c) => Err(c),
                }
            },
        }
    }
}

/// The container that a line stands for; `Err(None)` when the line is not of the form
/// `\command{body}`, `Err(Some(name))` for an unknown command inside it.
pub open spec fn container_result(raw: Seq<char>) -> Result<
    (ContainerKind, Seq<(SpanKind, Seq<char>)>),
    Option<Seq<char>>,
> {
    let t = unescape_text(raw);
    if !line_ok(t) {
        Err(None)
    } else {
        match spans_of(line_fragments(t)) {
            Ok(v) => Ok((container_kind_of(t.subrange(1, line_brace(t))), v)),
            Err(c) => Err(Some(c)),
        }
    }
}

/// `e` is the error for the line `t` (after unescaping) that `err` describes.
pub open spec fn container_error_is(e: ScriptError, t: Seq<char>, err: Option<Seq<char>>) -> bool {
    match err {
        None => match e {
            ScriptError::InvalidLine(l) => l@ == t,
            _ => false,
        },
        Some(c) => match e {
            ScriptError::Line(l, b) => l@ == t && is_unknown_command(*b, c),
            _ => false,
        },
    }
}

fn container_kind_exec(cmd: &[char]) -> (k: ContainerKind)
    ensures
        k == container_kind_of(cmd@),
{
    if chars_eq(cmd, &chars_of("spoken")) {
        ContainerKind::Spoken
    } else if chars_eq(cmd, &chars_of("stagedir")) {
        ContainerKind::StageDir
    } else if chars_eq(cmd, &chars_of("listener")) {
        ContainerKind::ListenerDialogue
    } else if chars_eq(cmd, &chars_of("sfx")) {
        ContainerKind::Sfx
    } else {
        ContainerKind::PlainText
    }
}

impl TextSpan {
    /// Reads one piece of a line (see `span_result`).
    pub fn try_from(value: &Tex) -> (r: Result<TextSpan, ScriptError>)
        ensures
            span_result(value.text@) is Ok <==> r is Ok,
            r is Ok ==> r->Ok_0@ == span_result(value.text@)->Ok_0,
            r is Err ==> is_unknown_command(r->Err_0, span_result(value.text@)->Err_0),
    {
        let raw = chars_of(value.text.as_str());
        let t = unescape_chars(&raw);
        let b = find_char_exec(&t, 0, '\\');
        let q = rfind_char_exec(&t, t.len(), '}');
        let parts = match q {
            None => None,
            Some(q) => match rfind_char_exec(&t, q, '{') {
                None => None,
                Some(p) => if b < t.len() && p >= 2 && p - 2 >= b {
                    Some((b, p, q))
                } else {
                    None
                },
            },
        };
        proof {
            lemma_rfind_char(t@, t.len() as int, '}');
            if q is Some {
                lemma_rfind_char(t@, q->0 as int, '{');
            }
        }
        match parts {
            None => {
                let v = unescape_chars(&trim_exec(&raw));
                Ok(TextSpan { kind: SpanKind::Normal, contents: string_of(&v) })
            },
            Some((b, p, q)) => {
                let cmd = slice_chars(&t, b + 1, p);
                let arg = unescape_chars(&trim_exec(&slice_chars(&t, p + 1, q)));
                if chars_eq(&cmd, &chars_of("direct")) {
                    Ok(TextSpan { kind: SpanKind::InlineDirection, contents: string_of(&arg) })
                } else if chars_eq(&cmd, &chars_of("ul")) {
                    Ok(TextSpan { kind: SpanKind::Emphasis, contents: string_of(&arg) })
                } else {
                    Err(ScriptError::UnknownInlineCommand(string_of(&cmd)))
                }
            },
        }
    }
}

impl TextContainer {
    /// Reads one line of a script (see `container_result`).
    pub fn try_from(value: &Tex) -> (r: Result<TextContainer, ScriptError>)
        ensures
            container_result(value.text@) is Ok <==> r is Ok,
            r is Ok ==> r->Ok_0@ == container_result(value.text@)->Ok_0,
            r is Err ==> container_error_is(
                r->Err_0,
                unescape_text(value.text@),
                container_result(value.text@)->Err_0,
            ),
    {
        let t = unescape_chars(&chars_of(value.text.as_str()));
        let n = t.len();
        if n == 0 || t[0] != '\\' {
            return Err(ScriptError::InvalidLine(string_of(&t)));
        }
        let p = find_char_exec(&t, 1, '{');
        if p >= n - 1 || t[n - 1] != '}' {
            return Err(ScriptError::InvalidLine(string_of(&t)));
        }
        let kind = container_kind_exec(&slice_chars(&t, 1, p));
        let body = slice_chars(&t, p + 1, n - 1);
        let bounds = command_bounds(&body);
        let frags = partition_chars(&body, &bounds);
        let ghost fv = frags@.map_values(|v: Vec<char>| v@);
        assert(fv == line_fragments(t@));
        match spans_from_fragments(&frags) {
            Ok(spans) => Ok(TextContainer { kind, spans }),
            Err(e) => Err(ScriptError::Line(string_of(&t), Box::new(e))),
        }
    }
}

/// The spans of the non-empty pieces, or the first unknown command.
fn spans_from_fragments(frags: &Vec<Vec<char>>) -> (r: Result<Vec<TextSpan>, ScriptError>)
    ensures
        spans_of(frags@.map_values(|v: Vec<char>| v@)) is Ok <==> r is Ok,
        r is Ok ==> spans_view(r->Ok_0@) == spans_of(frags@.map_values(|v: Vec<char>| v@))->Ok_0,
        r is Err ==> is_unknown_command(
            r->Err_0,
            spans_of(frags@.map_values(|v: Vec<char>| v@))->Err_0,
        ),
{
    let ghost fv = frags@.map_values(|v: Vec<char>| v@);
    let mut spans: Vec<TextSpan> = Vec::new();
    let mut i: usize = 0;
    assert(fv.take(0) == Seq::<Seq<char>>::empty());
    assert(spans_view(spans@) == Seq::<(SpanKind, Seq<char>)>::empty());
    while i < frags.len()
        invariant
            0 <= i <= frags.len(),
            fv == frags@.map_values(|v: Vec<char>| v@),
            spans_of(fv.take(i as int)) is Ok,
            spans_of(fv.take(i as int))->Ok_0 == spans_view(spans@),
        decreases frags.len() - i,
    {
        assert(fv.take(i + 1).drop_last() == fv.take(i as int));
        assert(fv.take(i + 1).last() == frags[i as int]@);
        if frags[i].len() > 0 {
            let piece = Tex { text: string_of(&frags[i]) };
            match TextSpan::try_from(&piece) {
                Ok(span) => {
                    let ghost before = spans@;
                    spans.push(span);
                    assert(spans_view(spans@) == spans_view(before).push(span@));
                },
                Err(e) => {
                    proof {
                        lemma_spans_of_err(fv, i as int);
                    }
                    return Err(e);
                },
            }
        }
        i = i + 1;
    }
    assert(fv.take(frags.len() as int) == fv);
    Ok(spans)
}

/// An error in the pieces up to `i` is the error of all the pieces.
proof fn lemma_spans_of_err(fv: Seq<Seq<char>>, i: int)
    requires
        0 <= i < fv.len(),
        spans_of(fv.take(i + 1)) is Err,
    ensures
        spans_of(fv) == spans_of(fv.take(i + 1)),
    decreases fv.len() - i,
{
    if i + 1 < fv.len() {
        assert(fv.take(i + 2).drop_last() == fv.take(i + 1));
        lemma_spans_of_err(fv, i + 1);
    } else {
        assert(fv.take(i + 1) == fv);
    }
}

/// The first command `\key{value}` at or after position `i` whose value ends on its
/// line: where its value starts and ends.
pub open spec fn search_at(s: Seq<char>, i: int, key: Seq<char>) -> Option<(int, int)>
    decreases s.len() - i,
{
    if i < 0 || i >= s.len() {
        None
    } else {
        let h = seq!['\\'] + key + seq!['{'];
        let j = stop_at(s, i + h.len(), seq!['}']);
        if occurs_at(s, i, h) && occurs_at(s, j, seq!['}']) {
            Some((i + h.len(), j))
        } else {
            search_at(s, i + 1, key)
        }
    }
}

/// The value of the first command `\key{value}` in `s` (the value runs to the first `}`
/// and stays on one line).
pub open spec fn search_value(s: Seq<char>, key: Seq<char>) -> Option<Seq<char>> {
    match search_at(s, 0, key) {
        Some(r) => Some(s.subrange(r.0, r.1)),
        None => None,
    }
}

proof fn lemma_search_at(s: Seq<char>, i: int, key: Seq<char>)
    requires
        0 <= i,
    ensures
        search_at(s, i, key) matches Some(r) ==> 0 <= r.0 <= r.1 <= s.len(),
    decreases s.len() - i,
{
    if i < s.len() {
        let h = seq!['\\'] + key + seq!['{'];
        lemma_stop_at(s, i + h.len(), seq!['}']);
        lemma_search_at(s, i + 1, key);
    }
}

fn search_exec(s: &[char], key: &[char]) -> (r: Option<(usize, usize)>)
    ensures
        r is None ==> search_at(s@, 0, key@) is None,
        r matches Some(p) ==> search_at(s@, 0, key@) == Some((p.0 as int, p.1 as int)) && p.0
            <= p.1 <= s.len(),
{
    let mut h: Vec<char> = Vec::new();
    h.push('\\');
    extend(&mut h, key);
    h.push('{');
    let mut close: Vec<char> = Vec::new();
    close.push('}');
    assert(h@ == seq!['\\'] + key@ + seq!['{']);
    assert(close@ == seq!['}']);
    proof {
        lemma_search_at(s@, 0, key@);
    }
    let mut i: usize = 0;
    while i < s.len()
        invariant
            0 <= i <= s.len(),
            h@ == seq!['\\'] + key@ + seq!['{'],
            close@ == seq!['}'],
            search_at(s@, 0, key@) == search_at(s@, i as int, key@),
        decreases s.len() - i,
    {
        if occurs_at_exec(s, i, &h) {
            let j = stop_at_exec(s, i + h.len(), &close);
            if occurs_at_exec(s, j, &close) {
                proof {
                    lemma_stop_at(s@, i + h.len(), seq!['}']);
                }
                return Some((i + h.len(), j));
            }
        }
        i = i + 1;
    }
    None
}

/// Looks up the value of the command `\command_key{...}` in `string` (see `search_value`).
pub fn search_tex<'a>(command_key: &str, string: &'a str) -> (r: Option<&'a str>)
    ensures
        r is None <==> search_value(string@, command_key@) is None,
        r matches Some(v) ==> search_value(string@, command_key@) == Some(v@),
{
    let s = chars_of(string);
    let key = chars_of(command_key);
    match search_exec(&s, &key) {
        Some((a, b)) => Some(string.substring_char(a, b)),
        None => None,
    }
}

/// The bracketed tags `[tag]` of `s` from position `i` on, each closed on its line.
pub open spec fn tags_from(s: Seq<char>, i: int) -> Seq<Seq<char>>
    decreases s.len() - i via tags_from_decreases
{
    if i < 0 || i >= s.len() {
        seq![]
    } else if s[i] == '[' && occurs_at(s, stop_at(s, i + 1, seq![']']), seq![']']) {
        let j = stop_at(s, i + 1, seq![']']);
        seq![s.subrange(i + 1, j)] + tags_from(s, j + 1)
    } else {
        tags_from(s, i + 1)
    }
}

#[via_fn]
proof fn tags_from_decreases(s: Seq<char>, i: int) {
    if 0 <= i < s.len() {
        lemma_stop_at(s, i + 1, seq![']']);
    }
}

/// The tags of a header value such as `[a][b][c]`, in order.
pub fn parse_tags(s: &[char]) -> (r: Vec<String>)
    ensures
        r@.map_values(|t: String| t@) == tags_from(s@, 0),
{
    let mut close: Vec<char> = Vec::new();
    close.push(']');
    let mut r: Vec<String> = Vec::new();
    let mut i: usize = 0;
    assert(r@.map_values(|t: String| t@) == Seq::<Seq<char>>::empty());
    while i < s.len()
        invariant
            0 <= i <= s.len(),
            close@ == seq![']'],
            r@.map_values(|t: String| t@) + tags_from(s@, i as int) == tags_from(s@, 0),
        decreases s.len() - i,
    {
        let ghost before = r@.map_values(|t: String| t@);
        if s[i] == '[' {
            let j = stop_at_exec(s, i + 1, &close);
            if occurs_at_exec(s, j, &close) {
                let tag = string_of(&slice_chars(s, i + 1, j));
                r.push(tag);
                assert(r@.map_values(|t: String| t@) == before.push(tag@));
                assert(before.push(tag@) + tags_from(s@, j + 1) == before + tags_from(
                    s@,
                    i as int,
                ));
                i = j + 1;
                continue;
            }
        }
        i = i + 1;
    }
    r
}

/// The first position at or after `i` where `p` occurs, or `s.len()` if there is none.
pub open spec fn find_seq(s: Seq<char>, i: int, p: Seq<char>) -> int
    decreases s.len() - i,
{
    if i < 0 || i >= s.len() {
        s.len() as int
    } else if occurs_at(s, i, p) {
        i
    } else {
        find_seq(s, i + 1, p)
    }
}

/// Where the body of a script starts: after the first `\clearpage`, or at the start.
pub open spec fn body_start(s: Seq<char>) -> int {
    let k = find_seq(s, 0, "\\clearpage"@);
    if k < s.len() {
        k + "\\clearpage"@.len()
    } else {
        0
    }
}

/// The body of a script without its `\end{document}` markers.
pub open spec fn body_text(s: Seq<char>) -> Seq<char> {
    replace_all(s.subrange(body_start(s), s.len() as int), "\\end{document}"@, seq![])
}

/// The non-empty lines of `s` from position `i` on, in order.
pub open spec fn lines_from(s: Seq<char>, i: int) -> Seq<Seq<char>>
    decreases s.len() - i via lines_from_decreases
{
    if i < 0 || i >= s.len() {
        seq![]
    } else {
        let e = find_char(s, i, '\n');
        let head = if e > i {
            seq![s.subrange(i, e)]
        } else {
            seq![]
        };
        if e < s.len() {
            head + lines_from(s, e + 1)
        } else {
            head
        }
    }
}

#[via_fn]
proof fn lines_from_decreases(s: Seq<char>, i: int) {
    if 0 <= i < s.len() {
        lemma_find_char(s, i, '\n');
    }
}

fn split_lines(s: &[char]) -> (r: Vec<Vec<char>>)
    ensures
        r@.map_values(|v: Vec<char>| v@) == lines_from(s@, 0),
{
    let mut r: Vec<Vec<char>> = Vec::new();
    let mut i: usize = 0;
    assert(r@.map_values(|v: Vec<char>| v@) == Seq::<Seq<char>>::empty());
    while i < s.len()
        invariant
            0 <= i <= s.len(),
            r@.map_values(|v: Vec<char>| v@) + lines_from(s@, i as int) == lines_from(s@, 0),
        decreases s.len() - i,
    {
        let e = find_char_exec(s, i, '\n');
        proof {
            lemma_find_char(s@, i as int, '\n');
        }
        let ghost before = r@.map_values(|v: Vec<char>| v@);
        let ghost head: Seq<Seq<char>> = if e > i {
            seq![s@.subrange(i as int, e as int)]
        } else {
            seq![]
        };
        if e > i {
            let line = slice_chars(s, i, e);
            r.push(line);
            assert(r@.map_values(|v: Vec<char>| v@) == before.push(line@));
        } else {
            assert(before + head == before);
        }
        assert(r@.map_values(|v: Vec<char>| v@) == before + head);
        if e >= s.len() {
            assert(lines_from(s@, i as int) == head);
            return r;
        }
        assert(lines_from(s@, i as int) == head + lines_from(s@, e + 1));
        assert(before + head + lines_from(s@, e + 1) == before + (head + lines_from(s@, e + 1)));
        i = e + 1;
    }
    r
}

/// The containers of the lines, in order, or the first line that fails with its reason.
pub open spec fn containers_of(lines: Seq<Seq<char>>) -> Result<
    Seq<(ContainerKind, Seq<(SpanKind, Seq<char>)>)>,
    (Seq<char>, Option<Seq<char>>),
>
    decreases lines.len(),
{
    if lines.len() == 0 {
        Ok(seq![])
    } else {
        match containers_of(lines.drop_last()) {
            Err(e) => Err(e),
            Ok(v) => match container_result(lines.last()) {
                Ok(c) => Ok(v.push(c)),
                Err(e) => Err((lines.last(), e)),
            },
        }
    }
}

proof fn lemma_containers_of_err(lv: Seq<Seq<char>>, i: int)
    requires
        0 <= i < lv.len(),
        containers_of(lv.take(i + 1)) is Err,
    ensures
        containers_of(lv) == containers_of(lv.take(i + 1)),
    decreases lv.len() - i,
{
    if i + 1 < lv.len() {
        assert(lv.take(i + 2).drop_last() == lv.take(i + 1));
        lemma_containers_of_err(lv, i + 1);
    } else {
        assert(lv.take(i + 1) == lv);
    }
}

/// `e` is the error for a failed line `line` whose reason `err` describes.
pub open spec fn line_error_is(e: ScriptError, line: Seq<char>, err: Option<Seq<char>>) -> bool {
    match e {
        ScriptError::Line(l, b) => l@ == line && container_error_is(*b, unescape_text(line), err),
        _ => false,
    }
}

fn containers_from_lines(lines: &Vec<Vec<char>>) -> (r: Result<Vec<TextContainer>, ScriptError>)
    ensures
        containers_of(lines@.map_values(|v: Vec<char>| v@)) is Ok <==> r is Ok,
        r is Ok ==> containers_view(r->Ok_0@) == containers_of(
            lines@.map_values(|v: Vec<char>| v@),
        )->Ok_0,
        r is Err ==> line_error_is(
            r->Err_0,
            containers_of(lines@.map_values(|v: Vec<char>| v@))->Err_0.0,
            containers_of(lines@.map_values(|v: Vec<char>| v@))->Err_0.1,
        ),
{
    let ghost lv = lines@.map_values(|v: Vec<char>| v@);
    let mut out: Vec<TextContainer> = Vec::new();
    let mut i: usize = 0;
    assert(lv.take(0) == Seq::<Seq<char>>::empty());
    assert(containers_view(out@) == Seq::<(ContainerKind, Seq<(SpanKind, Seq<char>)>)>::empty());
    while i < lines.len()
        invariant
            0 <= i <= lines.len(),
            lv == lines@.map_values(|v: Vec<char>| v@),
            containers_of(lv.take(i as int)) is Ok,
            containers_of(lv.take(i as int))->Ok_0 == containers_view(out@),
        decreases lines.len() - i,
    {
        assert(lv.take(i + 1).drop_last() == lv.take(i as int));
        assert(lv.take(i + 1).last() == lines[i as int]@);
        let text = string_of(&lines[i]);
        let line = Tex { text };
        match TextContainer::try_from(&line) {
            Ok(c) => {
                let ghost before = out@;
                out.push(c);
                assert(containers_view(out@) == containers_view(before).push(c@));
            },
            Err(e) => {
                proof {
                    lemma_containers_of_err(lv, i as int);
                }
                return Err(ScriptError::Line(string_of(&lines[i]), Box::new(e)));
            },
        }
        i = i + 1;
    }
    assert(lv.take(lines.len() as int) == lv);
    Ok(out)
}

/// The header commands, in the order they are looked up: title, author, series, tags,
/// summary.
pub open spec fn field_key(i: int) -> Seq<char> {
    if i == 0 {
        "renewcommand{\\SceneName}"@
    } else if i == 1 {
        "scriptAuthor"@
    } else if i == 2 {
        "scriptSeries"@
    } else if i == 3 {
        "scriptTags"@
    } else {
        "summary"@
    }
}

/// The names of the header fields, in the same order as `field_key`.
pub open spec fn field_name(i: int) -> Seq<char> {
    if i == 0 {
        "title"@
    } else if i == 1 {
        "author"@
    } else if i == 2 {
        "series"@
    } else if i == 3 {
        "tags"@
    } else {
        "summary"@
    }
}

/// A document that holds every header field but one is refused for that one: reading it
/// fails with the missing field's name.
pub proof fn lemma_missing_field_named(s: Seq<char>, field: int)
    requires
        0 <= field < 5,
        search_value(s, field_key(field)) is None,
        forall|j: int| 0 <= j < 5 && j != field ==> search_value(s, #[trigger] field_key(j)) is Some,
    ensures
        missing_field(s) == Some(field_name(field)),
{
    if field != 0 {
        assert(search_value(s, field_key(0)) is Some);
    }
    if field != 1 {
        assert(search_value(s, field_key(1)) is Some);
    }
    if field != 2 {
        assert(search_value(s, field_key(2)) is Some);
    }
    if field != 3 {
        assert(search_value(s, field_key(3)) is Some);
    }
    if field != 4 {
        assert(search_value(s, field_key(4)) is Some);
    }
}

/// The first mandatory header field that `s` lacks, by name, checked in the order title,
/// author, series, tags, summary.
pub open spec fn missing_field(s: Seq<char>) -> Option<Seq<char>> {
    if search_value(s, field_key(0)) is None {
        Some(field_name(0))
    } else if search_value(s, field_key(1)) is None {
        Some(field_name(1))
    } else if search_value(s, field_key(2)) is None {
        Some(field_name(2))
    } else if search_value(s, field_key(3)) is None {
        Some(field_name(3))
    } else if search_value(s, field_key(4)) is None {
        Some(field_name(4))
    } else {
        None
    }
}

/// `r` is the script that the markup `s` describes, given that no header field is missing
/// and every line parses.
pub open spec fn script_matches(r: Script, s: Seq<char>) -> bool {
    &&& r.title@ == search_value(s, field_key(0))->0
    &&& r.author@ == search_value(s, field_key(1))->0
    &&& r.series@ == series_of(search_value(s, field_key(2))->0)
    &&& r.tags@.map_values(|t: String| t@) == tags_from(search_value(s, field_key(3))->0, 0)
    &&& r.summary@ == search_value(s, field_key(4))->0
    &&& r.date is None
    &&& r.characters@.len() == 0
    &&& containers_view(r.paragraphs@) == containers_of(lines_from(body_text(s), 0))->Ok_0
}

fn field_value(s: &[char], key: &str) -> (r: Option<Vec<char>>)
    ensures
        r is None <==> search_value(s@, key@) is None,
        r matches Some(v) ==> search_value(s@, key@) == Some(v@),
{
    match search_exec(s, &chars_of(key)) {
        Some((a, b)) => Some(slice_chars(s, a, b)),
        None => None,
    }
}

fn missing(name: &str) -> (r: Result<Script, ScriptError>)
    ensures
        r matches Err(ScriptError::MissingField(f)) && f@ == name@,
{
    Err(ScriptError::MissingField(name.to_owned()))
}

impl Script {
    /// Whether the markup `s` holds every header field and each line of its body parses.
    pub open spec fn try_from_ok(s: Seq<char>) -> bool {
        missing_field(s) is None && containers_of(lines_from(body_text(s), 0)) is Ok
    }

    /// Reads a whole script: its header fields, then each non-empty line of its body, which
    /// starts after `\clearpage` (or at the start) and loses its `\end{document}`.
    pub fn try_from(value: &Tex) -> (r: Result<Script, ScriptError>)
        ensures
            r is Ok <==> Script::try_from_ok(value.text@),
            missing_field(value.text@) matches Some(f) ==> r matches Err(
                ScriptError::MissingField(g),
            ) && g@ == f,
            missing_field(value.text@) is None ==> (r is Ok <==> containers_of(
                lines_from(body_text(value.text@), 0),
            ) is Ok),
            r is Ok ==> script_matches(r->Ok_0, value.text@),
            missing_field(value.text@) is None && r is Err ==> line_error_is(
                r->Err_0,
                containers_of(lines_from(body_text(value.text@), 0))->Err_0.0,
                containers_of(lines_from(body_text(value.text@), 0))->Err_0.1,
            ),
    {
        let s = chars_of(value.text.as_str());
        let title = match field_value(&s, "renewcommand{\\SceneName}") {
            Some(v) => v,
            None => return missing("title"),
        };
        let author = match field_value(&s, "scriptAuthor") {
            Some(v) => v,
            None => return missing("author"),
        };
        let series = match field_value(&s, "scriptSeries") {
            Some(v) => v,
            None => return missing("series"),
        };
        let tags = match field_value(&s, "scriptTags") {
            Some(v) => v,
            None => return missing("tags"),
        };
        let summary = match field_value(&s, "summary") {
            Some(v) => v,
            None => return missing("summary"),
        };
        let series_text = string_of(&series);
        let series = SeriesEntry::from(series_text.as_str());
        let tags = parse_tags(&tags);
        let start = body_start_exec(&s);
        let body = replace_chars(&slice_chars(&s, start, s.len()), "\\end{document}", "");
        assert(""@ == Seq::<char>::empty()) by {
            reveal_strlit("");
        }
        let lines = split_lines(&body);
        let paragraphs = match containers_from_lines(&lines) {
            Ok(v) => v,
            Err(e) => return Err(e),
        };
        Ok(
            Script {
                author: string_of(&author),
                title: string_of(&title),
                series,
                tags,
                date: None,
                summary: string_of(&summary),
                characters: Vec::new(),
                paragraphs,
            },
        )
    }
}

/// The command of a well-formed line whose name is not one of the known container kinds:
/// such a line is read as plain text, and the name is worth a warning.
pub open spec fn line_command_warning(raw: Seq<char>) -> Option<Seq<char>> {
    let t = unescape_text(raw);
    if line_ok(t) && container_kind_of(t.subrange(1, line_brace(t))) == ContainerKind::PlainText {
        Some(t.subrange(1, line_brace(t)))
    } else {
        None
    }
}

/// The unknown line commands of `lines`, in order, as far as reading goes: up to and
/// including the first line that fails to parse.
pub open spec fn unknown_commands(lines: Seq<Seq<char>>) -> Seq<Seq<char>>
    decreases lines.len(),
{
    if lines.len() == 0 {
        seq![]
    } else if containers_of(lines.drop_last()) is Err {
        unknown_commands(lines.drop_last())
    } else {
        unknown_commands(lines.drop_last()) + match line_command_warning(lines.last()) {
            Some(c) => seq![c],
            None => seq![],
        }
    }
}

/// Once a line fails, later lines add no warnings.
proof fn lemma_unknown_commands_stop(lv: Seq<Seq<char>>, k: int)
    requires
        0 < k <= lv.len(),
        containers_of(lv.take(k)) is Err,
    ensures
        unknown_commands(lv) == unknown_commands(lv.take(k)),
    decreases lv.len() - k,
{
    if k < lv.len() {
        assert(lv.take(k + 1).drop_last() == lv.take(k));
        lemma_unknown_commands_stop(lv, k + 1);
    } else {
        assert(lv.take(k) == lv);
    }
}

impl Script {
    /// The names of the line commands in the body of `value` that are not known container
    /// kinds (such lines are read as plain text), in order, up to and including the first
    /// line that fails to parse, where reading stops.
    pub fn unknown_line_commands(value: &Tex) -> (r: Vec<String>)
        ensures
            r@.map_values(|c: String| c@) == unknown_commands(
                lines_from(body_text(value.text@), 0),
            ),
    {
        let s = chars_of(value.text.as_str());
        let start = body_start_exec(&s);
        let body = replace_chars(&slice_chars(&s, start, s.len()), "\\end{document}", "");
        assert(""@ == Seq::<char>::empty()) by {
            reveal_strlit("");
        }
        let lines = split_lines(&body);
        let ghost lv = lines@.map_values(|v: Vec<char>| v@);
        let mut out: Vec<String> = Vec::new();
        let mut i: usize = 0;
        assert(lv.take(0) == Seq::<Seq<char>>::empty());
        assert(out@.map_values(|c: String| c@) == Seq::<Seq<char>>::empty());
        while i < lines.len()
            invariant
                0 <= i <= lines.len(),
                lv == lines@.map_values(|v: Vec<char>| v@),
                lv == lines_from(body_text(value.text@), 0),
                out@.map_values(|c: String| c@) == unknown_commands(lv.take(i as int)),
                containers_of(lv.take(i as int)) is Ok,
            decreases lines.len() - i,
        {
            assert(lv.take(i + 1).drop_last() == lv.take(i as int));
            assert(lv.take(i + 1).last() == lines[i as int]@);
            let ghost before = out@.map_values(|c: String| c@);
            let t = unescape_chars(&lines[i]);
            let n = t.len();
            if n > 0 && t[0] == '\\' {
                let p = find_char_exec(&t, 1, '{');
                if p < n - 1 && t[n - 1] == '}' {
                    let cmd = slice_chars(&t, 1, p);
                    if container_kind_exec(&cmd) == ContainerKind::PlainText {
                        let name = string_of(&cmd);
                        out.push(name);
                        assert(out@.map_values(|c: String| c@) == before.push(name@));
                    }
                }
            }
            assert(out@.map_values(|c: String| c@) == unknown_commands(lv.take(i + 1)));
            let line = Tex { text: string_of(&lines[i]) };
            if TextContainer::try_from(&line).is_err() {
                proof {
                    lemma_unknown_commands_stop(lv, i + 1);
                }
                return out;
            }
            i = i + 1;
        }
        assert(lv.take(lines.len() as int) == lv);
        out
    }
}

fn body_start_exec(s: &[char]) -> (r: usize)
    ensures
        r == body_start(s@),
        r <= s.len(),
{
    let p = chars_of("\\clearpage");
    let mut i: usize = 0;
    while i < s.len()
        invariant
            0 <= i <= s.len(),
            p@ == "\\clearpage"@,
            find_seq(s@, 0, p@) == find_seq(s@, i as int, p@),
        decreases s.len() - i,
    {
        if occurs_at_exec(s, i, &p) {
            return i + p.len();
        }
        i = i + 1;
    }
    0
}

/// A string of script markup.
pub struct Tex {
    pub text: String,
}

impl From<String> for Tex {
    fn from(value: String) -> (r: Tex) {
        Tex { text: value }
    }
}

impl vstd::std_specs::convert::FromSpecImpl<String> for Tex {
    open spec fn obeys_from_spec() -> bool {
        true
    }

    open spec fn from_spec(v: String) -> Tex {
        Tex { text: v }
    }
}

impl Tex {
    /// The markup in `value`.
    pub fn from(value: &str) -> (r: Tex)
        ensures
            r.text@ == value@,
    {
        Tex { text: value.to_owned() }
    }

    /// The text of `s` with the markup idioms written out (see `unescape_text`).
    pub fn unescaped(s: &str) -> (r: String)
        ensures
            r@ == unescape_text(s@),
    {
        string_of(&unescape_chars(&chars_of(s)))
    }

    /// Writes out the markup idioms of the text in place.
    pub fn unescape(&mut self)
        ensures
            final(self).text@ == unescape_text(old(self).text@),
    {
        self.text = Tex::unescaped(self.text.as_str());
    }
}

} // verus!
