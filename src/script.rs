use num_format::ToFormattedString;
use vstd::prelude::*;

use crate::text::{
    chars_of, decimal, decimal_exec, digit_char, extend, no_newline_between, occurs_at,
    occurs_at_exec, string_of,
};

verus! {

/// A word count split into spoken and unspoken words.
#[derive(Debug, PartialEq, Eq, Structural)]
pub struct WordCount {
    spoken: usize,
    unspoken: usize,
}

/// The sum of two counts, bucket by bucket.
pub open spec fn count_add(a: (nat, nat), b: (nat, nat)) -> (nat, nat) {
    (a.0 + b.0, a.1 + b.1)
}

/// The share of spoken words as the pair (spoken, total), undefined (`None`) when there are
/// no words at all.
pub open spec fn density(c: (nat, nat)) -> Option<(nat, nat)> {
    if c.0 + c.1 == 0 {
        None
    } else {
        Some((c.0, c.0 + c.1))
    }
}

impl View for WordCount {
    type V = (nat, nat);

    closed spec fn view(&self) -> (nat, nat) {
        (self.spoken as nat, self.unspoken as nat)
    }
}

impl WordCount {
    /// The count with no words.
    pub fn zero() -> (r: Self)
        ensures
            r@ == (0nat, 0nat),
    {
        Self::new(0, 0)
    }

    /// A count with the given numbers of spoken and unspoken words.
    pub fn new(spoken: usize, unspoken: usize) -> (r: Self)
        ensures
            r@ == (spoken as nat, unspoken as nat),
    {
        Self { spoken, unspoken }
    }

    /// A count with no unspoken words.
    pub fn only_spoken(words: usize) -> (r: Self)
        ensures
            r@ == (words as nat, 0nat),
    {
        Self { spoken: words, unspoken: 0 }
    }

    /// A count with no spoken words.
    pub fn only_unspoken(words: usize) -> (r: Self)
        ensures
            r@ == (0nat, words as nat),
    {
        Self { spoken: 0, unspoken: words }
    }

    /// The number of spoken words.
    pub fn spoken(&self) -> (r: usize)
        ensures
            r == self@.0,
    {
        self.spoken
    }

    /// The number of unspoken words.
    pub fn unspoken(&self) -> (r: usize)
        ensures
            r == self@.1,
    {
        self.unspoken
    }

    /// The number of words, spoken and unspoken.
    pub fn total(&self) -> (r: usize)
        requires
            self@.0 + self@.1 <= usize::MAX,
        ensures
            r == self@.0 + self@.1,
    {
        self.spoken + self.unspoken
    }

    /// The share of spoken words as the pair (spoken, total); `None` when there are no
    /// words at all, where the share is undefined.
    pub fn speech_density(&self) -> (r: Option<(usize, usize)>)
        requires
            self@.0 + self@.1 <= usize::MAX,
        ensures
            r is None <==> density(self@) is None,
            r matches Some(p) ==> density(self@) == Some((p.0 as nat, p.1 as nat)),
    {
        let t = self.total();
        if t == 0 {
            None
        } else {
            Some((self.spoken, t))
        }
    }

    /// Adds two counts, bucket by bucket, or `None` when a bucket does not fit in `usize`.
    pub fn checked_add(self, other: Self) -> (r: Option<Self>)
        ensures
            r is None <==> (self@.0 + other@.0 > usize::MAX || self@.1 + other@.1 > usize::MAX),
            r matches Some(w) ==> w@ == count_add(self@, other@),
    {
        match (self.spoken.checked_add(other.spoken), self.unspoken.checked_add(other.unspoken)) {
            (Some(spoken), Some(unspoken)) => Some(Self { spoken, unspoken }),
            _ => None,
        }
    }

    /// Adds two counts, bucket by bucket.
    pub fn add(self, other: Self) -> (r: Self)
        requires
            self@.0 + other@.0 <= usize::MAX,
            self@.1 + other@.1 <= usize::MAX,
        ensures
            r@ == count_add(self@, other@),
    {
        Self { spoken: self.spoken + other.spoken, unspoken: self.unspoken + other.unspoken }
    }
}

/// The decimal digits of `n` in groups of three, separated by commas.
pub open spec fn grouped(n: nat) -> Seq<char>
    decreases n,
{
    if n < 1000 {
        decimal(n)
    } else {
        grouped(n / 1000) + seq![
            ',',
            digit_char((n % 1000) / 100),
            digit_char((n % 100) / 10),
            digit_char(n % 10),
        ]
    }
}

/// Relies on num_format's `ToFormattedString` with `Locale::en`: the decimal digits of `n`
/// in groups of three, separated by commas.
#[verifier::external_body]
fn grouped_text(n: usize) -> (r: String)
    ensures
        r@ == grouped(n as nat),
{
    n.to_formatted_string(&num_format::Locale::en)
}

impl WordCount {
    /// The count as `S spoken + U unspoken -> T total`, with the thousands of each number
    /// separated by commas.
    pub fn counts_text(&self) -> (r: String)
        requires
            self@.0 + self@.1 <= usize::MAX,
        ensures
            r@ == grouped(self@.0) + " spoken + "@ + grouped(self@.1) + " unspoken -> "@ + grouped(
                self@.0 + self@.1,
            ) + " total"@,
    {
        let mut out = chars_of(grouped_text(self.spoken).as_str());
        extend(&mut out, &chars_of(" spoken + "));
        extend(&mut out, &chars_of(grouped_text(self.unspoken).as_str()));
        extend(&mut out, &chars_of(" unspoken -> "));
        extend(&mut out, &chars_of(grouped_text(self.total()).as_str()));
        extend(&mut out, &chars_of(" total"));
        string_of(&out)
    }
}

/// Adding word counts is associative and commutative, with the zero count as identity, and
/// the total is always the sum of both buckets.
pub proof fn lemma_count_monoid(a: WordCount, b: WordCount, c: WordCount)
    ensures
        count_add(a@, count_add(b@, c@)) == count_add(count_add(a@, b@), c@),
        count_add(a@, b@) == count_add(b@, a@),
        count_add(a@, (0nat, 0nat)) == a@,
        count_add((0nat, 0nat), a@) == a@,
{
}

/// The speech density of a count is undefined exactly when the count has no words; when it
/// is defined, the spoken words are a share of a positive total.
pub proof fn lemma_density_defined(w: WordCount)
    ensures
        density(w@) is None <==> w@.0 + w@.1 == 0,
        density(w@) matches Some(p) ==> p.0 <= p.1 && p.1 > 0 && p.1 == w@.0 + w@.1,
{
}

/// The kind of a span of text.
#[derive(Clone, Copy, Debug, PartialEq, Eq, Structural)]
pub enum SpanKind {
    /// just some normal text
    Normal,
    /// emphasised text
    Emphasis,
    /// inline direction
    InlineDirection,
}

/// A run of text of one kind.
#[derive(Debug, PartialEq)]
pub struct TextSpan {
    /// The kind of span this represents.
    pub kind: SpanKind,
    /// The text within the span.
    pub contents: String,
}

impl View for TextSpan {
    type V = (SpanKind, Seq<char>);

    open spec fn view(&self) -> (SpanKind, Seq<char>) {
        (self.kind, self.contents@)
    }
}

/// The characters that make up words: Latin letters (with the accented letters of
/// Latin-1), apostrophe, tilde and hyphen.
pub open spec fn is_word_char(c: char) -> bool {
    ('A' <= c <= 'Z') || ('a' <= c <= 'z') || ('\u{C0}' <= c <= '\u{D6}') || ('\u{D8}' <= c
        <= '\u{F6}') || ('\u{F8}' <= c <= '\u{FF}') || c == '\'' || c == '~' || c == '-'
}

fn is_word_char_exec(c: char) -> (b: bool)
    ensures
        b == is_word_char(c),
{
    ('A' <= c && c <= 'Z') || ('a' <= c && c <= 'z') || ('\u{C0}' <= c && c <= '\u{D6}') || (
    '\u{D8}' <= c && c <= '\u{F6}') || ('\u{F8}' <= c && c <= '\u{FF}') || c == '\'' || c
        == '~' || c == '-'
}

/// The number of maximal runs of word characters that start at position `i` or later.
pub open spec fn words_from(s: Seq<char>, i: int) -> nat
    decreases s.len() - i,
{
    if i < 0 || i >= s.len() {
        0
    } else if is_word_char(s[i]) && (i == 0 || !is_word_char(s[i - 1])) {
        1 + words_from(s, i + 1)
    } else {
        words_from(s, i + 1)
    }
}

/// The number of words in `s`: maximal runs of word characters.
pub open spec fn word_count(s: Seq<char>) -> nat {
    words_from(s, 0)
}

proof fn lemma_no_words_from(s: Seq<char>, i: int)
    requires
        0 <= i,
        forall|j: int| 0 <= j < s.len() ==> !is_word_char(#[trigger] s[j]),
    ensures
        words_from(s, i) == 0,
    decreases s.len() - i,
{
    if i < s.len() {
        lemma_no_words_from(s, i + 1);
    }
}

/// Text without a single word character counts no words at all.
pub proof fn lemma_no_word_chars_no_words(s: Seq<char>)
    requires
        forall|j: int| 0 <= j < s.len() ==> !is_word_char(#[trigger] s[j]),
    ensures
        word_count(s) == 0,
{
    lemma_no_words_from(s, 0);
}

/// Text written wholly outside ASCII and Latin-1, as in a non-Latin script, counts no
/// words: only Latin letters make words.
pub proof fn lemma_non_latin_no_words(s: Seq<char>)
    requires
        forall|j: int| 0 <= j < s.len() ==> #[trigger] s[j] > '\u{FF}',
    ensures
        word_count(s) == 0,
{
    assert forall|j: int| 0 <= j < s.len() implies !is_word_char(#[trigger] s[j]) by {
        assert(s[j] > '\u{FF}');
    }
    lemma_no_words_from(s, 0);
}

/// A span counts as spoken only inside a spoken container, and never as an inline direction.
pub open spec fn span_is_spoken(kind: SpanKind, context: ContainerKind) -> bool {
    context == ContainerKind::Spoken && kind != SpanKind::InlineDirection
}

/// The words of one span, all in one bucket.
pub open spec fn span_words(span: (SpanKind, Seq<char>), context: ContainerKind) -> (nat, nat) {
    if span_is_spoken(span.0, context) {
        (word_count(span.1), 0nat)
    } else {
        (0nat, word_count(span.1))
    }
}

impl TextSpan {
    /// A span of the given kind and text.
    pub fn new(kind: SpanKind, contents: &str) -> (r: Self)
        ensures
            r@ == (kind, contents@),
    {
        Self { kind, contents: contents.to_owned() }
    }

    /// A span of kind Normal.
    pub fn normal(contents: &str) -> (r: Self)
        ensures
            r@ == (SpanKind::Normal, contents@),
    {
        Self::new(SpanKind::Normal, contents)
    }

    /// A span of kind Emphasis.
    pub fn emphasis(contents: &str) -> (r: Self)
        ensures
            r@ == (SpanKind::Emphasis, contents@),
    {
        Self::new(SpanKind::Emphasis, contents)
    }

    /// A span of kind InlineDirection.
    pub fn inline(contents: &str) -> (r: Self)
        ensures
            r@ == (SpanKind::InlineDirection, contents@),
    {
        Self::new(SpanKind::InlineDirection, contents)
    }

    /// The same text as a span of another kind.
    pub fn as_variant(&self, variant: SpanKind) -> (r: Self)
        ensures
            r@ == (variant, self.contents@),
    {
        Self::new(variant, self.contents.as_str())
    }

    /// The number of words in the span.
    pub fn num_words(&self) -> (r: usize)
        ensures
            r == word_count(self.contents@),
    {
        let s = chars_of(self.contents.as_str());
        let mut n: usize = 0;
        let mut i: usize = 0;
        while i < s.len()
            invariant
                0 <= i <= s.len(),
                s@ == self.contents@,
                n <= i,
                n + words_from(s@, i as int) == word_count(s@),
            decreases s.len() - i,
        {
            if is_word_char_exec(s[i]) && (i == 0 || !is_word_char_exec(s[i - 1])) {
                n = n + 1;
            }
            i = i + 1;
        }
        n
    }

    /// Whether the span counts as spoken inside a container of the given kind.
    pub fn is_spoken(&self, context: ContainerKind) -> (r: bool)
        ensures
            r == span_is_spoken(self.kind, context),
    {
        if context != ContainerKind::Spoken {
            return false;
        }
        match self.kind {
            SpanKind::InlineDirection => false,
            _ => true,
        }
    }
}

/// The kind of a container of text.
#[derive(Clone, Copy, Debug, PartialEq, Eq, Structural)]
pub enum ContainerKind {
    /// a container for spoken text
    Spoken,
    /// a container for stage directions
    StageDir,
    /// a container for sound effects
    Sfx,
    /// a container for listener dialogue
    ListenerDialogue,
    /// a container for untagged text
    PlainText,
}

/// One line of a script: a kind and its spans in order.
#[derive(Debug, PartialEq)]
pub struct TextContainer {
    /// the type of container this is
    pub kind: ContainerKind,
    /// the text spans, in order
    pub spans: Vec<TextSpan>,
}

/// The views of a sequence of spans.
pub open spec fn spans_view(spans: Seq<TextSpan>) -> Seq<(SpanKind, Seq<char>)> {
    spans.map_values(|s: TextSpan| s@)
}

impl View for TextContainer {
    type V = (ContainerKind, Seq<(SpanKind, Seq<char>)>);

    open spec fn view(&self) -> (ContainerKind, Seq<(SpanKind, Seq<char>)>) {
        (self.kind, spans_view(self.spans@))
    }
}

/// The words of a sequence of spans inside a container of kind `context`.
pub open spec fn spans_words(spans: Seq<(SpanKind, Seq<char>)>, context: ContainerKind) -> (
    nat,
    nat,
)
    decreases spans.len(),
{
    if spans.len() == 0 {
        (0nat, 0nat)
    } else {
        count_add(spans_words(spans.drop_last(), context), span_words(spans.last(), context))
    }
}

/// The words of a container.
pub open spec fn container_words(c: (ContainerKind, Seq<(SpanKind, Seq<char>)>)) -> (nat, nat) {
    spans_words(c.1, c.0)
}

proof fn lemma_spans_words_prefix(spans: Seq<(SpanKind, Seq<char>)>, context: ContainerKind, k: int)
    requires
        0 <= k <= spans.len(),
    ensures
        spans_words(spans.take(k), context).0 <= spans_words(spans, context).0,
        spans_words(spans.take(k), context).1 <= spans_words(spans, context).1,
    decreases spans.len(),
{
    if k < spans.len() {
        assert(spans.drop_last().take(k) == spans.take(k));
        lemma_spans_words_prefix(spans.drop_last(), context, k);
    } else {
        assert(spans.take(k) == spans);
    }
}

/// The plain text of spans: their contents joined with single spaces.
pub open spec fn spans_plain(spans: Seq<(SpanKind, Seq<char>)>) -> Seq<char>
    decreases spans.len(),
{
    if spans.len() == 0 {
        seq![]
    } else if spans.len() == 1 {
        spans[0].1
    } else {
        spans_plain(spans.drop_last()) + seq![' '] + spans.last().1
    }
}

impl TextContainer {
    /// An empty container of the given kind.
    pub fn new(kind: ContainerKind) -> (r: Self)
        ensures
            r@ == (kind, Seq::<(SpanKind, Seq<char>)>::empty()),
    {
        let r = Self { kind, spans: Vec::new() };
        assert(spans_view(r.spans@) == Seq::<(SpanKind, Seq<char>)>::empty());
        r
    }

    /// The container with `span` added at the end.
    pub fn push(self, span: TextSpan) -> (r: Self)
        ensures
            r@ == (self@.0, self@.1.push(span@)),
    {
        let ghost before = self.spans@;
        let mut spans = self.spans;
        spans.push(span);
        assert(spans_view(spans@) == spans_view(before).push(span@));
        Self { kind: self.kind, spans }
    }

    /// The number of spans.
    pub fn len(&self) -> (r: usize)
        ensures
            r == self@.1.len(),
    {
        self.spans.len()
    }

    /// The contents of the spans joined with single spaces, without regard for their kinds.
    pub fn plain_text(&self) -> (r: String)
        ensures
            r@ == spans_plain(self@.1),
    {
        let mut out: Vec<char> = Vec::new();
        let mut i: usize = 0;
        while i < self.spans.len()
            invariant
                0 <= i <= self.spans.len(),
                out@ == spans_plain(self@.1.take(i as int)),
            decreases self.spans.len() - i,
        {
            let c = chars_of(self.spans[i].contents.as_str());
            if i > 0 {
                out.push(' ');
            }
            extend(&mut out, &c);
            assert(self@.1.take(i + 1).drop_last() == self@.1.take(i as int));
            i = i + 1;
        }
        assert(self@.1.take(self.spans.len() as int) == self@.1);
        string_of(&out)
    }

    /// The words of the container: each span's words go wholly to one bucket.
    pub fn wordcount(&self) -> (r: WordCount)
        requires
            container_words(self@).0 <= usize::MAX,
            container_words(self@).1 <= usize::MAX,
        ensures
            r@ == container_words(self@),
    {
        let mut acc = WordCount::zero();
        let mut i: usize = 0;
        while i < self.spans.len()
            invariant
                0 <= i <= self.spans.len(),
                container_words(self@).0 <= usize::MAX,
                container_words(self@).1 <= usize::MAX,
                acc@ == spans_words(self@.1.take(i as int), self.kind),
            decreases self.spans.len() - i,
        {
            let span = &self.spans[i];
            let words = span.num_words();
            let w = if span.is_spoken(self.kind) {
                WordCount::only_spoken(words)
            } else {
                WordCount::only_unspoken(words)
            };
            proof {
                assert(self@.1.take(i + 1).drop_last() == self@.1.take(i as int));
                lemma_spans_words_prefix(self@.1, self.kind, i + 1);
            }
            acc = acc.add(w);
            i = i + 1;
        }
        assert(self@.1.take(self.spans.len() as int) == self@.1);
        acc
    }
}

impl TextContainer {
    /// The words of the container, or `None` when a bucket does not fit in `usize`.
    pub fn checked_wordcount(&self) -> (r: Option<WordCount>)
        ensures
            r is None <==> (container_words(self@).0 > usize::MAX || container_words(self@).1
                > usize::MAX),
            r matches Some(w) ==> w@ == container_words(self@),
    {
        let mut acc = WordCount::zero();
        let mut i: usize = 0;
        while i < self.spans.len()
            invariant
                0 <= i <= self.spans.len(),
                acc@ == spans_words(self@.1.take(i as int), self.kind),
            decreases self.spans.len() - i,
        {
            let span = &self.spans[i];
            let words = span.num_words();
            let w = if span.is_spoken(self.kind) {
                WordCount::only_spoken(words)
            } else {
                WordCount::only_unspoken(words)
            };
            proof {
                assert(self@.1.take(i + 1).drop_last() == self@.1.take(i as int));
                lemma_spans_words_prefix(self@.1, self.kind, i + 1);
            }
            match acc.checked_add(w) {
                Some(next) => {
                    acc = next;
                },
                None => {
                    return None;
                },
            }
            i = i + 1;
        }
        assert(self@.1.take(self.spans.len() as int) == self@.1);
        Some(acc)
    }
}

/// The series a script belongs to, with its part index.
#[derive(Debug, Default, PartialEq)]
pub struct SeriesEntry {
    /// The title of the series.
    pub title: Option<String>,
    /// The part index for the script.
    pub part: Option<usize>,
}

pub open spec fn opt_view(o: Option<String>) -> Option<Seq<char>> {
    match o {
        Some(t) => Some(t@),
        None => None,
    }
}

impl View for SeriesEntry {
    type V = (Option<Seq<char>>, Option<usize>);

    open spec fn view(&self) -> (Option<Seq<char>>, Option<usize>) {
        (opt_view(self.title), self.part)
    }
}

pub open spec fn is_digit(c: char) -> bool {
    '0' <= c <= '9'
}

/// Decimal digits of any script: the characters of Unicode general category `Nd`
/// (Unicode 16.0), each range one script's digits zero to nine.
pub open spec fn is_decimal_digit(c: char) -> bool {
    ('\u{30}' <= c <= '\u{39}')
        || ('\u{660}' <= c <= '\u{669}')
        || ('\u{6F0}' <= c <= '\u{6F9}')
        || ('\u{7C0}' <= c <= '\u{7C9}')
        || ('\u{966}' <= c <= '\u{96F}')
        || ('\u{9E6}' <= c <= '\u{9EF}')
        || ('\u{A66}' <= c <= '\u{A6F}')
        || ('\u{AE6}' <= c <= '\u{AEF}')
        || ('\u{B66}' <= c <= '\u{B6F}')
        || ('\u{BE6}' <= c <= '\u{BEF}')
        || ('\u{C66}' <= c <= '\u{C6F}')
        || ('\u{CE6}' <= c <= '\u{CEF}')
        || ('\u{D66}' <= c <= '\u{D6F}')
        || ('\u{DE6}' <= c <= '\u{DEF}')
        || ('\u{E50}' <= c <= '\u{E59}')
        || ('\u{ED0}' <= c <= '\u{ED9}')
        || ('\u{F20}' <= c <= '\u{F29}')
        || ('\u{1040}' <= c <= '\u{1049}')
        || ('\u{1090}' <= c <= '\u{1099}')
        || ('\u{17E0}' <= c <= '\u{17E9}')
        || ('\u{1810}' <= c <= '\u{1819}')
        || ('\u{1946}' <= c <= '\u{194F}')
        || ('\u{19D0}' <= c <= '\u{19D9}')
        || ('\u{1A80}' <= c <= '\u{1A89}')
        || ('\u{1A90}' <= c <= '\u{1A99}')
        || ('\u{1B50}' <= c <= '\u{1B59}')
        || ('\u{1BB0}' <= c <= '\u{1BB9}')
        || ('\u{1C40}' <= c <= '\u{1C49}')
        || ('\u{1C50}' <= c <= '\u{1C59}')
        || ('\u{A620}' <= c <= '\u{A629}')
        || ('\u{A8D0}' <= c <= '\u{A8D9}')
        || ('\u{A900}' <= c <= '\u{A909}')
        || ('\u{A9D0}' <= c <= '\u{A9D9}')
        || ('\u{A9F0}' <= c <= '\u{A9F9}')
        || ('\u{AA50}' <= c <= '\u{AA59}')
        || ('\u{ABF0}' <= c <= '\u{ABF9}')
        || ('\u{FF10}' <= c <= '\u{FF19}')
        || ('\u{104A0}' <= c <= '\u{104A9}')
        || ('\u{10D30}' <= c <= '\u{10D39}')
        || ('\u{10D40}' <= c <= '\u{10D49}')
        || ('\u{11066}' <= c <= '\u{1106F}')
        || ('\u{110F0}' <= c <= '\u{110F9}')
        || ('\u{11136}' <= c <= '\u{1113F}')
        || ('\u{111D0}' <= c <= '\u{111D9}')
        || ('\u{112F0}' <= c <= '\u{112F9}')
        || ('\u{11450}' <= c <= '\u{11459}')
        || ('\u{114D0}' <= c <= '\u{114D9}')
        || ('\u{11650}' <= c <= '\u{11659}')
        || ('\u{116C0}' <= c <= '\u{116C9}')
        || ('\u{116D0}' <= c <= '\u{116E3}')
        || ('\u{11730}' <= c <= '\u{11739}')
        || ('\u{118E0}' <= c <= '\u{118E9}')
        || ('\u{11950}' <= c <= '\u{11959}')
        || ('\u{11BF0}' <= c <= '\u{11BF9}')
        || ('\u{11C50}' <= c <= '\u{11C59}')
        || ('\u{11D50}' <= c <= '\u{11D59}')
        || ('\u{11DA0}' <= c <= '\u{11DA9}')
        || ('\u{11F50}' <= c <= '\u{11F59}')
        || ('\u{16130}' <= c <= '\u{16139}')
        || ('\u{16A60}' <= c <= '\u{16A69}')
        || ('\u{16AC0}' <= c <= '\u{16AC9}')
        || ('\u{16B50}' <= c <= '\u{16B59}')
        || ('\u{16D70}' <= c <= '\u{16D79}')
        || ('\u{1CCF0}' <= c <= '\u{1CCF9}')
        || ('\u{1D7CE}' <= c <= '\u{1D7FF}')
        || ('\u{1E140}' <= c <= '\u{1E149}')
        || ('\u{1E2F0}' <= c <= '\u{1E2F9}')
        || ('\u{1E4F0}' <= c <= '\u{1E4F9}')
        || ('\u{1E5F1}' <= c <= '\u{1E5FA}')
        || ('\u{1E950}' <= c <= '\u{1E959}')
        || ('\u{1FBF0}' <= c <= '\u{1FBF9}')
}

pub fn is_decimal_digit_exec(c: char) -> (r: bool)
    ensures
        r == is_decimal_digit(c),
{
    ('\u{30}' <= c && c <= '\u{39}')
        || ('\u{660}' <= c && c <= '\u{669}')
        || ('\u{6F0}' <= c && c <= '\u{6F9}')
        || ('\u{7C0}' <= c && c <= '\u{7C9}')
        || ('\u{966}' <= c && c <= '\u{96F}')
        || ('\u{9E6}' <= c && c <= '\u{9EF}')
        || ('\u{A66}' <= c && c <= '\u{A6F}')
        || ('\u{AE6}' <= c && c <= '\u{AEF}')
        || ('\u{B66}' <= c && c <= '\u{B6F}')
        || ('\u{BE6}' <= c && c <= '\u{BEF}')
        || ('\u{C66}' <= c && c <= '\u{C6F}')
        || ('\u{CE6}' <= c && c <= '\u{CEF}')
        || ('\u{D66}' <= c && c <= '\u{D6F}')
        || ('\u{DE6}' <= c && c <= '\u{DEF}')
        || ('\u{E50}' <= c && c <= '\u{E59}')
        || ('\u{ED0}' <= c && c <= '\u{ED9}')
        || ('\u{F20}' <= c && c <= '\u{F29}')
        || ('\u{1040}' <= c && c <= '\u{1049}')
        || ('\u{1090}' <= c && c <= '\u{1099}')
        || ('\u{17E0}' <= c && c <= '\u{17E9}')
        || ('\u{1810}' <= c && c <= '\u{1819}')
        || ('\u{1946}' <= c && c <= '\u{194F}')
        || ('\u{19D0}' <= c && c <= '\u{19D9}')
        || ('\u{1A80}' <= c && c <= '\u{1A89}')
        || ('\u{1A90}' <= c && c <= '\u{1A99}')
        || ('\u{1B50}' <= c && c <= '\u{1B59}')
        || ('\u{1BB0}' <= c && c <= '\u{1BB9}')
        || ('\u{1C40}' <= c && c <= '\u{1C49}')
        || ('\u{1C50}' <= c && c <= '\u{1C59}')
        || ('\u{A620}' <= c && c <= '\u{A629}')
        || ('\u{A8D0}' <= c && c <= '\u{A8D9}')
        || ('\u{A900}' <= c && c <= '\u{A909}')
        || ('\u{A9D0}' <= c && c <= '\u{A9D9}')
        || ('\u{A9F0}' <= c && c <= '\u{A9F9}')
        || ('\u{AA50}' <= c && c <= '\u{AA59}')
        || ('\u{ABF0}' <= c && c <= '\u{ABF9}')
        || ('\u{FF10}' <= c && c <= '\u{FF19}')
        || ('\u{104A0}' <= c && c <= '\u{104A9}')
        || ('\u{10D30}' <= c && c <= '\u{10D39}')
        || ('\u{10D40}' <= c && c <= '\u{10D49}')
        || ('\u{11066}' <= c && c <= '\u{1106F}')
        || ('\u{110F0}' <= c && c <= '\u{110F9}')
        || ('\u{11136}' <= c && c <= '\u{1113F}')
        || ('\u{111D0}' <= c && c <= '\u{111D9}')
        || ('\u{112F0}' <= c && c <= '\u{112F9}')
        || ('\u{11450}' <= c && c <= '\u{11459}')
        || ('\u{114D0}' <= c && c <= '\u{114D9}')
        || ('\u{11650}' <= c && c <= '\u{11659}')
        || ('\u{116C0}' <= c && c <= '\u{116C9}')
        || ('\u{116D0}' <= c && c <= '\u{116E3}')
        || ('\u{11730}' <= c && c <= '\u{11739}')
        || ('\u{118E0}' <= c && c <= '\u{118E9}')
        || ('\u{11950}' <= c && c <= '\u{11959}')
        || ('\u{11BF0}' <= c && c <= '\u{11BF9}')
        || ('\u{11C50}' <= c && c <= '\u{11C59}')
        || ('\u{11D50}' <= c && c <= '\u{11D59}')
        || ('\u{11DA0}' <= c && c <= '\u{11DA9}')
        || ('\u{11F50}' <= c && c <= '\u{11F59}')
        || ('\u{16130}' <= c && c <= '\u{16139}')
        || ('\u{16A60}' <= c && c <= '\u{16A69}')
        || ('\u{16AC0}' <= c && c <= '\u{16AC9}')
        || ('\u{16B50}' <= c && c <= '\u{16B59}')
        || ('\u{16D70}' <= c && c <= '\u{16D79}')
        || ('\u{1CCF0}' <= c && c <= '\u{1CCF9}')
        || ('\u{1D7CE}' <= c && c <= '\u{1D7FF}')
        || ('\u{1E140}' <= c && c <= '\u{1E149}')
        || ('\u{1E2F0}' <= c && c <= '\u{1E2F9}')
        || ('\u{1E4F0}' <= c && c <= '\u{1E4F9}')
        || ('\u{1E5F1}' <= c && c <= '\u{1E5FA}')
        || ('\u{1E950}' <= c && c <= '\u{1E959}')
        || ('\u{1FBF0}' <= c && c <= '\u{1FBF9}')
}

/// The digits `s[a..b]` are all ASCII.
pub open spec fn ascii_digits(s: Seq<char>, a: int, b: int) -> bool {
    forall|i: int| a <= i < b ==> is_digit(#[trigger] s[i])
}

/// The length of the run of decimal digits that ends just before position `n`.
pub open spec fn digits_before(s: Seq<char>, n: int) -> int
    decreases n,
{
    if n <= 0 || n > s.len() || !is_decimal_digit(s[n - 1]) {
        0
    } else {
        1 + digits_before(s, n - 1)
    }
}

/// The number that the digits `s[a..b]` write in decimal.
pub open spec fn digits_value(s: Seq<char>, a: int, b: int) -> nat
    decreases b - a,
{
    if b <= a {
        0
    } else {
        digits_value(s, a, b - 1) * 10 + ((s[b - 1] as nat) - ('0' as nat)) as nat
    }
}

/// Where the digits of a trailing ` (Part N)` start, if `s` is `TITLE (Part N)` with a
/// title on one line and `N` made of decimal digits of any script.
pub open spec fn series_digits_start(s: Seq<char>) -> Option<int> {
    let n = s.len() as int;
    if n >= 1 && s[n - 1] == ')' {
        let k = n - 1 - digits_before(s, n - 1);
        let t = k - " (Part "@.len();
        if k < n - 1 && occurs_at(s, t, " (Part "@) && no_newline_between(s, 0, t) {
            Some(k)
        } else {
            None
        }
    } else {
        None
    }
}

/// The series entry that a header value describes: its title and part for
/// `TITLE (Part N)`, nothing at all otherwise (so also for an empty value or a dash
/// placeholder). A part that is not written in ASCII digits, or is too large for `usize`,
/// is read as 0.
pub open spec fn series_of(s: Seq<char>) -> (Option<Seq<char>>, Option<usize>) {
    match series_digits_start(s) {
        Some(k) => {
            let v = digits_value(s, k, s.len() - 1);
            (
                Some(s.subrange(0, k - " (Part "@.len())),
                Some(
                    if ascii_digits(s, k, s.len() - 1) && v <= usize::MAX {
                        v as usize
                    } else {
                        0usize
                    },
                ),
            )
        },
        None => (None, None),
    }
}

/// How a series entry reads: `TITLE (Part N)` when both are known, empty otherwise.
pub open spec fn series_text(e: (Option<Seq<char>>, Option<usize>)) -> Seq<char> {
    match (e.0, e.1) {
        (Some(t), Some(p)) => t + " (Part "@ + decimal(p as nat) + ")"@,
        _ => seq![],
    }
}

proof fn lemma_digits_before_bound(s: Seq<char>, n: int)
    requires
        0 <= n <= s.len(),
    ensures
        0 <= digits_before(s, n) <= n,
        forall|i: int| n - digits_before(s, n) <= i < n ==> is_decimal_digit(#[trigger] s[i]),
        n - digits_before(s, n) > 0 ==> !is_decimal_digit(s[n - digits_before(s, n) - 1]),
    decreases n,
{
    if n > 0 {
        lemma_digits_before_bound(s, n - 1);
    }
}

proof fn lemma_digits_value_grows(s: Seq<char>, a: int, b: int)
    requires
        a <= b,
        forall|i: int| a <= i < b + 1 ==> is_digit(#[trigger] s[i]),
    ensures
        digits_value(s, a, b + 1) >= digits_value(s, a, b),
{
}

impl SeriesEntry {
    /// A series entry with the given title and part index.
    pub fn new(title: &str, part: usize) -> (r: Self)
        ensures
            r@ == (Some(title@), Some(part)),
    {
        Self { title: Some(title.to_owned()), part: Some(part) }
    }

    /// Reads a series header value (see `series_of`).
    pub fn from(value: &str) -> (r: Self)
        ensures
            r@ == series_of(value@),
    {
        let s = chars_of(value);
        let ghost sv = s@;
        let mark = chars_of(" (Part ");
        proof {
            reveal_strlit(" (Part ");
        }
        let n = s.len();
        if n == 0 || s[n - 1] != ')' {
            return Self { title: None, part: None };
        }
        let mut k: usize = n - 1;
        while k > 0 && is_decimal_digit_exec(s[k - 1])
            invariant
                0 <= k <= n - 1,
                sv == s@,
                sv == value@,
                n == s.len(),
                digits_before(sv, n - 1) == (n - 1 - k) + digits_before(sv, k as int),
            decreases k,
        {
            k = k - 1;
        }
        proof {
            lemma_digits_before_bound(sv, k as int);
            lemma_digits_before_bound(sv, n - 1);
            assert(digits_before(sv, k as int) == 0);
        }
        if k == n - 1 || k < mark.len() || !occurs_at_exec(&s, k - mark.len(), &mark) {
            return Self { title: None, part: None };
        }
        let t = k - mark.len();
        let mut i: usize = 0;
        while i < t
            invariant
                0 <= i <= t,
                t < n,
                sv == s@,
                sv == value@,
                n == s.len(),
                no_newline_between(sv, 0, i as int),
                digits_before(sv, n - 1) == n - 1 - k,
                t == k - mark.len(),
                mark@ == " (Part "@,
            decreases t - i,
        {
            if s[i] == '\n' {
                assert(!no_newline_between(sv, 0, t as int));
                return Self { title: None, part: None };
            }
            i = i + 1;
        }
        assert(series_digits_start(sv) == Some(k as int));
        let mut title: Vec<char> = Vec::new();
        let mut i: usize = 0;
        while i < t
            invariant
                0 <= i <= t,
                t < n,
                sv == s@,
                sv == value@,
                n == s.len(),
                title@ == sv.subrange(0, i as int),
                series_digits_start(sv) == Some(k as int),
            decreases t - i,
        {
            title.push(s[i]);
            i = i + 1;
        }
        let mut j: usize = k;
        while j < n - 1
            invariant
                k <= j <= n - 1,
                sv == s@,
                n == s.len(),
                ascii_digits(sv, k as int, j as int),
                sv == value@,
                series_digits_start(sv) == Some(k as int),
                title@ == sv.subrange(0, t as int),
                t == k - mark.len(),
                mark@ == " (Part "@,
            decreases n - 1 - j,
        {
            if !('0' <= s[j] && s[j] <= '9') {
                assert(!ascii_digits(sv, k as int, n - 1));
                return Self { title: Some(string_of(&title)), part: Some(0) };
            }
            j = j + 1;
        }
        let mut v: usize = 0;
        let mut over = false;
        let mut j: usize = k;
        while j < n - 1
            invariant
                k <= j <= n - 1,
                sv == s@,
                sv == value@,
                n == s.len(),
                forall|i: int| k <= i < n - 1 ==> is_digit(#[trigger] sv[i]),
                over ==> digits_value(sv, k as int, j as int) > usize::MAX,
                !over ==> v == digits_value(sv, k as int, j as int),
            decreases n - 1 - j,
        {
            let d = (s[j] as u32 - '0' as u32) as usize;
            proof {
                lemma_digits_value_grows(sv, k as int, j as int);
            }
            if !over {
                match v.checked_mul(10) {
                    Some(m) => match m.checked_add(d) {
                        Some(w) => {
                            v = w;
                        },
                        None => {
                            over = true;
                        },
                    },
                    None => {
                        assert(digits_value(sv, k as int, j + 1) >= v * 10) by (nonlinear_arith)
                            requires
                                digits_value(sv, k as int, j + 1) == v * 10 + d,
                        ;
                        over = true;
                    },
                }
            }
            j = j + 1;
        }
        let part = if over {
            0
        } else {
            v
        };
        Self { title: Some(string_of(&title)), part: Some(part) }
    }

    /// The entry as `TITLE (Part N)`, or empty when the title or the part is unknown.
    pub fn display(&self) -> (r: String)
        ensures
            r@ == series_text(self@),
    {
        match (&self.title, self.part) {
            (Some(t), Some(p)) => {
                let mut out = chars_of(t.as_str());
                let mark = chars_of(" (Part ");
                extend(&mut out, &mark);
                let d = decimal_exec(p);
                extend(&mut out, &d);
                out.push(')');
                proof {
                    reveal_strlit(")");
                }
                string_of(&out)
            },
            _ => string_of(&Vec::new()),
        }
    }
}

/// A character of a script.
#[derive(Debug)]
pub struct Character {
    /// The name/header information regarding the character
    pub name: String,
    /// The description of the character
    pub description: String,
}

impl Character {
    /// A character with the given fields.
    pub fn new(name: &str, description: &str) -> (r: Self)
        ensures
            r.name@ == name@,
            r.description@ == description@,
    {
        Self { name: name.to_owned(), description: description.to_owned() }
    }

    /// The character as `NAME => DESCRIPTION`.
    pub fn display(&self) -> (r: String)
        ensures
            r@ == self.name@ + " => "@ + self.description@,
    {
        let mut out = chars_of(self.name.as_str());
        let sep = chars_of(" => ");
        extend(&mut out, &sep);
        let d = chars_of(self.description.as_str());
        extend(&mut out, &d);
        string_of(&out)
    }
}

/// A calendar date.
#[derive(Clone, Copy, Debug, PartialEq, Eq, Structural)]
pub struct ScriptDate {
    pub year: i32,
    pub month: u8,
    pub day: u8,
}

pub open spec fn is_leap_year(y: int) -> bool {
    (y % 4 == 0 && y % 100 != 0) || y % 400 == 0
}

pub open spec fn days_in_month(y: int, m: int) -> int {
    if m == 2 {
        if is_leap_year(y) { 29 } else { 28 }
    } else if m == 4 || m == 6 || m == 9 || m == 11 {
        30
    } else {
        31
    }
}

impl ScriptDate {
    /// The fields name a day of the proleptic Gregorian calendar.
    pub open spec fn wf(&self) -> bool {
        1 <= self.month <= 12 && 1 <= self.day <= days_in_month(self.year as int, self.month as int)
    }
}

/// A script: its header information and its lines.
#[derive(Debug, Default)]
pub struct Script {
    /// The name of the author. Even with multiple authors, it is only one string.
    pub author: String,
    /// The title of the script.
    pub title: String,
    /// The series (if any) that the script belongs to, as well as its part index.
    pub series: SeriesEntry,
    /// Any tags attributed to the script, without their brackets.
    pub tags: Vec<String>,
    /// The date of the script.
    pub date: Option<ScriptDate>,
    /// The summary of the script.
    pub summary: String,
    /// Information about the characters, in the order they are declared.
    pub characters: Vec<Character>,
    /// The lines of the script, in order.
    pub paragraphs: Vec<TextContainer>,
}

/// The views of a sequence of containers.
pub open spec fn containers_view(cs: Seq<TextContainer>) -> Seq<
    (ContainerKind, Seq<(SpanKind, Seq<char>)>),
> {
    cs.map_values(|c: TextContainer| c@)
}

/// The words of a sequence of containers.
pub open spec fn paragraphs_words(cs: Seq<(ContainerKind, Seq<(SpanKind, Seq<char>)>)>) -> (
    nat,
    nat,
)
    decreases cs.len(),
{
    if cs.len() == 0 {
        (0nat, 0nat)
    } else {
        count_add(paragraphs_words(cs.drop_last()), container_words(cs.last()))
    }
}

proof fn lemma_paragraphs_words_prefix(
    cs: Seq<(ContainerKind, Seq<(SpanKind, Seq<char>)>)>,
    k: int,
)
    requires
        0 <= k <= cs.len(),
    ensures
        paragraphs_words(cs.take(k)).0 <= paragraphs_words(cs).0,
        paragraphs_words(cs.take(k)).1 <= paragraphs_words(cs).1,
    decreases cs.len(),
{
    if k < cs.len() {
        assert(cs.drop_last().take(k) == cs.take(k));
        lemma_paragraphs_words_prefix(cs.drop_last(), k);
    } else {
        assert(cs.take(k) == cs);
    }
}

impl Script {
    /// A script with the given author and title; every other field is empty.
    pub fn new(author: &str, title: &str) -> (r: Self)
        ensures
            r.author@ == author@,
            r.title@ == title@,
            r.series@ == (None::<Seq<char>>, None::<usize>),
            r.tags@.len() == 0,
            r.date is None,
            r.summary@.len() == 0,
            r.characters@.len() == 0,
            r.paragraphs@.len() == 0,
    {
        Self {
            author: author.to_owned(),
            title: title.to_owned(),
            series: SeriesEntry { title: None, part: None },
            tags: Vec::new(),
            date: None,
            summary: String::new(),
            characters: Vec::new(),
            paragraphs: Vec::new(),
        }
    }

    /// The words of the whole script: the sum over its lines.
    pub fn wordcount(&self) -> (r: WordCount)
        requires
            paragraphs_words(containers_view(self.paragraphs@)).0 <= usize::MAX,
            paragraphs_words(containers_view(self.paragraphs@)).1 <= usize::MAX,
        ensures
            r@ == paragraphs_words(containers_view(self.paragraphs@)),
    {
        let ghost cs = containers_view(self.paragraphs@);
        let mut acc = WordCount::zero();
        let mut i: usize = 0;
        while i < self.paragraphs.len()
            invariant
                0 <= i <= self.paragraphs.len(),
                cs == containers_view(self.paragraphs@),
                paragraphs_words(cs).0 <= usize::MAX,
                paragraphs_words(cs).1 <= usize::MAX,
                acc@ == paragraphs_words(cs.take(i as int)),
            decreases self.paragraphs.len() - i,
        {
            proof {
                assert(cs.take(i + 1).drop_last() == cs.take(i as int));
                lemma_paragraphs_words_prefix(cs, i + 1);
                lemma_container_words_bound(cs, i as int);
            }
            let w = self.paragraphs[i].wordcount();
            acc = acc.add(w);
            i = i + 1;
        }
        assert(cs.take(self.paragraphs.len() as int) == cs);
        acc
    }
}

impl Script {
    /// The words of the whole script, or `None` when a bucket does not fit in `usize`.
    pub fn checked_wordcount(&self) -> (r: Option<WordCount>)
        ensures
            r is None <==> (paragraphs_words(containers_view(self.paragraphs@)).0 > usize::MAX
                || paragraphs_words(containers_view(self.paragraphs@)).1 > usize::MAX),
            r matches Some(w) ==> w@ == paragraphs_words(containers_view(self.paragraphs@)),
    {
        let ghost cs = containers_view(self.paragraphs@);
        let mut acc = WordCount::zero();
        let mut i: usize = 0;
        while i < self.paragraphs.len()
            invariant
                0 <= i <= self.paragraphs.len(),
                cs == containers_view(self.paragraphs@),
                acc@ == paragraphs_words(cs.take(i as int)),
            decreases self.paragraphs.len() - i,
        {
            proof {
                assert(cs.take(i + 1).drop_last() == cs.take(i as int));
                lemma_paragraphs_words_prefix(cs, i + 1);
                lemma_container_words_bound(cs, i as int);
            }
            match self.paragraphs[i].checked_wordcount() {
                Some(w) => match acc.checked_add(w) {
                    Some(next) => {
                        acc = next;
                    },
                    None => {
                        return None;
                    },
                },
                None => {
                    return None;
                },
            }
            i = i + 1;
        }
        assert(cs.take(self.paragraphs.len() as int) == cs);
        Some(acc)
    }
}

proof fn lemma_container_words_bound(cs: Seq<(ContainerKind, Seq<(SpanKind, Seq<char>)>)>, i: int)
    requires
        0 <= i < cs.len(),
    ensures
        container_words(cs[i]).0 <= paragraphs_words(cs).0,
        container_words(cs[i]).1 <= paragraphs_words(cs).1,
{
    lemma_paragraphs_words_prefix(cs, i + 1);
    assert(cs.take(i + 1).last() == cs[i]);
}

} // verus!
