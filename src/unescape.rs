use vstd::prelude::*;

use crate::text::{
    chars_of, collapse_spaces, collapse_spaces_exec, extend, lemma_stop_at, occurs_at,
    occurs_at_exec, replace_all, replace_chars, slice_chars, stop_at, stop_at_exec, trim,
    trim_exec,
};

verus! {

/// Each ``` ``text'' ``` pair on one line becomes `"text"`, from position `i` on.
pub open spec fn quotes_from(s: Seq<char>, i: int) -> Seq<char>
    decreases s.len() - i via quotes_from_decreases
{
    if i < 0 || i >= s.len() {
        seq![]
    } else if occurs_at(s, i, "``"@) && occurs_at(s, stop_at(s, i + 2, "''"@), "''"@) {
        let j = stop_at(s, i + 2, "''"@);
        seq!['"'] + s.subrange(i + 2, j) + seq!['"'] + quotes_from(s, j + 2)
    } else {
        seq![s[i]] + quotes_from(s, i + 1)
    }
}

#[via_fn]
proof fn quotes_from_decreases(s: Seq<char>, i: int) {
    reveal_strlit("``");
    reveal_strlit("''");
    if 0 <= i < s.len() {
        lemma_stop_at(s, i + 2, "''"@);
    }
}

/// `\%`, `\&` and `\$` lose their backslash, from position `i` on.
pub open spec fn symbols_from(s: Seq<char>, i: int) -> Seq<char>
    decreases s.len() - i,
{
    if i < 0 || i >= s.len() {
        seq![]
    } else if s[i] == '\\' && i + 1 < s.len() && (s[i + 1] == '%' || s[i + 1] == '&' || s[i
        + 1] == '$') {
        seq![s[i + 1]] + symbols_from(s, i + 2)
    } else {
        seq![s[i]] + symbols_from(s, i + 1)
    }
}

/// Each `\href{URL}{TEXT}` on one line becomes `[TEXT](URL)`, from position `i` on.
pub open spec fn links_from(s: Seq<char>, i: int) -> Seq<char>
    decreases s.len() - i via links_from_decreases
{
    if i < 0 || i >= s.len() {
        seq![]
    } else if occurs_at(s, i, "\\href{"@) && occurs_at(
        s,
        stop_at(s, i + 6, "}{"@),
        "}{"@,
    ) && occurs_at(s, stop_at(s, stop_at(s, i + 6, "}{"@) + 2, "}"@), "}"@) {
        let j = stop_at(s, i + 6, "}{"@);
        let k = stop_at(s, j + 2, "}"@);
        seq!['['] + s.subrange(j + 2, k) + seq![']', '('] + s.subrange(i + 6, j) + seq![')']
            + links_from(s, k + 1)
    } else {
        seq![s[i]] + links_from(s, i + 1)
    }
}

#[via_fn]
proof fn links_from_decreases(s: Seq<char>, i: int) {
    reveal_strlit("\\href{");
    reveal_strlit("}{");
    reveal_strlit("}");
    if 0 <= i < s.len() && occurs_at(s, i, "\\href{"@) {
        lemma_stop_at(s, i + 6, "}{"@);
        let j = stop_at(s, i + 6, "}{"@);
        if occurs_at(s, j, "}{"@) {
            lemma_stop_at(s, j + 2, "}"@);
        }
    }
}

/// The text of `s` with the markup idioms of a script written out: ellipses, quotation
/// marks, escaped symbols, the smiley and tilde commands and links; then each run of
/// whitespace becomes one space and the ends are trimmed. Other commands stay as they are.
pub open spec fn unescape_text(s: Seq<char>) -> Seq<char> {
    let a = replace_all(
        replace_all(
            replace_all(replace_all(s, "\\ldots{}"@, "... "@), "\\ldots"@, "..."@),
            "\\textellipsis{}"@,
            "... "@,
        ),
        "\\textellipsis"@,
        "..."@,
    );
    let b = symbols_from(quotes_from(a, 0), 0);
    let c = replace_all(replace_all(b, "\\kaosmile{}"@, "^_^ "@), "\\kaosmile"@, "^_^ "@);
    let d = replace_all(replace_all(c, "\\Tilde{}"@, "\u{223C}"@), "\\Tilde"@, "\u{223C}"@);
    trim(collapse_spaces(links_from(d, 0)))
}

fn quotes_exec(s: &[char]) -> (r: Vec<char>)
    ensures
        r@ == quotes_from(s@, 0),
{
    let open = chars_of("``");
    let close = chars_of("''");
    proof {
        reveal_strlit("``");
        reveal_strlit("''");
    }
    let mut r: Vec<char> = Vec::new();
    let mut i: usize = 0;
    while i < s.len()
        invariant
            0 <= i <= s.len(),
            open@ == "``"@,
            close@ == "''"@,
            open@ == seq!['`', '`'],
            close@ == seq!['\'', '\''],
            r@ + quotes_from(s@, i as int) == quotes_from(s@, 0),
        decreases s.len() - i,
    {
        let ghost before = r@;
        if occurs_at_exec(s, i, &open) {
            let j = stop_at_exec(s, i + 2, &close);
            if occurs_at_exec(s, j, &close) {
                r.push('"');
                extend(&mut r, &slice_chars(s, i + 2, j));
                r.push('"');
                assert(before + quotes_from(s@, i as int) == r@ + quotes_from(s@, j + 2));
                i = j + 2;
                continue;
            }
        }
        r.push(s[i]);
        assert(before + quotes_from(s@, i as int) == r@ + quotes_from(s@, i + 1));
        i = i + 1;
    }
    r
}

fn symbols_exec(s: &[char]) -> (r: Vec<char>)
    ensures
        r@ == symbols_from(s@, 0),
{
    let mut r: Vec<char> = Vec::new();
    let mut i: usize = 0;
    while i < s.len()
        invariant
            0 <= i <= s.len(),
            r@ + symbols_from(s@, i as int) == symbols_from(s@, 0),
        decreases s.len() - i,
    {
        let ghost before = r@;
        if s[i] == '\\' && i + 1 < s.len() && (s[i + 1] == '%' || s[i + 1] == '&' || s[i + 1]
            == '$') {
            r.push(s[i + 1]);
            assert(before + symbols_from(s@, i as int) == r@ + symbols_from(s@, i + 2));
            i = i + 2;
        } else {
            r.push(s[i]);
            assert(before + symbols_from(s@, i as int) == r@ + symbols_from(s@, i + 1));
            i = i + 1;
        }
    }
    r
}

fn links_exec(s: &[char]) -> (r: Vec<char>)
    ensures
        r@ == links_from(s@, 0),
{
    let head = chars_of("\\href{");
    let mid = chars_of("}{");
    let close = chars_of("}");
    proof {
        reveal_strlit("\\href{");
        reveal_strlit("}{");
        reveal_strlit("}");
    }
    let mut r: Vec<char> = Vec::new();
    let mut i: usize = 0;
    while i < s.len()
        invariant
            0 <= i <= s.len(),
            head@ == "\\href{"@,
            mid@ == "}{"@,
            close@ == "}"@,
            head@.len() == 6,
            mid@ == seq!['}', '{'],
            close@ == seq!['}'],
            r@ + links_from(s@, i as int) == links_from(s@, 0),
        decreases s.len() - i,
    {
        let ghost before = r@;
        if occurs_at_exec(s, i, &head) {
            let j = stop_at_exec(s, i + 6, &mid);
            if occurs_at_exec(s, j, &mid) {
                let k = stop_at_exec(s, j + 2, &close);
                if occurs_at_exec(s, k, &close) {
                    r.push('[');
                    extend(&mut r, &slice_chars(s, j + 2, k));
                    r.push(']');
                    r.push('(');
                    extend(&mut r, &slice_chars(s, i + 6, j));
                    r.push(')');
                    assert(before + links_from(s@, i as int) == r@ + links_from(s@, k + 1));
                    i = k + 1;
                    continue;
                }
            }
        }
        r.push(s[i]);
        assert(before + links_from(s@, i as int) == r@ + links_from(s@, i + 1));
        i = i + 1;
    }
    r
}

pub fn unescape_chars(s: &[char]) -> (r: Vec<char>)
    ensures
        r@ == unescape_text(s@),
{
    let a = replace_chars(s, "\\ldots{}", "... ");
    let a = replace_chars(&a, "\\ldots", "...");
    let a = replace_chars(&a, "\\textellipsis{}", "... ");
    let a = replace_chars(&a, "\\textellipsis", "...");
    let b = symbols_exec(&quotes_exec(&a));
    let c = replace_chars(&b, "\\kaosmile{}", "^_^ ");
    let c = replace_chars(&c, "\\kaosmile", "^_^ ");
    let d = replace_chars(&c, "\\Tilde{}", "\u{223C}");
    let d = replace_chars(&d, "\\Tilde", "\u{223C}");
    trim_exec(&collapse_spaces_exec(&links_exec(&d)))
}


} // verus!
