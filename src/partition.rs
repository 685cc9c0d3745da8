use vstd::prelude::*;
use vstd::string::StringSliceAdditionalSpecFns;
use vstd::utf8::{
    encode_utf8, encode_utf8_decode_utf8, encode_utf8_valid_utf8, is_char_boundary,
    is_char_boundary_iff_not_is_continuation_byte, is_char_boundary_start_end_of_seq,
    valid_utf8, valid_utf8_split,
};

use crate::text::{find_char, find_char_exec, lemma_find_char, slice_chars};

verus! {

/// Whether `b` lists ranges of a sequence of length `n` that lie in order, do not overlap
/// and start at or after `from`.
pub open spec fn bounds_ok(b: Seq<(int, int)>, from: int, n: int) -> bool {
    &&& 0 <= from <= n
    &&& b.len() > 0 ==> from <= b[0].0
    &&& forall|k: int| 0 <= k < b.len() ==> b[k].0 <= #[trigger] b[k].1 <= n
    &&& forall|k: int| 0 < k < b.len() ==> b[k - 1].1 <= #[trigger] b[k].0
}

/// The partition of `s` from `from` on at the ranges `b`: the text before each range, the
/// range itself, and at the end the rest after the last range if it is not empty.
pub open spec fn pieces<T>(s: Seq<T>, b: Seq<(int, int)>, from: int) -> Seq<Seq<T>>
    decreases b.len(),
{
    if b.len() == 0 {
        if from < s.len() {
            seq![s.subrange(from, s.len() as int)]
        } else {
            seq![]
        }
    } else {
        seq![s.subrange(from, b[0].0), s.subrange(b[0].0, b[0].1)] + pieces(
            s,
            b.drop_first(),
            b[0].1,
        )
    }
}

proof fn lemma_pieces_flatten<T>(s: Seq<T>, b: Seq<(int, int)>, from: int)
    requires
        bounds_ok(b, from, s.len() as int),
    ensures
        pieces(s, b, from).flatten() == s.subrange(from, s.len() as int),
    decreases b.len(),
{
    if b.len() == 0 {
        if from < s.len() {
            let ps = pieces(s, b, from);
            assert(ps == seq![s.subrange(from, s.len() as int)]);
            assert(ps.drop_first() == Seq::<Seq<T>>::empty());
            assert(ps.flatten() == ps.first() + ps.drop_first().flatten());
            assert(Seq::<Seq<T>>::empty().flatten() == Seq::<T>::empty());
            assert(ps.flatten() == s.subrange(from, s.len() as int));
        } else {
            assert(s.subrange(from, s.len() as int) == Seq::<T>::empty());
        }
    } else {
        let rest = b.drop_first();
        assert(0 <= b[0].1 <= s.len());
        assert(bounds_ok(rest, b[0].1, s.len() as int)) by {
            assert forall|k: int| 0 <= k < rest.len() implies rest[k].0 <= #[trigger] rest[k].1
                <= s.len() by {
                assert(rest[k] == b[k + 1]);
            }
            assert forall|k: int| 0 < k < rest.len() implies rest[k - 1].1 <= #[trigger] rest[k].0 by {
                assert(rest[k] == b[k + 1]);
                assert(rest[k - 1] == b[k]);
            }
            if rest.len() > 0 {
                assert(rest[0] == b[1]);
            }
        }
        lemma_pieces_flatten(s, rest, b[0].1);
        let x = s.subrange(from, b[0].0);
        let y = s.subrange(b[0].0, b[0].1);
        let tail = pieces(s, rest, b[0].1);
        let ps = seq![x, y] + tail;
        assert(ps == pieces(s, b, from));
        assert(ps.first() == x);
        assert(ps.drop_first() == seq![y] + tail);
        assert((seq![y] + tail).first() == y);
        assert((seq![y] + tail).drop_first() == tail);
        assert((seq![y] + tail).flatten() == y + tail.flatten());
        assert(ps.flatten() == x + (y + tail.flatten()));
        assert(x + (y + s.subrange(b[0].1, s.len() as int)) == s.subrange(from, s.len() as int));
    }
}

/// Partitioning loses nothing: for every string and every list of ordered,
/// non-overlapping ranges in it (so for the matches of any pattern), the pieces joined
/// in order give back the string.
pub proof fn lemma_partition_lossless<T>(s: Seq<T>, bounds: Seq<(int, int)>)
    requires
        bounds_ok(bounds, 0, s.len() as int),
    ensures
        pieces(s, bounds, 0).flatten() == s,
{
    lemma_pieces_flatten(s, bounds, 0);
    assert(s.subrange(0, s.len() as int) == s);
}

pub open spec fn int_bounds(v: Seq<(usize, usize)>) -> Seq<(int, int)> {
    v.map_values(|p: (usize, usize)| (p.0 as int, p.1 as int))
}

/// Splits `s` at the ranges `bounds` (see `pieces`).
pub fn partition_chars(s: &[char], bounds: &Vec<(usize, usize)>) -> (r: Vec<Vec<char>>)
    requires
        bounds_ok(int_bounds(bounds@), 0, s.len() as int),
    ensures
        r@.map_values(|v: Vec<char>| v@) == pieces(s@, int_bounds(bounds@), 0),
{
    let ghost ib = int_bounds(bounds@);
    let mut out: Vec<Vec<char>> = Vec::new();
    let mut pos: usize = 0;
    let mut i: usize = 0;
    assert(ib.skip(0) == ib);
    assert(out@.map_values(|v: Vec<char>| v@) == Seq::<Seq<char>>::empty());
    assert(Seq::<Seq<char>>::empty() + pieces(s@, ib, 0) == pieces(s@, ib, 0));
    while i < bounds.len()
        invariant
            0 <= i <= bounds.len(),
            ib == int_bounds(bounds@),
            bounds_ok(ib, 0, s.len() as int),
            pos <= s.len(),
            i == 0 ==> pos == 0,
            i > 0 ==> pos == ib[i - 1].1,
            out@.map_values(|v: Vec<char>| v@) + pieces(s@, ib.skip(i as int), pos as int)
                == pieces(s@, ib, 0),
        decreases bounds.len() - i,
    {
        let (a, b) = bounds[i];
        assert(ib[i as int] == (a as int, b as int));
        let ghost before = out@.map_values(|v: Vec<char>| v@);
        let ghost rest = ib.skip(i as int);
        assert(rest[0] == ib[i as int]);
        assert(rest.drop_first() == ib.skip(i + 1));
        let x = slice_chars(s, pos, a);
        let y = slice_chars(s, a, b);
        out.push(x);
        out.push(y);
        assert(out@.map_values(|v: Vec<char>| v@) == before + seq![x@, y@]);
        pos = b;
        i = i + 1;
    }
    if pos < s.len() {
        let ghost before = out@.map_values(|v: Vec<char>| v@);
        let z = slice_chars(s, pos, s.len());
        out.push(z);
        assert(out@.map_values(|v: Vec<char>| v@) == before + seq![z@]);
    }
    out
}

/// The ranges of the commands with an argument, `\name{arg}`, from position `i` on: each
/// runs from a backslash through the first `{` at least two places later to the first `}`
/// after that; the search goes on after the `}`.
pub open spec fn command_bounds_from(s: Seq<char>, i: int) -> Seq<(int, int)>
    decreases s.len() - i via command_bounds_decreases
{
    if i < 0 || i >= s.len() {
        seq![]
    } else {
        let b = find_char(s, i, '\\');
        let p = find_char(s, b + 2, '{');
        let q = find_char(s, p + 1, '}');
        if q < s.len() {
            seq![(b, q + 1)] + command_bounds_from(s, q + 1)
        } else {
            seq![]
        }
    }
}

#[via_fn]
proof fn command_bounds_decreases(s: Seq<char>, i: int) {
    if 0 <= i < s.len() {
        lemma_find_char(s, i, '\\');
        let b = find_char(s, i, '\\');
        lemma_find_char(s, b + 2, '{');
        let p = find_char(s, b + 2, '{');
        lemma_find_char(s, p + 1, '}');
    }
}

proof fn lemma_command_bounds_ok(s: Seq<char>, i: int)
    requires
        0 <= i <= s.len(),
    ensures
        bounds_ok(command_bounds_from(s, i), i, s.len() as int),
    decreases s.len() - i,
{
    if i < s.len() {
        lemma_find_char(s, i, '\\');
        let b = find_char(s, i, '\\');
        lemma_find_char(s, b + 2, '{');
        let p = find_char(s, b + 2, '{');
        lemma_find_char(s, p + 1, '}');
        let q = find_char(s, p + 1, '}');
        if q < s.len() {
            lemma_command_bounds_ok(s, q + 1);
            let rest = command_bounds_from(s, q + 1);
            let all = command_bounds_from(s, i);
            assert(all == seq![(b, q + 1)] + rest);
            assert forall|k: int| 0 <= k < all.len() implies all[k].0 <= #[trigger] all[k].1
                <= s.len() by {
                if k > 0 {
                    assert(all[k] == rest[k - 1]);
                }
            }
            assert forall|k: int| 0 < k < all.len() implies all[k - 1].1 <= #[trigger] all[k].0 by {
                assert(all[k] == rest[k - 1]);
                if k > 1 {
                    assert(all[k - 1] == rest[k - 2]);
                }
            }
        }
    }
}

/// The ranges of the commands with an argument in `s` (see `command_bounds_from`).
pub fn command_bounds(s: &[char]) -> (r: Vec<(usize, usize)>)
    ensures
        int_bounds(r@) == command_bounds_from(s@, 0),
        bounds_ok(int_bounds(r@), 0, s.len() as int),
{
    proof {
        lemma_command_bounds_ok(s@, 0);
    }
    let mut r: Vec<(usize, usize)> = Vec::new();
    let mut i: usize = 0;
    while i < s.len()
        invariant
            0 <= i <= s.len(),
            int_bounds(r@) + command_bounds_from(s@, i as int) == command_bounds_from(s@, 0),
            bounds_ok(command_bounds_from(s@, 0), 0, s.len() as int),
        decreases s.len() - i,
    {
        let b = find_char_exec(s, i, '\\');
        proof {
            lemma_find_char(s@, i as int, '\\');
        }
        if b >= s.len() - 1 {
            proof {
                lemma_find_char(s@, b + 2, '{');
                lemma_find_char(s@, s.len() as int, '}');
                lemma_find_char(s@, s.len() + 1, '}');
            }
            return r;
        }
        let p = find_char_exec(s, b + 2, '{');
        proof {
            lemma_find_char(s@, b + 2, '{');
        }
        if p >= s.len() {
            proof {
                lemma_find_char(s@, p + 1, '}');
            }
            return r;
        }
        let q = find_char_exec(s, p + 1, '}');
        proof {
            lemma_find_char(s@, p + 1, '}');
        }
        if q >= s.len() {
            return r;
        }
        let ghost before = int_bounds(r@);
        r.push((b, q + 1));
        assert(int_bounds(r@) == before + seq![(b as int, q + 1)]);
        i = q + 1;
    }
    r
}

#[verifier::external_type_specification]
#[verifier::external_body]
pub struct ExRegex(regex::Regex);

/// The byte ranges of the successive matches of a regex in a haystack, as the regex crate
/// finds them: they depend on the regex and the haystack alone.
pub uninterp spec fn regex_matches(re: regex::Regex, hay: Seq<u8>) -> Seq<(int, int)>;

/// Relies on `regex::Regex::find_iter`: the successive non-overlapping matches, in order,
/// each with `start <= end`, and byte offsets that fall on character boundaries of the
/// haystack; which matches they are depends on the regex and the haystack alone.
#[verifier::external_body]
fn match_ranges(re: &regex::Regex, hay: &str) -> (r: Vec<(usize, usize)>)
    ensures
        int_bounds(r@) == regex_matches(*re, hay.spec_bytes()),
        bounds_ok(int_bounds(r@), 0, hay.spec_bytes().len() as int),
        forall|k: int|
            0 <= k < r@.len() ==> is_char_boundary(hay.spec_bytes(), #[trigger] r@[k].0 as int)
                && is_char_boundary(hay.spec_bytes(), r@[k].1 as int),
{
    re.find_iter(hay).map(|m| (m.start(), m.end())).collect()
}

/// A character boundary at or after `pos` is one of the rest of the text from `pos` on.
proof fn lemma_boundary_in_suffix(bytes: Seq<u8>, pos: int, a: int)
    requires
        valid_utf8(bytes),
        is_char_boundary(bytes, pos),
        is_char_boundary(bytes, a),
        0 <= pos <= a <= bytes.len(),
    ensures
        valid_utf8(bytes.subrange(pos, bytes.len() as int)),
        is_char_boundary(bytes.subrange(pos, bytes.len() as int), a - pos),
{
    let rest = bytes.subrange(pos, bytes.len() as int);
    valid_utf8_split(bytes, pos);
    if a == bytes.len() {
        is_char_boundary_start_end_of_seq(rest);
    } else {
        is_char_boundary_iff_not_is_continuation_byte(bytes, a);
        is_char_boundary_iff_not_is_continuation_byte(rest, a - pos);
    }
}

/// Cuts the text `rest`, which is `bytes` from `pos` on, at the byte positions `a` and `b`
/// of `bytes`: the text before `a`, the text from `a` to `b`, and the rest.
fn cut<'h>(rest: &'h str, bytes: Ghost<Seq<u8>>, pos: usize, a: usize, b: usize) -> (r: (
    &'h str,
    &'h str,
    &'h str,
))
    requires
        valid_utf8(bytes@),
        pos <= a <= b <= bytes@.len(),
        is_char_boundary(bytes@, pos as int),
        is_char_boundary(bytes@, a as int),
        is_char_boundary(bytes@, b as int),
        rest.spec_bytes() == bytes@.subrange(pos as int, bytes@.len() as int),
    ensures
        r.0.spec_bytes() == bytes@.subrange(pos as int, a as int),
        r.1.spec_bytes() == bytes@.subrange(a as int, b as int),
        r.2.spec_bytes() == bytes@.subrange(b as int, bytes@.len() as int),
{
    proof {
        lemma_boundary_in_suffix(bytes@, pos as int, a as int);
    }
    let (x, r1) = rest.split_at(a - pos);
    assert(r1.spec_bytes() == bytes@.subrange(a as int, bytes@.len() as int));
    proof {
        lemma_boundary_in_suffix(bytes@, a as int, b as int);
    }
    let (y, r2) = r1.split_at(b - a);
    (x, y, r2)
}

/// Partitioning from the `i`-th range on starts with the text before that range and the
/// range itself.
proof fn lemma_pieces_step<T>(s: Seq<T>, b: Seq<(int, int)>, i: int, from: int)
    requires
        0 <= i < b.len(),
    ensures
        pieces(s, b.skip(i), from) == seq![s.subrange(from, b[i].0), s.subrange(b[i].0, b[i].1)]
            + pieces(s, b.skip(i + 1), b[i].1),
{
    let tail = b.skip(i);
    assert(tail[0] == b[i]);
    assert(tail.drop_first() == b.skip(i + 1));
}

/// Splits `s` at the byte ranges `bounds`, which fall on character boundaries (see
/// `pieces`).
#[verifier::rlimit(30)]
pub fn partition_at<'h>(s: &'h str, bounds: &Vec<(usize, usize)>) -> (r: Vec<&'h str>)
    requires
        bounds_ok(int_bounds(bounds@), 0, s.spec_bytes().len() as int),
        forall|k: int|
            0 <= k < bounds@.len() ==> is_char_boundary(s.spec_bytes(), #[trigger] bounds@[k].0 as int)
                && is_char_boundary(s.spec_bytes(), bounds@[k].1 as int),
    ensures
        r@.map_values(|p: &str| p.spec_bytes()) == pieces(s.spec_bytes(), int_bounds(bounds@), 0),
{
    let ghost bytes = s.spec_bytes();
    let ghost ib = int_bounds(bounds@);
    proof {
        encode_utf8_valid_utf8(s@);
        is_char_boundary_start_end_of_seq(bytes);
    }
    let mut out: Vec<&'h str> = Vec::new();
    let mut rest: &'h str = s;
    let mut pos: usize = 0;
    let mut i: usize = 0;
    assert(ib.skip(0) == ib);
    assert(out@.map_values(|p: &str| p.spec_bytes()) == Seq::<Seq<u8>>::empty());
    assert(Seq::<Seq<u8>>::empty() + pieces(bytes, ib, 0) == pieces(bytes, ib, 0));
    assert(bytes.subrange(0, bytes.len() as int) == bytes);
    while i < bounds.len()
        invariant
            0 <= i <= bounds.len(),
            bytes == s.spec_bytes(),
            valid_utf8(bytes),
            ib == int_bounds(bounds@),
            bounds_ok(ib, 0, bytes.len() as int),
            forall|k: int|
                0 <= k < bounds@.len() ==> is_char_boundary(bytes, #[trigger] bounds@[k].0 as int)
                    && is_char_boundary(bytes, bounds@[k].1 as int),
            pos <= bytes.len(),
            is_char_boundary(bytes, pos as int),
            i == 0 ==> pos == 0,
            i > 0 ==> pos == ib[i - 1].1,
            rest.spec_bytes() == bytes.subrange(pos as int, bytes.len() as int),
            out@.map_values(|p: &str| p.spec_bytes()) + pieces(bytes, ib.skip(i as int), pos as int)
                == pieces(bytes, ib, 0),
        decreases bounds.len() - i,
    {
        let (a, b) = bounds[i];
        assert(ib[i as int] == (a as int, b as int));
        assert(is_char_boundary(bytes, bounds@[i as int].0 as int));
        let (x, y, r2) = cut(rest, Ghost(bytes), pos, a, b);
        let ghost before = out@.map_values(|p: &str| p.spec_bytes());
        proof {
            lemma_pieces_step(bytes, ib, i as int, pos as int);
        }
        out.push(x);
        out.push(y);
        assert(out@.map_values(|p: &str| p.spec_bytes()) == before + seq![
            x.spec_bytes(),
            y.spec_bytes(),
        ]);
        assert(before + seq![x.spec_bytes(), y.spec_bytes()] + pieces(bytes, ib.skip(i + 1), b as int)
            == before + (seq![x.spec_bytes(), y.spec_bytes()] + pieces(bytes, ib.skip(i + 1), b as int)));
        rest = r2;
        pos = b;
        i = i + 1;
    }
    assert(ib.skip(bounds.len() as int) == Seq::<(int, int)>::empty());
    proof {
        if rest@.len() > 0 {
            assert(rest.spec_bytes() == encode_utf8(rest@));
            assert(encode_utf8(rest@).len() > 0);
        }
    }
    if !rest.is_empty() {
        let ghost before = out@.map_values(|p: &str| p.spec_bytes());
        out.push(rest);
        assert(out@.map_values(|p: &str| p.spec_bytes()) == before + seq![rest.spec_bytes()]);
    } else {
        let ghost before = out@.map_values(|p: &str| p.spec_bytes());
        assert(before + Seq::<Seq<u8>>::empty() == before);
        assert(pieces(bytes, Seq::<(int, int)>::empty(), pos as int) == Seq::<Seq<u8>>::empty());
    }
    out
}

proof fn lemma_encode_concat(a: Seq<char>, b: Seq<char>)
    ensures
        encode_utf8(a + b) == encode_utf8(a) + encode_utf8(b),
    decreases a.len(),
{
    if a.len() == 0 {
        assert(a + b == b);
    } else {
        lemma_encode_concat(a.drop_first(), b);
        assert((a + b).drop_first() == a.drop_first() + b);
        assert((a + b)[0] == a[0]);
    }
}

proof fn lemma_encode_flatten(xs: Seq<Seq<char>>)
    ensures
        encode_utf8(xs.flatten()) == xs.map_values(|x: Seq<char>| encode_utf8(x)).flatten(),
    decreases xs.len(),
{
    let ys = xs.map_values(|x: Seq<char>| encode_utf8(x));
    if xs.len() == 0 {
        assert(ys.len() == 0);
    } else {
        lemma_encode_flatten(xs.drop_first());
        assert(ys.drop_first() == xs.drop_first().map_values(|x: Seq<char>| encode_utf8(x)));
        lemma_encode_concat(xs.first(), xs.drop_first().flatten());
    }
}

/// Pieces of a string whose bytes join to its bytes join to the string itself.
proof fn lemma_pieces_join(ps: Seq<&str>, s: &str)
    requires
        ps.map_values(|p: &str| p.spec_bytes()).flatten() == s.spec_bytes(),
    ensures
        ps.map_values(|p: &str| p@).flatten() == s@,
{
    let xs = ps.map_values(|p: &str| p@);
    assert(xs.map_values(|x: Seq<char>| encode_utf8(x)) == ps.map_values(|p: &str| p.spec_bytes()));
    lemma_encode_flatten(xs);
    encode_utf8_decode_utf8(xs.flatten());
    encode_utf8_decode_utf8(s@);
}

/// Splits `to_partition` around the matches of `delimit_re`, keeping them: the text before
/// each match, the match, and at the end what follows the last match if it is not empty.
/// Joined in order, the pieces give back the input.
pub fn regex_partition<'h>(delimit_re: regex::Regex, to_partition: &'h str) -> (r: Vec<&'h str>)
    ensures
        r@.map_values(|p: &str| p.spec_bytes()) == pieces(
            to_partition.spec_bytes(),
            regex_matches(delimit_re, to_partition.spec_bytes()),
            0,
        ),
        bounds_ok(
            regex_matches(delimit_re, to_partition.spec_bytes()),
            0,
            to_partition.spec_bytes().len() as int,
        ),
        r@.map_values(|p: &str| p.spec_bytes()).flatten() == to_partition.spec_bytes(),
        r@.map_values(|p: &str| p@).flatten() == to_partition@,
{
    let ranges = match_ranges(&delimit_re, to_partition);
    let r = partition_at(to_partition, &ranges);
    proof {
        lemma_partition_lossless(to_partition.spec_bytes(), int_bounds(ranges@));
        lemma_pieces_join(r@, to_partition);
    }
    r
}

} // verus!
