//! What the functions on text promise, told of the characters alone.

use crate::order::text_before;
use crate::text::{
    ascii_lower, cut_back, cut_front, decimal, digit, digits, drop_back, drop_front, first_from,
    has_suffix, has_text, head, hex_of, is_white_spec, joined, occurs_at, replaced, trimmed,
};
use vstd::prelude::*;

verus! {

// ---------------------------------------------------------------------------
// Searching
// ---------------------------------------------------------------------------

/// Whether a text stands in another at a place.
pub open spec fn stands_at_place(t: Seq<char>, w: Seq<char>, k: int) -> bool {
    0 <= k && k + w.len() <= t.len() && t.subrange(k, k + w.len()) == w
}

/// Whether a text stands anywhere in another.
pub open spec fn stands_in(t: Seq<char>, w: Seq<char>) -> bool {
    exists|k: int| stands_at_place(t, w, k)
}

/// One text stands in another where the other can be cut into what is before it, the text
/// itself, and what is behind it.
pub proof fn law_text_stands_in(t: Seq<char>, w: Seq<char>, before: Seq<char>, behind: Seq<char>)
    ensures
        has_text(t, w) <==> stands_in(t, w),
        t == before + w + behind ==> has_text(t, w),
{
    if has_text(t, w) {
        let k = choose|k: int| occurs_at(t, w, k);
        assert(stands_at_place(t, w, k));
    }
    if stands_in(t, w) {
        let k = choose|k: int| stands_at_place(t, w, k);
        assert(occurs_at(t, w, k));
    }
    if t == before + w + behind {
        let k = before.len() as int;
        assert(t.subrange(k, k + w.len()) =~= w);
        assert(occurs_at(t, w, k));
    }
}

/// A text stands in each text that it was put into.
pub proof fn lemma_stands_in_sum(a: Seq<char>, w: Seq<char>, b: Seq<char>)
    ensures
        stands_in(a + w + b, w),
        stands_in(a + w, w),
        stands_in(w + b, w),
{
    assert((a + w + b).subrange(a.len() as int, (a.len() + w.len()) as int) =~= w);
    assert(stands_at_place(a + w + b, w, a.len() as int));
    assert((a + w).subrange(a.len() as int, (a.len() + w.len()) as int) =~= w);
    assert(stands_at_place(a + w, w, a.len() as int));
    assert((w + b).subrange(0, w.len() as int) =~= w);
    assert(stands_at_place(w + b, w, 0));
}

/// What stands in a text stands in all that the text is put into.
pub proof fn lemma_stands_in_part(a: Seq<char>, t: Seq<char>, b: Seq<char>, w: Seq<char>)
    requires
        stands_in(t, w),
    ensures
        stands_in(a + t + b, w),
        stands_in(a + t, w),
        stands_in(t + b, w),
{
    let k = choose|k: int| stands_at_place(t, w, k);
    assert((a + t + b).subrange(a.len() + k, a.len() + k + w.len()) =~= w);
    assert(stands_at_place(a + t + b, w, a.len() + k));
    assert((a + t).subrange(a.len() + k, a.len() + k + w.len()) =~= w);
    assert(stands_at_place(a + t, w, a.len() + k));
    assert((t + b).subrange(k, k + w.len()) =~= w);
    assert(stands_at_place(t + b, w, k));
}

/// Where two texts stand one behind the other, each of them stands.
pub proof fn lemma_stands_in_parts(t: Seq<char>, a: Seq<char>, b: Seq<char>)
    requires
        stands_in(t, a + b),
    ensures
        stands_in(t, a),
        stands_in(t, b),
{
    let k = choose|k: int| stands_at_place(t, a + b, k);
    let m = k + a.len();
    assert(t.subrange(k, k + (a + b).len()) == a + b);
    assert(t.subrange(k, m) =~= (a + b).subrange(0, a.len() as int));
    assert((a + b).subrange(0, a.len() as int) =~= a);
    assert(stands_at_place(t, a, k));
    assert(t.subrange(m, m + b.len()) =~= (a + b).subrange(a.len() as int, (a + b).len() as int));
    assert((a + b).subrange(a.len() as int, (a + b).len() as int) =~= b);
    assert(stands_at_place(t, b, m));
}

/// Each part stands in the whole.
pub proof fn law_joined_holds_parts(parts: Seq<Seq<char>>, sep: Seq<char>, k: int)
    requires
        0 <= k < parts.len(),
    ensures
        stands_in(joined(parts, sep), parts[k]),
    decreases parts.len(),
{
    if parts.len() == 1 {
        let whole = joined(parts, sep);
        assert(whole.subrange(0, whole.len() as int) =~= whole);
        assert(stands_at_place(whole, parts[k], 0));
    } else {
        let rest = parts.drop_last();
        let front = joined(rest, sep);
        if k < rest.len() {
            law_joined_holds_parts(rest, sep, k);
            assert(rest[k] == parts[k]);
            lemma_stands_in_part(Seq::empty(), front, sep + parts.last(), parts[k]);
            assert(front + (sep + parts.last()) =~= front + sep + parts.last());
        } else {
            lemma_stands_in_sum(front + sep, parts.last(), Seq::empty());
        }
    }
}

// ---------------------------------------------------------------------------
// Replacing
// ---------------------------------------------------------------------------

/// Where there is nothing to replace, a text stays as it is.
pub proof fn law_replaced_nothing(s: Seq<char>, pat: Seq<char>, by: Seq<char>)
    requires
        !stands_in(s, pat),
    ensures
        replaced(s, pat, by) == s,
    decreases s.len(),
{
    if pat.len() > 0 && s.len() > 0 {
        assert(!occurs_at(s, pat, 0)) by {
            if occurs_at(s, pat, 0) {
                assert(stands_at_place(s, pat, 0));
            }
        }
        let rest = s.drop_first();
        assert(!stands_in(rest, pat)) by {
            if stands_in(rest, pat) {
                lemma_stands_in_part(seq![s[0]], rest, Seq::empty(), pat);
                assert(seq![s[0]] + rest =~= s);
            }
        }
        law_replaced_nothing(rest, pat, by);
        assert(seq![s[0]] + rest =~= s);
    }
}

/// The first place of a text is replaced, and then the rest is gone through in the same
/// way.
pub proof fn law_replaced_first(x: Seq<char>, pat: Seq<char>, y: Seq<char>, by: Seq<char>)
    requires
        pat.len() > 0,
        forall|k: int| 0 <= k < x.len() ==> !#[trigger] stands_at_place(x + pat + y, pat, k),
    ensures
        replaced(x + pat + y, pat, by) == x + by + replaced(y, pat, by),
    decreases x.len(),
{
    let s = x + pat + y;
    if x.len() == 0 {
        assert(s.subrange(0, pat.len() as int) =~= pat);
        assert(occurs_at(s, pat, 0));
        assert(s.skip(pat.len() as int) =~= y);
        assert(x + by =~= by);
    } else {
        let rest = x.drop_first();
        assert(!stands_at_place(s, pat, 0));
        assert(!occurs_at(s, pat, 0));
        assert(s.drop_first() =~= rest + pat + y);
        assert forall|k: int| 0 <= k < rest.len() implies !#[trigger] stands_at_place(
            rest + pat + y,
            pat,
            k,
        ) by {
            if stands_at_place(rest + pat + y, pat, k) {
                assert(s.subrange(k + 1, k + 1 + pat.len()) =~= (rest + pat + y).subrange(
                    k,
                    k + pat.len(),
                ));
                assert(stands_at_place(s, pat, k + 1));
            }
        }
        law_replaced_first(rest, pat, y, by);
        assert(seq![s[0]] + (rest + by + replaced(y, pat, by)) =~= x + by + replaced(y, pat, by));
    }
}

// ---------------------------------------------------------------------------
// Trimming
// ---------------------------------------------------------------------------

proof fn lemma_front(a: Seq<char>, t: Seq<char>, p: spec_fn(char) -> bool)
    requires
        forall|i: int| 0 <= i < a.len() ==> p(#[trigger] a[i]),
        t.len() > 0 ==> !p(t[0]),
    ensures
        drop_front(a + t, p) == t,
    decreases a.len(),
{
    if a.len() == 0 {
        assert(a + t =~= t);
    } else {
        assert(p(a[0]));
        assert((a + t).drop_first() =~= a.drop_first() + t);
        assert forall|i: int| 0 <= i < a.drop_first().len() implies p(
            #[trigger] a.drop_first()[i],
        ) by {
            assert(p(a[i + 1]));
        }
        lemma_front(a.drop_first(), t, p);
    }
}

proof fn lemma_back(t: Seq<char>, b: Seq<char>, p: spec_fn(char) -> bool)
    requires
        forall|i: int| 0 <= i < b.len() ==> p(#[trigger] b[i]),
        t.len() > 0 ==> !p(t.last()),
    ensures
        drop_back(t + b, p) == t,
    decreases b.len(),
{
    if b.len() == 0 {
        assert(t + b =~= t);
    } else {
        assert(p(b[b.len() - 1]));
        assert((t + b).drop_last() =~= t + b.drop_last());
        assert forall|i: int| 0 <= i < b.drop_last().len() implies p(#[trigger] b.drop_last()[i]) by {
            assert(p(b[i]));
        }
        lemma_back(t, b.drop_last(), p);
    }
}

/// Trimming takes white space off both ends and leaves what is between.
pub proof fn law_trimmed(a: Seq<char>, t: Seq<char>, b: Seq<char>)
    requires
        forall|i: int| 0 <= i < a.len() ==> is_white_spec(#[trigger] a[i]),
        forall|i: int| 0 <= i < b.len() ==> is_white_spec(#[trigger] b[i]),
        t.len() > 0 ==> !is_white_spec(t[0]) && !is_white_spec(t.last()),
    ensures
        trimmed(a + t + b) == t,
{
    let p = |c: char| is_white_spec(c);
    if t.len() > 0 {
        assert(a + t + b =~= a + (t + b));
        assert((t + b)[0] == t[0]);
        lemma_front(a, t + b, p);
        lemma_back(t, b, p);
    } else {
        let all = a + b;
        assert(a + t + b =~= all + t);
        assert forall|i: int| 0 <= i < all.len() implies p(#[trigger] all[i]) by {
            if i < a.len() {
                assert(is_white_spec(a[i]));
            } else {
                assert(is_white_spec(b[i - a.len()]));
            }
        }
        lemma_front(all, t, p);
        assert(trimmed(a + t + b) =~= t);
    }
}

/// The blank is white space, and so are the line feed, the tab, the carriage return and the
/// ideographic space; letters, digits and what is written beyond are not.
pub proof fn law_white_space(c: char)
    ensures
        is_white_spec(' ') && is_white_spec('\n') && is_white_spec('\t') && is_white_spec('\r')
            && is_white_spec('\u{3000}'),
        '!' <= c && c <= '~' ==> !is_white_spec(c),
        '\u{3001}' <= c ==> !is_white_spec(c),
{
}

// ---------------------------------------------------------------------------
// Cutting and counting
// ---------------------------------------------------------------------------

/// The head of a text is a front part of it, with as many characters as asked for or all.
pub proof fn law_head(s: Seq<char>, n: int)
    requires
        0 <= n,
    ensures
        head(s, n).is_prefix_of(s),
        head(s, n).len() == if s.len() <= n {
            s.len() as int
        } else {
            n
        },
{
}

/// A number is written by its decimal digits, the greatest first, without leading zeros; one
/// below zero has a sign before it.
pub proof fn law_decimal(n: int, d: int)
    requires
        0 <= n,
        0 <= d < 10,
    ensures
        decimal(d) == seq![(48 + d) as u8 as char],
        n > 0 ==> decimal(10 * n + d) == decimal(n).push((48 + d) as u8 as char),
        n > 0 ==> decimal(-n) == seq!['-'] + decimal(n),
{
    assert((10 * n + d) / 10 == n && (10 * n + d) % 10 == d);
    reveal_with_fuel(digits, 2);
}

/// Parts are put together one behind the other with the separator between them.
pub proof fn law_joined(parts: Seq<Seq<char>>, sep: Seq<char>, last: Seq<char>)
    ensures
        joined(Seq::empty(), sep) == Seq::<char>::empty(),
        joined(seq![last], sep) == last,
        parts.len() > 0 ==> joined(parts.push(last), sep) == joined(parts, sep) + sep + last,
{
    assert(parts.push(last).drop_last() =~= parts);
}

// ---------------------------------------------------------------------------
// Order and ends
// ---------------------------------------------------------------------------

/// One text comes before another if at the first place where they differ its character is
/// the lesser, or if it is the front part of the other.
pub proof fn law_text_before(p: Seq<char>, a: Seq<char>, b: Seq<char>)
    ensures
        a.len() > 0 && b.len() > 0 && a[0] != b[0] ==> (text_before(p + a, p + b) <==> a[0] < b[0]),
        a.len() == 0 && b.len() > 0 ==> text_before(p + a, p + b) && !text_before(p + b, p + a),
        !text_before(p, p),
    decreases p.len(),
{
    if p.len() == 0 {
        assert(p + a =~= a);
        assert(p + b =~= b);
    } else {
        let rest = p.drop_first();
        law_text_before(rest, a, b);
        assert((p + a).drop_first() =~= rest + a);
        assert((p + b).drop_first() =~= rest + b);
        assert((p + a)[0] == p[0] && (p + b)[0] == p[0]);
    }
}

/// An ending is cut off a text as often as it stands at its end, and a beginning as often as
/// it stands at its start.
pub proof fn law_cut(s: Seq<char>, pat: Seq<char>)
    requires
        pat.len() > 0,
    ensures
        cut_back(s + pat, pat) == cut_back(s, pat),
        cut_front(pat + s, pat) == cut_front(s, pat),
        !pat.is_suffix_of(s) ==> cut_back(s, pat) == s,
        !pat.is_prefix_of(s) ==> cut_front(s, pat) == s,
{
    let t = s + pat;
    let n = t.len() - pat.len();
    assert(t.subrange(n, n + pat.len()) =~= pat);
    assert(t.take(n) =~= s);
    let u = pat + s;
    assert(u.subrange(0, pat.len() as int) =~= pat);
    assert(u.skip(pat.len() as int) =~= s);
    if occurs_at(s, pat, s.len() - pat.len()) {
        assert(pat =~= s.subrange(s.len() - pat.len(), s.len() as int));
    }
    if occurs_at(s, pat, 0) {
        assert(pat =~= s.subrange(0, pat.len() as int));
    }
}

/// ASCII capital letters are lowered to the small letters in their order, and every other
/// character stays.
pub proof fn law_ascii_lower(k: int, c: char)
    requires
        0 <= k < 26,
    ensures
        ascii_lower((65 + k) as u8 as char) == (97 + k) as u8 as char,
        c < 'A' || c > 'Z' ==> ascii_lower(c) == c,
{
}

/// A text ends with another if it can be cut into what is before it and that.
pub proof fn law_ending(s: Seq<char>, pat: Seq<char>, before: Seq<char>)
    ensures
        has_suffix(before + pat, pat),
        has_suffix(s, pat) ==> s == s.take(s.len() - pat.len()) + pat,
{
    let t = before + pat;
    assert(t.subrange(before.len() as int, t.len() as int) =~= pat);
    if has_suffix(s, pat) {
        assert(s =~= s.take(s.len() - pat.len()) + pat);
    }
}

/// The first place of a text is one where it stands, and there is none before it.
pub proof fn law_first_place(s: Seq<char>, pat: Seq<char>)
    ensures
        first_from(s, pat, 0) is None <==> !stands_in(s, pat),
        first_from(s, pat, 0) matches Some(i) ==> stands_at_place(s, pat, i) && forall|k: int|
            0 <= k < i ==> !#[trigger] stands_at_place(s, pat, k),
{
    crate::text::lemma_first_from(s, pat, 0);
    if stands_in(s, pat) {
        let k = choose|k: int| stands_at_place(s, pat, k);
        assert(occurs_at(s, pat, k));
    }
    if first_from(s, pat, 0) is Some {
        let i = first_from(s, pat, 0)->0;
        assert(occurs_at(s, pat, i));
        assert(stands_at_place(s, pat, i));
        assert forall|k: int| 0 <= k < i implies !#[trigger] stands_at_place(s, pat, k) by {
            assert(!occurs_at(s, pat, k));
        }
    }
}

/// A digit for a value below sixteen.
pub open spec fn hex_digit(d: int) -> char {
    if d < 10 {
        (48 + d) as u8 as char
    } else {
        (97 + (d - 10)) as u8 as char
    }
}

/// Bytes are written in hexadecimal by two digits each, the greater first.
pub proof fn law_hex(bytes: Seq<u8>, b: u8)
    ensures
        hex_of(Seq::empty()).len() == 0,
        hex_of(bytes.push(b)) == hex_of(bytes).push(hex_digit(b as int / 16)).push(
            hex_digit(b as int % 16),
        ),
{
    assert(bytes.push(b).drop_last() =~= bytes);
    assert(hex_of(bytes.push(b)) =~= hex_of(bytes).push(hex_digit(b as int / 16)).push(
        hex_digit(b as int % 16),
    ));
}

/// Something that is put into the place of a mark stands in the text, if the mark did.
pub proof fn law_replaced_stands(s: Seq<char>, pat: Seq<char>, by: Seq<char>)
    requires
        pat.len() > 0,
        stands_in(s, pat),
    ensures
        stands_in(replaced(s, pat, by), by),
    decreases s.len(),
{
    let k = choose|k: int| stands_at_place(s, pat, k);
    if occurs_at(s, pat, 0) {
        lemma_stands_in_sum(Seq::empty(), by, replaced(s.skip(pat.len() as int), pat, by));
    } else {
        let rest = s.drop_first();
        assert(k > 0) by {
            if k == 0 {
                assert(occurs_at(s, pat, 0));
            }
        }
        assert(rest.subrange(k - 1, k - 1 + pat.len()) =~= s.subrange(k, k + pat.len()));
        assert(stands_at_place(rest, pat, k - 1));
        law_replaced_stands(rest, pat, by);
        lemma_stands_in_part(seq![s[0]], replaced(rest, pat, by), Seq::empty(), by);
    }
}

} // verus!
