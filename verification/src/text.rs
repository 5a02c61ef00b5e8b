//! Text as sequences of characters: searching, trimming, splitting, joining and
//! writing numbers.

use vstd::prelude::*;

verus! {

// ---------------------------------------------------------------------------
// Outside functions of std
// ---------------------------------------------------------------------------

/// `String::push` of std: the character goes to the end of the string.
pub assume_specification[ String::push ](s: &mut String, c: char)
    ensures
        final(s)@ == old(s)@.push(c),
;

/// The text that `str::to_lowercase` gives: Unicode lower case.
pub uninterp spec fn lowercase_of(s: Seq<char>) -> Seq<char>;

/// The lower case of an ASCII character; any other character is kept.
pub open spec fn ascii_lower(c: char) -> char {
    if 'A' <= c && c <= 'Z' {
        ((c as u32 + 32) as u8) as char
    } else {
        c
    }
}

/// `str::to_lowercase` of std, by its name `lowercase_of`. On ASCII text it maps
/// each character by itself.
pub assume_specification[ str::to_lowercase ](s: &str) -> (r: String)
    ensures
        r@ == lowercase_of(s@),
        vstd::utf8::is_ascii_chars(s@) ==> r@ == ascii_lowered(s@),
;

/// Whether `char::is_alphanumeric` holds: the Unicode property of being a letter
/// or a number.
pub uninterp spec fn alphanumeric(c: char) -> bool;

/// `char::is_alphanumeric` of std, by its name `alphanumeric`. Of ASCII it holds
/// for the digits and the two alphabets and for nothing else.
pub assume_specification[ char::is_alphanumeric ](c: char) -> (r: bool)
    ensures
        r == alphanumeric(c),
        (c as u32) < 128 ==> r == ascii_alphanumeric(c),
;

// ---------------------------------------------------------------------------
// Characters
// ---------------------------------------------------------------------------

/// Characters with the Unicode property `White_Space`.
pub open spec fn is_white_spec(c: char) -> bool {
    let v = c as u32;
    ||| 0x09 <= v <= 0x0d
    ||| v == 0x20
    ||| v == 0x85
    ||| v == 0xa0
    ||| v == 0x1680
    ||| 0x2000 <= v <= 0x200a
    ||| v == 0x2028
    ||| v == 0x2029
    ||| v == 0x202f
    ||| v == 0x205f
    ||| v == 0x3000
}

/// Whether `c` is white space.
#[verifier::when_used_as_spec(is_white_spec)]
pub fn is_white(c: char) -> (r: bool)
    ensures
        r == is_white_spec(c),
{
    let v: u32 = c as u32;
    (0x09 <= v && v <= 0x0d) || v == 0x20 || v == 0x85 || v == 0xa0 || v == 0x1680 || (0x2000 <= v
        && v <= 0x200a) || v == 0x2028 || v == 0x2029 || v == 0x202f || v == 0x205f || v == 0x3000
}

/// An ASCII letter or digit.
pub open spec fn ascii_alphanumeric(c: char) -> bool {
    ||| '0' <= c && c <= '9'
    ||| 'A' <= c && c <= 'Z'
    ||| 'a' <= c && c <= 'z'
}

/// Whether `c` is an ASCII letter or digit.
pub fn is_ascii_alphanumeric(c: char) -> (r: bool)
    ensures
        r == ascii_alphanumeric(c),
{
    ('0' <= c && c <= '9') || ('A' <= c && c <= 'Z') || ('a' <= c && c <= 'z')
}

// ---------------------------------------------------------------------------
// Strings and vectors of characters
// ---------------------------------------------------------------------------

/// The characters of each string.
pub open spec fn views(v: Seq<String>) -> Seq<Seq<char>> {
    v.map_values(|s: String| s@)
}

/// The characters of `s`.
pub fn chars_of(s: &str) -> (r: Vec<char>)
    ensures
        r@ == s@,
{
    let mut out: Vec<char> = Vec::new();
    for c in it: s.chars()
        invariant
            out@ == it.seq().take(it.index() as int),
    {
        out.push(c);
    }
    out
}

/// The string that `cs` spells.
pub fn string_of(cs: &[char]) -> (r: String)
    ensures
        r@ == cs@,
{
    let mut out = String::new();
    let mut i: usize = 0;
    while i < cs.len()
        invariant
            i <= cs.len(),
            out@ == cs@.take(i as int),
        decreases cs.len() - i,
    {
        out.push(cs[i]);
        i = i + 1;
    }
    assert(cs@.take(i as int) == cs@);
    out
}

/// The string that `cs` spells from `from` up to `to`.
pub fn string_between(cs: &[char], from: usize, to: usize) -> (r: String)
    requires
        from <= to <= cs.len(),
    ensures
        r@ == cs@.subrange(from as int, to as int),
{
    let mut out = String::new();
    let mut i: usize = from;
    while i < to
        invariant
            from <= i <= to <= cs.len(),
            out@ == cs@.subrange(from as int, i as int),
        decreases to - i,
    {
        out.push(cs[i]);
        i = i + 1;
        assert(cs@.subrange(from as int, i as int) == cs@.subrange(from as int, i - 1).push(
            cs@[i - 1],
        ));
    }
    out
}

/// The number of bytes that a text takes in UTF-8.
pub open spec fn byte_size(s: Seq<char>) -> nat {
    vstd::utf8::encode_utf8(s).len()
}

/// The number of bytes that `s` takes in UTF-8.
pub fn byte_len(s: &str) -> (n: usize)
    ensures
        n == byte_size(s@),
{
    s.as_bytes().len()
}

/// The number of characters of `s`.
pub fn char_len(s: &str) -> (n: usize)
    ensures
        n == s@.len(),
{
    chars_of(s).len()
}

/// Whether `s` has no characters.
pub fn is_empty(s: &str) -> (r: bool)
    ensures
        r == (s@.len() == 0),
{
    char_len(s) == 0
}

/// Whether two texts are the same.
pub fn same_text(a: &str, b: &str) -> (r: bool)
    ensures
        r == (a@ == b@),
{
    let x = chars_of(a);
    let y = chars_of(b);
    if x.len() != y.len() {
        return false;
    }
    let mut i: usize = 0;
    while i < x.len()
        invariant
            i <= x.len(),
            x.len() == y.len(),
            x@ == a@,
            y@ == b@,
            forall|k: int| 0 <= k < i ==> x@[k] == y@[k],
        decreases x.len() - i,
    {
        if x[i] != y[i] {
            return false;
        }
        i = i + 1;
    }
    assert(x@ == y@);
    true
}

/// A text with its ASCII capital letters in lower case.
pub open spec fn ascii_lowered(s: Seq<char>) -> Seq<char> {
    s.map_values(|c: char| ascii_lower(c))
}

/// A text in lower case: first its ASCII letters, one by one, then all the others.
pub open spec fn lowered(s: Seq<char>) -> Seq<char> {
    lowercase_of(ascii_lowered(s))
}

/// A text with its ASCII capital letters in lower case.
pub fn lower_ascii(s: &str) -> (r: String)
    ensures
        r@ == ascii_lowered(s@),
{
    let cs = chars_of(s);
    let mut out = String::new();
    let mut i: usize = 0;
    proof {
        assert(out@ =~= ascii_lowered(cs@.take(0)));
    }
    while i < cs.len()
        invariant
            i <= cs.len(),
            out@ == ascii_lowered(cs@.take(i as int)),
        decreases cs.len() - i,
    {
        let c = cs[i];
        let low = if 'A' <= c && c <= 'Z' {
            ((c as u32 + 32) as u8) as char
        } else {
            c
        };
        out.push(low);
        proof {
            assert(low == ascii_lower(c));
            assert(out@ =~= ascii_lowered(cs@.take(i + 1)));
        }
        i = i + 1;
    }
    proof {
        assert(cs@.take(cs@.len() as int) =~= cs@);
    }
    out
}

/// A text in lower case. On ASCII text each letter is lowered by itself.
pub fn lower_case(s: &str) -> (r: String)
    ensures
        r@ == lowered(s@),
        vstd::utf8::is_ascii_chars(s@) ==> r@ == ascii_lowered(s@),
{
    let low = lower_ascii(s);
    proof {
        if vstd::utf8::is_ascii_chars(s@) {
            assert(vstd::utf8::is_ascii_chars(low@));
            assert(ascii_lowered(low@) =~= low@);
        }
    }
    low.as_str().to_lowercase()
}

/// The first `n` characters of a text, or all of it if it has fewer.
pub open spec fn head(s: Seq<char>, n: int) -> Seq<char> {
    if s.len() <= n {
        s
    } else {
        s.take(n)
    }
}

/// The first `n` characters of `s`, or all of it if it has fewer.
pub fn take_chars(s: &str, n: usize) -> (r: String)
    ensures
        r@ == head(s@, n as int),
{
    let cs = chars_of(s);
    let end: usize = if cs.len() <= n {
        cs.len()
    } else {
        n
    };
    let r = string_between(cs.as_slice(), 0, end);
    proof {
        assert(cs@.subrange(0, end as int) == head(s@, n as int));
    }
    r
}

// ---------------------------------------------------------------------------
// Trimming
// ---------------------------------------------------------------------------

/// `s` without its longest prefix of characters in `p`.
pub open spec fn drop_front(s: Seq<char>, p: spec_fn(char) -> bool) -> Seq<char>
    decreases s.len(),
{
    if s.len() > 0 && p(s[0]) {
        drop_front(s.drop_first(), p)
    } else {
        s
    }
}

/// `s` without its longest suffix of characters in `p`.
pub open spec fn drop_back(s: Seq<char>, p: spec_fn(char) -> bool) -> Seq<char>
    decreases s.len(),
{
    if s.len() > 0 && p(s.last()) {
        drop_back(s.drop_last(), p)
    } else {
        s
    }
}

/// `s` without white space at either end.
pub open spec fn trimmed(s: Seq<char>) -> Seq<char> {
    drop_back(drop_front(s, |c: char| is_white_spec(c)), |c: char| is_white_spec(c))
}

/// `s` without the characters of `set` at either end.
pub open spec fn trimmed_of(s: Seq<char>, set: Seq<char>) -> Seq<char> {
    drop_back(drop_front(s, |c: char| set.contains(c)), |c: char| set.contains(c))
}

/// The characters of a text that are not white space.
pub open spec fn solid(s: Seq<char>) -> Seq<char> {
    s.filter(|c: char| !is_white_spec(c))
}

/// Dropping characters at the front leaves a text that does not start with one of them.
proof fn lemma_drop_front(s: Seq<char>, p: spec_fn(char) -> bool)
    ensures
        drop_front(s, p).len() <= s.len(),
        drop_front(s, p).len() > 0 ==> !p(drop_front(s, p)[0]),
        s.len() > 0 && !p(s[0]) ==> drop_front(s, p) == s,
    decreases s.len(),
{
    if s.len() > 0 && p(s[0]) {
        lemma_drop_front(s.drop_first(), p);
    }
}

/// Dropping characters at the back leaves a front part that does not end with one of
/// them.
pub proof fn lemma_drop_back(s: Seq<char>, p: spec_fn(char) -> bool)
    ensures
        drop_back(s, p).len() <= s.len(),
        drop_back(s, p) == s.take(drop_back(s, p).len() as int),
        drop_back(s, p).len() > 0 ==> !p(drop_back(s, p).last()),
        s.len() > 0 && !p(s[0]) ==> drop_back(s, p).len() > 0,
    decreases s.len(),
{
    if s.len() > 0 && p(s.last()) {
        let rest = s.drop_last();
        lemma_drop_back(rest, p);
        let n = drop_back(rest, p).len() as int;
        assert(rest.take(n) =~= s.take(n));
        if !p(s[0]) {
            assert(s.len() > 1);
            assert(rest[0] == s[0]);
        }
    } else {
        assert(s.take(s.len() as int) =~= s);
    }
}

/// White space does not count.
proof fn lemma_solid_sum(a: Seq<char>, b: Seq<char>)
    ensures
        solid(a + b) == solid(a) + solid(b),
{
    Seq::filter_distributes_over_add(a, b, |c: char| !is_white_spec(c));
}

proof fn lemma_solid_one(c: char)
    ensures
        solid(seq![c]) == if is_white_spec(c) {
            Seq::<char>::empty()
        } else {
            seq![c]
        },
{
    reveal(Seq::filter);
    let solid_one = |x: char| !is_white_spec(x);
    assert(seq![c].drop_last() =~= Seq::<char>::empty());
    Seq::<char>::empty().lemma_filter_len(solid_one);
    assert(seq![c].drop_last().filter(solid_one) =~= Seq::<char>::empty());
    assert(solid(seq![c]) =~= if is_white_spec(c) {
        Seq::<char>::empty()
    } else {
        seq![c]
    });
}

proof fn lemma_solid_front(s: Seq<char>)
    ensures
        solid(drop_front(s, |c: char| is_white_spec(c))) == solid(s),
    decreases s.len(),
{
    if s.len() > 0 && is_white_spec(s[0]) {
        lemma_solid_front(s.drop_first());
        lemma_solid_sum(seq![s[0]], s.drop_first());
        lemma_solid_one(s[0]);
        assert(s =~= seq![s[0]] + s.drop_first());
        assert(solid(s) =~= solid(s.drop_first()));
    }
}

proof fn lemma_solid_back(s: Seq<char>)
    ensures
        solid(drop_back(s, |c: char| is_white_spec(c))) == solid(s),
    decreases s.len(),
{
    if s.len() > 0 && is_white_spec(s.last()) {
        reveal(Seq::filter);
        lemma_solid_back(s.drop_last());
    }
}

/// A trimmed text neither starts nor ends with white space, and trimming drops nothing
/// else. A text that starts or ends with something else is not empty when trimmed.
pub proof fn lemma_trimmed(s: Seq<char>)
    ensures
        trimmed(s).len() <= s.len(),
        trimmed(s).len() > 0 ==> !is_white_spec(trimmed(s)[0]) && !is_white_spec(trimmed(s).last()),
        solid(trimmed(s)) == solid(s),
        s.len() > 0 && !is_white_spec(s[0]) ==> trimmed(s) == drop_back(
            s,
            |c: char| is_white_spec(c),
        ) && trimmed(s).len() > 0,
{
    let p = |c: char| is_white_spec(c);
    let t = drop_front(s, p);
    lemma_drop_front(s, p);
    lemma_drop_back(t, p);
    lemma_solid_front(s);
    lemma_solid_back(t);
    if trimmed(s).len() > 0 {
        assert(trimmed(s)[0] == t[0]);
    }
}

/// Whether `set` holds `c`.
pub fn among(c: char, set: &[char]) -> (r: bool)
    ensures
        r == set@.contains(c),
{
    let mut i: usize = 0;
    while i < set.len()
        invariant
            i <= set.len(),
            forall|k: int| 0 <= k < i ==> set@[k] != c,
        decreases set.len() - i,
    {
        if set[i] == c {
            assert(set@[i as int] == c);
            return true;
        }
        i = i + 1;
    }
    false
}

/// `s` without white space at either end.
pub fn trim(s: &str) -> (r: String)
    ensures
        r@ == trimmed(s@),
{
    let cs = chars_of(s);
    let ghost p = |c: char| is_white_spec(c);
    let mut from: usize = 0;
    proof {
        assert(cs@.skip(0) == cs@);
    }
    while from < cs.len() && is_white(cs[from])
        invariant
            from <= cs.len(),
            p == (|c: char| is_white_spec(c)),
            drop_front(cs@.skip(from as int), p) == drop_front(cs@, p),
        decreases cs.len() - from,
    {
        proof {
            assert(cs@.skip(from as int).drop_first() == cs@.skip(from + 1));
        }
        from = from + 1;
    }
    let mut to: usize = cs.len();
    let ghost front = cs@.skip(from as int);
    proof {
        assert(drop_front(cs@, p) == front);
        assert(cs@.subrange(from as int, to as int) == front);
    }
    while from < to && is_white(cs[to - 1])
        invariant
            from <= to <= cs.len(),
            p == (|c: char| is_white_spec(c)),
            drop_back(cs@.subrange(from as int, to as int), p) == drop_back(front, p),
        decreases to,
    {
        proof {
            assert(cs@.subrange(from as int, to as int).drop_last() == cs@.subrange(
                from as int,
                to - 1,
            ));
        }
        to = to - 1;
    }
    string_between(cs.as_slice(), from, to)
}

/// `s` without the characters of `set` at its start.
pub fn trim_start_of(s: &str, set: &[char]) -> (r: String)
    ensures
        r@ == drop_front(s@, |c: char| set@.contains(c)),
{
    let cs = chars_of(s);
    let ghost p = |c: char| set@.contains(c);
    let mut from: usize = 0;
    proof {
        assert(cs@.skip(0) == cs@);
    }
    while from < cs.len() && among(cs[from], set)
        invariant
            from <= cs.len(),
            p == (|c: char| set@.contains(c)),
            drop_front(cs@.skip(from as int), p) == drop_front(cs@, p),
        decreases cs.len() - from,
    {
        proof {
            assert(cs@.skip(from as int).drop_first() == cs@.skip(from + 1));
        }
        from = from + 1;
    }
    proof {
        assert(cs@.subrange(from as int, cs@.len() as int) == cs@.skip(from as int));
    }
    string_between(cs.as_slice(), from, cs.len())
}

/// `s` without the characters of `set` at its end.
pub fn trim_end_of(s: &str, set: &[char]) -> (r: String)
    ensures
        r@ == drop_back(s@, |c: char| set@.contains(c)),
{
    let cs = chars_of(s);
    let ghost p = |c: char| set@.contains(c);
    let mut to: usize = cs.len();
    proof {
        assert(cs@.subrange(0, to as int) == cs@);
    }
    while 0 < to && among(cs[to - 1], set)
        invariant
            to <= cs.len(),
            p == (|c: char| set@.contains(c)),
            drop_back(cs@.subrange(0, to as int), p) == drop_back(cs@, p),
        decreases to,
    {
        proof {
            assert(cs@.subrange(0, to as int).drop_last() == cs@.subrange(0, to - 1));
        }
        to = to - 1;
    }
    string_between(cs.as_slice(), 0, to)
}

/// `s` without the characters of `set` at either end.
pub fn trim_of(s: &str, set: &[char]) -> (r: String)
    ensures
        r@ == trimmed_of(s@, set@),
{
    let front = trim_start_of(s, set);
    trim_end_of(front.as_str(), set)
}

/// Whether `s` holds nothing but white space.
pub fn is_blank(s: &str) -> (r: bool)
    ensures
        r == (trimmed(s@).len() == 0),
{
    char_len(trim(s).as_str()) == 0
}

// ---------------------------------------------------------------------------
// Searching
// ---------------------------------------------------------------------------

/// Whether `pat` stands in `s` at position `i`.
pub open spec fn occurs_at(s: Seq<char>, pat: Seq<char>, i: int) -> bool {
    0 <= i && i + pat.len() <= s.len() && s.subrange(i, i + pat.len()) == pat
}

/// Whether `pat` stands anywhere in `s`.
pub open spec fn has_text(s: Seq<char>, pat: Seq<char>) -> bool {
    exists|i: int| occurs_at(s, pat, i)
}

/// Whether `at` is the first position from `from` on at which `pat` stands in
/// `s`; `None` where there is none.
pub open spec fn is_first(s: Seq<char>, pat: Seq<char>, from: int, at: Option<int>) -> bool {
    match at {
        Some(i) => from <= i && occurs_at(s, pat, i) && forall|j: int|
            from <= j < i ==> !occurs_at(s, pat, j),
        None => forall|j: int| from <= j ==> !occurs_at(s, pat, j),
    }
}

/// The first position from `from` on at which `pat` stands in `s`.
pub open spec fn first_from(s: Seq<char>, pat: Seq<char>, from: int) -> Option<int>
    decreases s.len() - from + 1,
{
    if from < 0 || from > s.len() {
        None
    } else if occurs_at(s, pat, from) {
        Some(from)
    } else {
        first_from(s, pat, from + 1)
    }
}

/// The last position before `upto` at which `pat` stands in `s`.
pub open spec fn last_before(s: Seq<char>, pat: Seq<char>, upto: int) -> Option<int>
    decreases upto,
{
    if upto <= 0 {
        None
    } else if occurs_at(s, pat, upto - 1) {
        Some(upto - 1)
    } else {
        last_before(s, pat, upto - 1)
    }
}

/// The last position at which `pat` stands in `s`.
pub open spec fn last_at(s: Seq<char>, pat: Seq<char>) -> Option<int> {
    last_before(s, pat, s.len() as int + 1)
}

/// `first_from` gives the least position there is.
pub proof fn lemma_first_from(s: Seq<char>, pat: Seq<char>, from: int)
    requires
        0 <= from,
    ensures
        is_first(s, pat, from, first_from(s, pat, from)),
    decreases s.len() - from + 1,
{
    if from <= s.len() && !occurs_at(s, pat, from) {
        lemma_first_from(s, pat, from + 1);
    }
}

/// `last_before` gives the greatest position there is.
pub proof fn law_last_before_is_greatest(s: Seq<char>, pat: Seq<char>, upto: int)
    ensures
        match last_before(s, pat, upto) {
            Some(i) => i < upto && occurs_at(s, pat, i) && forall|j: int|
                i < j < upto ==> !occurs_at(s, pat, j),
            None => forall|j: int| j < upto ==> !occurs_at(s, pat, j),
        },
    decreases upto,
{
    if upto > 0 && !occurs_at(s, pat, upto - 1) {
        law_last_before_is_greatest(s, pat, upto - 1);
    }
}

/// Whether `pat` stands in `cs` at position `i`.
pub fn stands_at(cs: &[char], pat: &[char], i: usize) -> (r: bool)
    ensures
        r == occurs_at(cs@, pat@, i as int),
{
    if pat.len() > cs.len() || i > cs.len() - pat.len() {
        return false;
    }
    let mut k: usize = 0;
    while k < pat.len()
        invariant
            k <= pat.len(),
            i + pat.len() <= cs.len(),
            forall|j: int| 0 <= j < k ==> cs@[i + j] == pat@[j],
        decreases pat.len() - k,
    {
        if cs[i + k] != pat[k] {
            proof {
                assert(cs@.subrange(i as int, i + pat.len())[k as int] == cs@[i + k]);
            }
            return false;
        }
        k = k + 1;
    }
    proof {
        assert(cs@.subrange(i as int, i + pat.len()) == pat@);
    }
    true
}

/// The first position from `from` on at which `pat` stands in `cs`.
pub fn find_from(cs: &[char], pat: &[char], from: usize) -> (r: Option<usize>)
    requires
        from <= cs.len(),
    ensures
        match r {
            Some(i) => first_from(cs@, pat@, from as int) == Some(i as int) && i + pat.len()
                <= cs.len(),
            None => first_from(cs@, pat@, from as int) is None,
        },
{
    let mut i: usize = from;
    loop
        invariant
            from <= i <= cs.len(),
            first_from(cs@, pat@, from as int) == first_from(cs@, pat@, i as int),
        decreases cs.len() - i,
    {
        if stands_at(cs, pat, i) {
            return Some(i);
        }
        if i == cs.len() {
            proof {
                assert(first_from(cs@, pat@, i + 1) is None);
            }
            return None;
        }
        i = i + 1;
    }
}

/// The last position at which `pat` stands in `cs`.
pub fn find_last(cs: &[char], pat: &[char]) -> (r: Option<usize>)
    ensures
        match r {
            Some(i) => last_at(cs@, pat@) == Some(i as int) && i + pat.len()
                <= cs.len(),
            None => last_at(cs@, pat@) is None,
        },
{
    let mut i: usize = cs.len();
    loop
        invariant
            i <= cs.len(),
            last_at(cs@, pat@) == last_before(cs@, pat@, i + 1),
        decreases i,
    {
        if stands_at(cs, pat, i) {
            return Some(i);
        }
        if i == 0 {
            proof {
                assert(last_before(cs@, pat@, 0) is None);
            }
            return None;
        }
        i = i - 1;
    }
}

/// Whether `pat` stands anywhere in `s`.
pub fn contains(s: &str, pat: &str) -> (r: bool)
    ensures
        r == has_text(s@, pat@),
{
    let cs = chars_of(s);
    let ps = chars_of(pat);
    let at = find_from(cs.as_slice(), ps.as_slice(), 0);
    proof {
        lemma_first_from(cs@, ps@, 0);
    }
    at.is_some()
}

/// Whether `s` begins with `pat`.
pub fn starts_with(s: &str, pat: &str) -> (r: bool)
    ensures
        r == pat@.is_prefix_of(s@),
{
    let cs = chars_of(s);
    let ps = chars_of(pat);
    stands_at(cs.as_slice(), ps.as_slice(), 0)
}

/// Whether `s` ends with `pat`.
pub open spec fn has_suffix(s: Seq<char>, pat: Seq<char>) -> bool {
    occurs_at(s, pat, s.len() - pat.len())
}

/// Whether `s` ends with `pat`.
pub fn ends_with(s: &str, pat: &str) -> (r: bool)
    ensures
        r == has_suffix(s@, pat@),
{
    let cs = chars_of(s);
    let ps = chars_of(pat);
    ps.len() <= cs.len() && stands_at(cs.as_slice(), ps.as_slice(), cs.len() - ps.len())
}

/// The characters of each text of a table.
pub open spec fn str_views(v: Seq<&'static str>) -> Seq<Seq<char>> {
    v.map_values(|s: &'static str| s@)
}

/// Whether `s` is a text of the table.
pub open spec fn is_one(s: Seq<char>, table: Seq<Seq<char>>) -> bool {
    exists|i: int| 0 <= i < table.len() && s == #[trigger] table[i]
}

/// Whether a text of the table stands anywhere in `s`.
pub open spec fn has_one(s: Seq<char>, table: Seq<Seq<char>>) -> bool {
    exists|i: int| 0 <= i < table.len() && has_text(s, #[trigger] table[i])
}

/// Whether `s` is a text of the table.
pub fn equals_any(s: &str, table: &Vec<&'static str>) -> (r: bool)
    ensures
        r == is_one(s@, str_views(table@)),
{
    let mut i: usize = 0;
    while i < table.len()
        invariant
            i <= table.len(),
            forall|k: int| 0 <= k < i ==> s@ != #[trigger] str_views(table@)[k],
        decreases table.len() - i,
    {
        if same_text(s, table[i]) {
            assert(s@ == str_views(table@)[i as int]);
            return true;
        }
        i = i + 1;
    }
    false
}

/// Whether a text of the table stands anywhere in `s`.
pub fn contains_any(s: &str, table: &Vec<&'static str>) -> (r: bool)
    ensures
        r == has_one(s@, str_views(table@)),
{
    let mut i: usize = 0;
    while i < table.len()
        invariant
            i <= table.len(),
            forall|k: int| 0 <= k < i ==> !has_text(s@, #[trigger] str_views(table@)[k]),
        decreases table.len() - i,
    {
        if contains(s, table[i]) {
            assert(has_text(s@, str_views(table@)[i as int]));
            return true;
        }
        i = i + 1;
    }
    false
}

// ---------------------------------------------------------------------------
// Cutting and replacing
// ---------------------------------------------------------------------------

/// `s` without `pat` at its start, as often as it stands there.
pub open spec fn cut_front(s: Seq<char>, pat: Seq<char>) -> Seq<char>
    decreases s.len(),
{
    if pat.len() > 0 && occurs_at(s, pat, 0) {
        cut_front(s.skip(pat.len() as int), pat)
    } else {
        s
    }
}

/// `s` without `pat` at its end, as often as it stands there.
pub open spec fn cut_back(s: Seq<char>, pat: Seq<char>) -> Seq<char>
    decreases s.len(),
{
    if pat.len() > 0 && occurs_at(s, pat, s.len() - pat.len()) {
        cut_back(s.take(s.len() - pat.len()), pat)
    } else {
        s
    }
}

/// `s` without `pat` at its start, as often as it stands there.
pub fn trim_start_text(s: &str, pat: &str) -> (r: String)
    ensures
        r@ == cut_front(s@, pat@),
{
    let cs = chars_of(s);
    let ps = chars_of(pat);
    let mut from: usize = 0;
    proof {
        assert(cs@.skip(0) == cs@);
    }
    while ps.len() > 0 && stands_at(cs.as_slice(), ps.as_slice(), from)
        invariant
            from <= cs.len(),
            cs@ == s@,
            ps@ == pat@,
            cut_front(cs@.skip(from as int), ps@) == cut_front(cs@, ps@),
        decreases cs.len() - from,
    {
        proof {
            let rest = cs@.skip(from as int);
            assert(rest.subrange(0, ps@.len() as int) == cs@.subrange(
                from as int,
                from + ps@.len(),
            ));
            assert(rest.skip(ps@.len() as int) == cs@.skip(from + ps@.len()));
        }
        from = from + ps.len();
    }
    proof {
        let rest = cs@.skip(from as int);
        if ps@.len() > 0 && occurs_at(rest, ps@, 0) {
            assert(rest.subrange(0, ps@.len() as int) == cs@.subrange(
                from as int,
                from + ps@.len(),
            ));
        }
        assert(cs@.subrange(from as int, cs@.len() as int) == rest);
    }
    string_between(cs.as_slice(), from, cs.len())
}

/// `s` without `pat` at its end, as often as it stands there.
pub fn trim_end_text(s: &str, pat: &str) -> (r: String)
    ensures
        r@ == cut_back(s@, pat@),
{
    let cs = chars_of(s);
    let ps = chars_of(pat);
    let mut to: usize = cs.len();
    proof {
        assert(cs@.take(to as int) == cs@);
    }
    while ps.len() > 0 && ps.len() <= to && stands_at(cs.as_slice(), ps.as_slice(), to - ps.len())
        invariant
            to <= cs.len(),
            cs@ == s@,
            ps@ == pat@,
            cut_back(cs@.take(to as int), ps@) == cut_back(cs@, ps@),
        decreases to,
    {
        proof {
            let rest = cs@.take(to as int);
            assert(rest.subrange(to - ps@.len(), to as int) == cs@.subrange(
                to - ps@.len(),
                to as int,
            ));
            assert(rest.take(to - ps@.len()) == cs@.take(to - ps@.len()));
        }
        to = to - ps.len();
    }
    proof {
        let rest = cs@.take(to as int);
        if ps@.len() > 0 && occurs_at(rest, ps@, to - ps@.len()) {
            assert(rest.subrange(to - ps@.len(), to as int) == cs@.subrange(
                to - ps@.len(),
                to as int,
            ));
        }
        assert(cs@.subrange(0, to as int) == rest);
    }
    string_between(cs.as_slice(), 0, to)
}

/// `s` with `by` in the place of each `pat`, from the left and without overlap.
pub open spec fn replaced(s: Seq<char>, pat: Seq<char>, by: Seq<char>) -> Seq<char>
    decreases s.len(),
{
    if pat.len() == 0 || s.len() == 0 {
        s
    } else if occurs_at(s, pat, 0) {
        by + replaced(s.skip(pat.len() as int), pat, by)
    } else {
        seq![s[0]] + replaced(s.drop_first(), pat, by)
    }
}

/// `s` with `by` in the place of each `pat`, from the left and without overlap.
pub fn replace(s: &str, pat: &str, by: &str) -> (r: String)
    requires
        pat@.len() > 0,
    ensures
        r@ == replaced(s@, pat@, by@),
{
    let cs = chars_of(s);
    let ps = chars_of(pat);
    let mut out = String::new();
    let mut i: usize = 0;
    proof {
        assert(cs@.skip(0) == cs@);
        assert(out@ + replaced(cs@, ps@, by@) == replaced(cs@, ps@, by@));
    }
    while i < cs.len()
        invariant
            i <= cs.len(),
            ps@.len() > 0,
            ps@ == pat@,
            out@ + replaced(cs@.skip(i as int), ps@, by@) == replaced(cs@, ps@, by@),
        decreases cs.len() - i,
    {
        let ghost rest = cs@.skip(i as int);
        let ghost before = out@;
        if stands_at(cs.as_slice(), ps.as_slice(), i) {
            proof {
                assert(rest.subrange(0, ps@.len() as int) == cs@.subrange(i as int, i + ps@.len()));
                assert(rest.skip(ps@.len() as int) == cs@.skip(i + ps@.len()));
            }
            out.append(by);
            i = i + ps.len();
        } else {
            proof {
                if occurs_at(rest, ps@, 0) {
                    assert(rest.subrange(0, ps@.len() as int) == cs@.subrange(
                        i as int,
                        i + ps@.len(),
                    ));
                }
                assert(rest.drop_first() == cs@.skip(i + 1));
            }
            out.push(cs[i]);
            i = i + 1;
            proof {
                assert(out@ == before + seq![rest[0]]);
            }
        }
        proof {
            assert(out@ + replaced(cs@.skip(i as int), ps@, by@) == before + replaced(
                rest,
                ps@,
                by@,
            ));
        }
    }
    proof {
        assert(cs@.skip(i as int).len() == 0);
        assert(out@ + cs@.skip(i as int) == out@);
    }
    out
}

// ---------------------------------------------------------------------------
// Lines and joining
// ---------------------------------------------------------------------------

/// A line without the carriage return that ends it.
pub open spec fn without_return(line: Seq<char>) -> Seq<char> {
    if line.len() > 0 && line.last() == '\r' {
        line.drop_last()
    } else {
        line
    }
}

/// The lines of a text: each ends at a line feed, or a carriage return and a line
/// feed, which do not belong to it; what follows the last line feed is a line if
/// it is not empty.
pub open spec fn lines_of(s: Seq<char>) -> Seq<Seq<char>>
    decreases s.len(),
{
    if s.len() == 0 {
        Seq::empty()
    } else {
        match first_from(s, seq!['\n'], 0) {
            None => seq![s],
            Some(i) => if 0 <= i < s.len() {
                seq![without_return(s.take(i))] + lines_of(s.skip(i + 1))
            } else {
                seq![s]
            },
        }
    }
}

/// The lines of `s`.
pub fn lines(s: &str) -> (r: Vec<String>)
    ensures
        views(r@) == lines_of(s@),
{
    let cs = chars_of(s);
    let mut out: Vec<String> = Vec::new();
    let mut from: usize = 0;
    proof {
        assert(cs@.skip(0) == cs@);
        assert(views(out@) + lines_of(cs@) == lines_of(cs@));
    }
    while from < cs.len()
        invariant
            from <= cs.len(),
            views(out@) + lines_of(cs@.skip(from as int)) == lines_of(cs@),
        decreases cs.len() - from,
    {
        let ghost rest = cs@.skip(from as int);
        let ghost before = views(out@);
        let mut to: usize = from;
        proof {
            assert(first_from(rest, seq!['\n'], 0) == first_from(rest, seq!['\n'], to - from));
        }
        while to < cs.len() && cs[to] != '\n'
            invariant
                from <= to <= cs.len(),
                rest == cs@.skip(from as int),
                first_from(rest, seq!['\n'], 0) == first_from(rest, seq!['\n'], to - from),
            decreases cs.len() - to,
        {
            proof {
                let k = to - from;
                assert(rest.subrange(k, k + 1)[0] == cs@[to as int]);
                assert(!occurs_at(rest, seq!['\n'], k));
            }
            to = to + 1;
        }
        if to == cs.len() {
            proof {
                let k = to - from;
                assert(first_from(rest, seq!['\n'], k + 1) is None);
                assert(first_from(rest, seq!['\n'], 0) is None);
                assert(cs@.subrange(from as int, to as int) == rest);
            }
            let line = string_between(cs.as_slice(), from, to);
            out.push(line);
            from = cs.len();
            proof {
                assert(views(out@) == before.push(rest));
                assert(lines_of(cs@.skip(from as int)) =~= Seq::<Seq<char>>::empty());
                assert(views(out@) + lines_of(cs@.skip(from as int)) =~= before + seq![rest]);
            }
        } else {
            proof {
                let k = to - from;
                assert(rest.subrange(k, k + 1) =~= seq!['\n']);
                assert(first_from(rest, seq!['\n'], 0) == Some(k));
                assert(rest.skip(k + 1) == cs@.skip(to + 1));
                assert(rest.take(k) == cs@.subrange(from as int, to as int));
            }
            let end: usize = if from < to && cs[to - 1] == '\r' {
                to - 1
            } else {
                to
            };
            let line = string_between(cs.as_slice(), from, end);
            proof {
                assert(line@ =~= without_return(rest.take(to - from)));
            }
            out.push(line);
            from = to + 1;
            proof {
                assert(views(out@) == before.push(line@));
                assert(views(out@) + lines_of(cs@.skip(from as int)) =~= before + (seq![line@]
                    + lines_of(cs@.skip(from as int))));
            }
        }
    }
    proof {
        assert(lines_of(cs@.skip(from as int)) =~= Seq::<Seq<char>>::empty());
        assert(views(out@) + Seq::<Seq<char>>::empty() =~= views(out@));
    }
    out
}

/// The texts one after the other with `sep` between them.
pub open spec fn joined(parts: Seq<Seq<char>>, sep: Seq<char>) -> Seq<char>
    decreases parts.len(),
{
    if parts.len() == 0 {
        Seq::empty()
    } else if parts.len() == 1 {
        parts[0]
    } else {
        joined(parts.drop_last(), sep) + sep + parts.last()
    }
}

/// The strings one after the other with `sep` between them.
pub fn join(parts: &Vec<String>, sep: &str) -> (r: String)
    ensures
        r@ == joined(views(parts@), sep@),
{
    let mut out = String::new();
    let mut i: usize = 0;
    while i < parts.len()
        invariant
            i <= parts.len(),
            out@ == joined(views(parts@).take(i as int), sep@),
        decreases parts.len() - i,
    {
        let ghost part = views(parts@).take(i + 1);
        proof {
            assert(part.drop_last() == views(parts@).take(i as int));
        }
        if i > 0 {
            out.append(sep);
        }
        out.append(parts[i].as_str());
        proof {
            if i == 0 {
                assert(out@ =~= parts@[0]@);
            }
        }
        i = i + 1;
    }
    proof {
        assert(views(parts@).take(i as int) == views(parts@));
    }
    out
}

/// The texts of a table one after the other with `sep` between them.
pub fn join_table(table: &Vec<&'static str>, sep: &str) -> (r: String)
    ensures
        r@ == joined(str_views(table@), sep@),
{
    let mut parts: Vec<String> = Vec::new();
    let ghost all = str_views(table@);
    let mut i: usize = 0;
    while i < table.len()
        invariant
            i <= table.len(),
            all == str_views(table@),
            views(parts@) =~= all.take(i as int),
        decreases table.len() - i,
    {
        let ghost before = views(parts@);
        let part = table[i].to_string();
        parts.push(part);
        proof {
            assert(views(parts@) =~= before.push(part@));
            assert(all.take(i + 1) =~= all.take(i as int).push(all[i as int]));
        }
        i = i + 1;
    }
    proof {
        assert(all.take(i as int) =~= all);
    }
    join(&parts, sep)
}

// ---------------------------------------------------------------------------
// Numbers
// ---------------------------------------------------------------------------

/// The digit for a value below sixteen.
pub open spec fn digit(d: int) -> char {
    if 0 <= d < 10 {
        (d + 48) as u8 as char
    } else {
        (d + 87) as u8 as char
    }
}

/// The digits of `n` to the base `base`, without leading zeros.
pub open spec fn digits(n: nat, base: nat) -> Seq<char>
    decreases n,
    via digits_decreases
{
    if base < 2 || n < base {
        seq![digit(n as int)]
    } else {
        digits(n / base, base).push(digit((n % base) as int))
    }
}

#[via_fn]
proof fn digits_decreases(n: nat, base: nat) {
    if !(base < 2 || n < base) {
        assert(n / base < n) by (nonlinear_arith)
            requires
                2 <= base,
                base <= n,
        ;
    }
}

/// The decimal form of an integer.
pub open spec fn decimal(n: int) -> Seq<char> {
    if n < 0 {
        seq!['-'] + digits((-n) as nat, 10)
    } else {
        digits(n as nat, 10)
    }
}

/// The decimal form of an integer below a hundred, in two digits.
pub open spec fn two_digits(n: int) -> Seq<char> {
    if 0 <= n < 10 {
        seq!['0', digit(n)]
    } else {
        decimal(n)
    }
}

fn digit_of(d: u64) -> (c: char)
    requires
        d < 16,
    ensures
        c == digit(d as int),
{
    if d < 10 {
        (d + 48) as u8 as char
    } else {
        (d + 87) as u8 as char
    }
}

/// The digits of `n` to the base `base`.
fn write_digits(n: u64, base: u64) -> (r: String)
    requires
        2 <= base <= 16,
    ensures
        r@ == digits(n as nat, base as nat),
    decreases n,
{
    if n < base {
        let mut out = String::new();
        out.push(digit_of(n));
        proof {
            assert(out@ =~= seq![digit(n as int)]);
        }
        out
    } else {
        proof {
            assert(n / base < n) by (nonlinear_arith)
                requires
                    2 <= base,
                    base <= n,
            ;
            assert(n % base < base) by (nonlinear_arith)
                requires
                    2 <= base,
            ;
        }
        let mut out = write_digits(n / base, base);
        out.push(digit_of(n % base));
        out
    }
}

/// The bytes in hexadecimal, two digits for each.
pub open spec fn hex_of(bytes: Seq<u8>) -> Seq<char>
    decreases bytes.len(),
{
    if bytes.len() == 0 {
        Seq::empty()
    } else {
        hex_of(bytes.drop_last()) + seq![
            digit(bytes.last() as int / 16),
            digit(bytes.last() as int % 16),
        ]
    }
}

/// The bytes in hexadecimal, two digits for each.
pub fn hex_bytes(bytes: &[u8]) -> (r: String)
    ensures
        r@ == hex_of(bytes@),
        r@.len() == 2 * bytes@.len(),
{
    let mut out = String::new();
    let mut i: usize = 0;
    proof {
        assert(out@ =~= hex_of(bytes@.take(0)));
    }
    while i < bytes.len()
        invariant
            i <= bytes.len(),
            out@ == hex_of(bytes@.take(i as int)),
            out@.len() == 2 * i,
        decreases bytes.len() - i,
    {
        let b: u64 = bytes[i] as u64;
        proof {
            assert(bytes@.take(i + 1).drop_last() =~= bytes@.take(i as int));
        }
        let ghost before = out@;
        out.push(digit_of(b / 16));
        out.push(digit_of(b % 16));
        proof {
            assert(out@ =~= before + seq![digit(b as int / 16), digit(b as int % 16)]);
        }
        i = i + 1;
    }
    proof {
        assert(bytes@.take(bytes@.len() as int) =~= bytes@);
    }
    out
}

/// The hexadecimal form of `n`, in lower case and without leading zeros.
pub fn hex(n: u64) -> (r: String)
    ensures
        r@ == digits(n as nat, 16),
{
    write_digits(n, 16)
}

/// The decimal form of `n`.
pub fn decimal_u64(n: u64) -> (r: String)
    ensures
        r@ == decimal(n as int),
{
    write_digits(n, 10)
}

/// The decimal form of `n`.
pub fn decimal_i64(n: i64) -> (r: String)
    ensures
        r@ == decimal(n as int),
{
    if n < 0 {
        let mut out = String::new();
        out.push('-');
        let size: u64 = (-(n as i128)) as u64;
        out.append(write_digits(size, 10).as_str());
        proof {
            assert(out@ =~= seq!['-'] + digits((-n) as nat, 10));
        }
        out
    } else {
        write_digits(n as u64, 10)
    }
}

} // verus!
