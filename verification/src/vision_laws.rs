//! What the looks at pictures promise: how a picture is sent, where something is found on
//! the screen, and what is read of the user's activity.

use crate::json::JsonView;
use crate::recall::run_len;
use crate::score::rank_of;
use crate::text::{decimal, digit, digits, trimmed};
use crate::text_laws::{law_text_stands_in, lemma_stands_in_sum, stands_in};
use crate::vision::{
    base64_of, clamped, digits_value, guess_in, in_number, int_value, jpeg_of, locate_prompt,
    located, numbers_in, picture_size_of, scaled, scored_states, scores_upto, shown_width, shrunk,
    target_of, Filter,
};
use vstd::prelude::*;

verus! {

// ---------------------------------------------------------------------------
// Sending pictures
// ---------------------------------------------------------------------------

/// A picture that is no higher than 720 is sent in its size. A higher one is sent 720 high,
/// as wide in proportion, rounded down, and one wide at least.
pub proof fn law_size_sent(w: u32, h: u32)
    ensures
        h <= 720 ==> target_of(w, h) == (w, h),
        h > 720 ==> target_of(w, h).1 == 720,
        h > 720 && w * 720 >= h ==> target_of(w, h).0 * h <= w * 720 < (target_of(w, h).0 + 1) * h,
        h > 720 && w * 720 < h ==> target_of(w, h).0 == 1,
{
    if h > 720 {
        let q = w as int * 720 / (h as int);
        assert(q * h <= w * 720 < (q + 1) * h && 0 <= q <= w) by (nonlinear_arith)
            requires
                q == w as int * 720 / (h as int),
                h > 720,
                w >= 0,
        ;
        if w * 720 >= h {
            assert(q >= 1) by (nonlinear_arith)
                requires
                    w * 720 < (q + 1) * h,
                    w * 720 >= h,
                    h > 0,
                    q >= 0,
            ;
        } else {
            assert(q < 1) by (nonlinear_arith)
                requires
                    q * h <= w * 720,
                    w * 720 < h,
                    h > 0,
            ;
        }
    }
}

/// A picture is sent as a JPEG of quality 80 in that size, by a triangle filter, in base64;
/// where it cannot be opened or cannot be written, it is said so.
pub proof fn law_picture_sent(bytes: Seq<u8>, extension: Seq<char>, size: (u32, u32))
    ensures
        picture_size_of(bytes, extension) matches Err(e) ==> shrunk(bytes, extension) == Err::<
            Seq<char>,
            Seq<char>,
        >("打开截图失败: "@ + e),
        picture_size_of(bytes, extension) == Ok::<(u32, u32), Seq<char>>(size) ==> match jpeg_of(
            bytes,
            extension,
            target_of(size.0, size.1).0,
            target_of(size.0, size.1).1,
            Filter::Triangle,
            80,
        ) {
            Ok(jpeg) => shrunk(bytes, extension) == Ok::<Seq<char>, Seq<char>>(base64_of(jpeg)),
            Err(e) => shrunk(bytes, extension) == Err::<Seq<char>, Seq<char>>(
                "JPEG 编码失败: "@ + e,
            ),
        },
{
}

// ---------------------------------------------------------------------------
// Numbers
// ---------------------------------------------------------------------------

/// A character of which numbers are made.
pub open spec fn is_numeric(c: char) -> bool {
    c == '-' || '0' <= c && c <= '9'
}

proof fn lemma_run(s: Seq<char>, p: spec_fn(char) -> bool)
    ensures
        run_len(s, p) <= s.len(),
        s.len() > 0 && p(s[0]) ==> run_len(s, p) > 0,
        forall|k: int| 0 <= k < run_len(s, p) ==> p(#[trigger] s[k]),
        run_len(s, p) < s.len() ==> !p(s[run_len(s, p) as int]),
    decreases s.len(),
{
    if s.len() > 0 && p(s[0]) {
        let rest = s.drop_first();
        lemma_run(rest, p);
        assert forall|k: int| 0 <= k < run_len(s, p) implies p(#[trigger] s[k]) by {
            if k > 0 {
                assert(rest[k - 1] == s[k]);
            }
        }
    }
}

proof fn lemma_run_is(s: Seq<char>, p: spec_fn(char) -> bool, n: int)
    requires
        0 <= n <= s.len(),
        forall|k: int| 0 <= k < n ==> p(#[trigger] s[k]),
        n < s.len() ==> !p(s[n]),
    ensures
        run_len(s, p) == n,
{
    lemma_run(s, p);
    let r = run_len(s, p) as int;
    if r < n {
        assert(p(s[r]));
    }
    if n < r {
        assert(p(s[n]));
    }
}

/// The numbers of a text are those before and those behind any character that belongs to no
/// number.
pub proof fn law_numbers_apart(a: Seq<char>, c: char, b: Seq<char>)
    requires
        !is_numeric(c),
    ensures
        numbers_in(a + seq![c] + b) == numbers_in(a) + numbers_in(b),
    decreases a.len(),
{
    let s = a + seq![c] + b;
    let p = |c: char| in_number(c);
    if a.len() == 0 {
        assert(s[0] == c);
        assert(s.skip(1) =~= b);
        assert(numbers_in(a) + numbers_in(b) =~= numbers_in(b));
    } else if in_number(a[0]) {
        lemma_run(a, p);
        let n = run_len(a, p) as int;
        assert(s[0] == a[0]);
        assert forall|k: int| 0 <= k < n implies p(#[trigger] s[k]) by {
            assert(p(a[k]));
        }
        assert(!p(s[n])) by {
            if n < a.len() {
                assert(!p(a[n]));
            }
        }
        lemma_run_is(s, p, n);
        assert(s.take(n) =~= a.take(n));
        assert(s.skip(n) =~= a.skip(n) + seq![c] + b);
        law_numbers_apart(a.skip(n), c, b);
        let rest = numbers_in(a.skip(n));
        match int_value(a.take(n)) {
            Some(v) => {
                assert(seq![v] + (rest + numbers_in(b)) =~= seq![v] + rest + numbers_in(b));
            },
            None => {},
        }
    } else {
        assert(s[0] == a[0]);
        assert(s.skip(1) =~= a.skip(1) + seq![c] + b);
        law_numbers_apart(a.skip(1), c, b);
    }
}

proof fn lemma_numbers_of_run(s: Seq<char>)
    requires
        s.len() > 0,
        forall|k: int| 0 <= k < s.len() ==> is_numeric(#[trigger] s[k]),
    ensures
        int_value(s) matches Some(v) ==> numbers_in(s) == seq![v],
        int_value(s) is None ==> numbers_in(s).len() == 0,
{
    let p = |c: char| in_number(c);
    let n = s.len() as int;
    assert forall|k: int| 0 <= k < n implies p(#[trigger] s[k]) by {
        assert(is_numeric(s[k]));
    }
    assert(is_numeric(s[0]));
    lemma_run_is(s, p, n);
    assert(s.take(n) =~= s);
    assert(s.skip(n).len() == 0);
    assert(numbers_in(s.skip(n)) =~= Seq::<i32>::empty());
    match int_value(s) {
        Some(v) => {
            assert(seq![v] + Seq::<i32>::empty() =~= seq![v]);
        },
        None => {},
    }
}

proof fn lemma_digits(n: nat)
    ensures
        digits_value(digits(n, 10)) == Some(n as int),
        digits(n, 10).len() > 0,
        forall|k: int|
            0 <= k < digits(n, 10).len() ==> '0' <= #[trigger] digits(n, 10)[k] && digits(n, 10)[k]
                <= '9',
    decreases n,
{
    let s = digits(n, 10);
    if n < 10 {
        assert(s =~= seq![digit(n as int)]);
        assert(s.drop_last().len() == 0);
        assert(digits_value(s.drop_last()) == Some(0int));
    } else {
        lemma_digits(n / 10);
        assert(s.drop_last() =~= digits(n / 10, 10));
        assert(s.last() == digit((n % 10) as int));
    }
}

proof fn lemma_decimal(n: int)
    requires
        i32::MIN <= n <= i32::MAX,
    ensures
        decimal(n).len() > 0,
        int_value(decimal(n)) == Some(n as i32),
        forall|k: int| 0 <= k < decimal(n).len() ==> is_numeric(#[trigger] decimal(n)[k]),
{
    if n < 0 {
        let m = (-n) as nat;
        lemma_digits(m);
        let s = decimal(n);
        assert(s.drop_first() =~= digits(m, 10));
        assert forall|k: int| 0 <= k < s.len() implies is_numeric(#[trigger] s[k]) by {
            if k > 0 {
                assert(s[k] == digits(m, 10)[k - 1]);
            }
        }
    } else {
        lemma_digits(n as nat);
        let s = decimal(n);
        assert(s[0] != '-');
        assert forall|k: int| 0 <= k < s.len() implies is_numeric(#[trigger] s[k]) by {
            assert('0' <= digits(n as nat, 10)[k]);
        }
    }
}

/// A number that is written down is read as it was.
pub proof fn law_number_reads_back(n: i32)
    ensures
        numbers_in(decimal(n as int)) == seq![n],
{
    lemma_decimal(n as int);
    lemma_numbers_of_run(decimal(n as int));
}

/// A text without digits and signs has no numbers.
pub proof fn law_no_numbers(s: Seq<char>)
    requires
        forall|k: int| 0 <= k < s.len() ==> !is_numeric(#[trigger] s[k]),
    ensures
        numbers_in(s).len() == 0,
    decreases s.len(),
{
    if s.len() > 0 {
        assert(!is_numeric(s[0]));
        assert forall|k: int| 0 <= k < s.skip(1).len() implies !is_numeric(
            #[trigger] s.skip(1)[k],
        ) by {
            assert(!is_numeric(s[k + 1]));
        }
        law_no_numbers(s.skip(1));
    }
}

// ---------------------------------------------------------------------------
// Places on the screen
// ---------------------------------------------------------------------------

/// A coordinate of the picture that was sent is brought to the screen in proportion to its
/// height over 720, rounded to the nearest, and a half away from zero.
pub proof fn law_scaled(x: i32, h: u32)
    requires
        x > i32::MIN,
    ensures
        i32::MIN < scaled(x, h) < i32::MAX && x >= 0 ==> -360 <= x * h - 720 * scaled(x, h) < 360,
        scaled(x, h) < i32::MAX && x >= 0 ==> scaled((-x) as i32, h) == -scaled(x, h),
        x >= 0 ==> scaled(x, h) >= 0,
        h == 720 ==> scaled(x, h) == x,
{
    let n = x as int * h as int;
    if x >= 0 {
        assert(n >= 0) by (nonlinear_arith)
            requires
                n == x as int * h as int,
                x >= 0,
                h >= 0,
        ;
        assert((-x) as i32 as int * h as int == -n) by (nonlinear_arith)
            requires
                n == x as int * h as int,
                x >= 0,
        ;
    }
}

/// Where an answer names two numbers, and does not say that nothing was found, the first is
/// the way from the left and the second from the top, whatever else it says; where it says
/// that nothing was found, nothing was.
pub proof fn law_located(
    before: Seq<char>,
    x: i32,
    between: Seq<char>,
    y: i32,
    lower: Seq<char>,
    h: u32,
)
    requires
        forall|k: int| 0 <= k < before.len() ==> !is_numeric(#[trigger] before[k]),
        between.len() > 0,
        forall|k: int| 0 <= k < between.len() ==> !is_numeric(#[trigger] between[k]),
    ensures
        ({
            let answer = before + decimal(x as int) + between + decimal(y as int);
            &&& !stands_in(lower, "notfound"@) ==> located(answer, lower, h) == Some(
                (scaled(x, h), scaled(y, h)),
            )
            &&& stands_in(lower, "notfound"@) ==> located(answer, lower, h) is None
        }),
{
    let dx = decimal(x as int);
    let dy = decimal(y as int);
    let answer = before + dx + between + dy;
    law_number_reads_back(x);
    law_number_reads_back(y);
    law_text_stands_in(lower, "notfound"@, Seq::empty(), Seq::empty());
    let c = between[0];
    let tail = between.skip(1);
    assert(!is_numeric(c));
    assert(answer =~= (before + dx) + seq![c] + (tail + dy));
    law_numbers_apart(before + dx, c, tail + dy);
    lemma_skip_words(before, dx);
    assert forall|k: int| 0 <= k < tail.len() implies !is_numeric(#[trigger] tail[k]) by {
        assert(!is_numeric(between[k + 1]));
    }
    lemma_skip_words(tail, dy);
    assert(numbers_in(answer) =~= seq![x, y]);
}

proof fn lemma_skip_words(a: Seq<char>, b: Seq<char>)
    requires
        forall|k: int| 0 <= k < a.len() ==> !is_numeric(#[trigger] a[k]),
    ensures
        numbers_in(a + b) == numbers_in(b),
{
    if a.len() == 0 {
        assert(a + b =~= b);
    } else {
        let front = a.drop_last();
        assert(!is_numeric(a[a.len() - 1]));
        assert forall|k: int| 0 <= k < front.len() implies !is_numeric(#[trigger] front[k]) by {
            assert(!is_numeric(a[k]));
        }
        assert(a + b =~= front + seq![a.last()] + b);
        law_numbers_apart(front, a.last(), b);
        law_no_numbers(front);
        assert(numbers_in(front) + numbers_in(b) =~= numbers_in(b));
    }
}

/// Where an answer names fewer than two numbers, nothing was found.
pub proof fn law_not_located(answer: Seq<char>, lower: Seq<char>, h: u32)
    requires
        numbers_in(answer).len() < 2,
    ensures
        located(answer, lower, h) is None,
{
}

/// The question for a place tells what is looked for and the size of the picture: 720 high,
/// and as wide in proportion, rounded down.
pub proof fn law_place_asked_for(target: Seq<char>, w: u32, h: u32)
    requires
        0 < h,
        w * 720 / (h as int) <= u32::MAX,
    ensures
        stands_in(locate_prompt(target, w, h), "在图片中寻找目标："@ + target),
        stands_in(
            locate_prompt(target, w, h),
            "图片宽度 "@ + decimal(w * 720 / (h as int)) + " 像素，高度 "@ + decimal(720) + " 像素"@,
        ),
{
    let middle = "。如果找到，输出其中心点的像素坐标，格式严格为：x,y（例如 640,480）。图片宽度 "@;
    reveal_strlit("。如果找到，输出其中心点的像素坐标，格式严格为：x,y（例如 640,480）。图片宽度 ");
    reveal_strlit("。如果找到，输出其中心点的像素坐标，格式严格为：x,y（例如 640,480）。");
    reveal_strlit("图片宽度 ");
    reveal_strlit(" 像素。如果找不到，输出：notfound");
    reveal_strlit(" 像素");
    reveal_strlit("。如果找不到，输出：notfound");
    let a = "。如果找到，输出其中心点的像素坐标，格式严格为：x,y（例如 640,480）。"@;
    let b = "图片宽度 "@;
    let c = " 像素"@;
    let d = "。如果找不到，输出：notfound"@;
    assert(middle =~= a + b);
    assert(" 像素。如果找不到，输出：notfound"@ =~= c + d);
    let first = "在图片中寻找目标："@ + target;
    let n = decimal(shown_width(w, h) as int);
    let second = b + n + " 像素，高度 "@ + decimal(720) + c;
    let r = locate_prompt(target, w, h);
    assert(r =~= first + (a + second + d));
    assert(r =~= (first + a) + second + d);
    lemma_stands_in_sum(Seq::empty(), first, a + second + d);
    lemma_stands_in_sum(first + a, second, d);
}

// ---------------------------------------------------------------------------
// Descriptions of the activity
// ---------------------------------------------------------------------------

/// The states that can be scored.
pub open spec fn can_be_scored(key: Seq<char>) -> bool {
    ||| key == "gaming"@
    ||| key == "focused_work"@
    ||| key == "casual_browsing"@
    ||| key == "focused_video"@
    ||| key == "chatting"@
    ||| key == "voice_engaged"@
    ||| key == "idle"@
}

/// A score below zero counts as zero, one above one as one, and any other as it is.
pub proof fn law_score_clamped(bits: u64)
    ensures
        rank_of(bits) < 0 ==> clamped(bits) == 0,
        rank_of(bits) > rank_of(0x3ff0_0000_0000_0000) ==> clamped(bits) == 0x3ff0_0000_0000_0000,
        0 <= rank_of(bits) <= rank_of(0x3ff0_0000_0000_0000) ==> clamped(bits) == bits,
{
}

proof fn lemma_scores(v: JsonView, n: int, key: Seq<char>, bits: u64)
    requires
        0 <= n <= scored_states().len(),
    ensures
        scores_upto(v, n).contains((key, bits)) <==> exists|i: int|
            0 <= i < n && #[trigger] scored_states()[i] == key && v.get(key) is Some && (v.get(
                key,
            )->0).double() is Some && bits == clamped((v.get(key)->0).double()->0),
    decreases n,
{
    if n > 0 {
        lemma_scores(v, n - 1, key, bits);
        let k = scored_states()[n - 1];
        let rest = scores_upto(v, n - 1);
        if v.get(k) is Some && (v.get(k)->0).double() is Some {
            let new = (k, clamped((v.get(k)->0).double()->0));
            crate::order::lemma_push_contains(rest, new, (key, bits));
        }
        if scores_upto(v, n).contains((key, bits)) {
            if rest.contains((key, bits)) {
                let i = choose|i: int|
                    0 <= i < n - 1 && #[trigger] scored_states()[i] == key && v.get(key) is Some && (
                    v.get(key)->0).double() is Some && bits == clamped((v.get(key)->0).double()->0);
                assert(scored_states()[i] == key);
            } else {
                assert(scored_states()[n - 1] == key);
            }
        }
    }
}

/// Of a description the score of every state that can be scored and has a number is taken,
/// brought between zero and one, and no other; and the words, without white space round them.
pub proof fn law_description_read(v: JsonView, scores: JsonView, key: Seq<char>, bits: u64)
    requires
        v is Record,
        v.get("scores"@) == Some(scores),
    ensures
        guess_in(v) is Some,
        (guess_in(v)->0).0.contains((key, bits)) <==> can_be_scored(key) && scores.get(key) is Some
            && (scores.get(key)->0).double() is Some && bits == clamped(
            (scores.get(key)->0).double()->0,
        ),
        v.text_at("guess"@) matches Some(t) ==> (guess_in(v)->0).1 == trimmed(t),
{
    let t = scored_states();
    lemma_scores(scores, 7, key, bits);
    assert(t.len() == 7);
    assert(t[0] == "gaming"@ && t[1] == "focused_work"@ && t[2] == "casual_browsing"@ && t[3]
        == "focused_video"@ && t[4] == "chatting"@ && t[5] == "voice_engaged"@ && t[6] == "idle"@);
}

/// A screen without height has no proportion: without width it counts as nothing, and else as
/// wide as can be; and so does one that is too wide.
pub proof fn law_odd_screens(w: u32, h: u32)
    ensures
        h == 0 && w == 0 ==> shown_width(w, h) == 0,
        h == 0 && w > 0 ==> shown_width(w, h) == u32::MAX,
        h > 0 && w * 720 / (h as int) > u32::MAX ==> shown_width(w, h) == u32::MAX,
{
}

} // verus!
