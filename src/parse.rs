use vstd::prelude::*;
use crate::geometry::Vec2;
use crate::tracer::OutlineError;

verus! {

pub open spec fn is_separator(c: u8) -> bool {
    c == 0x7c || c == 0x2c
}

/// After reading `s`: the non-empty tokens completed so far, and the token
/// being read. Tokens are the runs of bytes between `|` and `,`.
pub open spec fn split_state(s: Seq<u8>) -> (Seq<Seq<u8>>, Seq<u8>)
    decreases s.len(),
{
    if s.len() == 0 {
        (Seq::empty(), Seq::empty())
    } else {
        let (done, cur) = split_state(s.drop_last());
        let c = s.last();
        if is_separator(c) {
            if cur.len() > 0 {
                (done.push(cur), Seq::empty())
            } else {
                (done, Seq::empty())
            }
        } else {
            (done, cur.push(c))
        }
    }
}

/// The non-empty runs of `s` between separators, in order.
pub open spec fn tokens(s: Seq<u8>) -> Seq<Seq<u8>> {
    let (done, cur) = split_state(s);
    if cur.len() > 0 {
        done.push(cur)
    } else {
        done
    }
}

pub open spec fn is_digit(c: u8) -> bool {
    0x30 <= c <= 0x39
}

pub open spec fn all_digits(t: Seq<u8>) -> bool {
    t.len() > 0 && forall|i: int| 0 <= i < t.len() ==> is_digit(#[trigger] t[i])
}

/// The value of the decimal digits `t`.
pub open spec fn digits_value(t: Seq<u8>) -> int
    decreases t.len(),
{
    if t.len() == 0 {
        0
    } else {
        10 * digits_value(t.drop_last()) + (t.last() - 0x30)
    }
}

/// The integer that `t` spells: an optional `+` or `-`, then one or more
/// decimal digits.
pub open spec fn number_value(t: Seq<u8>) -> Option<int> {
    if t.len() > 0 && t[0] == 0x2d && all_digits(t.drop_first()) {
        Some(-digits_value(t.drop_first()))
    } else if t.len() > 0 && t[0] == 0x2b && all_digits(t.drop_first()) {
        Some(digits_value(t.drop_first()))
    } else if all_digits(t) {
        Some(digits_value(t))
    } else {
        Option::None
    }
}

pub open spec fn is_i32_token(t: Seq<u8>) -> bool {
    number_value(t) is Some && i32::MIN <= number_value(t)->Some_0 <= i32::MAX
}

pub open spec fn token_i32(t: Seq<u8>) -> i32 {
    number_value(t)->Some_0 as i32
}

/// The squares that `s` lists: its tokens, read as `i32`, taken in pairs
/// `x, y`.
pub open spec fn parsed_squares(s: Seq<u8>) -> Result<Seq<Vec2>, OutlineError> {
    let ts = tokens(s);
    if exists|i: int| 0 <= i < ts.len() && !is_i32_token(#[trigger] ts[i]) {
        Err(OutlineError::InvalidNumber)
    } else if ts.len() % 2 == 1 {
        Err(OutlineError::UnpairedNumber)
    } else {
        Ok(Seq::new((ts.len() / 2) as nat, |i: int| Vec2 { x: token_i32(ts[2 * i]), y: token_i32(ts[2 * i + 1]) }))
    }
}

pub open spec fn tokens_view(ts: Seq<Vec<u8>>) -> Seq<Seq<u8>> {
    ts.map_values(|t: Vec<u8>| t@)
}

fn split_tokens(text: &[u8]) -> (r: Vec<Vec<u8>>)
    ensures
        tokens_view(r@) == tokens(text@),
{
    let mut done: Vec<Vec<u8>> = Vec::new();
    let mut cur: Vec<u8> = Vec::new();
    let mut i: usize = 0;
    assert(text@.subrange(0, 0) =~= Seq::<u8>::empty());
    assert(tokens_view(done@) =~= Seq::empty());
    while i < text.len()
        invariant
            i <= text.len(),
            (tokens_view(done@), cur@) == split_state(text@.subrange(0, i as int)),
        decreases text.len() - i,
    {
        let c = text[i];
        assert(text@.subrange(0, i + 1).drop_last() =~= text@.subrange(0, i as int));
        if c == 0x7c || c == 0x2c {
            if cur.len() > 0 {
                let ghost before = done@;
                let t = cur;
                done.push(t);
                assert(tokens_view(done@) =~= tokens_view(before).push(t@));
                cur = Vec::new();
            } else {
                cur = Vec::new();
            }
            assert(cur@ =~= Seq::<u8>::empty());
        } else {
            cur.push(c);
        }
        i += 1;
    }
    assert(text@.subrange(0, i as int) =~= text@);
    if cur.len() > 0 {
        let ghost before = done@;
        done.push(cur);
        assert(tokens_view(done@) =~= tokens_view(before).push(cur@));
    }
    done
}

/// Past this every value is out of `i32` either way.
pub open spec fn digit_cap() -> int {
    0x8000_0001
}

pub open spec fn capped(v: int) -> int {
    if v < digit_cap() {
        v
    } else {
        digit_cap()
    }
}

proof fn lemma_digits_nonneg(t: Seq<u8>)
    requires
        forall|i: int| 0 <= i < t.len() ==> is_digit(#[trigger] t[i]),
    ensures
        digits_value(t) >= 0,
    decreases t.len(),
{
    if t.len() > 0 {
        lemma_digits_nonneg(t.drop_last());
    }
}

/// The `i32` that `t` spells, if any.
fn parse_i32(t: &Vec<u8>) -> (r: Option<i32>)
    ensures
        r is Some <==> is_i32_token(t@),
        r is Some ==> r->Some_0 == token_i32(t@),
{
    let n = t.len();
    if n == 0 {
        return None;
    }
    let neg = t[0] == 0x2d;
    let start: usize = if t[0] == 0x2d || t[0] == 0x2b {
        1
    } else {
        0
    };
    if start == n {
        assert(!all_digits(t@.drop_first()));
        assert(!is_digit(t@[0]));
        return None;
    }
    let ghost body = t@.subrange(start as int, n as int);
    if start == 1 {
        assert(t@.drop_first() =~= body);
    } else {
        assert(t@ =~= body);
    }
    let mut acc: i64 = 0;
    let mut j: usize = start;
    assert(t@.subrange(start as int, start as int) =~= Seq::<u8>::empty());
    while j < n
        invariant
            start <= j <= n,
            start <= 1,
            n == t.len(),
            body == t@.subrange(start as int, n as int),
            forall|i: int| start <= i < j ==> is_digit(#[trigger] t@[i]),
            acc == capped(digits_value(t@.subrange(start as int, j as int))),
            0 <= acc <= digit_cap(),
            neg == (t@[0] == 0x2d),
            start == 1 ==> t@.drop_first() == body && (t@[0] == 0x2d || t@[0] == 0x2b),
            start == 0 ==> t@ == body && t@[0] != 0x2d && t@[0] != 0x2b,
        decreases n - j,
    {
        let c = t[j];
        if c < 0x30 || c > 0x39 {
            assert(!is_digit(body[j - start]));
            assert(!is_digit(0x2d) && !is_digit(0x2b));
            return None;
        }
        let ghost prev = t@.subrange(start as int, j as int);
        let ghost next = t@.subrange(start as int, j + 1);
        assert(next.drop_last() =~= prev);
        proof {
            lemma_digits_nonneg(prev);
        }
        let d = (c - 0x30) as i64;
        acc = acc * 10 + d;
        if acc > 0x8000_0001 {
            acc = 0x8000_0001;
        }
        j += 1;
    }
    assert(t@.subrange(start as int, n as int) =~= body);
    assert(all_digits(body));
    assert(!is_digit(0x2d) && !is_digit(0x2b));
    proof {
        lemma_digits_nonneg(body);
    }
    if neg {
        if acc > 0x8000_0000 {
            return None;
        }
        Some((0 - acc) as i32)
    } else {
        if acc > 0x7fff_ffff {
            return None;
        }
        Some(acc as i32)
    }
}

/// Reads the squares that `text` lists: `i32` tokens separated by `|` or
/// `,` (empty tokens skipped), taken in pairs `x, y`.
pub fn parse_squares(text: &[u8]) -> (r: Result<Vec<Vec2>, OutlineError>)
    ensures
        match r {
            Ok(v) => parsed_squares(text@) == Ok::<Seq<Vec2>, OutlineError>(v@),
            Err(e) => parsed_squares(text@) == Err::<Seq<Vec2>, OutlineError>(e),
        },
{
    let ts = split_tokens(text);
    let ghost tv = tokens(text@);
    let mut nums: Vec<i32> = Vec::new();
    let mut i: usize = 0;
    while i < ts.len()
        invariant
            i <= ts.len(),
            tokens_view(ts@) == tv,
            tv == tokens(text@),
            nums.len() == i,
            forall|j: int| 0 <= j < i ==> is_i32_token(#[trigger] tv[j]) && nums@[j] == token_i32(tv[j]),
        decreases ts.len() - i,
    {
        assert(tv[i as int] == ts[i as int]@);
        match parse_i32(&ts[i]) {
            Some(v) => nums.push(v),
            None => {
                assert(!is_i32_token(tv[i as int]));
                assert(i < tv.len());
                assert(exists|j: int| 0 <= j < tv.len() && !is_i32_token(#[trigger] tv[j]));
                return Err(OutlineError::InvalidNumber);
            },
        }
        i += 1;
    }
    assert(tv.len() == ts.len());
    if ts.len() % 2 == 1 {
        return Err(OutlineError::UnpairedNumber);
    }
    let ghost want = Seq::new((tv.len() / 2) as nat, |k: int| Vec2 { x: token_i32(tv[2 * k]), y: token_i32(tv[2 * k + 1]) });
    let mut out: Vec<Vec2> = Vec::new();
    let mut k: usize = 0;
    while k < nums.len() / 2
        invariant
            nums.len() == tv.len(),
            nums.len() % 2 == 0,
            k <= nums.len() / 2,
            want == Seq::new((tv.len() / 2) as nat, |k: int| Vec2 { x: token_i32(tv[2 * k]), y: token_i32(tv[2 * k + 1]) }),
            forall|j: int| 0 <= j < nums.len() ==> nums@[j] == token_i32(#[trigger] tv[j]),
            out@ == want.subrange(0, k as int),
        decreases nums.len() / 2 - k,
    {
        let v = Vec2 { x: nums[2 * k], y: nums[2 * k + 1] };
        assert(v == want[k as int]);
        out.push(v);
        assert(out@ =~= want.subrange(0, k + 1));
        k += 1;
    }
    assert(want.subrange(0, k as int) =~= want);
    Ok(out)
}

} // verus!
