use vstd::prelude::*;
use crate::text::{push_char, push_str, digit_char};

verus! {

/// A number literal kept as an exact decimal: the digits before the point,
/// without leading zeros (none at all for zero), and the digits after it,
/// without trailing zeros.
#[derive(Clone, Debug, PartialEq)]
pub struct Decimal {
    pub whole: Vec<u8>,
    pub frac: Vec<u8>,
}

pub open spec fn is_digit(c: char) -> bool {
    '0' <= c && c <= '9'
}

pub open spec fn digit_value(c: char) -> u8 {
    (c as u8 - 48) as u8
}

/// The end of the run of digits that starts at `i`.
pub open spec fn digit_run(s: Seq<char>, i: int) -> int
    decreases s.len() - i,
{
    if 0 <= i < s.len() && is_digit(s[i]) {
        digit_run(s, i + 1)
    } else {
        i
    }
}

pub open spec fn digit_values(s: Seq<char>) -> Seq<u8> {
    s.map_values(|c: char| digit_value(c))
}

pub open spec fn strip_leading_zeros(d: Seq<u8>) -> Seq<u8>
    decreases d.len(),
{
    if d.len() > 0 && d[0] == 0 {
        strip_leading_zeros(d.subrange(1, d.len() as int))
    } else {
        d
    }
}

pub open spec fn strip_trailing_zeros(d: Seq<u8>) -> Seq<u8>
    decreases d.len(),
{
    if d.len() > 0 && d[d.len() - 1] == 0 {
        strip_trailing_zeros(d.subrange(0, d.len() - 1))
    } else {
        d
    }
}

/// The value of a literal `digits` or `digits.digits`, as (whole, fraction).
pub open spec fn decimal_of(s: Seq<char>) -> Option<(Seq<u8>, Seq<u8>)> {
    let k = digit_run(s, 0);
    if k == 0 {
        None
    } else if k == s.len() {
        Some((strip_leading_zeros(digit_values(s)), Seq::<u8>::empty()))
    } else if s[k] == '.' && k + 1 < s.len() && digit_run(s, k + 1) == s.len() {
        Some(
            (
                strip_leading_zeros(digit_values(s.subrange(0, k))),
                strip_trailing_zeros(digit_values(s.subrange(k + 1, s.len() as int))),
            ),
        )
    } else {
        None
    }
}

pub open spec fn digits_text(d: Seq<u8>) -> Seq<char> {
    d.map_values(|x: u8| digit_char(x as nat))
}

/// How a number is written: as the shortest decimal, `10` for `10.0`.
pub open spec fn decimal_text(d: Decimal) -> Seq<char> {
    (if d.whole@.len() == 0 {
        "0"@
    } else {
        digits_text(d.whole@)
    }) + (if d.frac@.len() == 0 {
        Seq::<char>::empty()
    } else {
        "."@ + digits_text(d.frac@)
    })
}

/// Digit values stay digit values, and no zero leads once stripped.
proof fn lemma_strip_leading(d: Seq<u8>)
    requires
        forall|i: int| 0 <= i < d.len() ==> d[i] < 10,
    ensures
        forall|i: int| 0 <= i < strip_leading_zeros(d).len() ==> strip_leading_zeros(d)[i] < 10,
        strip_leading_zeros(d).len() == 0 || strip_leading_zeros(d)[0] != 0,
    decreases d.len(),
{
    if d.len() > 0 && d[0] == 0 {
        lemma_strip_leading(d.subrange(1, d.len() as int));
    }
}

/// Digit values stay digit values, and no zero trails once stripped.
proof fn lemma_strip_trailing(d: Seq<u8>)
    requires
        forall|i: int| 0 <= i < d.len() ==> d[i] < 10,
    ensures
        forall|i: int| 0 <= i < strip_trailing_zeros(d).len() ==> strip_trailing_zeros(d)[i] < 10,
        strip_trailing_zeros(d).len() == 0 || strip_trailing_zeros(d).last() != 0,
    decreases d.len(),
{
    if d.len() > 0 && d[d.len() - 1] == 0 {
        lemma_strip_trailing(d.subrange(0, d.len() - 1));
    }
}

proof fn lemma_digit_run_step(s: Seq<char>, i: int)
    requires
        0 <= i < s.len(),
        is_digit(s[i]),
    ensures
        digit_run(s, i) == digit_run(s, i + 1),
{
}

proof fn lemma_digit_run_bounds(s: Seq<char>, i: int)
    requires
        0 <= i <= s.len(),
    ensures
        i <= digit_run(s, i) <= s.len(),
        forall|j: int| i <= j < digit_run(s, i) ==> is_digit(s[j]),
        digit_run(s, i) < s.len() ==> !is_digit(s[digit_run(s, i)]),
    decreases s.len() - i,
{
    if i < s.len() && is_digit(s[i]) {
        lemma_digit_run_bounds(s, i + 1);
    }
}

/// The end of the run of digits in `s` that starts at `i`.
fn scan_digits(s: &Vec<char>, i: usize) -> (r: usize)
    requires
        i <= s@.len(),
    ensures
        r == digit_run(s@, i as int),
{
    let mut j: usize = i;
    while j < s.len() && '0' <= s[j] && s[j] <= '9'
        invariant
            i <= j <= s@.len(),
            digit_run(s@, i as int) == digit_run(s@, j as int),
        decreases s@.len() - j,
    {
        proof {
            lemma_digit_run_step(s@, j as int);
        }
        j = j + 1;
    }
    j
}

/// The digit values of `s[from..to]`, which are all digits.
fn values_of(s: &Vec<char>, from: usize, to: usize) -> (r: Vec<u8>)
    requires
        from <= to <= s@.len(),
        forall|j: int| from <= j < to ==> is_digit(s@[j]),
    ensures
        r@ == digit_values(s@.subrange(from as int, to as int)),
        forall|j: int| 0 <= j < r@.len() ==> r@[j] < 10,
{
    let mut r: Vec<u8> = Vec::new();
    let mut j: usize = from;
    while j < to
        invariant
            from <= j <= to <= s@.len(),
            forall|k: int| from <= k < to ==> is_digit(s@[k]),
            r@ == digit_values(s@.subrange(from as int, j as int)),
            forall|k: int| 0 <= k < r@.len() ==> r@[k] < 10,
        decreases to - j,
    {
        let c = s[j];
        r.push((c as u8) - 48);
        proof {
            assert(s@.subrange(from as int, j + 1) =~= s@.subrange(from as int, j as int).push(c));
            assert(r@ =~= digit_values(s@.subrange(from as int, j + 1)));
        }
        j = j + 1;
    }
    r
}

fn strip_leading(d: Vec<u8>) -> (r: Vec<u8>)
    ensures
        r@ == strip_leading_zeros(d@),
{
    let mut start: usize = 0;
    proof {
        assert(d@.subrange(0, d@.len() as int) =~= d@);
    }
    while start < d.len() && d[start] == 0
        invariant
            start <= d@.len(),
            strip_leading_zeros(d@) == strip_leading_zeros(d@.subrange(start as int, d@.len() as int)),
        decreases d@.len() - start,
    {
        proof {
            let t = d@.subrange(start as int, d@.len() as int);
            assert(t.subrange(1, t.len() as int) =~= d@.subrange(start + 1, d@.len() as int));
        }
        start = start + 1;
    }
    let mut r: Vec<u8> = Vec::new();
    let mut j: usize = start;
    while j < d.len()
        invariant
            start <= j <= d@.len(),
            r@ == d@.subrange(start as int, j as int),
        decreases d@.len() - j,
    {
        r.push(d[j]);
        proof {
            assert(r@ =~= d@.subrange(start as int, j + 1));
        }
        j = j + 1;
    }
    proof {
        let t = d@.subrange(start as int, d@.len() as int);
        assert(r@ =~= t);
    }
    r
}

fn strip_trailing(d: Vec<u8>) -> (r: Vec<u8>)
    ensures
        r@ == strip_trailing_zeros(d@),
{
    let ghost input = d@;
    let mut d = d;
    while d.len() > 0 && d[d.len() - 1] == 0
        invariant
            strip_trailing_zeros(d@) == strip_trailing_zeros(input),
        decreases d@.len(),
    {
        let ghost before = d@;
        d.pop();
        proof {
            assert(d@ =~= before.subrange(0, before.len() - 1));
        }
    }
    d
}

impl Decimal {
    /// Every digit is below ten, the whole part has no leading zero and the
    /// fraction no trailing zero.
    pub open spec fn wf(&self) -> bool {
        &&& forall|i: int| 0 <= i < self.whole@.len() ==> #[trigger] self.whole@[i] < 10
        &&& forall|i: int| 0 <= i < self.frac@.len() ==> #[trigger] self.frac@[i] < 10
        &&& self.whole@.len() == 0 || self.whole@[0] != 0
        &&& self.frac@.len() == 0 || self.frac@.last() != 0
    }

    /// Reads a number literal: digits, optionally a point and more digits.
    pub fn parse(text: &str) -> (r: Option<Decimal>)
        ensures
            decimal_of(text@) is None ==> r is None,
            decimal_of(text@) is Some ==> r is Some && (r->Some_0.whole@, r->Some_0.frac@)
                == decimal_of(text@).unwrap(),
            r is Some ==> r->Some_0.wf(),
    {
        let s = crate::text::chars_of(text);
        let k = scan_digits(&s, 0);
        proof {
            lemma_digit_run_bounds(s@, 0);
        }
        if k == 0 {
            return None;
        }
        if k == s.len() {
            let whole = values_of(&s, 0, k);
            proof {
                assert(s@.subrange(0, k as int) =~= s@);
                lemma_strip_leading(whole@);
            }
            return Some(Decimal { whole: strip_leading(whole), frac: Vec::new() });
        }
        if s[k] == '.' && k + 1 < s.len() {
            let e = scan_digits(&s, k + 1);
            if e == s.len() {
                proof {
                    lemma_digit_run_bounds(s@, k + 1);
                }
                let whole = values_of(&s, 0, k);
                let frac = values_of(&s, k + 1, e);
                proof {
                    lemma_strip_leading(whole@);
                    lemma_strip_trailing(frac@);
                }
                return Some(Decimal { whole: strip_leading(whole), frac: strip_trailing(frac) });
            }
        }
        None
    }

    /// Appends the literal's text: the shortest decimal that denotes it.
    pub fn write(&self, out: &mut String)
        ensures
            final(out)@ == old(out)@ + decimal_text(*self),
    {
        let ghost start = out@;
        if self.whole.len() == 0 {
            push_str(out, "0");
        } else {
            push_digits(out, &self.whole);
        }
        let ghost mid = out@;
        if self.frac.len() > 0 {
            push_str(out, ".");
            push_digits(out, &self.frac);
        }
        proof {
            if self.frac@.len() == 0 {
                assert(out@ =~= mid + Seq::<char>::empty());
            }
            assert(out@ =~= start + decimal_text(*self));
        }
    }
}

fn push_digits(out: &mut String, d: &Vec<u8>)
    ensures
        final(out)@ == old(out)@ + digits_text(d@),
{
    let ghost start = out@;
    let mut i: usize = 0;
    while i < d.len()
        invariant
            i <= d@.len(),
            out@ == start + digits_text(d@.subrange(0, i as int)),
        decreases d@.len() - i,
    {
        let x = d[i];
        let c: char = if x < 10 {
            (x + 48) as char
        } else {
            '?'
        };
        push_char(out, c);
        proof {
            assert(d@.subrange(0, i + 1) =~= d@.subrange(0, i as int).push(x));
            assert(digits_text(d@.subrange(0, i + 1)) =~= digits_text(d@.subrange(0, i as int)).push(
                digit_char(x as nat),
            ));
        }
        i = i + 1;
    }
    proof {
        assert(d@.subrange(0, d@.len() as int) =~= d@);
    }
}

} // verus!
