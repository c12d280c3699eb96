//! Reading snake lengths from text: a number ("10"), a range ("5..10") or an
//! inclusive range ("5..=10").

use vstd::prelude::*;
use crate::error::ParseSnakeLengthError;
use crate::game::SnakeLength;

verus! {

/// Whether `c` is an ASCII decimal digit.
pub open spec fn is_digit(c: char) -> bool {
    '0' <= c <= '9'
}

/// The value of a string of decimal digits.
pub open spec fn digits_value(d: Seq<char>) -> nat
    decreases d.len(),
{
    if d.len() == 0 {
        0
    } else {
        digits_value(d.drop_last()) * 10 + ((d.last() as u32) - ('0' as u32)) as nat
    }
}

/// Whether every character of `d` is a decimal digit.
pub open spec fn all_digits(d: Seq<char>) -> bool {
    forall|k: int| 0 <= k < d.len() ==> is_digit(#[trigger] d[k])
}

/// `t` without a leading `+`.
pub open spec fn unsigned_part(t: Seq<char>) -> Seq<char> {
    if t.len() > 0 && t[0] == '+' {
        t.drop_first()
    } else {
        t
    }
}

/// The number a string writes in decimal, as `usize` reads it: an optional
/// `+`, then one digit or more, with a value that fits.
pub open spec fn decimal_value(t: Seq<char>) -> Option<usize> {
    let d = unsigned_part(t);
    if d.len() > 0 && all_digits(d) && digits_value(d) <= usize::MAX {
        Some(digits_value(d) as usize)
    } else {
        None
    }
}

/// Whether ".." starts at `i`.
pub open spec fn dots_at(s: Seq<char>, i: int) -> bool {
    0 <= i && i + 1 < s.len() && s[i] == '.' && s[i + 1] == '.'
}

/// The index of the first ".." at or after `from`, or the length when there
/// is none.
pub open spec fn find_dots(s: Seq<char>, from: int) -> int
    decreases s.len() - from,
{
    if from < 0 || from + 1 >= s.len() {
        s.len() as int
    } else if dots_at(s, from) {
        from
    } else {
        find_dots(s, from + 1)
    }
}

/// The snake length a string describes, if any. A number gives that fixed
/// length. Otherwise the string is split at "..": the first piece is the start
/// of a range (zero when it is no number), the second its end, included when
/// it begins with "=". The end must be a positive number, not below the start,
/// and the range must not be empty.
pub open spec fn snake_length_of(s: Seq<char>) -> Option<SnakeLength> {
    if decimal_value(s) is Some {
        Some(SnakeLength::Fixed(decimal_value(s)->0))
    } else {
        let p = find_dots(s, 0);
        if p >= s.len() {
            None
        } else {
            let first = s.subrange(0, p);
            let rest = s.subrange(p + 2, s.len() as int);
            let second = rest.subrange(0, find_dots(rest, 0));
            let start: usize = match decimal_value(first) {
                Some(v) => v,
                None => 0,
            };
            let inclusive = second.len() > 0 && second[0] == '=';
            let end_text = if inclusive {
                second.drop_first()
            } else {
                second
            };
            match decimal_value(end_text) {
                None => None,
                Some(end) => {
                    if end == 0 || end < start {
                        None
                    } else if inclusive {
                        if end == usize::MAX {
                            None
                        } else {
                            Some(SnakeLength::Random(core::ops::Range { start, end: (end + 1) as usize }))
                        }
                    } else if start == end {
                        None
                    } else {
                        Some(SnakeLength::Random(core::ops::Range { start, end }))
                    }
                },
            }
        }
    }
}

proof fn lemma_digits_grow(d: Seq<char>, k: int)
    requires
        0 <= k <= d.len(),
    ensures
        digits_value(d.take(k)) <= digits_value(d),
    decreases d.len() - k,
{
    if k < d.len() {
        lemma_digits_grow(d, k + 1);
        assert(d.take(k + 1).drop_last() =~= d.take(k));
    } else {
        assert(d.take(k) =~= d);
    }
}

/// Return the number `cs[lo..hi]` writes in decimal, as `usize` reads it.
fn parse_decimal(cs: &Vec<char>, lo: usize, hi: usize) -> (r: Option<usize>)
    requires
        lo <= hi <= cs@.len(),
    ensures
        r == decimal_value(cs@.subrange(lo as int, hi as int)),
{
    let ghost t = cs@.subrange(lo as int, hi as int);
    let mut i = lo;
    if i < hi && cs[i] == '+' {
        i += 1;
    }
    let ghost d = cs@.subrange(i as int, hi as int);
    proof {
        if t.len() > 0 && t[0] == '+' {
            assert(d =~= t.drop_first());
        } else {
            assert(d =~= t);
        }
    }
    if i == hi {
        return None;
    }
    let start = i;
    let mut acc: usize = 0;
    while i < hi
        invariant
            start <= i <= hi,
            hi <= cs@.len(),
            d == cs@.subrange(start as int, hi as int),
            t == cs@.subrange(lo as int, hi as int),
            d == unsigned_part(t),
            forall|k: int| 0 <= k < i - start ==> is_digit(#[trigger] d[k]),
            acc == digits_value(d.take(i - start)),
        decreases hi - i,
    {
        let c = cs[i];
        if !('0' <= c && c <= '9') {
            proof {
                assert(d[i - start] == c);
                assert(!is_digit(d[i - start]));
                assert(!all_digits(d));
            }
            return None;
        }
        let v = (c as u32 - '0' as u32) as usize;
        proof {
            assert(d.take(i - start + 1).drop_last() =~= d.take(i - start));
            assert(d.take(i - start + 1).last() == c);
            assert(digits_value(d.take(i - start + 1)) == acc * 10 + v);
        }
        if acc > (usize::MAX - v) / 10 {
            proof {
                assert(acc * 10 + v > usize::MAX) by (nonlinear_arith)
                    requires
                        acc > (usize::MAX - v) / 10,
                        v <= 9,
                ;
                lemma_digits_grow(d, i - start + 1);
                assert(digits_value(d) > usize::MAX);
            }
            return None;
        }
        proof {
            assert(acc * 10 + v <= usize::MAX) by (nonlinear_arith)
                requires
                    acc <= (usize::MAX - v) / 10,
                    v <= 9,
            ;
        }
        acc = acc * 10 + v;
        i += 1;
    }
    proof {
        assert(d.take(i - start) =~= d);
    }
    Some(acc)
}

/// Return the index of the first ".." in `cs[from..hi]`, or `hi` when there
/// is none.
fn find_dots_in(cs: &Vec<char>, from: usize, hi: usize) -> (r: usize)
    requires
        from <= hi <= cs@.len(),
    ensures
        r as int == from + find_dots(cs@.subrange(from as int, hi as int), 0),
        from <= r <= hi,
        r < hi ==> r + 1 < hi,
{
    let ghost s = cs@.subrange(from as int, hi as int);
    let mut i = from;
    while hi - i > 1
        invariant
            from <= i <= hi,
            hi <= cs@.len(),
            s == cs@.subrange(from as int, hi as int),
            find_dots(s, 0) == find_dots(s, i - from),
        decreases hi - i,
    {
        if cs[i] == '.' && cs[i + 1] == '.' {
            proof {
                assert(dots_at(s, i - from));
            }
            return i;
        }
        i += 1;
    }
    hi
}

impl SnakeLength {
    /// Read a snake length from text: a number gives a fixed length; "a..b"
    /// gives a random length from `a` to `b` excluded, "a..=b" one from `a`
    /// to `b` included (see [`snake_length_of`]).
    pub fn parse(s: &str) -> (r: Result<SnakeLength, ParseSnakeLengthError>)
        ensures
            r is Ok <==> snake_length_of(s@) is Some,
            r matches Ok(l) ==> snake_length_of(s@) == Some(l),
    {
        let n = s.unicode_len();
        let mut cs: Vec<char> = Vec::new();
        let mut k: usize = 0;
        while k < n
            invariant
                n == s@.len(),
                k <= n,
                cs@ =~= s@.take(k as int),
            decreases n - k,
        {
            cs.push(s.get_char(k));
            k += 1;
        }
        proof {
            assert(cs@ =~= s@);
            assert(cs@.subrange(0, n as int) =~= cs@);
        }
        if let Some(v) = parse_decimal(&cs, 0, n) {
            return Ok(SnakeLength::Fixed(v));
        }
        let p = find_dots_in(&cs, 0, n);
        if p >= n {
            return Err(ParseSnakeLengthError);
        }
        let ghost rest = cs@.subrange(p + 2, n as int);
        let q = find_dots_in(&cs, p + 2, n);
        proof {
            assert(cs@.subrange(p + 2, q as int) =~= rest.subrange(0, find_dots(rest, 0)));
        }
        let start = match parse_decimal(&cs, 0, p) {
            Some(v) => v,
            None => 0,
        };
        let inclusive = q > p + 2 && cs[p + 2] == '=';
        let end_from = if inclusive { p + 3 } else { p + 2 };
        proof {
            let second = rest.subrange(0, find_dots(rest, 0));
            if inclusive {
                assert(cs@.subrange(end_from as int, q as int) =~= second.drop_first());
            } else {
                assert(cs@.subrange(end_from as int, q as int) =~= second);
            }
        }
        match parse_decimal(&cs, end_from, q) {
            None => Err(ParseSnakeLengthError),
            Some(end) => {
                if end == 0 || end < start {
                    Err(ParseSnakeLengthError)
                } else if inclusive {
                    if end == usize::MAX {
                        Err(ParseSnakeLengthError)
                    } else {
                        Ok(SnakeLength::Random(core::ops::Range { start, end: end + 1 }))
                    }
                } else if start == end {
                    Err(ParseSnakeLengthError)
                } else {
                    Ok(SnakeLength::Random(core::ops::Range { start, end }))
                }
            },
        }
    }
}

impl core::str::FromStr for SnakeLength {
    type Err = ParseSnakeLengthError;

    fn from_str(s: &str) -> Result<Self, Self::Err> {
        Self::parse(s)
    }
}

} // verus!
