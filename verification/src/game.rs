//! The guessing game's rules: drawing a secret, reading a guess out of
//! the player's input, and judging it against the secret.  The loop that
//! prompts and prints lives outside the library.

use vstd::prelude::*;

verus! {

#[verifier::external_type_specification]
#[verifier::external_body]
pub struct ExThreadRng(rand::rngs::ThreadRng);

/// Relies on rand::rng: a handle to the thread-local random generator.
#[verifier::external_body]
fn fresh_rng() -> rand::rngs::ThreadRng {
    rand::rng()
}

/// Relies on RngExt::random_range over `lo..=hi`: the draw lies in the
/// inclusive range; an empty range would panic and is excluded by the
/// requires.  Nothing more is assumed of the draw.
#[verifier::external_body]
fn draw_in_range(rng: &mut rand::rngs::ThreadRng, lo: u32, hi: u32) -> (r: u32)
    requires
        lo <= hi,
    ensures
        lo <= r <= hi,
{
    rand::RngExt::random_range(rng, lo..=hi)
}

/// A secret for one round: some number from 1 to 100.
pub fn pick_secret() -> (s: u32)
    ensures
        1 <= s <= 100,
{
    let mut rng = fresh_rng();
    draw_in_range(&mut rng, 1, 100)
}

/// `c` is a decimal digit.
pub open spec fn is_digit(c: char) -> bool {
    48 <= c as u32 <= 57
}

/// Every character of `s` is a decimal digit.
pub open spec fn all_digits(s: Seq<char>) -> bool {
    forall|i: int| 0 <= i < s.len() ==> is_digit(#[trigger] s[i])
}

/// The number the digit string `s` denotes.
pub open spec fn digits_val(s: Seq<char>) -> int
    decreases s.len(),
{
    if s.len() == 0 {
        0
    } else {
        digits_val(s.drop_last()) * 10 + (s.last() as u32 - 48)
    }
}

/// What parsing `s` as an unsigned 32-bit decimal yields: after an
/// optional leading plus sign there must be at least one character, all
/// of them digits, and the number they denote must fit.
pub open spec fn spec_parse_u32(s: Seq<char>) -> Option<u32> {
    let body = if s.len() > 0 && s[0] == '+' {
        s.subrange(1, s.len() as int)
    } else {
        s
    };
    if body.len() > 0 && all_digits(body) && digits_val(body) <= u32::MAX {
        Some(digits_val(body) as u32)
    } else {
        None
    }
}

/// Parses a decimal number: an optional plus sign, then one or more
/// digits denoting a value that fits in 32 bits; anything else is
/// rejected.
pub fn parse_u32(s: &str) -> (r: Option<u32>)
    ensures
        r == spec_parse_u32(s@),
{
    let n = s.unicode_len();
    let start: usize = if n > 0 && s.get_char(0) == '+' {
        1
    } else {
        0
    };
    let ghost body = if s@.len() > 0 && s@[0] == '+' {
        s@.subrange(1, s@.len() as int)
    } else {
        s@
    };
    proof {
        assert(body =~= s@.subrange(start as int, n as int));
    }
    if start >= n {
        return None;
    }
    let mut acc: u64 = 0;
    let mut over = false;
    let ghost mut vint: int = 0;
    for i in start..n
        invariant
            n == s@.len(),
            start <= i <= n,
            start <= n,
            body == s@.subrange(start as int, n as int),
            start == (if s@.len() > 0 && s@[0] == '+' {
                1int
            } else {
                0int
            }),
            forall|t: int| 0 <= t < i - start ==> is_digit(#[trigger] body[t]),
            vint == digits_val(body.subrange(0, i - start)),
            vint >= 0,
            !over ==> acc == vint && vint <= u32::MAX,
            over ==> vint > u32::MAX,
    {
        let c = s.get_char(i);
        let d = c as u32;
        if d < 48 || d > 57 {
            proof {
                assert(body[i - start] == s@[i as int]);
                assert(0 <= i - start < body.len());
                assert(!is_digit(body[i - start]));
                assert(!all_digits(body));
                assert(spec_parse_u32(s@) is None) by {
                    if s@.len() > 0 && s@[0] == '+' {
                        assert(body == s@.subrange(1, s@.len() as int));
                        assert(!all_digits(s@.subrange(1, s@.len() as int)));
                    } else {
                        assert(!all_digits(s@));
                    }
                }
            }
            return None;
        }
        proof {
            let pre = body.subrange(0, i - start);
            let now = body.subrange(0, i + 1 - start);
            assert(now.drop_last() =~= pre);
            assert(now.last() == body[i - start]);
            assert(body[i - start] == s@[i as int]);
            vint = vint * 10 + (d - 48);
        }
        if !over {
            acc = acc * 10 + ((d - 48) as u64);
            if acc > (u32::MAX as u64) {
                over = true;
            }
        } else {
            proof {
                assert(vint > u32::MAX);
            }
        }
    }
    proof {
        assert(body.subrange(0, n - start) =~= body);
    }
    if over {
        None
    } else {
        Some(acc as u32)
    }
}

/// How a guess relates to the secret, as far as the player is told.
#[derive(PartialEq, Eq, Structural, Clone, Copy, Debug)]
pub enum Judgement {
    /// The input is not a number the game accepts: ask again.
    Invalid,
    /// The secret is less than the guess.
    SecretBelow,
    /// The secret is greater than the guess.
    SecretAbove,
    /// The guess is exactly the secret: the round is won.
    Win,
}

/// The verdict on one line of input for a given secret.
pub open spec fn spec_judge(secret: u32, text: Seq<char>) -> Judgement {
    match spec_parse_u32(text) {
        None => Judgement::Invalid,
        Some(g) => if secret < g {
            Judgement::SecretBelow
        } else if secret > g {
            Judgement::SecretAbove
        } else {
            Judgement::Win
        },
    }
}

/// Judges one (already trimmed) line of the player's input against the
/// secret: an unparsable line is invalid, otherwise the verdict says on
/// which side of the guess the secret lies, or that the round is won.
pub fn judge(secret: u32, text: &str) -> (j: Judgement)
    ensures
        j == spec_judge(secret, text@),
{
    match parse_u32(text) {
        None => Judgement::Invalid,
        Some(g) => {
            if secret < g {
                Judgement::SecretBelow
            } else if secret > g {
                Judgement::SecretAbove
            } else {
                Judgement::Win
            }
        },
    }
}

} // verus!
