use vstd::prelude::*;

verus! {

/// Number of enemies destroyed in the current run.
pub struct Score(pub u32);

impl Default for Score {
    fn default() -> (s: Self)
        ensures
            s.0 == 0,
    {
        Score(0)
    }
}

/// Adds one point per enemy killed this frame.
pub fn increment_score(score: &mut Score, kills: u32)
    requires
        old(score).0 + kills <= u32::MAX,
    ensures
        final(score).0 == old(score).0 + kills,
{
    score.0 = score.0 + kills;
}

/// The character of decimal digit `d`.
pub open spec fn digit_char(d: nat) -> char {
    (48 + d) as char
}

/// The decimal numeral of `n`, with no leading zeros.
pub open spec fn decimal(n: nat) -> Seq<char>
    decreases n,
{
    if n < 10 {
        seq![digit_char(n)]
    } else {
        decimal(n / 10).push(digit_char(n % 10))
    }
}

/// Appends `c` to `s` (`String::push`).
#[verifier::external_body]
fn push_char(s: &mut String, c: char)
    ensures
        final(s)@ == old(s)@.push(c),
{
    s.push(c);
}

fn push_decimal(s: &mut String, n: u32)
    ensures
        final(s)@ == old(s)@ + decimal(n as nat),
    decreases n,
{
    if n >= 10 {
        push_decimal(s, n / 10);
    }
    let d: u8 = (n % 10) as u8;
    let c = (48u8 + d) as char;
    push_char(s, c);
    proof {
        if n < 10 {
            assert(old(s)@ + decimal(n as nat) =~= old(s)@.push(c));
        } else {
            assert(old(s)@ + decimal(n as nat) =~= (old(s)@ + decimal((n / 10) as nat)).push(c));
        }
    }
}

/// The text of the score display, such as `Score: 12`.
pub fn score_text(score: &Score) -> (text: String)
    ensures
        text@ == "Score: "@ + decimal(score.0 as nat),
{
    let mut text = String::from_str("Score: ");
    push_decimal(&mut text, score.0);
    text
}

/// The number a string of decimal digits stands for.
pub open spec fn numeral_value(s: Seq<char>) -> int
    decreases s.len(),
{
    if s.len() == 0 {
        0
    } else {
        numeral_value(s.drop_last()) * 10 + (s.last() as int - 48)
    }
}

/// The score display shows the score itself: its numeral is made of decimal
/// digits, has no leading zero, and reads back as the score.
pub proof fn lemma_decimal_reads_back(n: nat)
    ensures
        numeral_value(decimal(n)) == n,
        forall|i: int| 0 <= i < decimal(n).len() ==> '0' <= #[trigger] decimal(n)[i] <= '9',
        decimal(n).len() > 1 ==> decimal(n)[0] != '0',
    decreases n,
{
    if n >= 10 {
        lemma_decimal_reads_back(n / 10);
        let prefix = decimal(n / 10);
        assert(decimal(n).drop_last() =~= prefix);
        assert(digit_char(n % 10) as int == 48 + n % 10);
        assert(n == (n / 10) * 10 + n % 10);
        assert(decimal(n).last() == digit_char(n % 10));
        assert(numeral_value(decimal(n)) == numeral_value(prefix) * 10 + (n % 10));
        assert(forall|i: int| 0 <= i < prefix.len() ==> decimal(n)[i] == prefix[i]);
        if prefix.len() == 1 {
            assert(n / 10 < 10 && n / 10 >= 1) by {
                if n / 10 >= 10 {
                    assert(prefix.len() > 1) by {
                        assert(decimal(n / 10) == decimal(n / 10 / 10).push(
                            digit_char((n / 10) % 10),
                        ));
                    }
                }
            }
            assert(prefix[0] == digit_char(n / 10));
        }
    } else {
        assert(digit_char(n) as int == 48 + n);
        assert(decimal(n).drop_last() =~= Seq::<char>::empty());
        assert(numeral_value(Seq::<char>::empty()) == 0);
        assert(decimal(n).last() == digit_char(n));
    }
}

} // verus!
