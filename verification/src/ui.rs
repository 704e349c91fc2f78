//! The score and the line of text that shows it.

use vstd::prelude::*;

verus! {

/// Number of confirmed kills.
#[derive(Debug)]
pub struct Score(u32);

/// The character of the decimal digit `digit`.
pub open spec fn digit_char(digit: nat) -> char
    recommends
        digit < 10,
{
    ((digit + 48) as u8) as char
}

/// The decimal digits of `n`, the highest first, without leading zeros.
pub open spec fn decimal(n: nat) -> Seq<char>
    decreases n,
{
    if n < 10 {
        seq![digit_char(n)]
    } else {
        decimal(n / 10).push(digit_char(n % 10))
    }
}

/// The line that shows a score of `count`.
pub open spec fn score_line(count: nat) -> Seq<char> {
    "Score: "@ + decimal(count)
}

/// Writes the score line with `format!`, which writes the number as
/// `u32`'s `Display` does: in decimal digits, without sign or padding.
#[verifier::external_body]
fn format_score(count: u32) -> (text: String)
    ensures
        text@ == score_line(count as nat),
{
    format!("Score: {}", count)
}

impl Score {
    /// The counter as a natural number.
    pub closed spec fn view(&self) -> nat {
        self.0 as nat
    }

    /// Counts one kill.
    pub fn inc(&mut self)
        requires
            old(self)@ < u32::MAX,
        ensures
            final(self)@ == old(self)@ + 1,
    {
        self.0 = self.0 + 1;
    }

    /// The current count.
    pub fn count(&self) -> (n: u32)
        ensures
            n == self@,
    {
        self.0
    }
}

/// A score never exceeds the largest count that its counter holds.
pub proof fn lemma_score_bounded(score: Score)
    ensures
        score@ <= u32::MAX,
{
}

impl Default for Score {
    /// A score of zero.
    fn default() -> (score: Self)
        ensures
            score@ == 0,
    {
        Score(0)
    }
}

/// Puts the line that shows the score into `text`.
pub fn update_score_text(text: &mut String, score: &Score)
    ensures
        final(text)@ == score_line(score@),
{
    *text = format_score(score.count());
}

} // verus!
