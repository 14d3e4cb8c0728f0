//! Password strength, as the zxcvbn estimator reports it.
use vstd::prelude::*;

verus! {

/// The estimator's advice for a weak password.
#[derive(Debug, Clone, PartialEq, Eq)]
pub struct Feedback {
    pub warning: Option<String>,
    pub suggestions: Vec<String>,
}

/// A strength estimate.
#[derive(Debug, Clone, PartialEq, Eq)]
pub struct Strength {
    /// From 0 (guessable in a few tries) to 4 (very hard to guess).
    pub score: u8,
    pub feedback: Option<Feedback>,
}

/// Why there is no strength estimate.
#[derive(Debug, Clone, Copy, PartialEq, Eq, Structural)]
pub enum StrengthError {
    /// No password has been scored yet.
    NotScored,
    /// The estimator refuses an empty password.
    BlankPassword,
    /// The estimator could not read the clock to time itself.
    ClockOutOfRange,
}

/// The highest strength score.
pub const MAX_SCORE: u8 = 4;

/// What holds of every outcome of scoring `password`: an empty password is
/// refused and only an empty one is; a score is at most `MAX_SCORE`; the
/// estimator fails in no other way than these two.
pub open spec fn scoring_outcome(password: Seq<char>, r: Result<Strength, StrengthError>) -> bool {
    &&& (r == Err::<Strength, StrengthError>(StrengthError::BlankPassword) <==> password.len() == 0)
    &&& (r matches Ok(s) ==> s.score <= MAX_SCORE)
    &&& (r matches Err(e) ==> e != StrengthError::NotScored)
}

/// Relies on zxcvbn::zxcvbn: it refuses exactly the empty password, fails
/// otherwise only when the system clock lies before the epoch, and scores
/// from 0 to 4.
#[verifier::external_body]
pub(crate) fn score_password(password: &str) -> (r: Result<Strength, StrengthError>)
    ensures
        scoring_outcome(password@, r),
{
    match zxcvbn::zxcvbn(password, &[]) {
        Ok(e) => Ok(Strength {
            score: e.score(),
            feedback: e.feedback().as_ref().map(|f| Feedback {
                warning: f.warning().map(|w| w.to_string()),
                suggestions: f.suggestions().iter().map(|s| s.to_string()).collect(),
            }),
        }),
        Err(zxcvbn::ZxcvbnError::BlankPassword) => Err(StrengthError::BlankPassword),
        Err(zxcvbn::ZxcvbnError::DurationOutOfRange) => Err(StrengthError::ClockOutOfRange),
    }
}

} // verus!
