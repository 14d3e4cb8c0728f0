//! The state of a checker front end: the password being typed, its strength,
//! and the last breach count, with the decisions taken on each event. The
//! front end performs the lookups that these decisions ask for and reports
//! their outcome back as an event.
use crate::breach::CheckError;
use crate::digest::{range_query, RangeQuery};
use crate::strength::{score_password, scoring_outcome, Strength, StrengthError};
use vstd::prelude::*;

verus! {

/// An event of the front end.
pub enum Message {
    /// The password field now holds this text.
    PasswordChanged(String),
    /// The user asked for a breach check of the current password.
    CheckDatabase,
    /// A breach check has finished with this outcome.
    ResultFetched(Result<usize, CheckError>),
}

/// What the front end is asked to do after an event.
pub enum Command {
    Nothing,
    /// Ask the range service for this query, then report the outcome with
    /// `Message::ResultFetched`.
    Lookup(RangeQuery),
}

pub struct Checker {
    pub password: String,
    pub strength: Result<Strength, StrengthError>,
    /// The last breach count, or why there is none.
    pub leak: Result<usize, CheckError>,
}

impl Checker {
    /// `next` and `cmd` are what `self` comes to on `message`. The latest
    /// outcome to arrive is the one kept.
    pub open spec fn steps_to(self, message: Message, next: Checker, cmd: Command) -> bool {
        match message {
            Message::PasswordChanged(p) => {
                &&& next.password@ == p@
                &&& scoring_outcome(p@, next.strength)
                &&& next.leak == Err::<usize, CheckError>(CheckError::NotChecked)
                &&& cmd is Nothing
            },
            Message::CheckDatabase => {
                &&& next.password == self.password
                &&& next.strength == self.strength
                &&& next.leak == Err::<usize, CheckError>(CheckError::Checking)
                &&& cmd matches Command::Lookup(q) && q.is_query_for(self.password@)
            },
            Message::ResultFetched(r) => {
                &&& next.password == self.password
                &&& next.strength == self.strength
                &&& next.leak == r
                &&& cmd is Nothing
            },
        }
    }

    /// A checker with an empty password, nothing scored and nothing checked.
    pub fn new() -> (s: Checker)
        ensures
            s.password@ == Seq::<char>::empty(),
            s.strength == Err::<Strength, StrengthError>(StrengthError::NotScored),
            s.leak == Err::<usize, CheckError>(CheckError::NotChecked),
    {
        Checker {
            password: String::new(),
            strength: Err(StrengthError::NotScored),
            leak: Err(CheckError::NotChecked),
        }
    }

    pub fn title(&self) -> (r: String)
        ensures
            r@ == "Password Checker 2000"@,
    {
        String::from_str("Password Checker 2000")
    }

    /// Takes in one event and says what the front end has to do next.
    pub fn update(&mut self, message: Message) -> (cmd: Command)
        ensures
            old(self).steps_to(message, *final(self), cmd),
    {
        match message {
            Message::PasswordChanged(p) => {
                self.strength = score_password(p.as_str());
                self.password = p;
                self.leak = Err(CheckError::NotChecked);
                Command::Nothing
            },
            Message::CheckDatabase => {
                self.leak = Err(CheckError::Checking);
                Command::Lookup(range_query(self.password.as_str()))
            },
            Message::ResultFetched(r) => {
                self.leak = r;
                Command::Nothing
            },
        }
    }
}

} // verus!
