//! The lifecycle state of a device.

use std::str::FromStr;
use vstd::prelude::*;
use vstd::string::*;

use crate::text::same_text;

verus! {

/// The state of a device in its lifecycle.
#[derive(Clone, Copy, Debug, PartialEq, Eq, Structural)]
pub enum State {
    /// Nothing has been heard of the device's state yet. Devices never
    /// announce this state: it stands for the lack of an announcement.
    Unknown,
    /// The device is connected but not yet ready to operate.
    Init,
    /// The device is connected and operational.
    Ready,
    /// The device has cleanly disconnected.
    Disconnected,
    /// The device is sleeping.
    Sleeping,
    /// The device was disconnected uncleanly.
    Lost,
    /// The device is connected but something is wrong with it.
    Alert,
}

/// The error of parsing a [`State`] from text that names no state. It holds
/// the text.
#[derive(Clone, Debug, PartialEq, Eq)]
pub struct ParseStateError(pub String);

impl State {
    /// The name of the state.
    pub open spec fn text(self) -> Seq<char> {
        match self {
            State::Unknown => "unknown"@,
            State::Init => "init"@,
            State::Ready => "ready"@,
            State::Disconnected => "disconnected"@,
            State::Sleeping => "sleeping"@,
            State::Lost => "lost"@,
            State::Alert => "alert"@,
        }
    }

    /// The state that a device announces with the text `s`, if any.
    pub open spec fn from_text(s: Seq<char>) -> Option<State> {
        if s == "init"@ {
            Some(State::Init)
        } else if s == "ready"@ {
            Some(State::Ready)
        } else if s == "disconnected"@ {
            Some(State::Disconnected)
        } else if s == "sleeping"@ {
            Some(State::Sleeping)
        } else if s == "lost"@ {
            Some(State::Lost)
        } else if s == "alert"@ {
            Some(State::Alert)
        } else {
            None
        }
    }

    /// The name of the state.
    pub fn as_str(&self) -> (name: &'static str)
        ensures
            name@ == self.text(),
    {
        match self {
            Self::Unknown => "unknown",
            Self::Init => "init",
            Self::Ready => "ready",
            Self::Disconnected => "disconnected",
            Self::Sleeping => "sleeping",
            Self::Lost => "lost",
            Self::Alert => "alert",
        }
    }

    /// The name of the state, as an owned string.
    pub fn to_string(&self) -> (name: String)
        ensures
            name@ == self.text(),
    {
        self.as_str().to_owned()
    }

    /// Parses the state that a device announced. Only the six names that a
    /// device may announce are accepted, in lower case.
    pub fn from_str(s: &str) -> (parsed: Result<State, ParseStateError>)
        ensures
            match State::from_text(s@) {
                Some(state) => parsed == Ok::<State, ParseStateError>(state),
                None => parsed matches Err(e) && e.0@ == s@,
            },
    {
        if same_text(s, "init") {
            Ok(Self::Init)
        } else if same_text(s, "ready") {
            Ok(Self::Ready)
        } else if same_text(s, "disconnected") {
            Ok(Self::Disconnected)
        } else if same_text(s, "sleeping") {
            Ok(Self::Sleeping)
        } else if same_text(s, "lost") {
            Ok(Self::Lost)
        } else if same_text(s, "alert") {
            Ok(Self::Alert)
        } else {
            Err(ParseStateError(s.to_owned()))
        }
    }
}

impl ParseStateError {
    /// The message of the error.
    pub open spec fn message(self) -> Seq<char> {
        "Invalid state '"@ + self.0@ + "'"@
    }

    /// The message of the error.
    pub fn to_string(&self) -> (message: String)
        ensures
            message@ == self.message(),
    {
        "Invalid state '".to_owned().concat(self.0.as_str()).concat("'")
    }
}

impl FromStr for State {
    type Err = ParseStateError;

    /// Parses the state that a device announced, as [`State::from_str`]
    /// does.
    fn from_str(s: &str) -> (parsed: Result<Self, Self::Err>)
        ensures
            match State::from_text(s@) {
                Some(state) => parsed == Ok::<State, ParseStateError>(state),
                None => parsed matches Err(e) && e.0@ == s@,
            },
    {
        State::from_str(s)
    }
}

/// The names of the states are pairwise different.
proof fn lemma_state_names_differ()
    ensures
        forall|a: State, b: State| a != b ==> a.text() != b.text(),
{
    reveal_strlit("unknown");
    reveal_strlit("init");
    reveal_strlit("ready");
    reveal_strlit("disconnected");
    reveal_strlit("sleeping");
    reveal_strlit("lost");
    reveal_strlit("alert");
    assert forall|a: State, b: State| a != b implies a.text() != b.text() by {
        if a.text().len() == b.text().len() {
            assert(a.text()[0] != b.text()[0]);
        }
    }
}

/// Parsing accepts the name of every state but `Unknown`, gives that state
/// back, and accepts nothing else: a text that parses is the name of the state
/// it parses to.
pub proof fn lemma_state_text_round_trip(state: State, s: Seq<char>)
    ensures
        state != State::Unknown ==> State::from_text(state.text()) == Some(state),
        State::from_text(State::Unknown.text()) is None,
        State::from_text(s) == Some(state) ==> s == state.text() && state != State::Unknown,
{
    lemma_state_names_differ();
    assert(State::Unknown.text() != State::Init.text());
    assert(State::Unknown.text() != State::Ready.text());
    assert(State::Unknown.text() != State::Disconnected.text());
    assert(State::Unknown.text() != State::Sleeping.text());
    assert(State::Unknown.text() != State::Lost.text());
    assert(State::Unknown.text() != State::Alert.text());
    if state != State::Unknown {
        assert(state.text() != State::Init.text() || state == State::Init);
        assert(state.text() != State::Ready.text() || state == State::Ready);
        assert(state.text() != State::Disconnected.text() || state == State::Disconnected);
        assert(state.text() != State::Sleeping.text() || state == State::Sleeping);
        assert(state.text() != State::Lost.text() || state == State::Lost);
        assert(state.text() != State::Alert.text() || state == State::Alert);
    }
}

} // verus!
