use vstd::prelude::*;
use crate::encoding::Error;

verus! {

/// The state that a client asks for at the end of the handshake.
#[derive(Debug, Clone, Copy)]
pub enum State {
    Status,
    Login,
    Transfer,
}

impl DeepView for State {
    type V = State;

    open spec fn deep_view(&self) -> State {
        *self
    }
}

impl State {
    /// The number that stands for the state on the wire.
    pub open spec fn spec_id(self) -> i32 {
        match self {
            State::Status => 1,
            State::Login => 2,
            State::Transfer => 3,
        }
    }

    /// The number that stands for the state on the wire.
    pub fn id(self) -> (v: i32)
        ensures
            v == self.spec_id(),
    {
        match self {
            State::Status => 1,
            State::Login => 2,
            State::Transfer => 3,
        }
    }
}

/// The state that a number stands for; any other number is refused.
pub open spec fn state_from_id(value: i32) -> std::result::Result<State, Error> {
    if value == 1 {
        Ok(State::Status)
    } else if value == 2 {
        Ok(State::Login)
    } else if value == 3 {
        Ok(State::Transfer)
    } else {
        Err(Error::BadState(value))
    }
}

impl TryFrom<i32> for State {
    type Error = Error;

    fn try_from(value: i32) -> (res: std::result::Result<Self, Self::Error>) {
        match value {
            1 => Ok(Self::Status),
            2 => Ok(Self::Login),
            3 => Ok(Self::Transfer),
            v => Err(Error::BadState(v)),
        }
    }
}

impl vstd::std_specs::convert::TryFromSpecImpl<i32> for State {
    open spec fn obeys_try_from_spec() -> bool {
        true
    }

    open spec fn try_from_spec(value: i32) -> std::result::Result<Self, Self::Error> {
        state_from_id(value)
    }
}

/// Every state is given back by the number that stands for it, and the three numbers that
/// stand for states are the only ones accepted.
pub proof fn lemma_state_roundtrip(st: State, value: i32)
    ensures
        state_from_id(st.spec_id()) == Ok::<State, Error>(st),
        state_from_id(value) is Ok <==> 1 <= value <= 3,
        state_from_id(value) matches Ok(s) ==> s.spec_id() == value,
{
}

} // verus!
