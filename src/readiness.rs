//! Serving readiness flag shared between the request handlers of a server.
use std::sync::atomic::{AtomicBool, Ordering};
use std::sync::Arc;
use vstd::prelude::*;

verus! {

/// Whether the server accepts data-plane traffic.
#[derive(Debug, Clone, Copy, PartialEq, Eq, Structural)]
pub enum ServingReadinessState {
    Unavailable,
    Serving,
}

/// ASCII upper-case letters become lower case; every other char stays.
pub open spec fn lower_char(c: char) -> char {
    if 'A' <= c && c <= 'Z' {
        ((c as u32) + 32) as char
    } else {
        c
    }
}

pub open spec fn ascii_lower(s: Seq<char>) -> Seq<char> {
    s.map_values(|c: char| lower_char(c))
}

/// Relies on `str::to_ascii_lowercase`: `A`..=`Z` become `a`..=`z`, every
/// other char is kept.
#[verifier::external_body]
fn ascii_lowercase(s: &str) -> (r: String)
    ensures
        r@ == ascii_lower(s@),
{
    s.to_ascii_lowercase()
}

impl ServingReadinessState {
    /// Reads a state, ignoring ASCII case: `unavailable` or `serving`.
    pub fn parse(s: &str) -> (r: Result<ServingReadinessState, String>)
        ensures
            ascii_lower(s@) == "unavailable"@ ==> r matches Ok(ServingReadinessState::Unavailable),
            ascii_lower(s@) == "serving"@ ==> r matches Ok(ServingReadinessState::Serving),
            ascii_lower(s@) != "unavailable"@ && ascii_lower(s@) != "serving"@ ==> (r matches Err(m)
                && m@ == "Invalid serving readiness format '"@ + s@
                + "'. Valid options: unavailable, serving"@),
    {
        proof {
            reveal_strlit("unavailable");
            reveal_strlit("serving");
            assert("unavailable"@[0] != "serving"@[0]);
        }
        let low = ascii_lowercase(s);
        if low == "unavailable".to_owned() {
            Ok(ServingReadinessState::Unavailable)
        } else if low == "serving".to_owned() {
            Ok(ServingReadinessState::Serving)
        } else {
            let mut m = "Invalid serving readiness format '".to_owned();
            m.append(s);
            m.append("'. Valid options: unavailable, serving");
            Err(m)
        }
    }

    /// `true` maps to `Serving`, `false` to `Unavailable`.
    pub fn from_bool(v: bool) -> (r: Self)
        ensures
            r == (if v { ServingReadinessState::Serving } else { ServingReadinessState::Unavailable }),
    {
        if v {
            ServingReadinessState::Serving
        } else {
            ServingReadinessState::Unavailable
        }
    }

    /// `Serving` maps to `true`, `Unavailable` to `false`.
    pub fn to_bool(self) -> (r: bool)
        ensures
            r == (self == ServingReadinessState::Serving),
    {
        match self {
            ServingReadinessState::Unavailable => false,
            ServingReadinessState::Serving => true,
        }
    }
}

impl std::str::FromStr for ServingReadinessState {
    type Err = String;

    fn from_str(s: &str) -> Result<Self, Self::Err> {
        ServingReadinessState::parse(s)
    }
}

/// A readiness flag that clones share.
#[derive(Debug, Clone)]
pub struct ServingReadiness(Arc<AtomicBool>);

impl ServingReadiness {
    pub fn new(value: Arc<AtomicBool>) -> (r: Self)
        ensures
            r.flag() == value,
    {
        ServingReadiness(value)
    }

    /// The shared flag behind this handle.
    pub closed spec fn flag(&self) -> Arc<AtomicBool> {
        self.0
    }

    /// The current state. Other holders of the flag may change it at any
    /// time, so nothing is known of the value read.
    pub fn get(&self) -> (r: ServingReadinessState)
        ensures
            r == ServingReadinessState::Serving || r == ServingReadinessState::Unavailable,
    {
        ServingReadinessState::from_bool(self.0.load(Ordering::SeqCst))
    }

    pub fn set(&self, state: ServingReadinessState) {
        self.0.store(state.to_bool(), Ordering::SeqCst)
    }
}

} // verus!
