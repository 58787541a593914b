//! Small shared utilities: a wrapper that keeps secrets out of casual
//! display, masked rendering of sensitive text, and the two ambient sources
//! (randomness and the clock) behind trusted boundaries.

use vstd::prelude::*;

verus! {

/// A transparent wrapper marking its content as secret. Code that renders
/// values for humans shows `redact` of it, never the content itself.
#[derive(Clone)]
pub struct SensitiveData<T>(pub T);

impl<T> SensitiveData<T> {
    /// Read access to the wrapped value.
    pub fn get(&self) -> (r: &T)
        ensures
            r == self.0,
    {
        &self.0
    }

    /// Unwraps the value.
    pub fn into_inner(self) -> (r: T)
        ensures
            r == self.0,
    {
        self.0
    }
}

/// The masked form of a sensitive string: enough of the ends to recognise
/// the value, never enough to reconstruct it.
pub open spec fn spec_redact(s: Seq<char>) -> Seq<char> {
    if s.len() >= 11 {
        s.subrange(0, 3) + "**"@ + s.subrange(s.len() - 3, s.len() as int)
    } else if s.len() >= 5 {
        s.subrange(0, 1) + "**"@ + s.subrange(s.len() - 1, s.len() as int)
    } else {
        "**"@
    }
}

/// Renders a sensitive string with all but its ends masked.
pub fn redact(s: &str) -> (r: String)
    ensures
        r@ == spec_redact(s@),
{
    let n = s.unicode_len();
    if n >= 11 {
        let mut r = String::from_str(s.substring_char(0, 3));
        r.append("**");
        r.append(s.substring_char(n - 3, n));
        r
    } else if n >= 5 {
        let mut r = String::from_str(s.substring_char(0, 1));
        r.append("**");
        r.append(s.substring_char(n - 1, n));
        r
    } else {
        String::from_str("**")
    }
}

impl SensitiveData<String> {
    /// The masked rendering of a secret string.
    pub fn redacted(&self) -> (r: String)
        ensures
            r@ == spec_redact(self.0@),
    {
        redact(self.0.as_str())
    }
}

/// Relies on rand::rng and rand::Rng::fill_bytes: `N` bytes drawn from the
/// thread-local cryptographically secure generator. Nothing can be promised
/// of the value.
#[verifier::external_body]
pub fn rand_bytes<const N: usize>() -> [u8; N] {
    let mut rng = rand::rng();
    let mut bytes = [0u8; N];
    rand::Rng::fill_bytes(&mut rng, &mut bytes);
    bytes
}

/// Relies on std::time::SystemTime::now: the wall clock as milliseconds
/// since the Unix epoch (zero if the clock reads before the epoch). Nothing
/// can be promised of the value.
#[verifier::external_body]
fn system_time_ms() -> u64 {
    std::time::SystemTime::now()
        .duration_since(std::time::UNIX_EPOCH)
        .map(|d| d.as_millis() as u64)
        .unwrap_or(0)
}

/// The wall clock as milliseconds since the Unix epoch. The value is
/// ambient: callers that need to reason about time take it as a parameter
/// instead.
pub fn unix_ms() -> u64 {
    system_time_ms()
}

} // verus!
