//! Calls whose results come from the environment, the clock or chance.
//! Nothing is promised of what they return beyond the bounds stated.

use rand::Rng;
use std::time::Instant;
use vstd::prelude::*;

verus! {

#[verifier::external_type_specification]
#[verifier::external_body]
pub struct ExInstant(Instant);

/// Calls `dirs::home_dir`. The directory depends on the environment, so no
/// clause says what it is; on Unix-like systems the crate returns `None`
/// rather than an empty path (an empty `HOME` or password-file entry is
/// skipped), and the text of a non-empty path is not empty.
#[verifier::external_body]
pub(crate) fn home_dir() -> (r: Option<String>)
    ensures
        match r {
            Some(h) => h@.len() > 0,
            None => true,
        },
{
    dirs::home_dir().map(|p| p.to_string_lossy().into_owned())
}

/// Calls `dirs::data_dir`. The directory depends on the environment, so no
/// clause says what it is.
#[verifier::external_body]
pub(crate) fn data_dir() -> Option<String> {
    dirs::data_dir().map(|p| p.to_string_lossy().into_owned())
}

/// Calls `dirs::config_dir`. The directory depends on the environment, so no
/// clause says what it is.
#[verifier::external_body]
pub(crate) fn config_dir() -> Option<String> {
    dirs::config_dir().map(|p| p.to_string_lossy().into_owned())
}

/// Calls `rand::Rng::gen_range(0..len)` on the thread's generator; the result
/// lies in the range, as its documentation states. Which value comes is chance.
#[verifier::external_body]
pub(crate) fn random_index(len: usize) -> (r: usize)
    requires
        len > 0,
    ensures
        r < len,
{
    rand::thread_rng().gen_range(0..len)
}

/// Calls `Instant::now`.
#[verifier::external_body]
pub(crate) fn now() -> Instant {
    Instant::now()
}

/// Calls `Instant::elapsed`, in whole seconds. It depends on the clock, so no
/// clause says what it is.
#[verifier::external_body]
pub(crate) fn whole_secs_since(t: &Instant) -> u64 {
    t.elapsed().as_secs()
}

} // verus!
