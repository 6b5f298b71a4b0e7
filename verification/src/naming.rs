//! Lock identities: each lock carries a human-memorable name, obtained from
//! an outside word-combining generator, so that log lines from different
//! locks can be told apart.

use vstd::prelude::*;
use vstd::string::StringExecFns;

verus! {

/// Relies on names::Generator: the default generator combines a random
/// adjective and noun from its built-in, non-empty word lists, so it never
/// panics; the name produced is random, so nothing is stated of it.
#[verifier::external_body]
fn generate_name() -> (r: Option<String>)
{
    names::Generator::default().next()
}

/// A freshly generated human-readable lock name, or a fixed fallback when
/// the generator yields nothing or an empty string; never empty either way.
pub fn fresh_name() -> (r: String)
    ensures
        r@.len() > 0,
{
    proof {
        reveal_strlit("unnamed-lock");
    }
    match generate_name() {
        Some(n) => {
            if n.as_str().is_empty() {
                String::from_str("unnamed-lock")
            } else {
                n
            }
        },
        None => String::from_str("unnamed-lock"),
    }
}

} // verus!
