use vstd::prelude::*;

verus! {

/// Relies on `chrono::Local::now` and `format("%Y-%m-%d %H:%M:%S")`: the
/// local wall-clock time as text. Which text depends on the moment of the
/// call and the machine's time zone; its length does not fall below 19, as
/// chrono writes the year in at least four digits and each other field in two.
#[verifier::external_body]
pub(crate) fn local_timestamp() -> (r: String)
    ensures
        r@.len() >= 19,
{
    chrono::Local::now().format("%Y-%m-%d %H:%M:%S").to_string()
}

} // verus!
