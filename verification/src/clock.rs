//! The date of the day, as the header of a release shows it.

use vstd::prelude::*;

verus! {

/// The local date and time of this moment, written in `format`: the value
/// of `chrono::Local::now`, formatted by `DateTime::format`, written into a
/// string by `DelayedFormat::write_to`. `None` if the format cannot be
/// written. Nothing is promised of the text: it depends on the clock.
#[verifier::external_body]
pub(crate) fn local_date(format: &str) -> (date: Option<String>) {
    let mut text = String::new();
    match chrono::Local::now().format(format).write_to(&mut text) {
        Ok(()) => Some(text),
        Err(_) => None,
    }
}

} // verus!
