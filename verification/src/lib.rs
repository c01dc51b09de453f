//! A small verified line-search library: given a query string and a body of
//! text, it reports the lines of the text that contain the query as a
//! contiguous substring, optionally ignoring ASCII letter case.

use vstd::prelude::*;

pub mod casefold;
pub mod config;
pub mod lines;
pub mod matching;
pub mod runner;
pub mod search;

verus! {

/// A small demonstration of the `Option` type: values that are present,
/// and a value that is absent, with the facts that hold of each.
#[allow(non_snake_case)]
pub fn chapter_6_2_OPTION_enum() {
    let some_number: Option<i32> = Some(5);
    let some_char: Option<char> = Some('e');
    let absent_number: Option<i32> = None;
    assert(some_number is Some);
    assert(some_char is Some);
    assert(absent_number is None);
}

} // verus!
