//! Conversion of SWC neuron morphology descriptions into the DOT graph
//! language.
//!
//! The pipeline has three stages: a validating line parser that turns raw
//! SWC text into uniquely keyed compartments, a graph builder that derives
//! parent/child adjacency, and a text emitter that renders the graph,
//! grouped by compartment kind and merged with per-kind style
//! configuration, as a brace-delimited, word-wrapped DOT document.

use vstd::prelude::*;

pub mod components;
pub mod config;
pub mod numerals;
pub mod swc_parser;
pub mod string_buffer;
pub mod writer;

verus! {

/// The position of the last `'.'` of `name`, or -1 if it has none.
pub open spec fn last_dot(name: Seq<char>) -> int
    decreases name.len(),
{
    if name.len() == 0 {
        -1
    } else if name.last() == '.' {
        name.len() - 1
    } else {
        last_dot(name.drop_last())
    }
}

/// The prefix of `name` up to (excluding) its last `'.'`, or all of
/// `name` if it contains none.
pub open spec fn filename_stem(name: Seq<char>) -> Seq<char> {
    if last_dot(name) >= 0 {
        name.take(last_dot(name))
    } else {
        name
    }
}

/// Get a filename with the extension removed.
///
/// If the file does not have an extension, the whole filename is
/// returned.
pub fn get_filename_without_extension(filename: String) -> (r: String)
    ensures
        r@ == filename_stem(filename@),
{
    let chars = string_buffer::chars_of(filename.as_str());
    let mut end: usize = chars.len();
    proof {
        assert(chars@.take(end as int) =~= chars@);
    }
    while end > 0 && chars[end - 1] != '.'
        invariant
            0 <= end <= chars@.len(),
            chars@ == filename@,
            last_dot(chars@) == last_dot(chars@.take(end as int)),
        decreases end,
    {
        proof {
            assert(chars@.take(end as int).drop_last() =~= chars@.take(end - 1));
            assert(chars@.take(end as int).last() == chars@[end - 1]);
        }
        end = end - 1;
    }
    proof {
        if end > 0 {
            assert(chars@.take(end as int).last() == chars@[end - 1]);
        } else {
            assert(chars@.take(0) =~= Seq::<char>::empty());
        }
        assert(last_dot(chars@) == end - 1);
    }
    if end > 0 {
        string_buffer::string_from_chars_range(&chars, 0, end - 1)
    } else {
        proof {
            assert(chars@.subrange(0, chars@.len() as int) =~= chars@);
        }
        string_buffer::string_from_chars_range(&chars, 0, chars.len())
    }
}

} // verus!
