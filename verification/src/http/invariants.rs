//! What holds of every value that the grammar yields: no segment is empty,
//! keys, values and names are tokens, method and version are never empty.

use vstd::prelude::*;
use crate::http::charset::{
    all_in_class, has_char_at, in_class, is_token, lemma_run_end_bounds, run_end, CharClass,
};
use crate::http::grammar::{
    endpoint_at, header_at, headers_at, method_at, pair_at, pairs_from, past_line_end,
    query_at, request_at, request_line_at, segments_at, segments_from, value_end, value_start,
    version_at,
};

verus! {

/// A part of a text that holds only characters of a class is of that class.
pub proof fn lemma_part_in_class(s: Seq<char>, class: CharClass, from: int, to: int)
    requires
        0 <= from <= to <= s.len(),
        forall|k: int| from <= k < to ==> in_class(class, #[trigger] s[k]),
    ensures
        all_in_class(s.subrange(from, to), class),
{
    let part = s.subrange(from, to);
    assert forall|i: int| 0 <= i < part.len() implies in_class(class, #[trigger] part[i]) by {
        assert(part[i] == s[from + i]);
    }
}

/// A run is of its class.
pub proof fn lemma_run_in_class(s: Seq<char>, class: CharClass, pos: int)
    requires
        0 <= pos <= s.len(),
    ensures
        all_in_class(s.subrange(pos, run_end(s, class, pos)), class),
{
    lemma_run_end_bounds(s, class, pos);
    lemma_part_in_class(s, class, pos, run_end(s, class, pos));
}

/// A method that was recognized is well formed.
pub proof fn lemma_method_well_formed(s: Seq<char>, pos: int)
    requires
        0 <= pos <= s.len(),
    ensures
        method_at(s, pos) matches Ok((_, m)) ==> m.well_formed(),
{
    lemma_run_end_bounds(s, CharClass::Token, pos);
    lemma_run_in_class(s, CharClass::Token, pos);
}

/// Segments that were recognized are tokens: none of them is empty.
pub proof fn lemma_segments_are_tokens(s: Seq<char>, pos: int)
    requires
        0 <= pos <= s.len(),
    ensures
        segments_from(s, pos) matches Ok((end, segments)) ==> pos < end <= s.len() && forall|
            i: int,
        | 0 <= i < segments.len() ==> is_token(#[trigger] segments[i]),
    decreases s.len() - pos,
{
    let end = run_end(s, CharClass::Token, pos);
    lemma_run_end_bounds(s, CharClass::Token, pos);
    lemma_run_in_class(s, CharClass::Token, pos);
    if end != pos && has_char_at(s, end, '/') {
        lemma_segments_are_tokens(s, end + 1);
    }
}

/// A query pair that was recognized has a token as key and a token as value.
pub proof fn lemma_pair_well_formed(s: Seq<char>, pos: int)
    requires
        0 <= pos <= s.len(),
    ensures
        pair_at(s, pos) matches Ok((end, pair)) ==> pair.is_query_pair() && pos < end <= s.len(),
{
    let key_end = run_end(s, CharClass::Token, pos);
    lemma_run_end_bounds(s, CharClass::Token, pos);
    lemma_run_in_class(s, CharClass::Token, pos);
    if has_char_at(s, key_end, '=') {
        lemma_run_end_bounds(s, CharClass::Token, key_end + 1);
        lemma_run_in_class(s, CharClass::Token, key_end + 1);
    }
}

/// Query pairs that were recognized have tokens as keys and values.
pub proof fn lemma_pairs_well_formed(s: Seq<char>, pos: int)
    requires
        0 <= pos <= s.len(),
    ensures
        pairs_from(s, pos) matches Ok((end, pairs)) ==> pos < end <= s.len() && forall|i: int|
            0 <= i < pairs.len() ==> (#[trigger] pairs[i]).is_query_pair(),
    decreases s.len() - pos,
{
    lemma_pair_well_formed(s, pos);
    match pair_at(s, pos) {
        Ok((end, pair)) => {
            if has_char_at(s, end, '&') {
                lemma_pairs_well_formed(s, end + 1);
            }
        },
        Err(_) => {},
    }
}

/// A target that was recognized is well formed, and ends inside the text.
pub proof fn lemma_endpoint_well_formed(s: Seq<char>, pos: int)
    requires
        0 <= pos <= s.len(),
    ensures
        endpoint_at(s, pos) matches Ok((end, e)) ==> e.well_formed() && pos < end <= s.len(),
{
    if has_char_at(s, pos, '/') {
        lemma_segments_are_tokens(s, pos + 1);
        match segments_at(s, pos + 1) {
            Ok((after_path, _)) => {
                if has_char_at(s, after_path, '?') {
                    lemma_pairs_well_formed(s, after_path + 1);
                }
                match query_at(s, after_path) {
                    Ok((after_query, _)) => {
                        if has_char_at(s, after_query, '#') {
                            lemma_run_end_bounds(s, CharClass::Fragment, after_query + 1);
                            lemma_run_in_class(s, CharClass::Fragment, after_query + 1);
                        }
                    },
                    Err(_) => {},
                }
            },
            Err(_) => {},
        }
    }
}

/// A version that was recognized is well formed, and ends inside the text.
pub proof fn lemma_version_well_formed(s: Seq<char>, pos: int)
    requires
        0 <= pos <= s.len(),
    ensures
        version_at(s, pos) matches Ok((end, v)) ==> v.well_formed() && pos < end <= s.len(),
{
    lemma_run_end_bounds(s, CharClass::Alpha, pos);
    lemma_run_in_class(s, CharClass::Alpha, pos);
}

/// A request line that was recognized holds well-formed parts.
pub proof fn lemma_request_line_well_formed(s: Seq<char>, pos: int)
    requires
        0 <= pos <= s.len(),
    ensures
        request_line_at(s, pos) matches Ok((end, line)) ==> {
            &&& line.0.well_formed()
            &&& line.1.well_formed()
            &&& line.2.well_formed()
            &&& pos < end <= s.len()
        },
{
    lemma_method_well_formed(s, pos);
    lemma_run_end_bounds(s, CharClass::Token, pos);
    match method_at(s, pos) {
        Ok((after_method, _)) => {
            if has_char_at(s, after_method, ' ') {
                lemma_endpoint_well_formed(s, after_method + 1);
                match endpoint_at(s, after_method + 1) {
                    Ok((after_target, _)) => {
                        if has_char_at(s, after_target, ' ') {
                            lemma_version_well_formed(s, after_target + 1);
                        }
                    },
                    Err(_) => {},
                }
            }
        },
        Err(_) => {},
    }
}

/// A header that was recognized has a token as name and a value without
/// line feed, and ends inside the text.
pub proof fn lemma_header_well_formed(s: Seq<char>, pos: int)
    requires
        0 <= pos <= s.len(),
    ensures
        header_at(s, pos) matches Ok((end, header)) ==> {
            &&& header.is_header()
            &&& pos < end < s.len()
            &&& end < past_line_end(s, end) <= s.len()
        },
{
    let colon = run_end(s, CharClass::Token, pos);
    lemma_run_end_bounds(s, CharClass::Token, pos);
    lemma_run_in_class(s, CharClass::Token, pos);
    if colon != pos && has_char_at(s, colon, ':') {
        let start = value_start(s, colon);
        let line_feed = run_end(s, CharClass::Line, start);
        lemma_run_end_bounds(s, CharClass::Line, start);
        if line_feed < s.len() {
            lemma_part_in_class(s, CharClass::Line, start, value_end(s, start, line_feed));
        }
    }
}

/// Headers that were recognized have tokens as names and values without
/// line feed.
pub proof fn lemma_headers_well_formed(s: Seq<char>, pos: int)
    requires
        0 <= pos <= s.len(),
    ensures
        headers_at(s, pos) matches Ok((end, headers)) ==> pos <= end <= s.len() && forall|
            i: int,
        | 0 <= i < headers.len() ==> (#[trigger] headers[i]).is_header(),
    decreases s.len() - pos,
{
    lemma_header_well_formed(s, pos);
    match header_at(s, pos) {
        Ok((end, _)) => {
            lemma_headers_well_formed(s, past_line_end(s, end));
        },
        Err(_) => {},
    }
}

/// A request that was recognized is well formed.
pub proof fn lemma_request_well_formed(s: Seq<char>, pos: int)
    requires
        0 <= pos <= s.len(),
    ensures
        request_at(s, pos) matches Ok((_, r)) ==> r.well_formed(),
{
    lemma_request_line_well_formed(s, pos);
    match request_line_at(s, pos) {
        Ok((after_line, _)) => {
            lemma_headers_well_formed(s, after_line);
        },
        Err(_) => {},
    }
}

} // verus!
