//! Recognizer for HTTP/1.x requests.
//!
//! One pass over the text of a request gives its method, its target (path
//! segments, query pairs, fragment), its protocol version, its header lines
//! in order, and what is left as the body; or the first failure, with the
//! production that was expected and the offset at which it was expected.
//!
//! The choices that the grammar makes, all of them in one place:
//!
//! - A character outside ASCII is a character like any other that is no token
//!   character: it may stand in a fragment, in a header value and in the
//!   body. Offsets count characters, which in ASCII text are bytes.
//! - A token character is an ASCII letter, a digit, `-` or `_`; the dot is
//!   none. Methods, segments, query keys and values and header names are
//!   made of token characters.
//! - A line ends with a line feed, alone or after one carriage return. Text
//!   is written with carriage return and line feed.
//! - A `?` that no pair follows gives an empty query, as no `?` does.
//! - A fragment runs from the `#` to the space or line end that closes the
//!   target, so a `?` or a `/` after the `#` belongs to it. It is never
//!   empty: a `#` that nothing follows is no part of the target.
//! - A header line ends before its line terminator; the header list takes
//!   the terminator after each line.
//! - Nothing is decoded, trimmed, folded or merged.
//!
//! `http::grammar` states the grammar, `http::parser` holds the recognizers
//! on a cursor, `http::request::parser` the entry points on a whole text, and
//! `http::request::laws` what holds of all requests and texts.

pub mod http;
