//! Parsing gives back what was written: for each production, the text of a
//! well-formed value that stands at a position is recognized as that value.

use vstd::prelude::*;
use crate::http::charset::{
    all_in_class, has_char_at, has_text_at, in_class, is_alpha_char, is_token, is_token_char,
    lemma_run_end_is, lemma_run_over_text, lemma_text_char, lemma_text_split, CharClass,
};
use crate::http::error::found;
use crate::http::grammar::{
    endpoint_at, fragment_at, header_at, headers_at, line_end_at, method_at, pair_at,
    pairs_from, past_line_end, query_at, request_line_at, segments_at, segments_from,
    version_at,
};
use crate::http::request::wire::{
    crlf, fragment_text, header_lines, query_text, request_line_text, target_text,
};
use crate::http::text::join;
use crate::http::{
    field_texts, http_1_0, http_1_1, EndpointView, FieldView, MethodView, VersionView,
};

verus! {

/// The text of a well-formed method is a token, and the token stands for the
/// method.
pub proof fn lemma_method_text(m: MethodView)
    requires
        m.well_formed(),
    ensures
        is_token(m.text()),
        MethodView::of_token(m.text()) == m,
{
    let t = m.text();
    match m {
        MethodView::OTHER(_) => {},
        MethodView::GET => {
            assert(t.len() == 3 && t[0] == 'G');
        },
        MethodView::HEAD => {
            assert(t.len() == 4 && t[0] == 'H');
        },
        MethodView::POST => {
            assert(t.len() == 4 && t[0] == 'P');
        },
        MethodView::PUT => {
            assert(t.len() == 3 && t[0] == 'P');
        },
        MethodView::DELETE => {
            assert(t.len() == 6 && t[0] == 'D');
        },
        MethodView::CONNECT => {
            assert(t.len() == 7 && t[0] == 'C');
        },
        MethodView::OPTIONS => {
            assert(t.len() == 7 && t[0] == 'O');
        },
        MethodView::TRACE => {
            assert(t.len() == 5 && t[0] == 'T');
        },
        MethodView::PATCH => {
            assert(t.len() == 5 && t[0] == 'P');
        },
    }
}

/// The text of a method, followed by no token character, is recognized as
/// the method.
pub proof fn lemma_method_recovered(s: Seq<char>, pos: int, m: MethodView)
    requires
        m.well_formed(),
        has_text_at(s, pos, m.text()),
        pos + m.text().len() < s.len() ==> !is_token_char(s[pos + m.text().len()]),
    ensures
        method_at(s, pos) == found(pos + m.text().len(), m),
{
    lemma_method_text(m);
    lemma_run_over_text(s, CharClass::Token, pos, m.text());
}

/// The segments of a path, written with `/` between them and followed by
/// neither a token character nor a `/`, are recognized one by one.
pub proof fn lemma_segments_recovered(s: Seq<char>, pos: int, segments: Seq<Seq<char>>)
    requires
        segments.len() > 0,
        forall|i: int| 0 <= i < segments.len() ==> is_token(#[trigger] segments[i]),
        has_text_at(s, pos, join(segments, seq!['/'])),
        pos + join(segments, seq!['/']).len() < s.len() ==> {
            let c = s[pos + join(segments, seq!['/']).len()];
            !is_token_char(c) && c != '/'
        },
    ensures
        segments_from(s, pos) == found(pos + join(segments, seq!['/']).len(), segments),
    decreases segments.len(),
{
    let slash = seq!['/'];
    let first = segments[0];
    assert(is_token(first));
    if segments.len() == 1 {
        lemma_run_over_text(s, CharClass::Token, pos, first);
        assert(seq![first] =~= segments);
    } else {
        let rest = segments.drop_first();
        assert(forall|i: int| 0 <= i < rest.len() ==> is_token(#[trigger] rest[i])) by {
            assert(forall|i: int| 0 <= i < rest.len() ==> rest[i] == segments[i + 1]);
        }
        assert(join(segments, slash) == first + slash + join(rest, slash));
        lemma_text_split(s, pos, first + slash, join(rest, slash));
        lemma_text_split(s, pos, first, slash);
        lemma_text_char(s, pos + first.len(), slash, 0);
        lemma_run_over_text(s, CharClass::Token, pos, first);
        lemma_segments_recovered(s, pos + first.len() + 1, rest);
        assert(seq![first] + rest =~= segments);
    }
}

/// The path after the leading `/`: the segments written with `/` between
/// them, followed by neither a token character nor a `/`, are recognized.
pub proof fn lemma_path_recovered(s: Seq<char>, pos: int, segments: Seq<Seq<char>>)
    requires
        0 <= pos,
        forall|i: int| 0 <= i < segments.len() ==> is_token(#[trigger] segments[i]),
        has_text_at(s, pos, join(segments, seq!['/'])),
        pos + join(segments, seq!['/']).len() < s.len() ==> {
            let c = s[pos + join(segments, seq!['/']).len()];
            !is_token_char(c) && c != '/'
        },
    ensures
        segments_at(s, pos) == found(pos + join(segments, seq!['/']).len(), segments),
{
    let slash = seq!['/'];
    if segments.len() == 0 {
        assert(join(segments, slash) =~= Seq::<char>::empty());
        assert(segments =~= Seq::empty());
    } else {
        let first = segments[0];
        assert(is_token(first));
        if segments.len() == 1 {
            lemma_text_char(s, pos, first, 0);
        } else {
            assert(join(segments, slash) == first + slash + join(segments.drop_first(), slash));
            lemma_text_split(s, pos, first + slash, join(segments.drop_first(), slash));
            lemma_text_split(s, pos, first, slash);
            lemma_text_char(s, pos, first, 0);
        }
        lemma_segments_recovered(s, pos, segments);
    }
}

/// A query pair written as `key=value`, followed by no token character, is
/// recognized.
pub proof fn lemma_pair_recovered(s: Seq<char>, pos: int, pair: FieldView)
    requires
        pair.is_query_pair(),
        has_text_at(s, pos, pair.joined(seq!['='])),
        pos + pair.joined(seq!['=']).len() < s.len() ==> !is_token_char(
            s[pos + pair.joined(seq!['=']).len()],
        ),
    ensures
        pair_at(s, pos) == found(pos + pair.joined(seq!['=']).len(), pair),
{
    let eq = seq!['='];
    lemma_text_split(s, pos, pair.name + eq, pair.value);
    lemma_text_split(s, pos, pair.name, eq);
    lemma_text_char(s, pos + pair.name.len(), eq, 0);
    lemma_run_over_text(s, CharClass::Token, pos, pair.name);
    lemma_run_over_text(s, CharClass::Token, pos + pair.name.len() + 1, pair.value);
}

/// Query pairs written with `&` between them, followed by neither a token
/// character nor a `&`, are recognized one by one.
pub proof fn lemma_pairs_recovered(s: Seq<char>, pos: int, pairs: Seq<FieldView>)
    requires
        pairs.len() > 0,
        forall|i: int| 0 <= i < pairs.len() ==> (#[trigger] pairs[i]).is_query_pair(),
        has_text_at(s, pos, join(field_texts(pairs, seq!['=']), seq!['&'])),
        pos + join(field_texts(pairs, seq!['=']), seq!['&']).len() < s.len() ==> {
            let c = s[pos + join(field_texts(pairs, seq!['=']), seq!['&']).len()];
            !is_token_char(c) && c != '&'
        },
    ensures
        pairs_from(s, pos) == found(
            pos + join(field_texts(pairs, seq!['=']), seq!['&']).len(),
            pairs,
        ),
    decreases pairs.len(),
{
    let eq = seq!['='];
    let amp = seq!['&'];
    let texts = field_texts(pairs, eq);
    let first = pairs[0];
    assert(first.is_query_pair());
    assert(texts[0] == first.joined(eq));
    if pairs.len() == 1 {
        lemma_pair_recovered(s, pos, first);
        assert(seq![first] =~= pairs);
    } else {
        let rest = pairs.drop_first();
        assert(texts.drop_first() =~= field_texts(rest, eq));
        assert(forall|i: int| 0 <= i < rest.len() ==> (#[trigger] rest[i]).is_query_pair()) by {
            assert(forall|i: int| 0 <= i < rest.len() ==> rest[i] == pairs[i + 1]);
        }
        assert(join(texts, amp) == texts[0] + amp + join(texts.drop_first(), amp));
        lemma_text_split(s, pos, texts[0] + amp, join(field_texts(rest, eq), amp));
        lemma_text_split(s, pos, texts[0], amp);
        lemma_text_char(s, pos + texts[0].len(), amp, 0);
        lemma_pair_recovered(s, pos, first);
        lemma_pairs_recovered(s, pos + texts[0].len() + 1, rest);
        assert(seq![first] + rest =~= pairs);
    }
}

/// The query as it is written, followed by none of a token character, `&`
/// and `?`, is recognized.
pub proof fn lemma_query_recovered(s: Seq<char>, pos: int, pairs: Seq<FieldView>)
    requires
        0 <= pos,
        forall|i: int| 0 <= i < pairs.len() ==> (#[trigger] pairs[i]).is_query_pair(),
        has_text_at(s, pos, query_text(pairs)),
        pos + query_text(pairs).len() < s.len() ==> {
            let c = s[pos + query_text(pairs).len()];
            !is_token_char(c) && c != '&' && c != '?'
        },
    ensures
        query_at(s, pos) == found(pos + query_text(pairs).len(), pairs),
{
    let eq = seq!['='];
    let amp = seq!['&'];
    if pairs.len() == 0 {
        assert(pairs =~= Seq::empty());
    } else {
        let texts = field_texts(pairs, eq);
        let first = pairs[0];
        assert(first.is_query_pair());
        assert(texts[0] == first.joined(eq));
        lemma_text_split(s, pos, seq!['?'], join(texts, amp));
        lemma_text_char(s, pos, seq!['?'], 0);
        assert(first.name + (eq + first.value) =~= texts[0]);
        if pairs.len() == 1 {
            assert(join(texts, amp) == texts[0]);
        } else {
            assert(join(texts, amp) == texts[0] + amp + join(texts.drop_first(), amp));
            lemma_text_split(s, pos + 1, texts[0] + amp, join(texts.drop_first(), amp));
            lemma_text_split(s, pos + 1, texts[0], amp);
        }
        lemma_text_split(s, pos + 1, first.name, eq + first.value);
        lemma_text_char(s, pos + 1, first.name, 0);
        lemma_pairs_recovered(s, pos + 1, pairs);
    }
}

/// The fragment as it is written, followed by a space, is recognized.
pub proof fn lemma_fragment_recovered(s: Seq<char>, pos: int, fragment: Option<Seq<char>>)
    requires
        fragment matches Some(f) ==> f.len() > 0 && all_in_class(f, CharClass::Fragment),
        has_text_at(s, pos, fragment_text(fragment)),
        has_char_at(s, pos + fragment_text(fragment).len(), ' '),
    ensures
        fragment_at(s, pos) == (pos + fragment_text(fragment).len(), fragment),
{
    match fragment {
        Some(f) => {
            lemma_text_split(s, pos, seq!['#'], f);
            lemma_text_char(s, pos, seq!['#'], 0);
            lemma_run_over_text(s, CharClass::Fragment, pos + 1, f);
        },
        None => {},
    }
}

/// The target as it is written, followed by a space, is recognized.
pub proof fn lemma_endpoint_recovered(s: Seq<char>, pos: int, e: EndpointView)
    requires
        e.well_formed(),
        has_text_at(s, pos, target_text(e)),
        has_char_at(s, pos + target_text(e).len(), ' '),
    ensures
        endpoint_at(s, pos) == found(pos + target_text(e).len(), e),
{
    let root = seq!['/'];
    let path = join(e.segments, seq!['/']);
    let query = query_text(e.parameters);
    let fragment = fragment_text(e.fragment);
    let at_query = pos + 1 + path.len();
    let at_fragment = at_query + query.len();
    lemma_text_split(s, pos, root + path + query, fragment);
    lemma_text_split(s, pos, root + path, query);
    lemma_text_split(s, pos, root, path);
    lemma_text_char(s, pos, root, 0);
    if fragment.len() > 0 {
        lemma_text_char(s, at_fragment, fragment, 0);
        assert(s[at_fragment] == '#');
    } else {
        assert(s[at_fragment] == ' ');
    }
    if query.len() > 0 {
        lemma_text_char(s, at_query, query, 0);
        assert(s[at_query] == '?');
    } else {
        assert(at_query == at_fragment);
    }
    lemma_path_recovered(s, pos + 1, e.segments);
    lemma_query_recovered(s, at_query, e.parameters);
    lemma_fragment_recovered(s, at_fragment, e.fragment);
}

/// The version as it is written, followed by a carriage return, is recognized.
pub proof fn lemma_version_recovered(s: Seq<char>, pos: int, v: VersionView)
    requires
        v.well_formed(),
        has_text_at(s, pos, v.text()),
        has_char_at(s, pos + v.text().len(), '\r'),
    ensures
        version_at(s, pos) == found(pos + v.text().len(), v),
{
    match v {
        VersionView::HTTP1_0 => {},
        VersionView::HTTP1_1 => {
            lemma_text_char(s, pos, http_1_1(), 7);
            if has_text_at(s, pos, http_1_0()) {
                lemma_text_char(s, pos, http_1_0(), 7);
            }
        },
        VersionView::OTHER(t) => {
            let k: int = if t.len() > 4 {
                4
            } else {
                t.len() as int
            };
            if t.len() > 4 {
                lemma_text_char(s, pos, t, 4);
                assert(is_alpha_char(t[4]));
            }
            if has_text_at(s, pos, http_1_0()) {
                lemma_text_char(s, pos, http_1_0(), k);
            }
            if has_text_at(s, pos, http_1_1()) {
                lemma_text_char(s, pos, http_1_1(), k);
            }
            lemma_run_over_text(s, CharClass::Alpha, pos, t);
        },
    }
}

/// A header line as it is written is recognized up to its line end, with
/// its value as it stands.
pub proof fn lemma_header_recovered(s: Seq<char>, pos: int, header: FieldView)
    requires
        header.is_header(),
        has_text_at(s, pos, header.text() + crlf()),
    ensures
        header_at(s, pos) == found(pos + header.text().len(), header),
        past_line_end(s, pos + header.text().len()) == pos + header.text().len() + 2,
{
    let mid = seq![':', ' '];
    let start = pos + header.name.len() + 2;
    let line_feed = start + header.value.len() + 1;
    lemma_text_split(s, pos, header.text(), crlf());
    lemma_text_split(s, pos, header.name + mid, header.value);
    lemma_text_split(s, pos, header.name, mid);
    lemma_text_char(s, pos + header.name.len(), mid, 0);
    lemma_text_char(s, pos + header.name.len(), mid, 1);
    lemma_text_char(s, line_feed - 1, crlf(), 0);
    lemma_text_char(s, line_feed - 1, crlf(), 1);
    lemma_run_over_text(s, CharClass::Token, pos, header.name);
    assert forall|k: int| start <= k < line_feed implies in_class(
        CharClass::Line,
        #[trigger] s[k],
    ) by {
        if k < line_feed - 1 {
            lemma_text_char(s, start, header.value, k - start);
        }
    }
    lemma_run_end_is(s, CharClass::Line, start, line_feed);
}

/// Header lines as they are written, followed by no token character, are
/// recognized one by one.
pub proof fn lemma_headers_recovered(s: Seq<char>, pos: int, headers: Seq<FieldView>)
    requires
        0 <= pos,
        forall|i: int| 0 <= i < headers.len() ==> (#[trigger] headers[i]).is_header(),
        has_text_at(s, pos, header_lines(headers)),
        pos + header_lines(headers).len() < s.len() ==> !is_token_char(
            s[pos + header_lines(headers).len()],
        ),
    ensures
        headers_at(s, pos) == found(pos + header_lines(headers).len(), headers),
    decreases headers.len(),
{
    if headers.len() == 0 {
        assert(headers =~= Seq::empty());
    } else {
        let first = headers[0];
        let rest = headers.drop_first();
        assert(first.is_header());
        assert(forall|i: int| 0 <= i < rest.len() ==> (#[trigger] rest[i]).is_header()) by {
            assert(forall|i: int| 0 <= i < rest.len() ==> rest[i] == headers[i + 1]);
        }
        lemma_text_split(s, pos, first.text() + crlf(), header_lines(rest));
        lemma_text_split(s, pos, first.text(), crlf());
        lemma_text_split(s, pos, first.name + seq![':', ' '], first.value);
        lemma_text_split(s, pos, first.name, seq![':', ' ']);
        lemma_text_char(s, pos, first.name, 0);
        lemma_header_recovered(s, pos, first);
        lemma_headers_recovered(s, pos + first.text().len() + 2, rest);
        assert(seq![first] + rest =~= headers);
    }
}

/// The request line as it is written is recognized.
pub proof fn lemma_request_line_recovered(
    s: Seq<char>,
    pos: int,
    m: MethodView,
    e: EndpointView,
    v: VersionView,
)
    requires
        m.well_formed(),
        e.well_formed(),
        v.well_formed(),
        has_text_at(s, pos, request_line_text(m, e, v)),
    ensures
        request_line_at(s, pos) == found(pos + request_line_text(m, e, v).len(), (m, e, v)),
{
    let sp = seq![' '];
    let a1 = m.text() + sp;
    let a2 = a1 + target_text(e);
    let a3 = a2 + sp;
    let a4 = a3 + v.text();
    let after_method = pos + m.text().len();
    let after_target = pos + a2.len();
    let after_version = pos + a4.len();
    lemma_text_split(s, pos, a4, crlf());
    lemma_text_split(s, pos, a3, v.text());
    lemma_text_split(s, pos, a2, sp);
    lemma_text_split(s, pos, a1, target_text(e));
    lemma_text_split(s, pos, m.text(), sp);
    lemma_text_char(s, after_method, sp, 0);
    lemma_text_char(s, after_target, sp, 0);
    lemma_text_char(s, after_version, crlf(), 0);
    lemma_text_char(s, after_version, crlf(), 1);
    assert(method_at(s, pos) == found(after_method, m)) by {
        lemma_method_recovered(s, pos, m);
    }
    assert(endpoint_at(s, after_method + 1) == found(after_target, e)) by {
        lemma_endpoint_recovered(s, after_method + 1, e);
    }
    assert(version_at(s, after_target + 1) == found(after_version, v)) by {
        lemma_version_recovered(s, after_target + 1, v);
    }
    assert(line_end_at(s, after_version) == Some(after_version + 2));
}

} // verus!
