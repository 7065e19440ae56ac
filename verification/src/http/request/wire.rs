//! The request as text on the wire: what a parse of it gives back.

use vstd::prelude::*;
use crate::http::request::{Request, RequestView};
use crate::http::text::{append_joined, join};
use crate::http::{
    append_fields, field_texts, EndpointView, Field, FieldView, MethodView, VersionView,
};

verus! {

/// The two characters that end a line on the wire.
pub open spec fn crlf() -> Seq<char> {
    seq!['\r', '\n']
}

/// The query on the wire: nothing where there is no pair, else `?` and the
/// pairs as `key=value` with `&` between them.
pub open spec fn query_text(parameters: Seq<FieldView>) -> Seq<char> {
    if parameters.len() == 0 {
        Seq::empty()
    } else {
        seq!['?'] + join(field_texts(parameters, seq!['=']), seq!['&'])
    }
}

/// The fragment on the wire: nothing where there is none, else `#` and its text.
pub open spec fn fragment_text(fragment: Option<Seq<char>>) -> Seq<char> {
    match fragment {
        Some(f) => seq!['#'] + f,
        None => Seq::empty(),
    }
}

/// The target on the wire: `/`, the segments with `/` between them, the
/// query and the fragment.
pub open spec fn target_text(e: EndpointView) -> Seq<char> {
    seq!['/'] + join(e.segments, seq!['/']) + query_text(e.parameters) + fragment_text(e.fragment)
}

/// The header lines on the wire, each as `name: value` and a line end.
pub open spec fn header_lines(headers: Seq<FieldView>) -> Seq<char>
    decreases headers.len(),
{
    if headers.len() == 0 {
        Seq::empty()
    } else {
        headers[0].text() + crlf() + header_lines(headers.drop_first())
    }
}

/// The request line on the wire: method, space, target, space, version, line end.
pub open spec fn request_line_text(m: MethodView, e: EndpointView, v: VersionView) -> Seq<char> {
    m.text() + seq![' '] + target_text(e) + seq![' '] + v.text() + crlf()
}

/// The request on the wire: request line, header lines, blank line, body.
pub open spec fn wire_text(r: RequestView) -> Seq<char> {
    request_line_text(r.method, r.endpoint, r.version) + header_lines(r.headers) + crlf() + r.body
}

/// Where the body of a request starts in its text on the wire.
pub open spec fn body_offset(r: RequestView) -> int {
    (request_line_text(r.method, r.endpoint, r.version).len() + header_lines(r.headers).len()
        + 2) as int
}

/// One more header adds its line at the end.
pub proof fn lemma_header_lines_push(headers: Seq<FieldView>, header: FieldView)
    ensures
        header_lines(headers.push(header)) == header_lines(headers) + header.text() + crlf(),
    decreases headers.len(),
{
    let more = headers.push(header);
    if headers.len() == 0 {
        let none = more.drop_first();
        assert(none.len() == 0);
        assert(header_lines(none) =~= Seq::<char>::empty());
        assert(header_lines(headers) =~= Seq::<char>::empty());
        assert(more[0] == header);
        assert(header_lines(more) == header.text() + crlf() + header_lines(none));
        assert(header.text() + crlf() + Seq::<char>::empty() =~= Seq::<char>::empty()
            + header.text() + crlf());
    } else {
        let rest = headers.drop_first();
        assert(more.drop_first() =~= rest.push(header));
        lemma_header_lines_push(rest, header);
        assert(more[0] == headers[0]);
        assert(header_lines(more) == headers[0].text() + crlf() + header_lines(
            more.drop_first(),
        ));
        assert(headers[0].text() + crlf() + (header_lines(rest) + header.text() + crlf())
            =~= headers[0].text() + crlf() + header_lines(rest) + header.text() + crlf());
    }
}

/// Appends the header lines to `out`.
pub fn append_header_lines(out: &mut String, headers: &Vec<Field<'_>>)
    ensures
        final(out)@ == old(out)@ + header_lines(headers.deep_view()),
{
    let ghost all = headers.deep_view();
    let ghost start = out@;
    let mut i: usize = 0;
    proof {
        reveal_strlit(": ");
        reveal_strlit("\r\n");
        assert(": "@ =~= seq![':', ' ']);
        assert("\r\n"@ =~= crlf());
        assert(start + header_lines(all.take(0)) =~= start);
    }
    while i < headers.len()
        invariant
            i <= headers.len(),
            all == headers.deep_view(),
            out@ == start + header_lines(all.take(i as int)),
            ": "@ == seq![':', ' '],
            "\r\n"@ == crlf(),
        decreases headers.len() - i,
    {
        let header = headers[i];
        out.append(header.name);
        out.append(": ");
        out.append(header.value);
        out.append("\r\n");
        proof {
            let done = all.take(i as int);
            assert(all.take(i + 1) =~= done.push(header@));
            lemma_header_lines_push(done, header@);
            assert(out@ =~= start + (header_lines(done) + header@.text() + crlf()));
        }
        i = i + 1;
    }
    assert(all.take(i as int) =~= all);
}

impl<'a> Request<'a> {
    /// The request as text on the wire, with lines ended by carriage return
    /// and line feed. Parsing the text of a well-formed request gives the
    /// request back.
    pub fn to_string(&self) -> (text: String)
        ensures
            text@ == wire_text(self@),
    {
        proof {
            reveal_strlit(" ");
            reveal_strlit("/");
            reveal_strlit("?");
            reveal_strlit("=");
            reveal_strlit("&");
            reveal_strlit("#");
            reveal_strlit("\r\n");
            assert(" "@ =~= seq![' ']);
            assert("/"@ =~= seq!['/']);
            assert("?"@ =~= seq!['?']);
            assert("="@ =~= seq!['=']);
            assert("&"@ =~= seq!['&']);
            assert("#"@ =~= seq!['#']);
            assert("\r\n"@ =~= crlf());
        }
        let mut text = String::from_str(self.method.as_str());
        text.append(" ");
        text.append("/");
        append_joined(&mut text, &self.endpoint.segments, "/");
        let ghost path = text@;
        if self.endpoint.parameters.len() > 0 {
            text.append("?");
            append_fields(&mut text, &self.endpoint.parameters, "=", "&");
            assert(text@ =~= path + query_text(self@.endpoint.parameters));
        } else {
            assert(text@ =~= path + query_text(self@.endpoint.parameters));
        }
        let ghost query = text@;
        match self.endpoint.fragment {
            Some(f) => {
                text.append("#");
                text.append(f);
                assert(text@ =~= query + fragment_text(self@.endpoint.fragment));
            },
            None => {
                assert(text@ =~= query + fragment_text(self@.endpoint.fragment));
            },
        }
        assert(text@ =~= self@.method.text() + seq![' '] + target_text(self@.endpoint));
        text.append(" ");
        text.append(self.version.as_str());
        text.append("\r\n");
        append_header_lines(&mut text, &self.headers);
        text.append("\r\n");
        text.append(self.body);
        text
    }
}

} // verus!
