//! Data model of a request line and its header fields.

use vstd::prelude::*;
use crate::http::charset::{all_in_class, is_token, CharClass};
use crate::http::text::{join, lemma_join_push, push_part};

pub mod charset;
pub mod error;
pub mod grammar;
pub mod invariants;
pub mod parser;
pub mod request;
pub mod text;

verus! {

/// A `name: value` pair, used both for header lines and for query parameters.
/// Both parts are slices of the input that was parsed.
#[derive(Clone, Copy, Debug, PartialEq)]
pub struct Field<'a> {
    pub name: &'a str,
    pub value: &'a str,
}

/// A header line.
pub type Header<'a> = Field<'a>;

/// A `key=value` pair of the query.
pub type RequestParameter<'a> = Field<'a>;

/// Mathematical value of a [`Field`].
pub struct FieldView {
    pub name: Seq<char>,
    pub value: Seq<char>,
}

impl<'a> View for Field<'a> {
    type V = FieldView;

    open spec fn view(&self) -> FieldView {
        FieldView { name: self.name@, value: self.value@ }
    }
}

impl<'a> DeepView for Field<'a> {
    type V = FieldView;

    open spec fn deep_view(&self) -> FieldView {
        self.view()
    }
}

impl FieldView {
    /// Name and value with `mid` between them.
    pub open spec fn joined(self, mid: Seq<char>) -> Seq<char> {
        self.name + mid + self.value
    }

    /// The field as `name: value`.
    pub open spec fn text(self) -> Seq<char> {
        self.joined(seq![':', ' '])
    }

    /// A query pair as the grammar yields it: key and value are tokens.
    pub open spec fn is_query_pair(self) -> bool {
        is_token(self.name) && is_token(self.value)
    }

    /// A header as the grammar yields it: the name is a token and the value
    /// holds no line feed.
    pub open spec fn is_header(self) -> bool {
        is_token(self.name) && all_in_class(self.value, CharClass::Line)
    }
}

/// Each field as name, `mid`, value.
pub open spec fn field_texts(fields: Seq<FieldView>, mid: Seq<char>) -> Seq<Seq<char>> {
    Seq::new(fields.len(), |i: int| fields[i].joined(mid))
}

/// Appends the fields to `out`, each as name, `mid`, value, with `sep`
/// between every two of them.
pub fn append_fields(out: &mut String, fields: &Vec<Field<'_>>, mid: &str, sep: &str)
    ensures
        final(out)@ == old(out)@ + join(field_texts(fields.deep_view(), mid@), sep@),
{
    let ghost all = field_texts(fields.deep_view(), mid@);
    let ghost start = out@;
    let mut i: usize = 0;
    assert(start + join(all.take(0), sep@) =~= start);
    while i < fields.len()
        invariant
            i <= fields.len(),
            all == field_texts(fields.deep_view(), mid@),
            out@ == start + join(all.take(i as int), sep@),
        decreases fields.len() - i,
    {
        let field = fields[i];
        let ghost before = out@;
        push_part(out, i == 0, sep, field.name);
        out.append(mid);
        out.append(field.value);
        proof {
            let done = all.take(i as int);
            let part = field@.joined(mid@);
            assert(all.take(i + 1) =~= done.push(part));
            lemma_join_push(done, sep@, part);
            if i == 0 {
                assert(done =~= Seq::empty());
                assert(out@ =~= start + part);
            } else {
                assert(out@ =~= start + (join(done, sep@) + sep@ + part));
            }
        }
        i = i + 1;
    }
    assert(all.take(i as int) =~= all);
}

/// The request method: one of the nine known keywords, or any other token.
#[derive(Clone, Copy, Debug, PartialEq)]
pub enum Method<'a> {
    GET,
    HEAD,
    POST,
    PUT,
    DELETE,
    CONNECT,
    OPTIONS,
    TRACE,
    PATCH,
    /// A token that is none of the keywords, as it stood in the input.
    OTHER(&'a str),
}

/// Mathematical value of a [`Method`].
pub enum MethodView {
    GET,
    HEAD,
    POST,
    PUT,
    DELETE,
    CONNECT,
    OPTIONS,
    TRACE,
    PATCH,
    OTHER(Seq<char>),
}

impl<'a> View for Method<'a> {
    type V = MethodView;

    open spec fn view(&self) -> MethodView {
        match self {
            Method::GET => MethodView::GET,
            Method::HEAD => MethodView::HEAD,
            Method::POST => MethodView::POST,
            Method::PUT => MethodView::PUT,
            Method::DELETE => MethodView::DELETE,
            Method::CONNECT => MethodView::CONNECT,
            Method::OPTIONS => MethodView::OPTIONS,
            Method::TRACE => MethodView::TRACE,
            Method::PATCH => MethodView::PATCH,
            Method::OTHER(t) => MethodView::OTHER(t@),
        }
    }
}

impl<'a> DeepView for Method<'a> {
    type V = MethodView;

    open spec fn deep_view(&self) -> MethodView {
        self.view()
    }
}

impl MethodView {
    /// The method that a token stands for: the keyword it spells, or the
    /// extension case holding the token itself.
    pub open spec fn of_token(t: Seq<char>) -> MethodView {
        if t == seq!['G', 'E', 'T'] {
            MethodView::GET
        } else if t == seq!['H', 'E', 'A', 'D'] {
            MethodView::HEAD
        } else if t == seq!['P', 'O', 'S', 'T'] {
            MethodView::POST
        } else if t == seq!['P', 'U', 'T'] {
            MethodView::PUT
        } else if t == seq!['D', 'E', 'L', 'E', 'T', 'E'] {
            MethodView::DELETE
        } else if t == seq!['C', 'O', 'N', 'N', 'E', 'C', 'T'] {
            MethodView::CONNECT
        } else if t == seq!['O', 'P', 'T', 'I', 'O', 'N', 'S'] {
            MethodView::OPTIONS
        } else if t == seq!['T', 'R', 'A', 'C', 'E'] {
            MethodView::TRACE
        } else if t == seq!['P', 'A', 'T', 'C', 'H'] {
            MethodView::PATCH
        } else {
            MethodView::OTHER(t)
        }
    }

    /// The token that spells the method.
    pub open spec fn text(self) -> Seq<char> {
        match self {
            MethodView::GET => seq!['G', 'E', 'T'],
            MethodView::HEAD => seq!['H', 'E', 'A', 'D'],
            MethodView::POST => seq!['P', 'O', 'S', 'T'],
            MethodView::PUT => seq!['P', 'U', 'T'],
            MethodView::DELETE => seq!['D', 'E', 'L', 'E', 'T', 'E'],
            MethodView::CONNECT => seq!['C', 'O', 'N', 'N', 'E', 'C', 'T'],
            MethodView::OPTIONS => seq!['O', 'P', 'T', 'I', 'O', 'N', 'S'],
            MethodView::TRACE => seq!['T', 'R', 'A', 'C', 'E'],
            MethodView::PATCH => seq!['P', 'A', 'T', 'C', 'H'],
            MethodView::OTHER(t) => t,
        }
    }

    /// A method as the grammar yields it: the extension case holds a token
    /// that spells no keyword.
    pub open spec fn well_formed(self) -> bool {
        match self {
            MethodView::OTHER(t) => is_token(t) && MethodView::of_token(t) == self,
            _ => true,
        }
    }
}

/// The nine keywords, letter by letter.
pub proof fn lemma_keywords()
    ensures
        "GET"@ == MethodView::GET.text(),
        "HEAD"@ == MethodView::HEAD.text(),
        "POST"@ == MethodView::POST.text(),
        "PUT"@ == MethodView::PUT.text(),
        "DELETE"@ == MethodView::DELETE.text(),
        "CONNECT"@ == MethodView::CONNECT.text(),
        "OPTIONS"@ == MethodView::OPTIONS.text(),
        "TRACE"@ == MethodView::TRACE.text(),
        "PATCH"@ == MethodView::PATCH.text(),
{
    reveal_strlit("GET");
    reveal_strlit("HEAD");
    reveal_strlit("POST");
    reveal_strlit("PUT");
    reveal_strlit("DELETE");
    reveal_strlit("CONNECT");
    reveal_strlit("OPTIONS");
    reveal_strlit("TRACE");
    reveal_strlit("PATCH");
    assert("GET"@ =~= seq!['G', 'E', 'T']);
    assert("HEAD"@ =~= seq!['H', 'E', 'A', 'D']);
    assert("POST"@ =~= seq!['P', 'O', 'S', 'T']);
    assert("PUT"@ =~= seq!['P', 'U', 'T']);
    assert("DELETE"@ =~= seq!['D', 'E', 'L', 'E', 'T', 'E']);
    assert("CONNECT"@ =~= seq!['C', 'O', 'N', 'N', 'E', 'C', 'T']);
    assert("OPTIONS"@ =~= seq!['O', 'P', 'T', 'I', 'O', 'N', 'S']);
    assert("TRACE"@ =~= seq!['T', 'R', 'A', 'C', 'E']);
    assert("PATCH"@ =~= seq!['P', 'A', 'T', 'C', 'H']);
}

/// The protocol version: one of the two known literals, or a run of letters.
#[derive(Clone, Copy, Debug, PartialEq)]
pub enum Version<'a> {
    HTTP1_0,
    HTTP1_1,
    /// A run of letters, as it stood in the input.
    OTHER(&'a str),
}

/// Mathematical value of a [`Version`].
pub enum VersionView {
    HTTP1_0,
    HTTP1_1,
    OTHER(Seq<char>),
}

impl<'a> View for Version<'a> {
    type V = VersionView;

    open spec fn view(&self) -> VersionView {
        match self {
            Version::HTTP1_0 => VersionView::HTTP1_0,
            Version::HTTP1_1 => VersionView::HTTP1_1,
            Version::OTHER(t) => VersionView::OTHER(t@),
        }
    }
}

impl<'a> DeepView for Version<'a> {
    type V = VersionView;

    open spec fn deep_view(&self) -> VersionView {
        self.view()
    }
}

/// The literal `HTTP/1.0`.
pub open spec fn http_1_0() -> Seq<char> {
    seq!['H', 'T', 'T', 'P', '/', '1', '.', '0']
}

/// The literal `HTTP/1.1`.
pub open spec fn http_1_1() -> Seq<char> {
    seq!['H', 'T', 'T', 'P', '/', '1', '.', '1']
}

impl VersionView {
    /// The version as it stands on the request line.
    pub open spec fn text(self) -> Seq<char> {
        match self {
            VersionView::HTTP1_0 => http_1_0(),
            VersionView::HTTP1_1 => http_1_1(),
            VersionView::OTHER(t) => t,
        }
    }

    /// A version as the grammar yields it: the extension case holds a
    /// non-empty run of letters.
    pub open spec fn well_formed(self) -> bool {
        match self {
            VersionView::OTHER(t) => t.len() > 0 && all_in_class(t, CharClass::Alpha),
            _ => true,
        }
    }
}

/// The request target: path segments, query pairs and fragment.
#[derive(Clone, Debug)]
pub struct Endpoint<'a> {
    /// The path components between the slashes; the leading slash is not stored.
    pub segments: Vec<&'a str>,
    /// The query pairs in the order of the input, duplicates included.
    pub parameters: Vec<RequestParameter<'a>>,
    /// The text after `#`, where there is one.
    pub fragment: Option<&'a str>,
}

/// Mathematical value of an [`Endpoint`].
pub struct EndpointView {
    pub segments: Seq<Seq<char>>,
    pub parameters: Seq<FieldView>,
    pub fragment: Option<Seq<char>>,
}

impl<'a> View for Endpoint<'a> {
    type V = EndpointView;

    open spec fn view(&self) -> EndpointView {
        EndpointView {
            segments: self.segments.deep_view(),
            parameters: self.parameters.deep_view(),
            fragment: self.fragment.deep_view(),
        }
    }
}

impl<'a> DeepView for Endpoint<'a> {
    type V = EndpointView;

    open spec fn deep_view(&self) -> EndpointView {
        self.view()
    }
}

impl EndpointView {
    /// A target as the grammar yields it: no segment is empty, every segment,
    /// key and value is a token, and a fragment is never empty and ends
    /// before the space.
    pub open spec fn well_formed(self) -> bool {
        &&& forall|i: int| 0 <= i < self.segments.len() ==> is_token(#[trigger] self.segments[i])
        &&& forall|i: int|
            0 <= i < self.parameters.len() ==> (#[trigger] self.parameters[i]).is_query_pair()
        &&& match self.fragment {
            Some(f) => f.len() > 0 && all_in_class(f, CharClass::Fragment),
            None => true,
        }
    }
}

impl<'a> Field<'a> {
    /// The field as `name: value`.
    pub fn to_string(&self) -> (text: String)
        ensures
            text@ == self@.text(),
    {
        proof {
            reveal_strlit(": ");
            assert(": "@ =~= seq![':', ' ']);
        }
        let mut text = String::from_str(self.name);
        text.append(": ");
        text.append(self.value);
        text
    }
}

impl<'a> Method<'a> {
    /// The token that spells the method.
    pub fn as_str(&self) -> (text: &'a str)
        ensures
            text@ == self@.text(),
    {
        proof {
            lemma_keywords();
        }
        match self {
            Method::GET => "GET",
            Method::HEAD => "HEAD",
            Method::POST => "POST",
            Method::PUT => "PUT",
            Method::DELETE => "DELETE",
            Method::CONNECT => "CONNECT",
            Method::OPTIONS => "OPTIONS",
            Method::TRACE => "TRACE",
            Method::PATCH => "PATCH",
            Method::OTHER(token) => token,
        }
    }

    /// The token that spells the method, as an owned text.
    pub fn to_string(&self) -> (text: String)
        ensures
            text@ == self@.text(),
    {
        String::from_str(self.as_str())
    }
}

impl<'a> Default for Method<'a> {
    /// The extension case with an empty text. No parse yields it.
    fn default() -> (m: Self)
        ensures
            m@ == MethodView::OTHER(Seq::empty()),
    {
        proof {
            reveal_strlit("");
            assert(""@ =~= Seq::<char>::empty());
        }
        Method::OTHER("")
    }
}

impl<'a> Version<'a> {
    /// The version as it stands on the request line.
    pub fn as_str(&self) -> (text: &'a str)
        ensures
            text@ == self@.text(),
    {
        proof {
            reveal_strlit("HTTP/1.0");
            reveal_strlit("HTTP/1.1");
            assert("HTTP/1.0"@ =~= http_1_0());
            assert("HTTP/1.1"@ =~= http_1_1());
        }
        match self {
            Version::HTTP1_0 => "HTTP/1.0",
            Version::HTTP1_1 => "HTTP/1.1",
            Version::OTHER(letters) => letters,
        }
    }

    /// The version as it stands on the request line, as an owned text.
    pub fn to_string(&self) -> (text: String)
        ensures
            text@ == self@.text(),
    {
        String::from_str(self.as_str())
    }
}

impl<'a> Default for Version<'a> {
    /// The extension case with an empty text. No parse yields it.
    fn default() -> (v: Self)
        ensures
            v@ == VersionView::OTHER(Seq::empty()),
    {
        proof {
            reveal_strlit("");
            assert(""@ =~= Seq::<char>::empty());
        }
        Version::OTHER("")
    }
}

impl<'a> Default for Endpoint<'a> {
    /// The target `/`: no segment, no query pair, no fragment.
    fn default() -> (e: Self)
        ensures
            e@ == (EndpointView {
                segments: Seq::empty(),
                parameters: Seq::empty(),
                fragment: None,
            }),
    {
        let e = Endpoint { segments: Vec::new(), parameters: Vec::new(), fragment: None };
        assert(e@.segments =~= Seq::empty());
        assert(e@.parameters =~= Seq::empty());
        e
    }
}

} // verus!
