//! HTTP requests and the parser that reads them from text.

use crate::model::{
    has_three_words, header_name, header_value, lemma_one_more_line, method_of, path_of,
    request_of, request_of_lines, version_of, well_formed, well_formed_lines, RequestView,
};
use crate::text::{
    contains, contains_char, lemma_position_is_first, same_text, split_at_first, split_lines,
    split_words,
};
use vstd::hash_map::StringHashMap;
use vstd::prelude::*;
use vstd::std_specs::cmp::PartialEqSpecImpl;
use vstd::std_specs::convert::FromSpecImpl;
use vstd::string::*;

verus! {

/// The method of a request.
#[derive(Debug, Clone, Copy, PartialEq, Eq, Structural)]
pub enum Method {
    /// The word `GET`.
    GET,
    /// The word `POST`.
    POST,
    /// No request line was read, or its word names no method known here.
    Uninitialized,
}

impl Method {
    /// The method that `token` names. The match is exact: `get` names none.
    pub open spec fn decode(token: Seq<char>) -> Method {
        if token == "GET"@ {
            Method::GET
        } else if token == "POST"@ {
            Method::POST
        } else {
            Method::Uninitialized
        }
    }
}

impl<'a> From<&'a str> for Method {
    /// Decodes the word `s`. A word that names no method is no error: it
    /// gives `Uninitialized`.
    fn from(s: &'a str) -> (m: Method)
        ensures
            m == Method::decode(s@),
    {
        if same_text(s, "GET") {
            Method::GET
        } else if same_text(s, "POST") {
            Method::POST
        } else {
            Method::Uninitialized
        }
    }
}

impl<'a> FromSpecImpl<&'a str> for Method {
    open spec fn obeys_from_spec() -> bool {
        true
    }

    open spec fn from_spec(s: &'a str) -> Method {
        Method::decode(s@)
    }
}

/// The protocol version of a request.
#[derive(Debug, Clone, Copy, PartialEq, Eq, Structural)]
pub enum Version {
    /// The word `HTTP/1.1`.
    V1_1,
    /// The word `HTTP/2.0`.
    V2_0,
    /// No request line was read, or its word names no version known here.
    Uninitialized,
}

impl Version {
    /// The version that `token` names. The match is exact.
    pub open spec fn decode(token: Seq<char>) -> Version {
        if token == "HTTP/1.1"@ {
            Version::V1_1
        } else if token == "HTTP/2.0"@ {
            Version::V2_0
        } else {
            Version::Uninitialized
        }
    }
}

impl<'a> From<&'a str> for Version {
    /// Decodes the word `v`. A word that names no version is no error: it
    /// gives `Uninitialized`.
    fn from(v: &'a str) -> (version: Version)
        ensures
            version == Version::decode(v@),
    {
        if same_text(v, "HTTP/1.1") {
            Version::V1_1
        } else if same_text(v, "HTTP/2.0") {
            Version::V2_0
        } else {
            Version::Uninitialized
        }
    }
}

impl<'a> FromSpecImpl<&'a str> for Version {
    open spec fn obeys_from_spec() -> bool {
        true
    }

    open spec fn from_spec(v: &'a str) -> Version {
        Version::decode(v@)
    }
}

/// What a request asks for.
#[derive(Debug)]
pub enum Resource {
    /// A path, as it stood in the request line: nothing in it is decoded.
    Path(String),
}

impl View for Resource {
    type V = Seq<char>;

    /// The chars of the path.
    open spec fn view(&self) -> Seq<char> {
        match self {
            Resource::Path(path) => path@,
        }
    }
}

impl PartialEq for Resource {
    fn eq(&self, other: &Resource) -> (eq: bool) {
        match (self, other) {
            (Resource::Path(a), Resource::Path(b)) => *a == *b,
        }
    }
}

impl PartialEqSpecImpl for Resource {
    open spec fn obeys_eq_spec() -> bool {
        true
    }

    /// Two resources are equal where their paths hold the same chars.
    open spec fn eq_spec(&self, other: &Resource) -> bool {
        self@ == other@
    }
}

/// Why a text is not a request.
#[derive(Debug, Clone, Copy, PartialEq, Eq, Structural)]
pub enum ParseError {
    /// A request line has fewer than three words.
    MalformedRequestLine,
}

/// Reads method, resource and version from the request line `line`: its first
/// three words, in this order. Words behind the third are passed over.
pub fn process_req_line(line: &str) -> (fields: Result<(Method, Resource, Version), ParseError>)
    ensures
        match fields {
            Ok((method, resource, version)) => {
                &&& has_three_words(line@)
                &&& method == method_of(line@)
                &&& resource@ == path_of(line@)
                &&& version == version_of(line@)
            },
            Err(error) => !has_three_words(line@) && error == ParseError::MalformedRequestLine,
        },
{
    let words = split_words(line);
    if words.len() < 3 {
        return Err(ParseError::MalformedRequestLine);
    }
    assert(words[0]@ == words.deep_view()[0]);
    assert(words[1]@ == words.deep_view()[1]);
    assert(words[2]@ == words.deep_view()[2]);
    let method = Method::from(words[0]);
    let resource = Resource::Path(words[1].to_owned());
    let version = Version::from(words[2]);
    Ok((method, resource, version))
}

/// Reads name and value from the header line `line`: what stands before its
/// first colon and what stands behind it. Neither is trimmed, and the value
/// keeps every later colon. A line without a colon is all name.
pub fn process_header_line(line: &str) -> (header: (String, String))
    ensures
        header.0@ == header_name(line@),
        header.1@ == header_value(line@),
{
    match split_at_first(line, ':') {
        Some((name, value)) => (name.to_owned(), value.to_owned()),
        None => {
            proof {
                lemma_position_is_first(line@, ':');
                assert(line@.take(line@.len() as int) =~= line@);
            }
            (line.to_owned(), String::new())
        },
    }
}

/// The header values of `headers` as chars, under their names.
pub open spec fn header_views(headers: Map<Seq<char>, String>) -> Map<Seq<char>, Seq<char>> {
    headers.map_values(|value: String| value@)
}

/// A request, as read from its text.
pub struct HttpRequest {
    pub method: Method,
    pub version: Version,
    pub resource: Resource,
    /// The value of each header, under its name. Of two header lines with one
    /// name, the later gives the value.
    pub headers: StringHashMap<String>,
    /// The last line that was neither request line nor header nor empty.
    pub msg_body: String,
}

impl View for HttpRequest {
    type V = RequestView;

    open spec fn view(&self) -> RequestView {
        RequestView {
            method: self.method,
            version: self.version,
            path: self.resource@,
            headers: header_views(self.headers@),
            body: self.msg_body@,
        }
    }
}

impl HttpRequest {
    /// Reads `lines` from first to last into one request, and tells whether
    /// every request line among them had its three words.
    fn read_lines(lines: &Vec<&str>) -> (read: (HttpRequest, bool))
        ensures
            read.0@ == request_of_lines(lines.deep_view()),
            read.1 == well_formed_lines(lines.deep_view()),
    {
        let mut parsed_method = Method::Uninitialized;
        let mut parsed_resource = Resource::Path(String::new());
        let mut parsed_version = Version::Uninitialized;
        let mut parsed_headers: StringHashMap<String> = StringHashMap::new();
        let mut parsed_msg_body = String::new();
        let mut intact = true;
        let ghost all = lines.deep_view();
        let mut i: usize = 0;
        assert(header_views(parsed_headers@) =~= Map::empty());
        while i < lines.len()
            invariant
                i <= lines.len(),
                all == lines.deep_view(),
                parsed_method == request_of_lines(all.take(i as int)).method,
                parsed_resource@ == request_of_lines(all.take(i as int)).path,
                parsed_version == request_of_lines(all.take(i as int)).version,
                header_views(parsed_headers@) == request_of_lines(all.take(i as int)).headers,
                parsed_msg_body@ == request_of_lines(all.take(i as int)).body,
                intact == well_formed_lines(all.take(i as int)),
            decreases lines.len() - i,
        {
            let line = lines[i];
            let ghost before = all.take(i as int);
            let ghost headers_before = parsed_headers@;
            proof {
                assert(all.take(i + 1) =~= before.push(line@));
                lemma_one_more_line(before, line@);
                assert(forall|k: int| 0 <= k < i ==> before.push(line@)[k] == before[k]);
            }
            if contains(line, "HTTP") {
                match process_req_line(line) {
                    Ok((method, resource, version)) => {
                        parsed_method = method;
                        parsed_resource = resource;
                        parsed_version = version;
                    },
                    Err(_) => {
                        parsed_method = Method::Uninitialized;
                        parsed_resource = Resource::Path(String::new());
                        parsed_version = Version::Uninitialized;
                        intact = false;
                    },
                }
            } else if line.is_empty() {
            } else if contains_char(line, ':') {
                let (name, value) = process_header_line(line);
                parsed_headers.insert(name, value);
                assert(header_views(parsed_headers@) =~= header_views(headers_before).insert(
                    name@,
                    value@,
                ));
            } else {
                parsed_msg_body = line.to_owned();
            }
            i += 1;
        }
        assert(all.take(i as int) =~= all);
        let request = HttpRequest {
            method: parsed_method,
            version: parsed_version,
            resource: parsed_resource,
            headers: parsed_headers,
            msg_body: parsed_msg_body,
        };
        (request, intact)
    }

    /// Reads a request from its text. Every text gives a request: what the
    /// text does not say stays as in a blank request, and a request line with
    /// fewer than three words sets method, resource and version back to that.
    pub fn parse(req: &str) -> (request: HttpRequest)
        ensures
            request@ == request_of(req@),
    {
        let lines = split_lines(req);
        let (request, _) = HttpRequest::read_lines(&lines);
        request
    }

    /// Reads a request from its text, and refuses a text in which a request
    /// line has fewer than three words.
    pub fn try_parse(req: &str) -> (parsed: Result<HttpRequest, ParseError>)
        ensures
            match parsed {
                Ok(request) => well_formed(req@) && request@ == request_of(req@),
                Err(error) => !well_formed(req@) && error == ParseError::MalformedRequestLine,
            },
    {
        let lines = split_lines(req);
        let (request, intact) = HttpRequest::read_lines(&lines);
        if intact {
            Ok(request)
        } else {
            Err(ParseError::MalformedRequestLine)
        }
    }
}

impl From<String> for HttpRequest {
    /// Reads a request from its text, as `HttpRequest::parse` does.
    fn from(req: String) -> (request: HttpRequest)
        ensures
            request@ == request_of(req@),
    {
        HttpRequest::parse(req.as_str())
    }
}

impl FromSpecImpl<String> for HttpRequest {
    /// A request owns strings and a hash map, and two of those with the same
    /// contents need not be the same value. So `from` is held to its own
    /// `ensures`, which speaks of the view, and not to `from_spec`.
    open spec fn obeys_from_spec() -> bool {
        false
    }

    /// Some request whose view is what the text makes.
    open spec fn from_spec(req: String) -> HttpRequest {
        choose|request: HttpRequest| request@ == request_of(req@)
    }
}

/// Parsing is a function of the text: two calls of `parse` on texts of the
/// same chars give requests with the same view.
pub proof fn lemma_parse_twice(a: &str, b: &str, first: HttpRequest, second: HttpRequest)
    requires
        a@ == b@,
        call_ensures(HttpRequest::parse, (a,), first),
        call_ensures(HttpRequest::parse, (b,), second),
    ensures
        first@ == second@,
{
}

/// Two conversions of texts of the same chars give requests with the same
/// view.
pub proof fn lemma_convert_twice(a: String, b: String, first: HttpRequest, second: HttpRequest)
    requires
        a@ == b@,
        call_ensures(<HttpRequest as From<String>>::from, (a,), first),
        call_ensures(<HttpRequest as From<String>>::from, (b,), second),
    ensures
        first@ == second@,
{
}

} // verus!
