//! What a request text means: the value that parsing yields, as a function of
//! the text alone.

use crate::httprequest::{Method, Version};
use crate::text::{
    after_first, before_first, lemma_line_occurs, lemma_occurs_in_part, lines, occurs_in, words,
};
use vstd::prelude::*;

verus! {

/// A parsed request as a mathematical value.
pub struct RequestView {
    /// The method of the last request line.
    pub method: Method,
    /// The version of the last request line.
    pub version: Version,
    /// The path of the last request line.
    pub path: Seq<char>,
    /// The value of each header, under its name.
    pub headers: Map<Seq<char>, Seq<char>>,
    /// The last body line.
    pub body: Seq<char>,
}

/// The four things a line can be. Every line is exactly one of them.
pub enum LineKind {
    /// It holds `HTTP` somewhere.
    RequestLine,
    /// It is empty.
    Blank,
    /// It holds a colon.
    Header,
    /// Anything else.
    Body,
}

/// The kind of the line `l`. The tests are made in the order of the variants,
/// and the first that holds decides.
pub open spec fn classify(l: Seq<char>) -> LineKind {
    if occurs_in(l, "HTTP"@) {
        LineKind::RequestLine
    } else if l.len() == 0 {
        LineKind::Blank
    } else if l.contains(':') {
        LineKind::Header
    } else {
        LineKind::Body
    }
}

/// Whether the line `l` has the three words that a request line is read from.
pub open spec fn has_three_words(l: Seq<char>) -> bool {
    words(l).len() >= 3
}

/// The method that the request line `l` names: its first word, decoded.
pub open spec fn method_of(l: Seq<char>) -> Method {
    Method::decode(words(l)[0])
}

/// The path that the request line `l` names: its second word, as it stands.
pub open spec fn path_of(l: Seq<char>) -> Seq<char> {
    words(l)[1]
}

/// The version that the request line `l` names: its third word, decoded.
pub open spec fn version_of(l: Seq<char>) -> Version {
    Version::decode(words(l)[2])
}

/// The name of the header line `l`: what stands before its first colon.
pub open spec fn header_name(l: Seq<char>) -> Seq<char> {
    before_first(l, ':')
}

/// The value of the header line `l`: what stands behind its first colon,
/// later colons included.
pub open spec fn header_value(l: Seq<char>) -> Seq<char> {
    after_first(l, ':')
}

/// The request that no line has been read into.
pub open spec fn blank_request() -> RequestView {
    RequestView {
        method: Method::Uninitialized,
        version: Version::Uninitialized,
        path: Seq::empty(),
        headers: Map::empty(),
        body: Seq::empty(),
    }
}

/// The request `r` after the line `l` has been read into it.
///
/// A request line sets method, path and version, and one with fewer than
/// three words sets them back to what `blank_request` has. A blank line
/// changes nothing. A header line sets the value of its name. A body line
/// becomes the body.
pub open spec fn absorb(r: RequestView, l: Seq<char>) -> RequestView {
    match classify(l) {
        LineKind::RequestLine => if has_three_words(l) {
            RequestView { method: method_of(l), path: path_of(l), version: version_of(l), ..r }
        } else {
            RequestView {
                method: Method::Uninitialized,
                path: Seq::empty(),
                version: Version::Uninitialized,
                ..r
            }
        },
        LineKind::Blank => r,
        LineKind::Header => RequestView {
            headers: r.headers.insert(header_name(l), header_value(l)),
            ..r
        },
        LineKind::Body => RequestView { body: l, ..r },
    }
}

/// The request that the lines `ls` make, read from first to last.
pub open spec fn request_of_lines(ls: Seq<Seq<char>>) -> RequestView
    decreases ls.len(),
{
    if ls.len() == 0 {
        blank_request()
    } else {
        absorb(request_of_lines(ls.drop_last()), ls.last())
    }
}

/// The request that the text `s` makes.
pub open spec fn request_of(s: Seq<char>) -> RequestView {
    request_of_lines(lines(s))
}

/// Whether every request line among `ls` has three words.
pub open spec fn well_formed_lines(ls: Seq<Seq<char>>) -> bool {
    forall|i: int|
        0 <= i < ls.len() && classify(#[trigger] ls[i]) is RequestLine ==> has_three_words(
            ls[i],
        )
}

/// Whether every request line of the text `s` has three words.
pub open spec fn well_formed(s: Seq<char>) -> bool {
    well_formed_lines(lines(s))
}

/// Reading one more line changes a request as `absorb` says.
pub proof fn lemma_one_more_line(ls: Seq<Seq<char>>, l: Seq<char>)
    ensures
        request_of_lines(ls.push(l)) == absorb(request_of_lines(ls), l),
{
    assert(ls.push(l).drop_last() =~= ls);
}

/// The last request line decides method, path and version: whatever stands
/// before it, and whatever lines of other kinds stand behind it.
pub proof fn lemma_last_request_line_wins(ls: Seq<Seq<char>>, j: int)
    requires
        0 <= j < ls.len(),
        classify(ls[j]) is RequestLine,
        forall|k: int| j < k < ls.len() ==> !(classify(#[trigger] ls[k]) is RequestLine),
    ensures
        has_three_words(ls[j]) ==> {
            &&& request_of_lines(ls).method == method_of(ls[j])
            &&& request_of_lines(ls).path == path_of(ls[j])
            &&& request_of_lines(ls).version == version_of(ls[j])
        },
        !has_three_words(ls[j]) ==> {
            &&& request_of_lines(ls).method == Method::Uninitialized
            &&& request_of_lines(ls).path == Seq::<char>::empty()
            &&& request_of_lines(ls).version == Version::Uninitialized
        },
    decreases ls.len(),
{
    if j < ls.len() - 1 {
        assert(!(classify(ls[ls.len() - 1]) is RequestLine));
        lemma_last_request_line_wins(ls.drop_last(), j);
    }
}

/// Without a request line, method, path and version stay as in a blank
/// request.
pub proof fn lemma_no_request_line(ls: Seq<Seq<char>>)
    requires
        forall|k: int| 0 <= k < ls.len() ==> !(classify(#[trigger] ls[k]) is RequestLine),
    ensures
        request_of_lines(ls).method == Method::Uninitialized,
        request_of_lines(ls).path == Seq::<char>::empty(),
        request_of_lines(ls).version == Version::Uninitialized,
    decreases ls.len(),
{
    if ls.len() > 0 {
        assert(!(classify(ls[ls.len() - 1]) is RequestLine));
        lemma_no_request_line(ls.drop_last());
    }
}

/// Of the header lines with one name, the last gives the value: whatever
/// stands before it, and whatever lines without that name stand behind it.
pub proof fn lemma_last_header_line_wins(ls: Seq<Seq<char>>, j: int)
    requires
        0 <= j < ls.len(),
        classify(ls[j]) is Header,
        forall|k: int|
            j < k < ls.len() && classify(#[trigger] ls[k]) is Header ==> header_name(ls[k])
                != header_name(ls[j]),
    ensures
        request_of_lines(ls).headers.contains_key(header_name(ls[j])),
        request_of_lines(ls).headers[header_name(ls[j])] == header_value(ls[j]),
    decreases ls.len(),
{
    if j < ls.len() - 1 {
        let last = ls[ls.len() - 1];
        assert(classify(last) is Header ==> header_name(last) != header_name(ls[j]));
        lemma_last_header_line_wins(ls.drop_last(), j);
    }
}

/// The headers hold one entry for each name that a header line has, and no
/// other.
pub proof fn lemma_header_names(ls: Seq<Seq<char>>, name: Seq<char>)
    ensures
        request_of_lines(ls).headers.contains_key(name) <==> exists|k: int|
            0 <= k < ls.len() && classify(#[trigger] ls[k]) is Header && header_name(ls[k])
                == name,
    decreases ls.len(),
{
    if ls.len() > 0 {
        let before = ls.drop_last();
        let last = ls[ls.len() - 1];
        lemma_header_names(before, name);
        if request_of_lines(ls).headers.contains_key(name) {
            if classify(last) is Header && header_name(last) == name {
            } else {
                let k = choose|k: int|
                    0 <= k < before.len() && classify(#[trigger] before[k]) is Header
                        && header_name(before[k]) == name;
                assert(ls[k] == before[k]);
            }
        }
        if exists|k: int|
            0 <= k < ls.len() && classify(#[trigger] ls[k]) is Header && header_name(ls[k])
                == name {
            let k = choose|k: int|
                0 <= k < ls.len() && classify(#[trigger] ls[k]) is Header && header_name(ls[k])
                    == name;
            if k < ls.len() - 1 {
                assert(before[k] == ls[k]);
            }
        }
    }
}

/// The last body line is the body: whatever stands before it, and whatever
/// lines of other kinds stand behind it.
pub proof fn lemma_last_body_line_wins(ls: Seq<Seq<char>>, j: int)
    requires
        0 <= j < ls.len(),
        classify(ls[j]) is Body,
        forall|k: int| j < k < ls.len() ==> !(classify(#[trigger] ls[k]) is Body),
    ensures
        request_of_lines(ls).body == ls[j],
    decreases ls.len(),
{
    if j < ls.len() - 1 {
        assert(!(classify(ls[ls.len() - 1]) is Body));
        lemma_last_body_line_wins(ls.drop_last(), j);
    }
}

/// Without a body line the body is empty.
pub proof fn lemma_no_body_line(ls: Seq<Seq<char>>)
    requires
        forall|k: int| 0 <= k < ls.len() ==> !(classify(#[trigger] ls[k]) is Body),
    ensures
        request_of_lines(ls).body == Seq::<char>::empty(),
    decreases ls.len(),
{
    if ls.len() > 0 {
        assert(!(classify(ls[ls.len() - 1]) is Body));
        lemma_no_body_line(ls.drop_last());
    }
}

/// A text in which `HTTP` does not occur has no request line, so its request
/// has the method, path and version of a blank request.
pub proof fn lemma_text_without_request_line(s: Seq<char>)
    requires
        !occurs_in(s, "HTTP"@),
    ensures
        request_of(s).method == Method::Uninitialized,
        request_of(s).path == Seq::<char>::empty(),
        request_of(s).version == Version::Uninitialized,
{
    let ls = lines(s);
    assert forall|k: int| 0 <= k < ls.len() implies !(classify(#[trigger] ls[k])
        is RequestLine) by {
        lemma_line_occurs(s, k);
        if occurs_in(ls[k], "HTTP"@) {
            lemma_occurs_in_part(s, ls[k], "HTTP"@);
        }
    }
    lemma_no_request_line(ls);
}

/// Where header lines of a text have one name, the headers hold under that
/// name the value of the last of them, and so of two such lines the later
/// one's.
pub proof fn lemma_later_header_wins(s: Seq<char>, i: int, j: int)
    requires
        0 <= i < j < lines(s).len(),
        classify(lines(s)[i]) is Header,
        classify(lines(s)[j]) is Header,
        header_name(lines(s)[i]) == header_name(lines(s)[j]),
        forall|k: int|
            j < k < lines(s).len() && classify(#[trigger] lines(s)[k]) is Header ==> header_name(
                lines(s)[k],
            ) != header_name(lines(s)[j]),
    ensures
        request_of(s).headers.contains_key(header_name(lines(s)[i])),
        request_of(s).headers[header_name(lines(s)[i])] == header_value(lines(s)[j]),
{
    lemma_last_header_line_wins(lines(s), j);
}

} // verus!
