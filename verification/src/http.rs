//! Plain requests on the port that serves a UTXO.
//!
//! A connection that asks for a WebSocket is served as such. Any other request is
//! answered here: the root with the text of the interface, the rest with an error.

use vstd::prelude::*;
use vstd::utf8::encode_utf8;

use crate::text::{
    before_first, cut_before, cuts_are_at_the_first, decimal, decimal_of, same_text,
};

verus! {

/// The head of a request, as far as it could be read.
#[derive(Debug, PartialEq, Eq)]
pub struct Head {
    pub method: Option<String>,
    pub path: Option<String>,
    pub headers: Vec<(String, Vec<u8>)>,
}

/// The view of a [`Head`].
pub struct HeadV {
    pub method: Option<Seq<char>>,
    pub path: Option<Seq<char>>,
    pub headers: Seq<(Seq<char>, Seq<u8>)>,
}

pub open spec fn optional_text(s: Option<String>) -> Option<Seq<char>> {
    match s {
        Some(s) => Some(s@),
        None => None,
    }
}

impl View for Head {
    type V = HeadV;

    open spec fn view(&self) -> HeadV {
        HeadV {
            method: optional_text(self.method),
            path: optional_text(self.path),
            headers: Seq::new(
                self.headers@.len(),
                |i: int| (self.headers@[i].0@, self.headers@[i].1@),
            ),
        }
    }
}

/// What `httparse` finds in the bytes of a request, with room for 64 headers.
pub uninterp spec fn request_head(bytes: Seq<u8>) -> HeadV;

/// `httparse::Request::parse`: the method, the path and the headers of a request.
/// Where the bytes end early, or are no request, what was found by then stands.
#[verifier::external_body]
fn parse_head(bytes: &[u8]) -> (r: Head)
    ensures
        r@ == request_head(bytes@),
{
    let mut headers = [httparse::EMPTY_HEADER; 64];
    let mut req = httparse::Request::new(&mut headers);
    let _ = req.parse(bytes);
    Head {
        method: req.method.map(|s| s.to_string()),
        path: req.path.map(|s| s.to_string()),
        headers: req.headers.iter().map(|h| (h.name.to_string(), h.value.to_vec())).collect(),
    }
}

/// An ASCII byte in lower case.
pub open spec fn lower(b: u8) -> u8 {
    if 65 <= b <= 90 {
        (b + 32) as u8
    } else {
        b
    }
}

/// Bytes in lower case.
pub open spec fn lowered(s: Seq<u8>) -> Seq<u8> {
    Seq::new(s.len(), |i: int| lower(s[i]))
}

/// Whether a byte separates the words of a header's value.
pub open spec fn separates(b: u8) -> bool {
    b == 44 || b == 32
}

/// Whether a word stands from `i` up to `j`.
pub open spec fn is_word(s: Seq<u8>, i: int, j: int) -> bool {
    &&& 0 <= i <= j <= s.len()
    &&& i == 0 || separates(s[i - 1])
    &&& j == s.len() || separates(s[j])
    &&& forall|k: int| i <= k < j ==> !separates(#[trigger] s[k])
}

/// Whether `word` is one of the words of `s`, in whatever case.
pub open spec fn has_word(s: Seq<u8>, word: Seq<u8>) -> bool {
    exists|i: int, j: int| #[trigger]
        is_word(s, i, j) && lowered(s.subrange(i, j)) == lowered(word)
}

/// Whether a header asks for a WebSocket.
pub open spec fn asks_upgrade(header: (Seq<char>, Seq<u8>)) -> bool {
    &&& lowered(encode_utf8(header.0)) == lowered(encode_utf8("upgrade"@))
    &&& has_word(header.1, encode_utf8("websocket"@))
}

/// What a connection turned out to be.
#[derive(Debug, PartialEq, Eq)]
pub enum Peeked {
    /// A WebSocket upgrade.
    WebSocket,
    /// A plain request, with its method and its path.
    Http { method: String, path: String },
}

/// The view of a [`Peeked`].
pub enum PeekedV {
    WebSocket,
    Http { method: Seq<char>, path: Seq<char> },
}

impl View for Peeked {
    type V = PeekedV;

    open spec fn view(&self) -> PeekedV {
        match self {
            Peeked::WebSocket => PeekedV::WebSocket,
            Peeked::Http { method, path } => PeekedV::Http { method: method@, path: path@ },
        }
    }
}

pub open spec fn or_empty(s: Option<Seq<char>>) -> Seq<char> {
    match s {
        Some(s) => s,
        None => Seq::empty(),
    }
}

/// A path without its query and its fragment.
pub open spec fn bare_path(path: Seq<char>) -> Seq<char> {
    before_first(before_first(path, '?'), '#')
}

/// What the head of a request makes of a connection.
pub open spec fn peeked(head: HeadV) -> PeekedV {
    if exists|i: int| 0 <= i < head.headers.len() && asks_upgrade(#[trigger] head.headers[i]) {
        PeekedV::WebSocket
    } else {
        PeekedV::Http { method: or_empty(head.method), path: bare_path(or_empty(head.path)) }
    }
}

fn lower_byte(b: u8) -> (r: u8)
    ensures
        r == lower(b),
{
    if 65 <= b && b <= 90 {
        b + 32
    } else {
        b
    }
}

/// `eq_ignore_ascii_case` on `word` and a part of `s`.
fn same_word(s: &[u8], from: usize, to: usize, word: &[u8]) -> (r: bool)
    requires
        from <= to <= s@.len(),
    ensures
        r == (lowered(s@.subrange(from as int, to as int)) == lowered(word@)),
{
    let ghost part = s@.subrange(from as int, to as int);
    if to - from != word.len() {
        assert(lowered(part).len() != lowered(word@).len());
        return false;
    }
    let mut i: usize = 0;
    while i < word.len()
        invariant
            0 <= i <= word@.len(),
            from <= to <= s@.len(),
            to - from == word@.len(),
            part == s@.subrange(from as int, to as int),
            forall|k: int| 0 <= k < i ==> lowered(part)[k] == lowered(word@)[k],
        decreases word@.len() - i,
    {
        if lower_byte(s[from + i]) != lower_byte(word[i]) {
            assert(lowered(part)[i as int] != lowered(word@)[i as int]);
            return false;
        }
        i += 1;
    }
    assert(lowered(part) =~= lowered(word@));
    true
}

/// Whether `word` is one of the words of `s`, in whatever case.
pub fn contains_word(s: &[u8], word: &[u8]) -> (r: bool)
    ensures
        r == has_word(s@, word@),
{
    let end: usize = s.len();
    let mut start: usize = 0;
    let mut k: usize = 0;
    loop
        invariant
            0 <= start <= k <= end == s@.len(),
            start == 0 || separates(s@[start - 1]),
            forall|m: int| start <= m < k ==> !separates(#[trigger] s@[m]),
            forall|i: int, j: int| #[trigger]
                is_word(s@, i, j) && j < k ==> lowered(s@.subrange(i, j)) != lowered(word@),
        decreases end - k,
    {
        if k == end || s[k] == 44 || s[k] == 32 {
            let same = same_word(s, start, k, word);
            assert(is_word(s@, start as int, k as int));
            if same {
                return true;
            }
            assert forall|i: int, j: int| #[trigger] is_word(s@, i, j) && j == k implies lowered(
                s@.subrange(i, j),
            ) != lowered(word@) by {
                if i < start {
                    assert(separates(s@[start - 1]));
                } else if i > start {
                    assert(separates(s@[i - 1]));
                }
            }
            if k == end {
                return false;
            }
            start = k + 1;
        } else {
            assert forall|i: int, j: int| #[trigger] is_word(s@, i, j) implies j != k by {}
        }
        k += 1;
    }
}

/// What the head of a request makes of a connection.
pub fn classify(head: &Head) -> (r: Peeked)
    ensures
        r@ == peeked(head@),
{
    let mut i: usize = 0;
    while i < head.headers.len()
        invariant
            0 <= i <= head.headers@.len(),
            forall|j: int| 0 <= j < i ==> !asks_upgrade(#[trigger] head@.headers[j]),
        decreases head.headers@.len() - i,
    {
        let name = head.headers[i].0.as_str().as_bytes();
        let value = head.headers[i].1.as_slice();
        assert(head@.headers[i as int] == (head.headers@[i as int].0@, head.headers@[i as int].1@));
        assert(name@.subrange(0, name@.len() as int) =~= name@);
        if same_word(name, 0, name.len(), "upgrade".as_bytes()) && contains_word(
            value,
            "websocket".as_bytes(),
        ) {
            assert(asks_upgrade(head@.headers[i as int]));
            return Peeked::WebSocket;
        }
        i += 1;
    }
    let method = match &head.method {
        Some(method) => method.clone(),
        None => String::new(),
    };
    let path = match &head.path {
        Some(path) => {
            let bare = cut_before(path.as_str(), '?');
            cut_before(bare.as_str(), '#')
        },
        None => {
            let bare = cut_before("", '?');
            assert(""@ =~= Seq::<char>::empty()) by {
                reveal_strlit("");
            }
            cut_before(bare.as_str(), '#')
        },
    };
    Peeked::Http { method, path }
}

/// What the first bytes of a connection make of it.
pub fn peek(head: &[u8]) -> (r: Peeked)
    ensures
        r@ == peeked(request_head(head@)),
{
    classify(&parse_head(head))
}

/// A response of plain text that closes the connection.
pub open spec fn response_text(status: Seq<char>, body: Seq<char>) -> Seq<char> {
    "HTTP/1.1 "@ + status
        + "\r\ncontent-type: text/plain; charset=utf-8\r\ncontent-length: "@ + decimal(
        encode_utf8(body).len(),
    ) + "\r\nconnection: close\r\n\r\n"@ + body
}

/// A response of plain text that closes the connection.
pub fn response(status: &str, body: &str) -> (r: String)
    ensures
        r@ == response_text(status@, body@),
{
    let mut r = "HTTP/1.1 ".to_owned();
    r.append(status);
    r.append("\r\ncontent-type: text/plain; charset=utf-8\r\ncontent-length: ");
    r.append(decimal_of(body.as_bytes().len()).as_str());
    r.append("\r\nconnection: close\r\n\r\n");
    r.append(body);
    r
}

/// The answer to a plain request: the interface at the root, and nothing else.
pub open spec fn answer_text(
    method: Seq<char>,
    path: Seq<char>,
    interface: Seq<char>,
) -> Seq<char> {
    if method != "GET"@ {
        response_text("405 Method Not Allowed"@, "method not allowed\n"@)
    } else if path != "/"@ {
        response_text("404 Not Found"@, "not found\n"@)
    } else {
        response_text("200 OK"@, interface)
    }
}

/// The answer to a connection, unless it is to be a WebSocket.
pub fn answer(connection: &Peeked, interface: &str) -> (r: Option<String>)
    ensures
        match connection@ {
            PeekedV::WebSocket => r is None,
            PeekedV::Http { method, path } => r matches Some(text) && text@ == answer_text(
                method,
                path,
                interface@,
            ),
        },
{
    match connection {
        Peeked::WebSocket => None,
        Peeked::Http { method, path } => if !same_text(method.as_str(), "GET") {
            Some(response("405 Method Not Allowed", "method not allowed\n"))
        } else if !same_text(path.as_str(), "/") {
            Some(response("404 Not Found", "not found\n"))
        } else {
            Some(response("200 OK", interface))
        },
    }
}

/// A path is taken without its query and its fragment.
pub proof fn paths_have_no_query_and_no_fragment(
    head: &Head,
    r: Peeked,
    path: Seq<char>,
    rest: Seq<char>,
)
    requires
        call_ensures(classify, (head,), r),
        !path.contains('?'),
        !path.contains('#'),
    ensures
        r@ matches PeekedV::Http { method, path: found } ==> {
            &&& head.method matches Some(m) ==> method == m@
            &&& head.method is None ==> method.len() == 0
            &&& head.path is None ==> found.len() == 0
            &&& head.path matches Some(p) ==> (p@ == path || p@ == path + seq!['?'] + rest || p@
                == path + seq!['#'] + rest) ==> found == path
        },
{
    cuts_are_at_the_first(path, '?', rest);
    cuts_are_at_the_first(path, '#', rest);
    cuts_are_at_the_first(Seq::empty(), '?', rest);
    cuts_are_at_the_first(Seq::empty(), '#', rest);
    assert(path + seq!['?'] + rest =~= path.push('?') + rest);
    let whole = path + seq!['#'] + rest;
    whole.index_of_first_ensures('?');
    match whole.index_of_first('?') {
        Some(i) => {
            if i < path.len() {
                assert(path[i] == '?');
            }
            assert(whole[path.len() as int] == '#');
            let cut = rest.take(i - path.len() - 1);
            assert(whole.take(i) =~= path.push('#') + cut);
            cuts_are_at_the_first(path, '#', cut);
        },
        None => {
            assert(whole =~= path.push('#') + rest);
        },
    }
}

/// Whether two texts are the same but for the case of their ASCII letters.
pub open spec fn same_but_for_case(a: Seq<u8>, b: Seq<u8>) -> bool {
    a.len() == b.len() && forall|i: int|
        0 <= i < a.len() ==> #[trigger] a[i] == b[i] || (65 <= a[i] <= 90 && b[i] == a[i] + 32) || (
        97 <= a[i] <= 122 && b[i] == a[i] - 32)
}

/// A connection is a WebSocket where a header `Upgrade` has `websocket` as one of the words
/// between its commas and spaces, in whatever case, and only there.
pub proof fn websockets_ask_for_an_upgrade(head: &Head, r: Peeked)
    requires
        call_ensures(classify, (head,), r),
    ensures
        r@ is WebSocket <==> exists|k: int, i: int, j: int|
            #![trigger head.headers@[k].1@.subrange(i, j)]
            {
                let name = encode_utf8(head.headers@[k].0@);
                let value = head.headers@[k].1@;
                &&& 0 <= k < head.headers@.len()
                &&& same_but_for_case(name, encode_utf8("upgrade"@))
                &&& 0 <= i <= j <= value.len()
                &&& same_but_for_case(value.subrange(i, j), encode_utf8("websocket"@))
                &&& i == 0 || value[i - 1] == 44 || value[i - 1] == 32
                &&& j == value.len() || value[j] == 44 || value[j] == 32
            },
{
    let up = encode_utf8("upgrade"@);
    let ws = encode_utf8("websocket"@);
    reveal_strlit("websocket");
    lemma_websocket_bytes();
    if r@ is WebSocket {
        let k = choose|k: int|
            0 <= k < head@.headers.len() && asks_upgrade(#[trigger] head@.headers[k]);
        let name = encode_utf8(head.headers@[k].0@);
        let value = head.headers@[k].1@;
        assert(head@.headers[k] == (head.headers@[k].0@, value));
        let (i, j) = choose|i: int, j: int| #[trigger]
            is_word(value, i, j) && lowered(value.subrange(i, j)) == lowered(ws);
        lemma_same_case(name, up);
        lemma_same_case(value.subrange(i, j), ws);
        let _ = head.headers@[k].1@.subrange(i, j);
    }
    assert forall|k: int, i: int, j: int| #![trigger head.headers@[k].1@.subrange(i, j)]
        ({
            let name = encode_utf8(head.headers@[k].0@);
            let value = head.headers@[k].1@;
            &&& 0 <= k < head.headers@.len()
            &&& same_but_for_case(name, up)
            &&& 0 <= i <= j <= value.len()
            &&& same_but_for_case(value.subrange(i, j), ws)
            &&& i == 0 || value[i - 1] == 44 || value[i - 1] == 32
            &&& j == value.len() || value[j] == 44 || value[j] == 32
        }) implies r@ is WebSocket by {
        let name = encode_utf8(head.headers@[k].0@);
        let value = head.headers@[k].1@;
        lemma_same_case(name, up);
        lemma_same_case(value.subrange(i, j), ws);
        assert forall|m: int| i <= m < j implies !separates(#[trigger] value[m]) by {
            let c = value.subrange(i, j)[m - i];
            assert(ws[m - i] >= 97);
        }
        assert(is_word(value, i, j));
        assert(head@.headers[k] == (head.headers@[k].0@, value));
        assert(asks_upgrade(head@.headers[k]));
    }
}

proof fn lemma_same_case(a: Seq<u8>, b: Seq<u8>)
    ensures
        same_but_for_case(a, b) <==> lowered(a) == lowered(b),
{
    if lowered(a) == lowered(b) {
        assert(lowered(a).len() == lowered(b).len());
        assert forall|i: int| 0 <= i < a.len() implies (#[trigger] a[i] == b[i] || (65 <= a[i] <= 90
            && b[i] == a[i] + 32) || (97 <= a[i] <= 122 && b[i] == a[i] - 32)) by {
            assert(lowered(a)[i] == lowered(b)[i]);
        }
    }
    if same_but_for_case(a, b) {
        assert forall|i: int| 0 <= i < a.len() implies lowered(a)[i] == lowered(b)[i] by {
            let _ = a[i];
        }
        assert(lowered(a) =~= lowered(b));
    }
}

proof fn lemma_websocket_bytes()
    ensures
        forall|i: int|
            0 <= i < encode_utf8("websocket"@).len() ==> #[trigger] encode_utf8("websocket"@)[i]
                >= 97,
{
    reveal_strlit("websocket");
    vstd::utf8::is_ascii_chars_encode_utf8("websocket"@);
}

/// What a plain request is answered: the text of the interface where it gets the root, and
/// otherwise what is wrong with it. The length that is told is that of the body.
pub proof fn only_the_root_is_answered(
    connection: &Peeked,
    interface: &str,
    r: Option<String>,
    method: Seq<char>,
    path: Seq<char>,
)
    requires
        call_ensures(answer, (connection, interface), r),
    ensures
        connection@ is WebSocket ==> r is None,
        connection@ == (PeekedV::Http { method, path }) ==> r is Some && exists|
            status: Seq<char>,
            body: Seq<char>,
        | #![auto]
            {
                &&& r->0@ == "HTTP/1.1 "@ + status
                    + "\r\ncontent-type: text/plain; charset=utf-8\r\ncontent-length: "@ + decimal(
                    encode_utf8(body).len(),
                ) + "\r\nconnection: close\r\n\r\n"@ + body
                &&& method != "GET"@ ==> status == "405 Method Not Allowed"@ && body
                    == "method not allowed\n"@
                &&& method == "GET"@ && path != "/"@ ==> status == "404 Not Found"@ && body
                    == "not found\n"@
                &&& method == "GET"@ && path == "/"@ ==> status == "200 OK"@ && body == interface@
            },
{
    if connection@ == (PeekedV::Http { method, path }) {
        let (status, body) = if method != "GET"@ {
            ("405 Method Not Allowed"@, "method not allowed\n"@)
        } else if path != "/"@ {
            ("404 Not Found"@, "not found\n"@)
        } else {
            ("200 OK"@, interface@)
        };
        assert(r->0@ == "HTTP/1.1 "@ + status
            + "\r\ncontent-type: text/plain; charset=utf-8\r\ncontent-length: "@ + decimal(
            encode_utf8(body).len(),
        ) + "\r\nconnection: close\r\n\r\n"@ + body);
    }
}

/// What the first bytes of a connection make of it is what the head that is found in them
/// makes of it.
pub proof fn connections_are_known_by_their_heads(
    bytes: &[u8],
    r: Peeked,
    head: &Head,
    classified: Peeked,
)
    requires
        call_ensures(peek, (bytes,), r),
        call_ensures(classify, (head,), classified),
        head@ == request_head(bytes@),
    ensures
        r@ == classified@,
{
}

} // verus!
