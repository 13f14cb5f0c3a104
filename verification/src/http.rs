//! Routing of HTTP requests to pages, and framing of the responses.
use vstd::prelude::*;
use vstd::string::*;

verus! {

/// What a request asks for.
#[derive(Debug, Clone, Copy, PartialEq, Eq, Structural)]
pub enum Route {
    /// `GET /`: the greeting page.
    Index,
    /// `GET /sleep`: the greeting page after a pause.
    Sleep,
    /// Anything else.
    NotFound,
}

/// `prefix` is an initial segment of `data`.
pub open spec fn starts_with(data: Seq<u8>, prefix: Seq<u8>) -> bool {
    prefix.len() <= data.len() && data.subrange(0, prefix.len() as int) == prefix
}

/// The route of a request given by its first line.
pub open spec fn route_of_line(line: Seq<char>) -> Route {
    if line == "GET / HTTP/1.1"@ {
        Route::Index
    } else if line == "GET /sleep HTTP/1.1"@ {
        Route::Sleep
    } else {
        Route::NotFound
    }
}

/// The route of a request given by its first bytes.
pub open spec fn route_of_request(request: Seq<u8>) -> Route {
    if starts_with(request, "GET / HTTP/1.1\r\n".spec_bytes()) {
        Route::Index
    } else if starts_with(request, "GET /sleep HTTP/1.1\r\n".spec_bytes()) {
        Route::Sleep
    } else {
        Route::NotFound
    }
}

impl Route {
    /// The status line answered for this route.
    pub open spec fn status_text(self) -> Seq<char> {
        match self {
            Route::NotFound => "HTTP/1.1 404 NOT FOUND"@,
            _ => "HTTP/1.1 200 OK"@,
        }
    }

    /// The name of the page file answered for this route.
    pub open spec fn page_name(self) -> Seq<char> {
        match self {
            Route::Index => "hello.html"@,
            Route::Sleep => "sleep.html"@,
            Route::NotFound => "404.html"@,
        }
    }

    /// The status line answered for this route.
    pub fn status_line(&self) -> (status: &'static str)
        ensures
            status@ == self.status_text(),
    {
        match self {
            Route::NotFound => "HTTP/1.1 404 NOT FOUND",
            _ => "HTTP/1.1 200 OK",
        }
    }

    /// The name of the page file answered for this route.
    pub fn page(&self) -> (name: &'static str)
        ensures
            name@ == self.page_name(),
    {
        match self {
            Route::Index => "hello.html",
            Route::Sleep => "sleep.html",
            Route::NotFound => "404.html",
        }
    }

    /// Whether the answer is given only after a pause.
    pub fn pauses(&self) -> (pause: bool)
        ensures
            pause == (*self == Route::Sleep),
    {
        match self {
            Route::Sleep => true,
            _ => false,
        }
    }
}

/// Whether two strings hold the same characters.
pub fn str_equal(a: &str, b: &str) -> (equal: bool)
    ensures
        equal == (a@ == b@),
{
    let n = a.unicode_len();
    if n != b.unicode_len() {
        return false;
    }
    let mut i: usize = 0;
    while i < n
        invariant
            n == a@.len(),
            n == b@.len(),
            i <= n,
            forall|j: int| 0 <= j < i ==> a@[j] == b@[j],
        decreases n - i,
    {
        if a.get_char(i) != b.get_char(i) {
            return false;
        }
        i = i + 1;
    }
    assert(a@ =~= b@);
    true
}

/// Whether `prefix` is an initial segment of `data`.
pub fn starts_with_bytes(data: &[u8], prefix: &[u8]) -> (starts: bool)
    ensures
        starts == starts_with(data@, prefix@),
{
    if prefix.len() > data.len() {
        return false;
    }
    let mut i: usize = 0;
    while i < prefix.len()
        invariant
            prefix@.len() <= data@.len(),
            i <= prefix@.len(),
            forall|j: int| 0 <= j < i ==> data@[j] == prefix@[j],
        decreases prefix@.len() - i,
    {
        if data[i] != prefix[i] {
            assert(data@.subrange(0, prefix@.len() as int)[i as int] != prefix@[i as int]);
            return false;
        }
        i = i + 1;
    }
    assert(data@.subrange(0, prefix@.len() as int) =~= prefix@);
    true
}

/// The route of a request whose first line (without its line break) is `line`.
pub fn route_request_line(line: &str) -> (route: Route)
    ensures
        route == route_of_line(line@),
{
    if str_equal(line, "GET / HTTP/1.1") {
        Route::Index
    } else if str_equal(line, "GET /sleep HTTP/1.1") {
        Route::Sleep
    } else {
        Route::NotFound
    }
}

/// The route of a request whose first bytes are `request`.
pub fn route_request_bytes(request: &[u8]) -> (route: Route)
    ensures
        route == route_of_request(request@),
{
    if starts_with_bytes(request, "GET / HTTP/1.1\r\n".as_bytes()) {
        Route::Index
    } else if starts_with_bytes(request, "GET /sleep HTTP/1.1\r\n".as_bytes()) {
        Route::Sleep
    } else {
        Route::NotFound
    }
}

/// The decimal digits of `n`, as ASCII bytes, most significant first.
pub open spec fn decimal_digits(n: nat) -> Seq<u8>
    decreases n,
{
    if n < 10 {
        seq![(48 + n) as u8]
    } else {
        decimal_digits(n / 10).push((48 + n % 10) as u8)
    }
}

/// The number that a sequence of ASCII decimal digits denotes.
pub open spec fn digits_value(digits: Seq<u8>) -> nat
    decreases digits.len(),
{
    if digits.len() == 0 {
        0
    } else {
        digits_value(digits.drop_last()) * 10 + (digits.last() - 48) as nat
    }
}

/// The bytes between the status line and the length of the body.
pub open spec fn content_length_label() -> Seq<u8> {
    "\r\nContent-Length: ".spec_bytes()
}

/// The bytes that end the header.
pub open spec fn header_end() -> Seq<u8> {
    "\r\n\r\n".spec_bytes()
}

/// A response made of a status line, a `Content-Length` header that gives the
/// length of the body in bytes, a blank line and the body.
pub open spec fn response_with_length_bytes(status: Seq<u8>, body: Seq<u8>) -> Seq<u8> {
    status + content_length_label() + decimal_digits(body.len()) + header_end() + body
}

/// A response made of a status line, a blank line and the body.
pub open spec fn plain_response_bytes(status: Seq<u8>, body: Seq<u8>) -> Seq<u8> {
    status + header_end() + body
}

fn append_bytes(out: &mut Vec<u8>, bytes: &[u8])
    ensures
        final(out)@ == old(out)@ + bytes@,
{
    let mut i: usize = 0;
    while i < bytes.len()
        invariant
            i <= bytes@.len(),
            out@ == old(out)@ + bytes@.take(i as int),
        decreases bytes@.len() - i,
    {
        out.push(bytes[i]);
        proof {
            assert(bytes@.take(i + 1) =~= bytes@.take(i as int).push(bytes@[i as int]));
        }
        i = i + 1;
    }
    proof {
        assert(bytes@.take(bytes@.len() as int) =~= bytes@);
    }
}

fn append_decimal(out: &mut Vec<u8>, n: usize)
    ensures
        final(out)@ == old(out)@ + decimal_digits(n as nat),
    decreases n,
{
    if n >= 10 {
        append_decimal(out, n / 10);
    }
    let digit: u8 = (n % 10) as u8;
    out.push(48u8 + digit);
    proof {
        if n >= 10 {
            assert(decimal_digits(n as nat) == decimal_digits((n / 10) as nat).push((48 + n % 10) as u8));
        }
    }
}

/// The response with the status line `status_line`, a `Content-Length` header
/// and the body `contents`.
pub fn response_with_length(status_line: &str, contents: &str) -> (response: Vec<u8>)
    ensures
        response@ == response_with_length_bytes(status_line.spec_bytes(), contents.spec_bytes()),
{
    let body = contents.as_bytes();
    let mut response: Vec<u8> = Vec::new();
    append_bytes(&mut response, status_line.as_bytes());
    append_bytes(&mut response, "\r\nContent-Length: ".as_bytes());
    append_decimal(&mut response, body.len());
    append_bytes(&mut response, "\r\n\r\n".as_bytes());
    append_bytes(&mut response, body);
    response
}

/// The response with the status line `status_line`, a blank line and the body
/// `contents`.
pub fn plain_response(status_line: &str, contents: &str) -> (response: Vec<u8>)
    ensures
        response@ == plain_response_bytes(status_line.spec_bytes(), contents.spec_bytes()),
{
    let mut response: Vec<u8> = Vec::new();
    append_bytes(&mut response, status_line.as_bytes());
    append_bytes(&mut response, "\r\n\r\n".as_bytes());
    append_bytes(&mut response, contents.as_bytes());
    response
}

/// Every byte of a decimal rendering is an ASCII digit, and reading the digits
/// back gives the number that was rendered.
pub proof fn lemma_decimal_round_trip(n: nat)
    ensures
        decimal_digits(n).len() > 0,
        forall|i: int| 0 <= i < decimal_digits(n).len() ==> 48 <= #[trigger] decimal_digits(n)[i] <= 57,
        digits_value(decimal_digits(n)) == n,
        decimal_digits(n).len() > 1 ==> decimal_digits(n)[0] != 48,
        n >= 10 <==> decimal_digits(n).len() > 1,
    decreases n,
{
    let d = decimal_digits(n);
    if n < 10 {
        assert(d.drop_last() =~= Seq::<u8>::empty());
        assert(d.last() == 48 + n);
        assert(d.len() == 1);
        assert(digits_value(d.drop_last()) == 0);
        assert(digits_value(d) == digits_value(d.drop_last()) * 10 + (d.last() - 48) as nat);
    } else {
        lemma_decimal_round_trip(n / 10);
        assert(d.drop_last() =~= decimal_digits(n / 10));
        assert(d.last() == 48 + n % 10);
        assert(digits_value(d) == digits_value(d.drop_last()) * 10 + (d.last() - 48) as nat);
        assert(digits_value(d.drop_last()) == n / 10);
        assert(d[0] == decimal_digits(n / 10)[0]);
        assert(n / 10 >= 1);
        if n / 10 < 10 {
            assert(decimal_digits(n / 10)[0] == 48 + n / 10);
        }
        assert(n == (n / 10) * 10 + n % 10) by (nonlinear_arith);
        assert forall|i: int| 0 <= i < d.len() implies 48 <= #[trigger] d[i] <= 57 by {
            if i < d.len() - 1 {
                assert(d[i] == decimal_digits(n / 10)[i]);
            }
        }
    }
}

/// A response with a `Content-Length` header is the status line unchanged, the
/// bytes `\r\nContent-Length: `, the decimal digits (without leading zeros) of the
/// number of bytes of the body, the blank line `\r\n\r\n`, and every byte of the body.
pub proof fn lemma_content_length_matches_body(status: Seq<u8>, body: Seq<u8>)
    ensures
        ({
            let response = response_with_length_bytes(status, body);
            let digits_start: int = status.len() + 18int;
            let body_start: int = response.len() - body.len();
            let digits = response.subrange(digits_start, body_start - 4);
            &&& response.len() >= status.len() + 23 + body.len()
            &&& response.subrange(0, status.len() as int) == status
            &&& response.subrange(status.len() as int, digits_start) == seq![
                13u8, 10u8, 67u8, 111u8, 110u8, 116u8, 101u8, 110u8, 116u8, 45u8, 76u8, 101u8, 110u8,
                103u8, 116u8, 104u8, 58u8, 32u8,
            ]
            &&& forall|i: int| 0 <= i < digits.len() ==> 48 <= #[trigger] digits[i] <= 57
            &&& digits.len() > 1 ==> digits[0] != 48
            &&& digits_value(digits) == body.len()
            &&& response.subrange(body_start - 4, body_start) == seq![13u8, 10u8, 13u8, 10u8]
            &&& response.subrange(body_start, response.len() as int) == body
        }),
{
    lemma_literal_bytes();
    let response = response_with_length_bytes(status, body);
    let label = content_length_label();
    let d = decimal_digits(body.len());
    lemma_decimal_round_trip(body.len());
    let digits_start: int = status.len() + 18int;
    let body_start: int = response.len() - body.len();
    assert(response.len() == status.len() + 18 + d.len() + 4 + body.len());
    assert(response.subrange(0, status.len() as int) =~= status);
    assert(response.subrange(status.len() as int, digits_start) =~= label);
    assert(response.subrange(digits_start, body_start - 4) =~= d);
    assert(response.subrange(body_start - 4, body_start) =~= header_end());
    assert(response.subrange(body_start, response.len() as int) =~= body);
}

/// A response without a length header is the status line unchanged, the blank
/// line `\r\n\r\n`, and every byte of the body.
pub proof fn lemma_plain_response_layout(status: Seq<u8>, body: Seq<u8>)
    ensures
        ({
            let response = plain_response_bytes(status, body);
            &&& response.len() == status.len() + 4 + body.len()
            &&& response.subrange(0, status.len() as int) == status
            &&& response.subrange(status.len() as int, status.len() + 4int) == seq![13u8, 10u8, 13u8, 10u8]
            &&& response.subrange(status.len() + 4int, response.len() as int) == body
        }),
{
    lemma_literal_bytes();
    let response = plain_response_bytes(status, body);
    assert(response.subrange(0, status.len() as int) =~= status);
    assert(response.subrange(status.len() as int, status.len() + 4int) =~= header_end());
    assert(response.subrange(status.len() + 4int, response.len() as int) =~= body);
}

/// Routing by the first bytes of a request looks at a prefix only: a request
/// that begins with `GET / HTTP/1.1\r\n` goes to the index page and one that
/// begins with `GET /sleep HTTP/1.1\r\n` to the sleep page, whatever follows;
/// any other request is not found.
pub proof fn lemma_request_routing(request: Seq<u8>, rest: Seq<u8>)
    ensures
        request.len() >= 16 && request.take(16) == seq![
            71u8, 69u8, 84u8, 32u8, 47u8, 32u8, 72u8, 84u8, 84u8, 80u8, 47u8, 49u8, 46u8, 49u8, 13u8,
            10u8,
        ] ==> route_of_request(request + rest) == Route::Index,
        request.len() >= 21 && request.take(21) == seq![
            71u8, 69u8, 84u8, 32u8, 47u8, 115u8, 108u8, 101u8, 101u8, 112u8, 32u8, 72u8, 84u8, 84u8,
            80u8, 47u8, 49u8, 46u8, 49u8, 13u8, 10u8,
        ] ==> route_of_request(request + rest) == Route::Sleep,
        !(request.len() >= 16 && request.take(16) == seq![
            71u8, 69u8, 84u8, 32u8, 47u8, 32u8, 72u8, 84u8, 84u8, 80u8, 47u8, 49u8, 46u8, 49u8, 13u8,
            10u8,
        ]) && !(request.len() >= 21 && request.take(21) == seq![
            71u8, 69u8, 84u8, 32u8, 47u8, 115u8, 108u8, 101u8, 101u8, 112u8, 32u8, 72u8, 84u8, 84u8,
            80u8, 47u8, 49u8, 46u8, 49u8, 13u8, 10u8,
        ]) ==> route_of_request(request) == Route::NotFound,
{
    lemma_literal_bytes();
    let index = "GET / HTTP/1.1\r\n".spec_bytes();
    let sleep = "GET /sleep HTTP/1.1\r\n".spec_bytes();
    let whole = request + rest;
    if request.len() >= 16 && request.take(16) == index {
        assert(whole.subrange(0, 16) =~= request.take(16));
    }
    if request.len() >= 21 && request.take(21) == sleep {
        assert(whole.subrange(0, 21) =~= request.take(21));
        assert(whole[5] == 115u8);
        assert(whole.subrange(0, 16)[5] != index[5]);
    }
    if !(request.len() >= 16 && request.take(16) == index) {
        if request.len() >= 16 {
            assert(request.subrange(0, 16) =~= request.take(16));
        }
    }
    if !(request.len() >= 21 && request.take(21) == sleep) {
        if request.len() >= 21 {
            assert(request.subrange(0, 21) =~= request.take(21));
        }
    }
}

/// Routing by the first line: exactly `GET / HTTP/1.1` goes to the index page,
/// exactly `GET /sleep HTTP/1.1` to the sleep page, anything else is not found.
pub proof fn lemma_line_routing(line: Seq<char>)
    ensures
        route_of_line(line) == Route::Index <==> line == "GET / HTTP/1.1"@,
        route_of_line(line) == Route::Sleep <==> line == "GET /sleep HTTP/1.1"@,
        route_of_line(line) == Route::NotFound <==> line != "GET / HTTP/1.1"@ && line
            != "GET /sleep HTTP/1.1"@,
{
    reveal_strlit("GET / HTTP/1.1");
    reveal_strlit("GET /sleep HTTP/1.1");
    assert("GET / HTTP/1.1"@.len() != "GET /sleep HTTP/1.1"@.len());
}

proof fn lemma_literal_bytes()
    ensures
        header_end() == seq![13u8, 10u8, 13u8, 10u8],
        content_length_label() == seq![
            13u8, 10u8, 67u8, 111u8, 110u8, 116u8, 101u8, 110u8, 116u8, 45u8, 76u8, 101u8, 110u8,
            103u8, 116u8, 104u8, 58u8, 32u8,
        ],
        "GET / HTTP/1.1\r\n".spec_bytes() == seq![
            71u8, 69u8, 84u8, 32u8, 47u8, 32u8, 72u8, 84u8, 84u8, 80u8, 47u8, 49u8, 46u8, 49u8, 13u8,
            10u8,
        ],
        "GET /sleep HTTP/1.1\r\n".spec_bytes() == seq![
            71u8, 69u8, 84u8, 32u8, 47u8, 115u8, 108u8, 101u8, 101u8, 112u8, 32u8, 72u8, 84u8, 84u8,
            80u8, 47u8, 49u8, 46u8, 49u8, 13u8, 10u8,
        ],
{
    reveal_strlit("\r\n\r\n");
    reveal_strlit("\r\nContent-Length: ");
    reveal_strlit("GET / HTTP/1.1\r\n");
    reveal_strlit("GET /sleep HTTP/1.1\r\n");
    let a = "\r\n\r\n"@;
    let b = "\r\nContent-Length: "@;
    let c = "GET / HTTP/1.1\r\n"@;
    let d = "GET /sleep HTTP/1.1\r\n"@;
    assert(vstd::utf8::is_ascii_chars(a));
    assert(vstd::utf8::is_ascii_chars(b));
    assert(vstd::utf8::is_ascii_chars(c));
    assert(vstd::utf8::is_ascii_chars(d));
    vstd::utf8::is_ascii_chars_encode_utf8(a);
    vstd::utf8::is_ascii_chars_encode_utf8(b);
    vstd::utf8::is_ascii_chars_encode_utf8(c);
    vstd::utf8::is_ascii_chars_encode_utf8(d);
    assert(header_end() =~= seq![13u8, 10u8, 13u8, 10u8]);
    assert(content_length_label() =~= seq![
        13u8, 10u8, 67u8, 111u8, 110u8, 116u8, 101u8, 110u8, 116u8, 45u8, 76u8, 101u8, 110u8,
        103u8, 116u8, 104u8, 58u8, 32u8,
    ]);
    assert("GET / HTTP/1.1\r\n".spec_bytes() =~= seq![
        71u8, 69u8, 84u8, 32u8, 47u8, 32u8, 72u8, 84u8, 84u8, 80u8, 47u8, 49u8, 46u8, 49u8, 13u8,
        10u8,
    ]);
    assert("GET /sleep HTTP/1.1\r\n".spec_bytes() =~= seq![
        71u8, 69u8, 84u8, 32u8, 47u8, 115u8, 108u8, 101u8, 101u8, 112u8, 32u8, 72u8, 84u8, 84u8,
        80u8, 47u8, 49u8, 46u8, 49u8, 13u8, 10u8,
    ]);
}

} // verus!
