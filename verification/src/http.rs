//! What the server answers to a request: the route that a request line
//! selects, and the text of the response.
//!
//! Reading the request from a connection, reading the page from disk and
//! sending the response are left to the caller.
use vstd::prelude::*;
use vstd::string::*;

verus! {

/// The answers the server knows.
#[derive(Clone, Copy, Debug, PartialEq, Eq, Structural)]
pub enum Route {
    /// The greeting page.
    Hello,
    /// The greeting page, sent after a pause. It stands for a request that
    /// takes long to serve.
    SlowHello,
    /// The page for every other request.
    NotFound,
}

/// The route that a request line selects. The line is matched by how it
/// begins, so whatever follows the protocol version is ignored.
pub open spec fn route_of(request_line: Seq<char>) -> Route {
    if "GET / HTTP/1.1"@.is_prefix_of(request_line) {
        Route::Hello
    } else if "GET /sleep HTTP/1.1"@.is_prefix_of(request_line) {
        Route::SlowHello
    } else {
        Route::NotFound
    }
}

impl Route {
    /// The status line of the response.
    pub open spec fn spec_status_line(self) -> Seq<char> {
        match self {
            Route::Hello | Route::SlowHello => "HTTP/1.1 200 OK"@,
            Route::NotFound => "HTTP/1.1 404 NOT FOUND"@,
        }
    }

    /// The name of the file that holds the page.
    pub open spec fn spec_file_name(self) -> Seq<char> {
        match self {
            Route::Hello | Route::SlowHello => "hello.html"@,
            Route::NotFound => "404.html"@,
        }
    }

    /// The seconds to pause before the response is made.
    pub open spec fn spec_delay_secs(self) -> u64 {
        match self {
            Route::SlowHello => 10,
            Route::Hello | Route::NotFound => 0,
        }
    }

    /// The status line of the response.
    pub fn status_line(&self) -> (line: &'static str)
        ensures
            line@ == self.spec_status_line(),
    {
        match self {
            Route::Hello | Route::SlowHello => "HTTP/1.1 200 OK",
            Route::NotFound => "HTTP/1.1 404 NOT FOUND",
        }
    }

    /// The name of the file that holds the page.
    pub fn file_name(&self) -> (name: &'static str)
        ensures
            name@ == self.spec_file_name(),
    {
        match self {
            Route::Hello | Route::SlowHello => "hello.html",
            Route::NotFound => "404.html",
        }
    }

    /// The seconds to pause before the response is made.
    pub fn delay_secs(&self) -> (secs: u64)
        ensures
            secs == self.spec_delay_secs(),
    {
        match self {
            Route::SlowHello => 10,
            Route::Hello | Route::NotFound => 0,
        }
    }
}

/// Whether `text` begins with `prefix`, character by character.
pub fn starts_with(text: &str, prefix: &str) -> (found: bool)
    ensures
        found == prefix@.is_prefix_of(text@),
{
    let len: usize = prefix.unicode_len();
    if text.unicode_len() < len {
        return false;
    }
    let mut i: usize = 0;
    while i < len
        invariant
            i <= len,
            len == prefix@.len(),
            len <= text@.len(),
            forall|k: int| 0 <= k < i ==> text@[k] == prefix@[k],
        decreases len - i,
    {
        if text.get_char(i) != prefix.get_char(i) {
            assert(text@.subrange(0, len as int)[i as int] != prefix@[i as int]);
            return false;
        }
        i += 1;
    }
    assert(prefix@ =~= text@.subrange(0, len as int));
    true
}

/// Picks the route for the first line of a request.
pub fn route(request_line: &str) -> (route: Route)
    ensures
        route == route_of(request_line@),
{
    if starts_with(request_line, "GET / HTTP/1.1") {
        Route::Hello
    } else if starts_with(request_line, "GET /sleep HTTP/1.1") {
        Route::SlowHello
    } else {
        Route::NotFound
    }
}

/// The response: the status line, an empty line, and the page.
pub fn response(status_line: &str, contents: &str) -> (response: String)
    ensures
        response@ == status_line@ + "\r\n\r\n"@ + contents@,
{
    let mut response = String::from_str(status_line);
    response.append("\r\n\r\n");
    response.append(contents);
    response
}

} // verus!
