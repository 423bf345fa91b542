//! What is asked of the server, and how its answer says whether there is another page.

use crate::job::Job;
use crate::text::{decimal, decimal_text, lemma_parse_of_decimal, parse_u32, parsed_u32};
use vstd::prelude::*;

verus! {

/// The scope of the jobs that failed.
pub const SCOPE_FAILED: &'static str = "failed";

/// The scope of the jobs that succeeded.
pub const SCOPE_SUCCESS: &'static str = "success";

/// A request to read a resource.
#[derive(Debug, PartialEq, Eq)]
pub struct Request {
    pub url: String,
    /// Names and values, in order.
    pub headers: Vec<(String, String)>,
}

/// What a request says.
pub struct RequestView {
    pub url: Seq<char>,
    pub headers: Seq<(Seq<char>, Seq<char>)>,
}

impl View for Request {
    type V = RequestView;

    open spec fn view(&self) -> RequestView {
        RequestView {
            url: self.url@,
            headers: self.headers@.map_values(|header: (String, String)| (header.0@, header.1@)),
        }
    }
}

/// The part of the query that names the scopes, each followed by an ampersand.
pub open spec fn scope_query(scopes: Seq<Seq<char>>) -> Seq<char>
    decreases scopes.len(),
{
    if scopes.len() == 0 {
        Seq::empty()
    } else {
        scope_query(scopes.drop_last()) + "scope[]="@ + scopes.last() + "&"@
    }
}

/// Where a page of jobs is found, a hundred of them at a time.
pub open spec fn page_url(base_url: Seq<char>, scopes: Seq<Seq<char>>, page: u32) -> Seq<char> {
    base_url + "?"@ + scope_query(scopes) + "page="@ + decimal(page as nat) + "&per_page=100"@
}

/// The headers of every request for a page: the answer is to be JSON, and the token, where there
/// is one, shows who asks.
pub open spec fn page_headers(token: Option<Seq<char>>) -> Seq<(Seq<char>, Seq<char>)> {
    match token {
        Some(token) => seq![("Accept"@, "application/json"@), ("PRIVATE-TOKEN"@, token)],
        None => seq![("Accept"@, "application/json"@)],
    }
}

/// The request for a page of jobs in the given scopes.
pub fn page_request(base_url: &str, token: Option<String>, scopes: &[&str], page: u32) -> (request:
    Request)
    ensures
        request@ == (RequestView {
            url: page_url(base_url@, scopes@.map_values(|scope: &str| scope@), page),
            headers: page_headers(token.deep_view()),
        }),
{
    let ghost names = scopes@.map_values(|scope: &str| scope@);
    let mut url = base_url.to_owned();
    url.append("?");
    for i in 0..scopes.len()
        invariant
            names == scopes@.map_values(|scope: &str| scope@),
            url@ == base_url@ + "?"@ + scope_query(names.take(i as int)),
    {
        assert(names.take(i + 1).drop_last() =~= names.take(i as int));
        url.append("scope[]=");
        url.append(scopes[i]);
        url.append("&");
        assert(url@ =~= base_url@ + "?"@ + scope_query(names.take(i + 1)));
    }
    assert(names.take(names.len() as int) =~= names);
    url.append("page=");
    let number = decimal_text(page);
    url.append(number.as_str());
    url.append("&per_page=100");
    let mut headers: Vec<(String, String)> = Vec::new();
    headers.push(("Accept".to_owned(), "application/json".to_owned()));
    if let Some(token) = token {
        headers.push(("PRIVATE-TOKEN".to_owned(), token));
    }
    let request = Request { url, headers };
    assert(request@.headers =~= page_headers(token.deep_view()));
    request
}

/// Where the log of a job is found.
pub open spec fn log_url(web_url: Seq<char>) -> Seq<char> {
    web_url + "/raw"@
}

impl Job {
    /// Where the log of the job is found.
    pub fn log_url(&self) -> (url: String)
        ensures
            url@ == log_url(self.web_url@),
    {
        let mut url = self.web_url.clone();
        url.append("/raw");
        url
    }
}

/// The header that names the next page spells no number.
#[derive(Debug, Clone, Copy, PartialEq, Eq, Structural)]
pub struct InvalidNextPage;

/// The page that follows, as the header of an answer names it. An answer without the header is
/// the last one; a header that spells no number is an error.
pub fn next_page(header: Option<&str>) -> (next: Result<Option<u32>, InvalidNextPage>)
    ensures
        header is None ==> next == Ok::<Option<u32>, InvalidNextPage>(None),
        header matches Some(text) ==> match parsed_u32(text@) {
            Some(page) => next == Ok::<Option<u32>, InvalidNextPage>(Some(page)),
            None => next == Err::<Option<u32>, InvalidNextPage>(InvalidNextPage),
        },
{
    match header {
        Some(text) => match parse_u32(text) {
            Some(page) => Ok(Some(page)),
            None => Err(InvalidNextPage),
        },
        None => Ok(None),
    }
}

/// Two pages are never found at the same place.
pub proof fn lemma_pages_have_their_own_urls(
    base_url: Seq<char>,
    scopes: Seq<Seq<char>>,
    one: u32,
    other: u32,
)
    requires
        page_url(base_url, scopes, one) == page_url(base_url, scopes, other),
    ensures
        one == other,
{
    let head = base_url + "?"@ + scope_query(scopes) + "page="@;
    let tail = "&per_page=100"@;
    let first = page_url(base_url, scopes, one);
    let second = page_url(base_url, scopes, other);
    assert(first == head + decimal(one as nat) + tail);
    assert(second == head + decimal(other as nat) + tail);
    assert(decimal(one as nat) =~= first.subrange(head.len() as int, first.len() - tail.len()));
    assert(decimal(other as nat) =~= second.subrange(head.len() as int, second.len() - tail.len()));
    lemma_parse_of_decimal(one);
    lemma_parse_of_decimal(other);
}

} // verus!
