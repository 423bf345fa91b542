//! What is asked of the server, and the settings.

use crate::config::{Config, Variables};
use crate::job::Job;
use crate::request::{next_page, page_request, InvalidNextPage, Request};
use crate::text::{decimal_text, parse_u32};
use vstd::prelude::*;

verus! {

/// Without scopes, a page is asked for by its number alone.
pub proof fn lemma_url_without_scopes(
    base_url: &str,
    token: Option<String>,
    scopes: &[&str],
    page: u32,
    number: String,
    request: Request,
)
    requires
        call_ensures(page_request, (base_url, token, scopes, page), request),
        call_ensures(decimal_text, (page,), number),
        scopes@.len() == 0,
    ensures
        request.url@ == base_url@ + "?"@ + "page="@ + number@ + "&per_page=100"@,
{
    assert(base_url@ + "?"@ + Seq::<char>::empty() =~= base_url@ + "?"@);
}

/// One scope more stands behind the others, before the number of the page.
pub proof fn lemma_url_with_one_scope_more(
    base_url: &str,
    token: Option<String>,
    scopes: &[&str],
    scope: &str,
    more: &[&str],
    page: u32,
    number: String,
    request: Request,
    with_more: Request,
)
    requires
        more@ == scopes@.push(scope),
        call_ensures(page_request, (base_url, token, scopes, page), request),
        call_ensures(page_request, (base_url, token, more, page), with_more),
        call_ensures(decimal_text, (page,), number),
    ensures
        ({
            let tail = "page="@ + number@ + "&per_page=100"@;
            &&& request.url@.len() >= tail.len()
            &&& request.url@.skip(request.url@.len() - tail.len()) == tail
            &&& with_more.url@ == request.url@.take(request.url@.len() - tail.len()) + "scope[]="@
                + scope@ + "&"@ + tail
        }),
{
    let names = scopes@.map_values(|s: &str| s@);
    let more_names = more@.map_values(|s: &str| s@);
    assert(more_names.drop_last() =~= names);
    assert(more_names.last() == scope@);
    let tail = "page="@ + number@ + "&per_page=100"@;
    let head = base_url@ + "?"@ + crate::request::scope_query(names);
    assert(request.url@ =~= head + tail);
    assert(request.url@.take(request.url@.len() - tail.len()) =~= head);
    assert(request.url@.skip(request.url@.len() - tail.len()) =~= tail);
    assert(with_more.url@ =~= head + "scope[]="@ + scope@ + "&"@ + tail);
}

/// The answer is always to be JSON; a token is sent along exactly if there is one.
pub proof fn lemma_headers_of_a_page(
    base_url: &str,
    token: Option<String>,
    scopes: &[&str],
    page: u32,
    request: Request,
)
    requires
        call_ensures(page_request, (base_url, token, scopes, page), request),
    ensures
        request.headers@.len() == (if token is Some {
            2int
        } else {
            1
        }),
        request.headers@[0].0@ == "Accept"@,
        request.headers@[0].1@ == "application/json"@,
        token matches Some(token) ==> request.headers@[1].0@ == "PRIVATE-TOKEN"@
            && request.headers@[1].1@ == token@,
{
    let seen = request@.headers;
    assert(seen.len() == request.headers@.len());
    assert(seen[0] == (request.headers@[0].0@, request.headers@[0].1@));
    if token is Some {
        assert(seen[1] == (request.headers@[1].0@, request.headers@[1].1@));
    }
}

/// The log of a job is found beside it.
pub proof fn lemma_place_of_a_log(job: Job, url: String)
    requires
        call_ensures(Job::log_url, (&job,), url),
    ensures
        url@ == job.web_url@ + "/raw"@,
{
}

/// A job has failed if its status says so.
pub proof fn lemma_failed_jobs(job: Job, failed: bool)
    requires
        call_ensures(Job::failed, (&job,), failed),
    ensures
        failed <==> job.status@ == "failed"@,
{
}

/// An answer without the header is the last one; a header names the page whose number it spells,
/// and one that spells none is an error.
pub proof fn lemma_header_names_the_next_page(
    header: Option<&str>,
    next: Result<Option<u32>, InvalidNextPage>,
    number: Option<u32>,
)
    requires
        call_ensures(next_page, (header,), next),
        header matches Some(text) ==> call_ensures(parse_u32, (text,), number),
    ensures
        header is None ==> next is Ok && next->Ok_0 is None,
        header is Some && number is Some ==> next is Ok && next->Ok_0 == number,
        header is Some && number is None ==> next is Err,
{
}

/// A variable that is set is used as it is; one that is not leaves its default. The number of pages
/// is what its variable spells, and a thousand where it spells none.
pub proof fn lemma_settings_are_used(
    variables: Variables,
    config: Config,
    pages: Option<u32>,
)
    requires
        call_ensures(Config::from_variables, (variables,), config),
        variables.max_pages matches Some(text) ==> exists|spelled: &str|
            spelled@ == text@ && #[trigger] call_ensures(parse_u32, (spelled,), pages),
    ensures
        variables.jobs_file matches Some(file) ==> config.jobs_file@ == file@,
        variables.jobs_file is None ==> config.jobs_file@ == "zombie_jobs.csv"@,
        variables.base_url matches Some(url) ==> config.base_url@ == url@,
        variables.base_url is None ==> config.base_url@
            == "https://gitlab.parity.io/api/v4/projects/674/jobs"@,
        variables.max_pages is Some && pages is Some ==> config.max_pages == pages->0,
        variables.max_pages is Some && pages is None ==> config.max_pages == 1000,
        variables.max_pages is None ==> config.max_pages == 1000,
        config.token.deep_view() == variables.token.deep_view(),
        config.base_date.deep_view() == variables.base_date.deep_view(),
        config.end_date.deep_view() == variables.end_date.deep_view(),
{
    assert(config@.jobs_file == config.jobs_file@);
    assert(config@.base_url == config.base_url@);
    assert(config@.max_pages == config.max_pages);
    assert(config@.token == config.token.deep_view());
    assert(config@.base_date == config.base_date.deep_view());
    assert(config@.end_date == config.end_date.deep_view());
}

} // verus!
