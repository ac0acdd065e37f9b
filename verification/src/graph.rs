//! The decisions of the Microsoft Graph client: how a URL is built, when a
//! failed request is retried and after how long, what a failure reports, and
//! how a paged collection is gathered.
use vstd::prelude::*;
use crate::error::CoreError;
use crate::json::{Json, JsonV, get_array, get_str, views};
use crate::text::{chars_of, extend_chars, has_char, starts_with, starts_with_exec, string_from};

verus! {

/// The Graph beta endpoint every relative path is resolved against.
pub const GRAPH_BASE: &'static str = "https://graph.microsoft.com/beta";

/// How many times a throttled or failing request is retried.
pub const MAX_RETRIES: u32 = 5;

/// The longest wait between two attempts, in seconds.
pub const MAX_WAIT_SECS: u64 = 30;

/// The absolute URL of a path: a path that starts with `http` is already absolute.
pub open spec fn base_url(path: Seq<char>) -> Seq<char> {
    if starts_with(path, "http"@) {
        path
    } else {
        GRAPH_BASE@ + path
    }
}

/// The URL of a path with an optional query string appended.
pub open spec fn url_spec(path: Seq<char>, query: Option<Seq<char>>) -> Seq<char> {
    let base = base_url(path);
    match query {
        Some(q) => if q.len() > 0 {
            base + seq![if base.contains('?') { '&' } else { '?' }] + q
        } else {
            base
        },
        None => base,
    }
}

/// Build an absolute Graph URL from a relative path and optional query string.
pub fn url(path: &str, query: Option<&str>) -> (r: String)
    ensures
        r@ == url_spec(path@, match query {
            Some(q) => Some(q@),
            None => None,
        }),
{
    let p = chars_of(path);
    let mut base: Vec<char> = if starts_with_exec(&p, &chars_of("http")) {
        Vec::new()
    } else {
        chars_of(GRAPH_BASE)
    };
    extend_chars(&mut base, &p);
    assert(base@ == base_url(path@));
    match query {
        Some(q) => {
            let qc = chars_of(q);
            if qc.len() > 0 {
                let joiner = if has_char(&base, '?') { '&' } else { '?' };
                base.push(joiner);
                extend_chars(&mut base, &qc);
            }
        },
        None => {},
    }
    string_from(&base)
}

/// Whether a status is one that is worth retrying: throttling or a server error.
pub open spec fn retryable(status: u16) -> bool {
    status == 429 || (500 <= status && status <= 599)
}

/// `2` to the power `n`.
pub open spec fn pow2(n: nat) -> nat
    decreases n,
{
    if n == 0 {
        1
    } else {
        2 * pow2((n - 1) as nat)
    }
}

/// The wait before the next attempt after a failed one, or `None` when the
/// failure is final: a throttled (429) or server-error (5xx) response is
/// retried up to five times, after the server's `Retry-After` seconds or else
/// `2^(attempt+1)` seconds, never more than thirty.
pub open spec fn retry_wait(status: u16, attempt: u32, retry_after: Option<u64>) -> Option<u64> {
    if retryable(status) && attempt < MAX_RETRIES {
        let wait: int = match retry_after {
            Some(s) => s as int,
            None => pow2((attempt + 1) as nat) as int,
        };
        Some(if wait < MAX_WAIT_SECS { wait as u64 } else { MAX_WAIT_SECS })
    } else {
        None
    }
}

/// Decide whether a failed request is retried, and after how many seconds.
pub fn retry_delay(status: u16, attempt: u32, retry_after: Option<u64>) -> (r: Option<u64>)
    ensures
        r == retry_wait(status, attempt, retry_after),
{
    if (status == 429 || (500 <= status && status <= 599)) && attempt < MAX_RETRIES {
        let wait: u64 = match retry_after {
            Some(s) => s,
            None => {
                let mut w: u64 = 1;
                let mut i: u32 = 0;
                while i < attempt + 1
                    invariant
                        attempt < MAX_RETRIES,
                        i <= attempt + 1,
                        w == pow2(i as nat),
                        w <= 64,
                    decreases attempt + 1 - i,
                {
                    w = w * 2;
                    i = i + 1;
                    assert(w <= 64) by {
                        assert(i <= 6);
                        if i <= 6 {
                            reveal_with_fuel(pow2, 7);
                        }
                    }
                }
                w
            },
        };
        Some(if wait < MAX_WAIT_SECS { wait } else { MAX_WAIT_SECS })
    } else {
        None
    }
}

/// The message of a failed request: `error.message` of the JSON body when it
/// has one, otherwise the body itself.
pub open spec fn failure_message(body: Seq<char>, parsed: Option<JsonV>) -> Seq<char> {
    match parsed {
        Some(v) => match v.get("error"@) {
            Some(e) => match get_str(e, "message"@) {
                Some(m) => m,
                None => body,
            },
            None => body,
        },
        None => body,
    }
}

/// The error of a request that failed with `status`, given its body and the
/// body parsed as JSON when it parses.
pub fn failure(status: u16, body: String, parsed: &Option<Json>) -> (r: CoreError)
    ensures
        r matches CoreError::Graph { status: s, message } && s == status && message@ == failure_message(
            body@,
            match parsed {
                Some(j) => Some(j@),
                None => None,
            },
        ),
{
    let message = match parsed {
        Some(v) => match v.get(&chars_of("error")) {
            Some(e) => match e.get_str(&chars_of("message")) {
                Some(m) => m.clone(),
                None => body,
            },
            None => body,
        },
        None => body,
    };
    CoreError::Graph { status, message }
}

/// What one page of a collection adds: the items of its `value` array, or,
/// for a single-object endpoint, the page itself.
pub open spec fn page_items(page: JsonV) -> Seq<JsonV> {
    match get_array(page, "value"@) {
        Some(items) => items,
        None => seq![page],
    }
}

/// The link to the next page: none after a single object, else `@odata.nextLink`.
pub open spec fn next_link(page: JsonV) -> Option<Seq<char>> {
    match get_array(page, "value"@) {
        Some(_) => get_str(page, "@odata.nextLink"@),
        None => None,
    }
}

/// Take in one page of a paged collection: append what it adds to `out` and
/// return the URL of the next page, if there is one.
pub fn collect_page(page: Json, out: &mut Vec<Json>) -> (r: Option<String>)
    ensures
        views(final(out)@) == views(old(out)@) + page_items(page@),
        match r {
            Some(u) => next_link(page@) == Some(u@),
            None => next_link(page@) is None,
        },
{
    let next = match page.get_str(&chars_of("@odata.nextLink")) {
        Some(u) => Some(u.clone()),
        None => None,
    };
    match page.get_array(&chars_of("value")) {
        Some(items) => {
            let ghost start = views(out@);
            let mut i: usize = 0;
            while i < items.len()
                invariant
                    i <= items@.len(),
                    views(out@) == start + views(items@).subrange(0, i as int),
                decreases items@.len() - i,
            {
                let c = items[i].deep_clone();
                let ghost before = out@;
                out.push(c);
                assert(views(out@) =~= views(before).push(items@[i as int]@));
                assert(views(items@).subrange(0, i + 1) =~= views(items@).subrange(0, i as int).push(items@[i as int]@));
                i = i + 1;
                assert(views(out@) =~= start + views(items@).subrange(0, i as int));
            }
            assert(views(items@).subrange(0, items@.len() as int) =~= views(items@));
            assert(views(items@) =~= items@.map_values(|x: Json| x@));
            next
        },
        None => {
            let ghost start = views(out@);
            out.push(page);
            assert(views(out@) =~= start + seq![page@]);
            None
        },
    }
}

/// A failed request is retried at most five times, after at most thirty
/// seconds each time, and only when it was throttled or failed on the server.
pub proof fn law_retry_bounded(status: u16, attempt: u32, retry_after: Option<u64>)
    ensures
        retry_wait(status, attempt, retry_after) matches Some(w) ==> attempt < MAX_RETRIES && w <= MAX_WAIT_SECS && retryable(
            status,
        ),
        attempt >= MAX_RETRIES ==> retry_wait(status, attempt, retry_after) is None,
{
}

} // verus!
