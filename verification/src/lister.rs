//! Paginated enumeration of an owner's repositories.
//!
//! The lister walks a 1-based page counter with a fixed page size, appends
//! every non-empty page to its accumulator, and stops at the first empty
//! page — the only normal termination condition. A non-success status or an
//! undecodable body aborts the enumeration with no partial result. The
//! per-page decision is `list_step`; `fetch_all_pages` drives it against an
//! in-memory page source and carries the pagination-termination proof.

use vstd::prelude::*;

use crate::errors::BackupError;
use crate::repo::{OwnerType, Repo};
use crate::text::{dec_digits, u64_to_string};

verus! {

/// Path segment selecting the endpoint shape for a scope.
pub open spec fn spec_scope_segment(t: OwnerType) -> Seq<char> {
    match t {
        OwnerType::Organization => "orgs"@,
        OwnerType::User => "users"@,
    }
}

/// Executable counterpart of `spec_scope_segment`.
pub fn scope_segment(t: &OwnerType) -> (s: &'static str)
    ensures
        s@ == spec_scope_segment(*t),
{
    match t {
        OwnerType::Organization => "orgs",
        OwnerType::User => "users",
    }
}

/// The listing URL for one page: scope, owner, fixed page size of 100, the
/// 1-based page number, and the native sort by descending update time.
pub open spec fn spec_listing_url(owner: Seq<char>, t: OwnerType, page: nat) -> Seq<char> {
    "https://api.github.com/"@ + spec_scope_segment(t) + "/"@ + owner
        + "/repos?per_page=100&page="@ + dec_digits(page) + "&sort=updated&direction=desc"@
}

/// Builds the listing URL for one page, exactly as `spec_listing_url` says.
pub fn listing_url(owner: &str, t: &OwnerType, page: u64) -> (u: String)
    ensures
        u@ == spec_listing_url(owner@, *t, page as nat),
{
    let mut u = "https://api.github.com/".to_owned();
    u.append(scope_segment(t));
    u.append("/");
    u.append(owner);
    u.append("/repos?per_page=100&page=");
    let p = u64_to_string(page);
    u.append(p.as_str());
    u.append("&sort=updated&direction=desc");
    proof {
        assert(u@ =~= spec_listing_url(owner@, *t, page as nat));
    }
    u
}

/// What one page request handed back, as the enumeration loop sees it.
pub enum PageEvent {
    /// Success status with a decoded page, possibly empty.
    Received(Vec<Repo>),
    /// Non-success HTTP status for the listing call.
    HttpFailure(u16),
    /// Success status but a body that did not decode against the expected
    /// shape.
    BodyUndecodable,
}

/// The lister's decision after one page request.
pub enum ListStep {
    /// The page was non-empty: keep its entries and request the next page.
    Advance(Vec<Repo>),
    /// The page was empty: enumeration is complete with these entries.
    Finished(Vec<Repo>),
    /// Fatal listing failure: no partial result is returned.
    Abort(BackupError),
}

/// One step of the enumeration: appends a non-empty page, finishes on the
/// empty page, and maps each failure to its error kind.
pub fn list_step(acc: Vec<Repo>, event: PageEvent) -> (r: ListStep)
    ensures
        match event {
            PageEvent::Received(page) => {
                if page@.len() > 0 {
                    r matches ListStep::Advance(next) && next@ == acc@ + page@
                } else {
                    r matches ListStep::Finished(done) && done@ == acc@
                }
            },
            PageEvent::HttpFailure(status) => r == ListStep::Abort(BackupError::Api { status }),
            PageEvent::BodyUndecodable => r == ListStep::Abort(BackupError::Decode),
        },
{
    match event {
        PageEvent::Received(mut page) => {
            if page.len() > 0 {
                let mut next = acc;
                next.append(&mut page);
                ListStep::Advance(next)
            } else {
                ListStep::Finished(acc)
            }
        },
        PageEvent::HttpFailure(status) => ListStep::Abort(BackupError::Api { status }),
        PageEvent::BodyUndecodable => ListStep::Abort(BackupError::Decode),
    }
}

/// Length of the longest prefix of non-empty pages.
pub open spec fn nonempty_prefix_len(pages: Seq<Vec<Repo>>) -> int
    decreases pages.len(),
{
    if pages.len() == 0 {
        0
    } else if pages[0]@.len() == 0 {
        0
    } else {
        1 + nonempty_prefix_len(pages.drop_first())
    }
}

/// Concatenation of the given pages, in order.
pub open spec fn flatten_pages(pages: Seq<Vec<Repo>>) -> Seq<Repo>
    decreases pages.len(),
{
    if pages.len() == 0 {
        Seq::empty()
    } else {
        pages[0]@ + flatten_pages(pages.drop_first())
    }
}

/// The non-empty-prefix length is `k` exactly when the first `k` pages are
/// non-empty and page `k` — if there is one — is empty.
pub proof fn lemma_prefix_len_at(pages: Seq<Vec<Repo>>, k: int)
    requires
        0 <= k <= pages.len(),
        forall|j: int| 0 <= j < k ==> pages[j]@.len() > 0,
        k < pages.len() ==> pages[k]@.len() == 0,
    ensures
        nonempty_prefix_len(pages) == k,
    decreases pages.len(),
{
    if k > 0 {
        lemma_prefix_len_at(pages.drop_first(), k - 1);
    }
}

/// Flattening one more page appends exactly that page's entries.
pub proof fn lemma_flatten_take_snoc(pages: Seq<Vec<Repo>>, i: int)
    requires
        0 <= i < pages.len(),
    ensures
        flatten_pages(pages.take(i + 1)) == flatten_pages(pages.take(i)) + pages[i]@,
    decreases i,
{
    if i == 0 {
        assert(pages.take(1).drop_first() =~= Seq::<Vec<Repo>>::empty());
        assert(pages.take(0) =~= Seq::<Vec<Repo>>::empty());
        assert(flatten_pages(pages.take(1)) =~= flatten_pages(pages.take(0)) + pages[0]@);
    } else {
        let rest = pages.drop_first();
        lemma_flatten_take_snoc(rest, i - 1);
        assert(pages.take(i + 1).drop_first() =~= rest.take(i));
        assert(pages.take(i).drop_first() =~= rest.take(i - 1));
        assert(flatten_pages(pages.take(i + 1)) =~= flatten_pages(pages.take(i)) + pages[i]@);
    }
}

/// Drives the enumeration against an in-memory page source: page `n`
/// (1-based) yields `pages[n - 1]`, and every page past the end is empty.
/// Returns the collected entries and the number of page requests issued.
///
/// This carries the pagination-termination law: for `k` leading non-empty
/// pages the result is their concatenation in order, fetched with exactly
/// `k + 1` requests — the last request being the empty page that ends the
/// enumeration.
#[verifier::loop_isolation(false)]
pub fn fetch_all_pages(pages: Vec<Vec<Repo>>) -> (r: (Vec<Repo>, u64))
    requires
        pages@.len() < u64::MAX,
    ensures
        r.0@ == flatten_pages(pages@.take(nonempty_prefix_len(pages@))),
        r.1 == nonempty_prefix_len(pages@) + 1,
        (forall|j: int| 0 <= j < pages@.len() ==> pages@[j]@.len() > 0) ==> (r.0@ == flatten_pages(
            pages@,
        ) && r.1 == pages@.len() + 1),
{
    let ghost orig = pages@;
    let mut src = pages;
    let mut acc: Vec<Repo> = Vec::new();
    let mut requests: u64 = 0;
    while src.len() > 0
        invariant
            orig.len() < u64::MAX,
            requests <= orig.len(),
            src@ =~= orig.subrange(requests as int, orig.len() as int),
            acc@ == flatten_pages(orig.take(requests as int)),
            forall|j: int| 0 <= j < requests ==> orig[j]@.len() > 0,
        decreases src@.len(),
    {
        let page = src.remove(0);
        proof {
            assert(page == orig[requests as int]);
            assert(src@ =~= orig.subrange(requests as int + 1, orig.len() as int));
        }
        requests = requests + 1;
        match list_step(acc, PageEvent::Received(page)) {
            ListStep::Advance(a) => {
                proof {
                    lemma_flatten_take_snoc(orig, requests as int - 1);
                }
                acc = a;
            },
            ListStep::Finished(d) => {
                proof {
                    lemma_prefix_len_at(orig, requests as int - 1);
                }
                return (d, requests);
            },
            ListStep::Abort(_) => {
                // a received page never aborts, by list_step's contract
                return unreached();
            },
        }
    }
    requests = requests + 1;
    proof {
        lemma_prefix_len_at(orig, orig.len() as int);
        assert(orig.take(orig.len() as int) =~= orig);
    }
    (acc, requests)
}

} // verus!
