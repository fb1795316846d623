//! The paginated search run: follows a results page's "next page" link
//! until a page omits it, accumulating listings, and turns the chain into
//! one chronological result.
//!
//! The session is a state machine `{Fetching, Done, Failed}` driven from
//! outside: the caller performs one fetch per [`SearchSession::next_request`]
//! and feeds the body (or the failure) back in.  A page without a next link
//! is terminal, so a chain that eventually omits the link always stops.

use vstd::prelude::*;
use crate::extract::{Listing, ListingView, lviews, quote_mark, listings_from};
use crate::text::{match_at, find_at_or_after};

verus! {

/// A failed page request: network trouble or a non-success HTTP status.
#[derive(Clone, Copy, Debug, PartialEq, Eq, Structural)]
pub struct FetchError;

/// One key/value continuation parameter scraped from a "next page" link.
#[derive(Debug)]
pub struct Param {
    pub key: String,
    pub value: String,
}

/// The mathematical value of a [`Param`].
pub struct ParamView {
    pub key: Seq<char>,
    pub value: Seq<char>,
}

impl View for Param {
    type V = ParamView;

    open spec fn view(&self) -> ParamView {
        ParamView { key: self.key@, value: self.value@ }
    }
}

/// The views of a vector of parameters.
pub open spec fn pviews(ps: Seq<Param>) -> Seq<ParamView> {
    ps.map_values(|p: Param| p@)
}

/// Opens the anchor of a link.
pub open spec fn anchor_open() -> Seq<char> {
    "<a href=\""@
}

/// Closes the next-page anchor: the quote ending the link target, then the
/// link text the site uses for "next".
pub open spec fn next_tail() -> Seq<char> {
    "\">seuraava</a>"@
}

/// A next-page anchor occurs at `i`: the anchor opening, a non-empty
/// quote-free link target, and the closing tail.
pub open spec fn next_link_at(s: Seq<char>, i: int) -> bool {
    match_at(s, anchor_open(), i) && {
        let us = i + anchor_open().len();
        match find_at_or_after(s, quote_mark(), us) {
            Some(q) => us < q && match_at(s, next_tail(), q),
            None => false,
        }
    }
}

/// The first next-page anchor at or after `from`.
pub open spec fn find_next_link(s: Seq<char>, from: int) -> Option<int>
    decreases s.len() - from,
    via find_next_link_dec
{
    if from + anchor_open().len() > s.len() {
        None
    } else if next_link_at(s, from) {
        Some(from)
    } else {
        find_next_link(s, from + 1)
    }
}

#[via_fn]
proof fn find_next_link_dec(s: Seq<char>, from: int) {
    reveal_strlit("<a href=\"");
}

/// The target of the page's first next-page anchor, if one exists.
pub open spec fn next_href(s: Seq<char>) -> Option<Seq<char>> {
    match find_next_link(s, 0) {
        None => None,
        Some(i) => {
            let us = i + anchor_open().len();
            Some(s.subrange(us, find_at_or_after(s, quote_mark(), us)->0))
        },
    }
}

/// Separates a link's path from its query.
pub open spec fn question_mark() -> Seq<char> {
    "?"@
}

/// Separates two parameters inside an HTML-escaped query.
pub open spec fn amp_sep() -> Seq<char> {
    "&amp;"@
}

/// Separates a parameter's key from its value.
pub open spec fn eq_mark() -> Seq<char> {
    "="@
}

/// The per-response parameter that must not be forwarded: the site computes
/// it anew for each page, so a stale copy breaks the continuation request.
pub open spec fn checksum_key() -> Seq<char> {
    "checksum"@
}

/// Everything after the first `?` of a link target; a target without a
/// query yields nothing to forward.
pub open spec fn query_part(href: Seq<char>) -> Seq<char> {
    match find_at_or_after(href, question_mark(), 0) {
        None => Seq::empty(),
        Some(p) => href.subrange(p + 1, href.len() as int),
    }
}

/// The parameter one query segment yields: key and value split at the first
/// `=`; a segment without one, and the per-response checksum, yield none.
pub open spec fn param_opt(seg: Seq<char>) -> Seq<ParamView> {
    match find_at_or_after(seg, eq_mark(), 0) {
        None => Seq::empty(),
        Some(e) => if seg.subrange(0, e) == checksum_key() {
            Seq::empty()
        } else {
            seq![
                ParamView {
                    key: seg.subrange(0, e),
                    value: seg.subrange(e + 1, seg.len() as int),
                },
            ]
        },
    }
}

/// All continuation parameters of an HTML-escaped query string.
pub open spec fn params_of(q: Seq<char>) -> Seq<ParamView>
    decreases q.len(),
    via params_of_dec
{
    match find_at_or_after(q, amp_sep(), 0) {
        None => param_opt(q),
        Some(p) => param_opt(q.subrange(0, p)) + params_of(
            q.subrange(p + amp_sep().len(), q.len() as int),
        ),
    }
}

#[via_fn]
proof fn params_of_dec(q: Seq<char>) {
    reveal_strlit("&amp;");
    crate::text::lemma_find_at_or_after(q, amp_sep(), 0);
}

/// The continuation parameters a fetched page calls for, if it links a next
/// page.
pub open spec fn continuation_of(page: Seq<char>) -> Option<Seq<ParamView>> {
    match next_href(page) {
        None => None,
        Some(href) => Some(params_of(query_part(href))),
    }
}

/// Law: a page without a next-page anchor calls for no continuation, so a
/// run fed such a page goes to `Done` — pagination always stops at the
/// first page of the chain that omits the link.
pub proof fn lemma_no_next_link_no_continuation(page: Seq<char>)
    requires
        find_next_link(page, 0) is None,
    ensures
        continuation_of(page) is None,
{
}

/// Checks for a next-page anchor at `i`.
fn next_link_at_exec(s: &str, i: usize) -> (r: bool)
    requires
        i <= s@.len(),
    ensures
        r == next_link_at(s@, i as int),
{
    let slen = s.unicode_len();
    if !crate::text::pattern_at(s, "<a href=\"", i) {
        return false;
    }
    let us = i + "<a href=\"".unicode_len();
    match crate::text::find_from(s, "\"", us) {
        None => false,
        Some(q) => us < q && crate::text::pattern_at(s, "\">seuraava</a>", q),
    }
}

/// Finds the first next-page anchor at or after `from`.
fn find_next_link_exec(s: &str, from: usize) -> (r: Option<usize>)
    ensures
        r is Some <==> find_next_link(s@, from as int) is Some,
        r matches Some(i) ==> i as int == find_next_link(s@, from as int)->0
            && next_link_at(s@, i as int) && i + anchor_open().len() <= s@.len(),
{
    let slen = s.unicode_len();
    let alen = "<a href=\"".unicode_len();
    proof {
        reveal_strlit("<a href=\"");
    }
    if alen > slen || from > slen - alen {
        proof {
            assert(find_next_link(s@, from as int) is None);
        }
        return None;
    }
    let mut i: usize = from;
    while i <= slen - alen
        invariant
            from <= i,
            0 < alen <= slen,
            slen == s@.len(),
            alen == anchor_open().len(),
            find_next_link(s@, from as int) == find_next_link(s@, i as int),
        decreases slen - i,
    {
        if next_link_at_exec(s, i) {
            return Some(i);
        }
        proof {
            assert(find_next_link(s@, i as int) == find_next_link(s@, i as int + 1));
        }
        i += 1;
    }
    proof {
        assert(find_next_link(s@, i as int) is None);
    }
    None
}

/// Extracts the target of the page's first next-page anchor.
pub fn next_href_exec(s: &str) -> (r: Option<String>)
    ensures
        r is Some <==> next_href(s@) is Some,
        r matches Some(href) ==> next_href(s@) == Some(href@),
{
    let slen = s.unicode_len();
    match find_next_link_exec(s, 0) {
        None => None,
        Some(i) => {
            let alen = "<a href=\"".unicode_len();
            proof {
                assert(i + alen <= slen);
            }
            let us = i + alen;
            match crate::text::find_from(s, "\"", us) {
                None => vstd::pervasive::unreached(),
                Some(q) => {
                    proof {
                        assert(us < q);
                    }
                    Some(crate::text::substring_string(s, us, q))
                },
            }
        },
    }
}

/// Splits one query segment into a parameter; the checksum and malformed
/// segments yield none.
fn param_of_segment(seg: &str) -> (r: Option<Param>)
    ensures
        match r {
            Some(pm) => param_opt(seg@) == seq![pm@],
            None => param_opt(seg@) == Seq::<ParamView>::empty(),
        },
{
    let slen = seg.unicode_len();
    proof {
        reveal_strlit("=");
    }
    match crate::text::find_from(seg, "=", 0) {
        None => None,
        Some(e) => {
            let key = crate::text::substring_string(seg, 0, e);
            if crate::text::str_eq(key.as_str(), "checksum") {
                None
            } else {
                let value = crate::text::substring_string(seg, e + 1, slen);
                proof {
                    assert(param_opt(seg@) =~= seq![
                        ParamView {
                            key: seg@.subrange(0, e as int),
                            value: seg@.subrange(e as int + 1, seg@.len() as int),
                        },
                    ]);
                }
                Some(Param { key, value })
            }
        },
    }
}

/// Parses an HTML-escaped query string into its continuation parameters.
pub fn parse_params(q: &str) -> (r: Vec<Param>)
    ensures
        pviews(r@) == params_of(q@),
{
    let ghost q0 = q@;
    let mut rest: &str = q;
    let mut out: Vec<Param> = Vec::new();
    proof {
        assert(pviews(out@) + params_of(rest@) =~= params_of(q0));
        reveal_strlit("&amp;");
    }
    loop
        invariant
            pviews(out@) + params_of(rest@) == params_of(q0),
            amp_sep().len() == 5,
        decreases rest@.len(),
    {
        let rlen = rest.unicode_len();
        let ghost out0 = out@;
        let ghost rest0 = rest@;
        match crate::text::find_from(rest, "&amp;", 0) {
            None => {
                match param_of_segment(rest) {
                    Some(pm) => {
                        out.push(pm);
                        proof {
                            assert(pviews(out@) =~= pviews(out0).push(out@.last()@));
                            assert(pviews(out@) =~= params_of(q0));
                        }
                    },
                    None => {
                        proof {
                            assert(pviews(out@) =~= params_of(q0));
                        }
                    },
                }
                return out;
            },
            Some(p) => {
                let seg = rest.substring_char(0, p);
                match param_of_segment(seg) {
                    Some(pm) => {
                        out.push(pm);
                        proof {
                            assert(pviews(out@) =~= pviews(out0).push(out@.last()@));
                        }
                    },
                    None => {},
                }
                rest = rest.substring_char(p + 5, rlen);
                proof {
                    assert(rest@ == rest0.subrange(p + amp_sep().len(), rest0.len() as int));
                    assert(pviews(out@) + params_of(rest@) =~= params_of(q0));
                }
            },
        }
    }
}

/// Where a search run stands; `Done` and `Failed` are terminal.
#[derive(Clone, Copy, Debug, PartialEq, Eq, Structural)]
pub enum RunState {
    /// The next page still has to be fetched.
    Fetching,
    /// A page without a next-page link ended the run.
    Done,
    /// A fetch failed and ended the run early.
    Failed,
}

/// The one fetch the session asks for next.
#[derive(Debug)]
pub enum FetchRequest {
    /// The first page: a search by keyword.
    First { keyword: String },
    /// A later page: the continuation parameters scraped from the previous
    /// page's next-page link, without the per-response checksum.
    Continuation { params: Vec<Param> },
}

/// One query's paginated search run, driven from outside: the caller
/// performs the fetch that [`Self::next_request`] asks for and feeds the
/// body or the failure back in.  Page `N+1` is never requested before page
/// `N` was extracted, because its parameters come from page `N`.
#[derive(Debug)]
pub struct SearchSession {
    /// Where the run stands.
    pub state: RunState,
    /// How many pages came back so far.
    pub pages_fetched: usize,
    /// The search keyword, sent with the first request.
    pub keyword: String,
    /// Listings gathered so far, in the site's newest-first order.
    pub listings: Vec<Listing>,
    /// Continuation parameters for the next request, once a page was seen.
    pub next_params: Vec<Param>,
}

/// Copies a parameter list for a request.
fn clone_params(ps: &Vec<Param>) -> (r: Vec<Param>)
    ensures
        pviews(r@) == pviews(ps@),
{
    let mut r: Vec<Param> = Vec::new();
    let mut i: usize = 0;
    proof {
        assert(pviews(r@) =~= pviews(ps@).subrange(0, 0));
    }
    while i < ps.len()
        invariant
            i <= ps@.len(),
            pviews(r@) == pviews(ps@).subrange(0, i as int),
        decreases ps@.len() - i,
    {
        let ghost r0 = r@;
        r.push(Param { key: ps[i].key.clone(), value: ps[i].value.clone() });
        proof {
            assert(pviews(r@) =~= pviews(r0).push(r@.last()@));
            assert(pviews(r@) =~= pviews(ps@).subrange(0, i as int + 1));
        }
        i += 1;
    }
    proof {
        assert(pviews(ps@).subrange(0, ps@.len() as int) =~= pviews(ps@));
    }
    r
}

impl SearchSession {
    /// Starts a run for one query text.
    pub fn new(keyword: &str) -> (s: SearchSession)
        ensures
            s.state == RunState::Fetching,
            s.pages_fetched == 0,
            s.keyword@ == keyword@,
            s.listings@ == Seq::<Listing>::empty(),
    {
        SearchSession {
            state: RunState::Fetching,
            pages_fetched: 0,
            keyword: keyword.to_owned(),
            listings: Vec::new(),
            next_params: Vec::new(),
        }
    }

    /// The fetch to perform next: one exists exactly while the run is in
    /// `Fetching`, so a run that reached `Done` or `Failed` asks for
    /// nothing further, whatever else is fed in.
    pub fn next_request(&self) -> (r: Option<FetchRequest>)
        ensures
            r is Some <==> self.state == RunState::Fetching,
            self.state == RunState::Fetching && self.pages_fetched == 0 ==> (r
                matches Some(FetchRequest::First { keyword }) && keyword@ == self.keyword@),
            self.state == RunState::Fetching && self.pages_fetched > 0 ==> (r
                matches Some(FetchRequest::Continuation { params }) && pviews(params@)
                == pviews(self.next_params@)),
    {
        match self.state {
            RunState::Fetching => {
                if self.pages_fetched == 0 {
                    Some(FetchRequest::First { keyword: self.keyword.clone() })
                } else {
                    Some(FetchRequest::Continuation { params: clone_params(&self.next_params) })
                }
            },
            _ => None,
        }
    }

    /// Feeds one fetched page in: its listings are appended in page order,
    /// and the run continues exactly when the page links a next page —
    /// a page without the link ends the run, however long the chain was.
    pub fn on_page(&mut self, body: &str, now: i64)
        requires
            old(self).state == RunState::Fetching,
            old(self).pages_fetched < usize::MAX,
        ensures
            final(self).keyword == old(self).keyword,
            final(self).pages_fetched == old(self).pages_fetched + 1,
            lviews(final(self).listings@) == lviews(old(self).listings@) + listings_from(
                body@,
                0,
                now as int,
            ),
            match continuation_of(body@) {
                Some(ps) => final(self).state == RunState::Fetching && pviews(
                    final(self).next_params@,
                ) == ps,
                None => final(self).state == RunState::Done,
            },
    {
        let ghost ls0 = self.listings@;
        let mut page_listings = crate::extract::extract_listings(body, now);
        self.listings.append(&mut page_listings);
        proof {
            assert(lviews(self.listings@) =~= lviews(ls0) + listings_from(
                body@,
                0,
                now as int,
            ));
        }
        match next_href_exec(body) {
            None => {
                self.state = RunState::Done;
            },
            Some(href) => {
                let qp = query_part_exec(href.as_str());
                self.next_params = parse_params(qp.as_str());
            },
        }
        self.pages_fetched = self.pages_fetched + 1;
    }

    /// Feeds one failed fetch in: the run ends in `Failed`, keeping what
    /// was gathered before the failure.
    pub fn on_fetch_error(&mut self)
        requires
            old(self).state == RunState::Fetching,
        ensures
            final(self).state == RunState::Failed,
            final(self).pages_fetched == old(self).pages_fetched,
            final(self).keyword == old(self).keyword,
            final(self).listings == old(self).listings,
    {
        self.state = RunState::Failed;
    }

    /// The run's outcome, once it is terminal.  A failure before any page
    /// came back is the query's `FetchError`; otherwise the gathered
    /// listings come out reversed, so the whole result reads oldest first
    /// even though the site serves each page newest first.
    pub fn into_result(self) -> (r: Result<Vec<Listing>, FetchError>)
        requires
            self.state != RunState::Fetching,
        ensures
            self.state == RunState::Failed && self.pages_fetched == 0 ==> r == Err::<
                Vec<Listing>,
                FetchError,
            >(FetchError),
            !(self.state == RunState::Failed && self.pages_fetched == 0) ==> (r matches Ok(ls)
                && lviews(ls@) == lviews(self.listings@).reverse()),
    {
        if matches!(self.state, RunState::Failed) && self.pages_fetched == 0 {
            return Err(FetchError);
        }
        let ghost orig = self.listings@;
        let mut src = self.listings;
        let mut out: Vec<Listing> = Vec::new();
        loop
            invariant
                src@ == orig.subrange(0, src@.len() as int),
                src@.len() + out@.len() == orig.len(),
                forall|k: int|
                    0 <= k < out@.len() ==> (#[trigger] out@[k]) == orig[orig.len() - 1 - k],
            decreases src@.len(),
        {
            let ghost src0 = src@;
            match src.pop() {
                None => {
                    proof {
                        assert(lviews(out@) =~= lviews(orig).reverse());
                    }
                    return Ok(out);
                },
                Some(l) => {
                    proof {
                        assert(l == orig[src0.len() - 1]);
                    }
                    out.push(l);
                },
            }
        }
    }
}

/// Everything after the first `?` of a link target.
pub fn query_part_exec(href: &str) -> (r: String)
    ensures
        r@ == query_part(href@),
{
    let hlen = href.unicode_len();
    proof {
        reveal_strlit("?");
    }
    match crate::text::find_from(href, "?", 0) {
        None => String::new(),
        Some(p) => crate::text::substring_string(href, p + 1, hlen),
    }
}

} // verus!
