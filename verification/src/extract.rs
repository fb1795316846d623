//! The listing extractor: parses one HTML search-results page into
//! structured listings, in document order, without ever failing.
//!
//! The page grammar is textual: a result container starts at each
//! occurrence of the container marker and runs to the next one.  Within a
//! container the title anchor supplies the title text and the relative
//! link, and two labeled `DD.MM.YYYY HH:MM` datetimes supply the posted and
//! updated instants; a missing datetime degrades to the extraction time
//! instead of failing the page.

use vstd::prelude::*;
use crate::dates::{dt_epoch_at, find_labeled_dt};
use crate::text::find_at_or_after;

verus! {

/// One marketplace result.  Immutable once produced; consumed by the
/// notifier and then discarded, never persisted.
#[derive(Debug)]
pub struct Listing {
    pub title: String,
    /// Absolute link to the listing.
    pub url: String,
    /// Unix seconds the listing was posted at.
    pub posted_at: i64,
    /// Unix seconds the listing was last updated at.
    pub updated_at: i64,
}

/// The mathematical value of a [`Listing`].
pub struct ListingView {
    pub title: Seq<char>,
    pub url: Seq<char>,
    pub posted_at: int,
    pub updated_at: int,
}

impl View for Listing {
    type V = ListingView;

    open spec fn view(&self) -> ListingView {
        ListingView {
            title: self.title@,
            url: self.url@,
            posted_at: self.posted_at as int,
            updated_at: self.updated_at as int,
        }
    }
}

/// The views of a vector of listings.
pub open spec fn lviews(ls: Seq<Listing>) -> Seq<ListingView> {
    ls.map_values(|l: Listing| l@)
}

/// Marks the start of one result container.
pub open spec fn container_mark() -> Seq<char> {
    "class=\"bg2\""@
}

/// Marks the title anchor inside a container.
pub open spec fn title_mark() -> Seq<char> {
    "class=\"tori_title\""@
}

/// Opens an anchor's link target.
pub open spec fn href_mark() -> Seq<char> {
    "href=\""@
}

/// Closes a quoted attribute value.
pub open spec fn quote_mark() -> Seq<char> {
    "\""@
}

/// Closes a tag.
pub open spec fn gt_mark() -> Seq<char> {
    ">"@
}

/// Opens a tag.
pub open spec fn lt_mark() -> Seq<char> {
    "<"@
}

/// Labels the posted-at datetime.
pub open spec fn added_label() -> Seq<char> {
    "Lisätty: "@
}

/// Labels the updated-at datetime.
pub open spec fn updated_label() -> Seq<char> {
    "Muokattu: "@
}

/// The site root that relative listing links are resolved against.
pub open spec fn site_prefix() -> Seq<char> {
    "https://muusikoiden.net"@
}

/// Where the container that starts at `c` ends: at the next container
/// marker, or at the end of the page.
pub open spec fn container_end(s: Seq<char>, c: int) -> int {
    match find_at_or_after(s, container_mark(), c + 1) {
        None => s.len() as int,
        Some(n) => n,
    }
}

/// The timestamp one labeled datetime inside the container `[lo, end)`
/// yields: the first labeled match starting in the container, converted
/// through the calendar; a missing label or an impossible date degrades to
/// the extraction instant `now`.
pub open spec fn date_field(s: Seq<char>, label: Seq<char>, lo: int, end: int, now: int) -> int {
    match find_labeled_dt(s, label, lo) {
        Some(p) => if p < end {
            match dt_epoch_at(s, p + label.len()) {
                Some(t) => t,
                None => now,
            }
        } else {
            now
        },
        None => now,
    }
}

/// The listing the container `[c, end)` holds, if its title anchor is
/// complete: a title marker, then a link with a non-empty target, then the
/// anchor text up to the next tag.  A container without one yields nothing
/// rather than an error.
pub open spec fn listing_in(s: Seq<char>, c: int, end: int, now: int) -> Option<ListingView> {
    match find_at_or_after(s, title_mark(), c) {
        None => None,
        Some(t) => if t < end {
            match find_at_or_after(s, href_mark(), t) {
                None => None,
                Some(h) => if h < end {
                    let us = h + href_mark().len();
                    match find_at_or_after(s, quote_mark(), us) {
                        None => None,
                        Some(q) => if us < q && q < end {
                            match find_at_or_after(s, gt_mark(), q) {
                                None => None,
                                Some(g) => if g < end {
                                    match find_at_or_after(s, lt_mark(), g + 1) {
                                        None => None,
                                        Some(lt) => if lt < end {
                                            Some(
                                                ListingView {
                                                    title: s.subrange(g + 1, lt),
                                                    url: site_prefix() + s.subrange(us, q),
                                                    posted_at: date_field(
                                                        s,
                                                        added_label(),
                                                        c,
                                                        end,
                                                        now,
                                                    ),
                                                    updated_at: date_field(
                                                        s,
                                                        updated_label(),
                                                        c,
                                                        end,
                                                        now,
                                                    ),
                                                },
                                            )
                                        } else {
                                            None
                                        },
                                    }
                                } else {
                                    None
                                },
                            }
                        } else {
                            None
                        },
                    }
                } else {
                    None
                },
            }
        } else {
            None
        },
    }
}

/// Every listing of the page from position `from` on: one container at a
/// time, in document order.
pub open spec fn listings_from(s: Seq<char>, from: int, now: int) -> Seq<ListingView>
    decreases s.len() - from,
    via listings_from_dec
{
    match find_at_or_after(s, container_mark(), from) {
        None => Seq::empty(),
        Some(c) => {
            let end = container_end(s, c);
            let rest = listings_from(s, end, now);
            match listing_in(s, c, end, now) {
                Some(l) => seq![l] + rest,
                None => rest,
            }
        },
    }
}

#[via_fn]
proof fn listings_from_dec(s: Seq<char>, from: int, now: int) {
    reveal_strlit("class=\"bg2\"");
    crate::text::lemma_find_at_or_after(s, container_mark(), from);
    match find_at_or_after(s, container_mark(), from) {
        None => {},
        Some(c) => {
            crate::text::lemma_find_at_or_after(s, container_mark(), c + 1);
        },
    }
}

/// Computes one labeled timestamp of the container `[lo, end)`.
fn date_field_exec(s: &str, label: &str, lo: usize, end: usize, now: i64) -> (r: i64)
    ensures
        r as int == date_field(s@, label@, lo as int, end as int, now as int),
{
    let slen = s.unicode_len();
    match crate::dates::find_labeled_dt_exec(s, label, lo) {
        None => now,
        Some(p) => {
            if p < end {
                let llen = label.unicode_len();
                match crate::dates::dt_epoch_at_exec(s, p + llen) {
                    Some(t) => t,
                    None => now,
                }
            } else {
                now
            }
        },
    }
}

/// Parses the listing of one container, if its title anchor is complete.
fn parse_listing(page: &str, c: usize, end: usize, now: i64) -> (r: Option<Listing>)
    requires
        end as int <= page@.len(),
    ensures
        match r {
            Some(l) => listing_in(page@, c as int, end as int, now as int) == Some(l@),
            None => listing_in(page@, c as int, end as int, now as int) is None,
        },
{
    let slen = page.unicode_len();
    proof {
        reveal_strlit("href=\"");
        reveal_strlit("\"");
        reveal_strlit(">");
        reveal_strlit("<");
    }
    let t = match crate::text::find_from(page, "class=\"tori_title\"", c) {
        None => {
            return None;
        },
        Some(t) => t,
    };
    if t >= end {
        return None;
    }
    let h = match crate::text::find_from(page, "href=\"", t) {
        None => {
            return None;
        },
        Some(h) => h,
    };
    if h >= end {
        return None;
    }
    let us = h + 6;
    proof {
        assert(us as int == h as int + href_mark().len());
    }
    let q = match crate::text::find_from(page, "\"", us) {
        None => {
            return None;
        },
        Some(q) => q,
    };
    if !(us < q && q < end) {
        return None;
    }
    let g = match crate::text::find_from(page, ">", q) {
        None => {
            return None;
        },
        Some(g) => g,
    };
    if g >= end {
        return None;
    }
    let lt = match crate::text::find_from(page, "<", g + 1) {
        None => {
            return None;
        },
        Some(lt) => lt,
    };
    if lt >= end {
        return None;
    }
    let title = crate::text::substring_string(page, g + 1, lt);
    let path = page.substring_char(us, q);
    let url = String::from_str("https://muusikoiden.net").concat(path);
    let posted_at = date_field_exec(page, "Lisätty: ", c, end, now);
    let updated_at = date_field_exec(page, "Muokattu: ", c, end, now);
    Some(Listing { title, url, posted_at, updated_at })
}

/// Parses one whole results page into its listings, container by container
/// in document order.  A malformed page never fails: unusable containers
/// are skipped and a page without containers gives an empty vector.
pub fn extract_listings(page: &str, now: i64) -> (r: Vec<Listing>)
    ensures
        lviews(r@) == listings_from(page@, 0, now as int),
{
    let ghost now_ = now as int;
    let slen = page.unicode_len();
    proof {
        reveal_strlit("class=\"bg2\"");
    }
    let mut listings: Vec<Listing> = Vec::new();
    let mut pos: usize = 0;
    proof {
        assert(lviews(listings@) + listings_from(page@, 0, now_) =~= listings_from(
            page@,
            0,
            now_,
        ));
    }
    loop
        invariant
            pos <= slen,
            slen == page@.len(),
            lviews(listings@) + listings_from(page@, pos as int, now_) == listings_from(
                page@,
                0,
                now_,
            ),
        decreases slen - pos,
    {
        match crate::text::find_from(page, "class=\"bg2\"", pos) {
            None => {
                proof {
                    assert(listings_from(page@, pos as int, now_) =~= Seq::<
                        ListingView,
                    >::empty());
                    assert(lviews(listings@) =~= listings_from(page@, 0, now_));
                }
                return listings;
            },
            Some(c) => {
                proof {
                    crate::text::lemma_find_at_or_after(page@, container_mark(), pos as int);
                }
                let end = match crate::text::find_from(page, "class=\"bg2\"", c + 1) {
                    None => slen,
                    Some(n) => n,
                };
                proof {
                    assert(container_end(page@, c as int) == end as int);
                }
                let ghost listings0 = listings@;
                match parse_listing(page, c, end, now) {
                    Some(l) => {
                        listings.push(l);
                        proof {
                            assert(lviews(listings@) =~= lviews(listings0).push(
                                listings@.last()@,
                            ));
                            assert(lviews(listings@) + listings_from(page@, end as int, now_)
                                =~= listings_from(page@, 0, now_));
                        }
                    },
                    None => {
                        proof {
                            assert(lviews(listings@) + listings_from(page@, end as int, now_)
                                =~= listings_from(page@, 0, now_));
                        }
                    },
                }
                pos = end;
            },
        }
    }
}

/// Law: a page without a single container marker yields an empty
/// extraction, not an error.
pub proof fn lemma_no_containers_empty(s: Seq<char>, now: int)
    requires
        find_at_or_after(s, container_mark(), 0) is None,
    ensures
        listings_from(s, 0, now) == Seq::<ListingView>::empty(),
{
}

} // verus!
