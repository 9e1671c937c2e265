use vstd::prelude::*;
use crate::extract::{
    built_from, entry_fields, entry_release_attr, entry_release_attrs, instant_of, DATETIME_ATTR,
    DESCRIPTION_SELECTOR, NAME_SELECTOR, RELEASE_SELECTOR, SNIPPET_SELECTOR, TIME_SELECTOR,
    VERSION_SELECTOR,
};
use crate::model::{Package, PpsError};

verus! {

/// The release `datetime` attribute of each entry of one results page.
pub open spec fn page_releases(body: Seq<char>) -> Seq<Option<Seq<char>>> {
    entry_release_attrs(body, SNIPPET_SELECTOR@, RELEASE_SELECTOR@, TIME_SELECTOR@, DATETIME_ATTR@)
}

/// The release attributes of the entries of all received pages, page after
/// page. A page that failed to arrive contributes none.
pub open spec fn releases_of_pages(pages: Seq<Result<String, String>>) -> Seq<Option<Seq<char>>>
    decreases pages.len(),
{
    if pages.len() == 0 {
        Seq::empty()
    } else {
        releases_of_pages(pages.drop_last()) + match pages.last() {
            Ok(body) => page_releases(body@),
            Err(_) => Seq::empty(),
        }
    }
}

/// The page arrived and every one of its entries has a readable release.
pub open spec fn page_ok(page: Result<String, String>) -> bool {
    match page {
        Ok(body) => forall|i: int| 0 <= i < page_releases(body@).len() ==> (#[trigger] instant_of(page_releases(body@)[i])) is Some,
        Err(_) => false,
    }
}

/// `e` is the error that the failed page `page` calls for.
pub open spec fn page_error(page: Result<String, String>, e: PpsError) -> bool {
    match page {
        Ok(_) => e == PpsError::Extraction,
        Err(msg) => e matches PpsError::Transport(m) && m@ == msg@,
    }
}

/// The texts found in one entry of a results page: every name, version and
/// description element's inner markup, and the release's `datetime` attribute.
#[derive(Clone, Debug)]
pub struct EntryFields {
    pub names: Vec<String>,
    pub versions: Vec<String>,
    pub descriptions: Vec<String>,
    pub datetime: Option<String>,
}

/// `p` is the package that the entry `e` describes.
pub open spec fn entry_built(e: EntryFields, p: Package) -> bool {
    built_from(e.names.deep_view(), e.versions.deep_view(), e.descriptions.deep_view(), e.datetime.deep_view(), p)
}

/// The entries of all received pages, page after page. A page that failed
/// to arrive contributes none.
pub open spec fn entries_of_pages(pages: Seq<Result<Vec<EntryFields>, String>>) -> Seq<EntryFields>
    decreases pages.len(),
{
    if pages.len() == 0 {
        Seq::empty()
    } else {
        entries_of_pages(pages.drop_last()) + match pages.last() {
            Ok(entries) => entries@,
            Err(_) => Seq::empty(),
        }
    }
}

/// The page arrived and every one of its entries has a readable release.
pub open spec fn fields_page_ok(page: Result<Vec<EntryFields>, String>) -> bool {
    match page {
        Ok(entries) => forall|i: int| 0 <= i < entries@.len() ==> (#[trigger] instant_of(entries@[i].datetime.deep_view())) is Some,
        Err(_) => false,
    }
}

/// `e` is the error that the failed page `page` calls for.
pub open spec fn fields_page_error(page: Result<Vec<EntryFields>, String>, e: PpsError) -> bool {
    match page {
        Ok(_) => e == PpsError::Extraction,
        Err(msg) => e matches PpsError::Transport(m) && m@ == msg@,
    }
}

/// The packages of a search from the texts found on its pages, in page
/// order, each page either its entries or the message of the transport
/// failure that stopped it. Packages come out page after page and entry
/// after entry. The first page, in page order, that failed to arrive or
/// holds an entry without a readable release makes the whole search fail.
pub fn packages_of_pages(pages: &Vec<Result<Vec<EntryFields>, String>>) -> (r: Result<Vec<Package>, PpsError>)
    ensures
        r is Ok <==> forall|k: int| 0 <= k < pages@.len() ==> fields_page_ok(#[trigger] pages@[k]),
        r matches Ok(ps) ==> ps@.len() == entries_of_pages(pages@).len() && forall|i: int|
            0 <= i < ps@.len() ==> entry_built(entries_of_pages(pages@)[i], #[trigger] ps@[i]),
        r matches Err(e) ==> exists|k: int|
            0 <= k < pages@.len() && !fields_page_ok(#[trigger] pages@[k]) && fields_page_error(pages@[k], e)
                && forall|m: int| 0 <= m < k ==> fields_page_ok(#[trigger] pages@[m]),
{
    let mut out: Vec<Package> = Vec::new();
    let mut k: usize = 0;
    while k < pages.len()
        invariant
            0 <= k <= pages@.len(),
            forall|m: int| 0 <= m < k ==> fields_page_ok(#[trigger] pages@[m]),
            out@.len() == entries_of_pages(pages@.take(k as int)).len(),
            forall|i: int| 0 <= i < out@.len() ==> entry_built(entries_of_pages(pages@.take(k as int))[i], #[trigger] out@[i]),
        decreases pages@.len() - k,
    {
        let ghost prefix = entries_of_pages(pages@.take(k as int));
        assert(pages@.take(k + 1).drop_last() =~= pages@.take(k as int));
        assert(pages@.take(k + 1).last() == pages@[k as int]);
        match &pages[k] {
            Err(msg) => {
                assert(!fields_page_ok(pages@[k as int]));
                return Err(PpsError::Transport(msg.clone()));
            },
            Ok(entries) => {
                assert(pages@[k as int] == Ok::<Vec<EntryFields>, String>(*entries));
                let ghost base = out@.len();
                let mut j: usize = 0;
                while j < entries.len()
                    invariant
                        0 <= j <= entries@.len(),
                        k < pages@.len(),
                        pages@[k as int] == Ok::<Vec<EntryFields>, String>(*entries),
                        forall|m: int| 0 <= m < k ==> fields_page_ok(#[trigger] pages@[m]),
                        base == prefix.len(),
                        out@.len() == base + j,
                        forall|i: int| 0 <= i < base + j ==> entry_built((prefix + entries@)[i], #[trigger] out@[i]),
                        forall|i: int| 0 <= i < j ==> (#[trigger] instant_of(entries@[i].datetime.deep_view())) is Some,
                    decreases entries@.len() - j,
                {
                    let e = &entries[j];
                    match Package::from_parts(&e.names, &e.versions, &e.descriptions, &e.datetime) {
                        Ok(p) => {
                            out.push(p);
                        },
                        Err(err) => {
                            assert(instant_of(entries@[j as int].datetime.deep_view()) is None);
                            assert(!fields_page_ok(pages@[k as int]));
                            return Err(err);
                        },
                    }
                    j += 1;
                }
                assert(entries_of_pages(pages@.take(k + 1)) == prefix + entries@);
            },
        }
        k += 1;
    }
    assert(pages@.take(pages@.len() as int) =~= pages@);
    Ok(out)
}

/// `fields` is what was found on the received page `page`: as many entries
/// as the page has, each with the page's release attribute for it, or the
/// same transport failure.
pub open spec fn fields_match(page: Result<String, String>, fields: Result<Vec<EntryFields>, String>) -> bool {
    match (page, fields) {
        (Ok(body), Ok(entries)) => entries@.len() == page_releases(body@).len() && forall|i: int|
            0 <= i < entries@.len() ==> (#[trigger] entries@[i]).datetime.deep_view() == page_releases(body@)[i],
        (Err(m), Err(n)) => m == n,
        _ => false,
    }
}

proof fn lemma_fields_match_releases(pages: Seq<Result<String, String>>, fields: Seq<Result<Vec<EntryFields>, String>>)
    requires
        pages.len() == fields.len(),
        forall|k: int| 0 <= k < pages.len() ==> fields_match(#[trigger] pages[k], fields[k]),
    ensures
        entries_of_pages(fields).len() == releases_of_pages(pages).len(),
        forall|i: int| 0 <= i < entries_of_pages(fields).len() ==> (#[trigger] entries_of_pages(fields)[i]).datetime.deep_view()
            == releases_of_pages(pages)[i],
    decreases pages.len(),
{
    if pages.len() > 0 {
        let n = pages.len() - 1;
        assert forall|k: int| 0 <= k < n implies fields_match(#[trigger] pages.drop_last()[k], fields.drop_last()[k]) by {
            assert(fields_match(pages[k], fields[k]));
        }
        lemma_fields_match_releases(pages.drop_last(), fields.drop_last());
        assert(fields_match(pages[n], fields[n]));
        assert(pages.last() == pages[n] && fields.last() == fields[n]);
    }
}

/// The packages of a search, from its pages in page order, each page either
/// its markup or the message of the transport failure that stopped it. The
/// texts of each entry are found on the page and handed to
/// `packages_of_pages`. Entries come out page after page and, within a page,
/// in the order in which the page's elements were created.
pub fn collect_pages(pages: &Vec<Result<String, String>>) -> (r: Result<Vec<Package>, PpsError>)
    ensures
        r is Ok <==> forall|k: int| 0 <= k < pages@.len() ==> page_ok(#[trigger] pages@[k]),
        r matches Ok(ps) ==> ps@.len() == releases_of_pages(pages@).len() && forall|i: int|
            0 <= i < ps@.len() ==> {
                &&& instant_of(releases_of_pages(pages@)[i]) == Some((#[trigger] ps@[i]).release)
                &&& ps@[i].installed is None && ps@[i].downloads is None
            },
        r matches Err(e) ==> exists|k: int|
            0 <= k < pages@.len() && !page_ok(#[trigger] pages@[k]) && page_error(pages@[k], e)
                && forall|m: int| 0 <= m < k ==> page_ok(#[trigger] pages@[m]),
{
    let mut found: Vec<Result<Vec<EntryFields>, String>> = Vec::new();
    let mut k: usize = 0;
    while k < pages.len()
        invariant
            0 <= k <= pages@.len(),
            found@.len() == k,
            forall|m: int| 0 <= m < k ==> fields_match(#[trigger] pages@[m], found@[m]),
        decreases pages@.len() - k,
    {
        match &pages[k] {
            Err(msg) => {
                found.push(Err(msg.clone()));
            },
            Ok(body) => {
                let b = body.as_str();
                let mut names = entry_fields(b, SNIPPET_SELECTOR, NAME_SELECTOR);
                let mut versions = entry_fields(b, SNIPPET_SELECTOR, VERSION_SELECTOR);
                let mut descriptions = entry_fields(b, SNIPPET_SELECTOR, DESCRIPTION_SELECTOR);
                let mut datetimes = entry_release_attr(b, SNIPPET_SELECTOR, RELEASE_SELECTOR, TIME_SELECTOR, DATETIME_ATTR);
                let ghost all = datetimes@;
                let ghost releases = datetimes.deep_view();
                let n = datetimes.len();
                let mut entries: Vec<EntryFields> = Vec::new();
                let mut j: usize = 0;
                while j < n
                    invariant
                        n == all.len(),
                        releases == page_releases(body@),
                        releases.len() == n,
                        forall|i: int| 0 <= i < n ==> releases[i] == (#[trigger] all[i]).deep_view(),
                        0 <= j <= n,
                        datetimes@ == all.skip(j as int),
                        names@.len() == n - j,
                        versions@.len() == n - j,
                        descriptions@.len() == n - j,
                        entries@.len() == j,
                        forall|i: int| 0 <= i < j ==> (#[trigger] entries@[i]).datetime.deep_view() == releases[i],
                    decreases n - j,
                {
                    let datetime = datetimes.remove(0);
                    assert(datetime == all[j as int]);
                    assert(datetimes@ =~= all.skip(j + 1));
                    let e = EntryFields {
                        names: names.remove(0),
                        versions: versions.remove(0),
                        descriptions: descriptions.remove(0),
                        datetime,
                    };
                    entries.push(e);
                    j += 1;
                }
                found.push(Ok(entries));
            },
        }
        assert(fields_match(pages@[k as int], found@[k as int]));
        k += 1;
    }
    proof {
        lemma_fields_match_releases(pages@, found@);
        assert forall|k: int| 0 <= k < pages@.len() implies (page_ok(#[trigger] pages@[k]) <==> fields_page_ok(found@[k])) by {
            assert(fields_match(pages@[k], found@[k]));
            if let (Ok(body), Ok(entries)) = (pages@[k], found@[k]) {
                if page_ok(pages@[k]) {
                    assert forall|i: int| 0 <= i < entries@.len() implies (#[trigger] instant_of(entries@[i].datetime.deep_view())) is Some by {
                        assert(entries@[i].datetime.deep_view() == page_releases(body@)[i]);
                        assert(instant_of(page_releases(body@)[i]) is Some);
                    }
                }
                if fields_page_ok(found@[k]) {
                    assert forall|i: int| 0 <= i < page_releases(body@).len() implies (#[trigger] instant_of(page_releases(body@)[i])) is Some by {
                        assert(entries@[i].datetime.deep_view() == page_releases(body@)[i]);
                        assert(instant_of(entries@[i].datetime.deep_view()) is Some);
                    }
                }
            }
        }
    }
    let r = packages_of_pages(&found);
    proof {
        if r is Err {
            let e = r->Err_0;
            let k = choose|k: int|
                0 <= k < found@.len() && !fields_page_ok(#[trigger] found@[k]) && fields_page_error(found@[k], e)
                    && forall|m: int| 0 <= m < k ==> fields_page_ok(#[trigger] found@[m]);
            assert(fields_match(pages@[k], found@[k]));
            assert(!page_ok(pages@[k]) && page_error(pages@[k], e));
            assert(forall|m: int| 0 <= m < k ==> page_ok(#[trigger] pages@[m]));
        }
    }
    r
}

/// Some response in `arrivals` is for page `k`.
pub open spec fn has_page(arrivals: Seq<(usize, Result<String, String>)>, k: int) -> bool {
    exists|i: int| 0 <= i < arrivals.len() && (#[trigger] arrivals[i]).0 == k
}

/// `arrivals` holds exactly one response for each page index below `count`.
pub open spec fn one_per_page(arrivals: Seq<(usize, Result<String, String>)>, count: nat) -> bool {
    &&& arrivals.len() == count
    &&& forall|i: int| 0 <= i < arrivals.len() ==> (#[trigger] arrivals[i]).0 < count
    &&& forall|i: int, j: int| 0 <= i < j < arrivals.len() ==> (#[trigger] arrivals[i]).0 != (#[trigger] arrivals[j]).0
    &&& forall|k: int| 0 <= k < count ==> #[trigger] has_page(arrivals, k)
}

/// `pages` puts each response of `arrivals` at the index of its page.
pub open spec fn arranged(arrivals: Seq<(usize, Result<String, String>)>, pages: Seq<Result<String, String>>, count: nat) -> bool {
    &&& pages.len() == count
    &&& forall|i: int| 0 <= i < arrivals.len() ==> pages[(#[trigger] arrivals[i]).0 as int] == arrivals[i].1
}

/// Puts page responses, tagged with their page index and in the order in
/// which they arrived, back in page order. Fails when `arrivals` does not
/// hold exactly one response for each page below `count`.
pub fn pages_in_order(arrivals: Vec<(usize, Result<String, String>)>, count: usize) -> (r: Option<Vec<Result<String, String>>>)
    ensures
        r is Some <==> one_per_page(arrivals@, count as nat),
        r matches Some(v) ==> arranged(arrivals@, v@, count as nat),
{
    let ghost orig = arrivals@;
    let n = arrivals.len();
    if n != count {
        return None;
    }
    let mut slots: Vec<Option<Result<String, String>>> = Vec::new();
    while slots.len() < count
        invariant
            slots@.len() <= count,
            forall|k: int| 0 <= k < slots@.len() ==> (#[trigger] slots@[k]) is None,
        decreases count - slots@.len(),
    {
        slots.push(None);
    }
    let mut pending = arrivals;
    let mut i: usize = 0;
    while i < n
        invariant
            orig == arrivals@,
            n == orig.len(),
            n == count,
            0 <= i <= n,
            pending@ == orig.take(n - i),
            slots@.len() == count,
            forall|m: int| n - i <= m < n ==> (#[trigger] orig[m]).0 < count,
            forall|m: int, q: int| n - i <= m < q < n ==> (#[trigger] orig[m]).0 != (#[trigger] orig[q]).0,
            forall|m: int| n - i <= m < n ==> slots@[(#[trigger] orig[m]).0 as int] == Some(orig[m].1),
            forall|k: int| 0 <= k < count && (#[trigger] slots@[k]) is Some ==> exists|m: int| n - i <= m < n && (#[trigger] orig[m]).0 == k,
        decreases n - i,
    {
        let (idx, response) = pending.pop().unwrap();
        let ghost p = n - 1 - i;
        assert(orig[p] == (idx, response));
        assert(pending@ =~= orig.take(n - i - 1));
        if idx >= count {
            assert(orig[p].0 >= count);
            assert(!one_per_page(orig, count as nat));
            return None;
        }
        if slots[idx].is_some() {
            let ghost m = choose|m: int| n - i <= m < n && (#[trigger] orig[m]).0 == idx;
            assert(orig[p].0 == orig[m].0 && p < m);
            assert(!one_per_page(orig, count as nat));
            return None;
        }
        slots[idx] = Some(response);
        i += 1;
    }
    let mut out: Vec<Result<String, String>> = Vec::new();
    let ghost filled = slots@;
    let mut k: usize = 0;
    while k < count
        invariant
            orig == arrivals@,
            n == orig.len(),
            n == count,
            0 <= k <= count,
            filled.len() == count,
            slots@ == filled.skip(k as int),
            out@.len() == k,
            forall|q: int| 0 <= q < k ==> filled[q] == Some(#[trigger] out@[q]),
            forall|m: int| 0 <= m < n ==> (#[trigger] orig[m]).0 < count,
            forall|m: int, q: int| 0 <= m < q < n ==> (#[trigger] orig[m]).0 != (#[trigger] orig[q]).0,
            forall|m: int| 0 <= m < n ==> filled[(#[trigger] orig[m]).0 as int] == Some(orig[m].1),
            forall|q: int| 0 <= q < k ==> #[trigger] has_page(orig, q),
            forall|q: int| 0 <= q < count && (#[trigger] filled[q]) is Some ==> exists|m: int| 0 <= m < n && (#[trigger] orig[m]).0 == q,
        decreases count - k,
    {
        assert(slots@[0] == filled[k as int]);
        match slots.remove(0) {
            Some(page) => {
                let ghost m = choose|m: int| 0 <= m < n && (#[trigger] orig[m]).0 == k;
                assert(has_page(orig, k as int));
                out.push(page);
            },
            None => {
                assert(filled[k as int] is None);
                assert(forall|m: int| 0 <= m < n ==> (#[trigger] orig[m]).0 != k);
                assert(!has_page(orig, k as int));
                assert(!one_per_page(orig, count as nat));
                return None;
            },
        }
        assert(slots@ =~= filled.skip(k + 1));
        k += 1;
    }
    proof {
        assert forall|m: int| 0 <= m < n implies out@[(#[trigger] orig[m]).0 as int] == orig[m].1 by {
            assert(filled[orig[m].0 as int] == Some(out@[orig[m].0 as int]));
        }
    }
    Some(out)
}

/// The order in which page responses arrive does not matter: two arrival
/// orders of the same responses are put into the same page order.
pub proof fn lemma_arrival_order_irrelevant(
    a: Seq<(usize, Result<String, String>)>,
    b: Seq<(usize, Result<String, String>)>,
    count: nat,
    v: Seq<Result<String, String>>,
    w: Seq<Result<String, String>>,
)
    requires
        a.to_multiset() == b.to_multiset(),
        one_per_page(a, count),
        arranged(a, v, count),
        arranged(b, w, count),
    ensures
        v == w,
{
    broadcast use vstd::seq_lib::group_to_multiset_ensures;
    assert forall|k: int| 0 <= k < count implies v[k] == w[k] by {
        assert(has_page(a, k));
        let i = choose|i: int| 0 <= i < a.len() && (#[trigger] a[i]).0 == k;
        assert(a.contains(a[i]));
        assert(a.to_multiset().count(a[i]) > 0);
        assert(b.contains(a[i]));
        let j = choose|j: int| 0 <= j < b.len() && b[j] == a[i];
        assert(w[b[j].0 as int] == b[j].1);
    }
    assert(v =~= w);
}

/// Page order is kept: the entries of pages `a` followed by pages `b` are
/// the entries of `a` followed by those of `b`.
pub proof fn lemma_pages_in_order(a: Seq<Result<Vec<EntryFields>, String>>, b: Seq<Result<Vec<EntryFields>, String>>)
    ensures
        entries_of_pages(a + b) == entries_of_pages(a) + entries_of_pages(b),
    decreases b.len(),
{
    if b.len() == 0 {
        assert(a + b =~= a);
        assert(entries_of_pages(a) + entries_of_pages(b) =~= entries_of_pages(a));
    } else {
        assert((a + b).drop_last() =~= a + b.drop_last());
        assert((a + b).last() == b.last());
        lemma_pages_in_order(a, b.drop_last());
        let tail = match b.last() {
            Ok(entries) => entries@,
            Err(_) => Seq::<EntryFields>::empty(),
        };
        assert(entries_of_pages(a) + entries_of_pages(b.drop_last()) + tail =~= entries_of_pages(a) + (
        entries_of_pages(b.drop_last()) + tail));
    }
}

} // verus!
