use vstd::prelude::*;
use crate::model::{Package, PpsError, Timestamp};

verus! {

/// Marks one entry of a results page.
pub const SNIPPET_SELECTOR: &'static str = "a.package-snippet";

/// Holds an entry's name.
pub const NAME_SELECTOR: &'static str = "span.package-snippet__name";

/// Holds an entry's version.
pub const VERSION_SELECTOR: &'static str = "span.package-snippet__version";

/// Holds an entry's release; the timestamp sits in a nested time element.
pub const RELEASE_SELECTOR: &'static str = "span.package-snippet__released";

/// Holds an entry's description.
pub const DESCRIPTION_SELECTOR: &'static str = "p.package-snippet__description";

/// The time element inside the release element.
pub const TIME_SELECTOR: &'static str = "time";

/// The machine-readable attribute of the time element.
pub const DATETIME_ATTR: &'static str = "datetime";

/// How many elements of the fragment `markup` the selector `selector`
/// matches; none when it is not a valid selector.
pub uninterp spec fn fragment_match_count(markup: Seq<char>, selector: Seq<char>) -> nat;

/// How many elements of the document `markup` the selector `selector`
/// matches; none when it is not a valid selector.
pub uninterp spec fn document_match_count(markup: Seq<char>, selector: Seq<char>) -> nat;

/// In the fragment `markup`: the value of attribute `attr` on the first
/// element matching `time` inside the first element matching `release`.
pub uninterp spec fn fragment_release_attr(markup: Seq<char>, release: Seq<char>, time: Seq<char>, attr: Seq<char>) -> Option<Seq<char>>;

/// In the document `markup`, for each element matching `entry` in the order
/// that the document's elements were created: the value of attribute `attr`
/// on the first element matching `time` inside the entry's first element
/// matching `release`.
pub uninterp spec fn entry_release_attrs(
    markup: Seq<char>,
    entry: Seq<char>,
    release: Seq<char>,
    time: Seq<char>,
    attr: Seq<char>,
) -> Seq<Option<Seq<char>>>;

/// The UTC instant that an RFC 3339 style timestamp denotes, as seconds
/// since the epoch and nanoseconds; `None` when the text is not one.
pub uninterp spec fn utc_instant(text: Seq<char>) -> Option<(i64, u32)>;

/// Relies on scraper: `Html::parse_fragment` on `markup`, `Selector::parse`
/// on `selector`, and `ElementRef::inner_html` of each element that
/// `Html::select` yields. The serialized attributes come out in no fixed
/// order, so only the number of results is stated.
#[verifier::external_body]
fn select_inner_html(markup: &str, selector: &str) -> (r: Vec<String>)
    ensures
        r@.len() == fragment_match_count(markup@, selector@),
{
    match scraper::Selector::parse(selector) {
        Ok(sel) => scraper::Html::parse_fragment(markup).select(&sel).map(|e| e.inner_html()).collect(),
        Err(_) => Vec::new(),
    }
}

/// Relies on scraper: `Html::parse_fragment` on `markup`, `Selector::parse`,
/// the first element of `Html::select` for `release`, the first of
/// `ElementRef::select` inside it for `time`, and `Element::attr`.
#[verifier::external_body]
fn select_release_attr(markup: &str, release: &str, time: &str, attr: &str) -> (r: Option<String>)
    ensures
        r.deep_view() == fragment_release_attr(markup@, release@, time@, attr@),
{
    let (rs, ts) = match (scraper::Selector::parse(release), scraper::Selector::parse(time)) {
        (Ok(rs), Ok(ts)) => (rs, ts),
        _ => return None,
    };
    scraper::Html::parse_fragment(markup)
        .select(&rs)
        .next()
        .and_then(|r| r.select(&ts).next())
        .and_then(|t| t.value().attr(attr).map(String::from))
}

/// Relies on scraper: `Html::parse_document` on `markup`, `Selector::parse`,
/// and for each element that `Html::select` yields for `entry`, the
/// `ElementRef::inner_html` of each element that `ElementRef::select` yields
/// for `field`. Only the number of entries is stated.
#[verifier::external_body]
pub(crate) fn entry_fields(markup: &str, entry: &str, field: &str) -> (r: Vec<Vec<String>>)
    ensures
        r@.len() == document_match_count(markup@, entry@),
{
    let fs = scraper::Selector::parse(field).ok();
    match scraper::Selector::parse(entry) {
        Ok(es) => scraper::Html::parse_document(markup)
            .select(&es)
            .map(|e| fs.iter().flat_map(|f| e.select(f).map(|x| x.inner_html())).collect())
            .collect(),
        Err(_) => Vec::new(),
    }
}

/// Relies on scraper: `Html::parse_document` on `markup`, `Selector::parse`,
/// and for each element that `Html::select` yields for `entry`, the first
/// element of `ElementRef::select` for `release`, the first inside that for
/// `time`, and `Element::attr`.
#[verifier::external_body]
pub(crate) fn entry_release_attr(markup: &str, entry: &str, release: &str, time: &str, attr: &str) -> (r: Vec<Option<String>>)
    ensures
        r.deep_view() == entry_release_attrs(markup@, entry@, release@, time@, attr@),
        r@.len() == document_match_count(markup@, entry@),
{
    let (rs, ts) = (scraper::Selector::parse(release).ok(), scraper::Selector::parse(time).ok());
    match scraper::Selector::parse(entry) {
        Ok(es) => scraper::Html::parse_document(markup)
            .select(&es)
            .map(|e| {
                let r = rs.as_ref().and_then(|rs| e.select(rs).next());
                let t = r.and_then(|r| ts.as_ref().and_then(|ts| r.select(ts).next()));
                t.and_then(|t| t.value().attr(attr).map(String::from))
            })
            .collect(),
        Err(_) => Vec::new(),
    }
}

/// Relies on chrono's `FromStr` for `DateTime<Utc>`, read back with
/// `timestamp` and `timestamp_subsec_nanos`.
#[verifier::external_body]
fn parse_utc(text: &str) -> (r: Option<(i64, u32)>)
    ensures
        r == utc_instant(text@),
{
    text.parse::<chrono::DateTime<chrono::Utc>>().ok().map(|t| (t.timestamp(), t.timestamp_subsec_nanos()))
}

/// The first of `s`, or the empty text when there is none.
pub open spec fn first_or_empty(s: Seq<Seq<char>>) -> Seq<char> {
    if s.len() > 0 {
        s[0]
    } else {
        Seq::empty()
    }
}

/// The instant that a release's `datetime` attribute denotes, if it is
/// present and readable.
pub open spec fn instant_of(datetime: Option<Seq<char>>) -> Option<Timestamp> {
    match datetime {
        Some(text) => match utc_instant(text) {
            Some((secs, nanos)) => Some(Timestamp { secs, nanos }),
            None => None,
        },
        None => None,
    }
}

/// The release of the entry `fragment`: the `datetime` attribute of the
/// first time element inside the first release element, read as a UTC instant.
pub open spec fn release_of(fragment: Seq<char>) -> Option<Timestamp> {
    instant_of(fragment_release_attr(fragment, RELEASE_SELECTOR@, TIME_SELECTOR@, DATETIME_ATTR@))
}

/// `p` is the package made of the texts found in an entry: the first name,
/// version and description found, each empty where none was, and the
/// release that `datetime` denotes.
pub open spec fn built_from(
    names: Seq<Seq<char>>,
    versions: Seq<Seq<char>>,
    descriptions: Seq<Seq<char>>,
    datetime: Option<Seq<char>>,
    p: Package,
) -> bool {
    &&& p.name@ == first_or_empty(names)
    &&& p.version@ == first_or_empty(versions)
    &&& p.description@ == first_or_empty(descriptions)
    &&& instant_of(datetime) == Some(p.release)
    &&& p.installed is None
    &&& p.downloads is None
}

fn first_text(found: &Vec<String>) -> (r: String)
    ensures
        r@ == first_or_empty(found.deep_view()),
{
    if found.len() == 0 {
        String::new()
    } else {
        assert(found[0]@ == found.deep_view()[0]);
        found[0].clone()
    }
}

fn read_instant(datetime: &Option<String>) -> (r: Option<Timestamp>)
    ensures
        r == instant_of(datetime.deep_view()),
{
    match datetime {
        Some(text) => match parse_utc(text.as_str()) {
            Some((secs, nanos)) => Some(Timestamp { secs, nanos }),
            None => None,
        },
        None => None,
    }
}

impl Package {
    /// Builds the package of one search-result entry from the texts found in
    /// it: the name, version and description elements found (the first of
    /// each is taken, the empty text where there is none) and the release's
    /// `datetime` attribute, which must be a readable timestamp.
    pub fn from_parts(
        names: &Vec<String>,
        versions: &Vec<String>,
        descriptions: &Vec<String>,
        datetime: &Option<String>,
    ) -> (r: Result<Package, PpsError>)
        ensures
            r is Ok <==> instant_of(datetime.deep_view()) is Some,
            r matches Ok(p) ==> built_from(
                names.deep_view(),
                versions.deep_view(),
                descriptions.deep_view(),
                datetime.deep_view(),
                p,
            ),
            r matches Err(e) ==> e == PpsError::Extraction,
    {
        let release = match read_instant(datetime) {
            Some(t) => t,
            None => return Err(PpsError::Extraction),
        };
        Ok(Package {
            name: first_text(names),
            installed: None,
            version: first_text(versions),
            release,
            description: first_text(descriptions),
            downloads: None,
        })
    }

    /// Extracts the package that one search-result entry describes. Name,
    /// version and description fall back to the empty text; an entry without
    /// a readable release timestamp is refused.
    pub fn from_fragment(fragment: &str) -> (r: Result<Package, PpsError>)
        ensures
            r is Ok <==> release_of(fragment@) is Some,
            r matches Ok(p) ==> {
                &&& release_of(fragment@) == Some(p.release)
                &&& p.installed is None && p.downloads is None
                &&& fragment_match_count(fragment@, NAME_SELECTOR@) == 0 ==> p.name@.len() == 0
                &&& fragment_match_count(fragment@, VERSION_SELECTOR@) == 0 ==> p.version@.len() == 0
                &&& fragment_match_count(fragment@, DESCRIPTION_SELECTOR@) == 0 ==> p.description@.len() == 0
            },
            r matches Err(e) ==> e == PpsError::Extraction,
    {
        let datetime = select_release_attr(fragment, RELEASE_SELECTOR, TIME_SELECTOR, DATETIME_ATTR);
        let names = select_inner_html(fragment, NAME_SELECTOR);
        let versions = select_inner_html(fragment, VERSION_SELECTOR);
        let descriptions = select_inner_html(fragment, DESCRIPTION_SELECTOR);
        Package::from_parts(&names, &versions, &descriptions, &datetime)
    }
}

} // verus!
