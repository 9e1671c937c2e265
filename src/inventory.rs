use vstd::prelude::*;
use crate::model::{LocalPackage, PpsError};

verus! {

/// Lines of the inventory listing that come before the first package.
pub const HEADER_LINES: usize = 2;

/// The lines of `text`, without their line endings.
pub uninterp spec fn text_lines(text: Seq<char>) -> Seq<Seq<char>>;

/// The whitespace-separated tokens of `text`.
pub uninterp spec fn whitespace_tokens(text: Seq<char>) -> Seq<Seq<char>>;

/// Relies on `str::lines`.
#[verifier::external_body]
fn split_lines(text: &str) -> (r: Vec<String>)
    ensures
        r.deep_view() == text_lines(text@),
{
    text.lines().map(String::from).collect()
}

/// Relies on `str::split_whitespace`.
#[verifier::external_body]
fn split_tokens(text: &str) -> (r: Vec<String>)
    ensures
        r.deep_view() == whitespace_tokens(text@),
{
    text.split_whitespace().map(String::from).collect()
}

/// A line names a package when it holds at least a name and a version.
pub open spec fn line_parses(line: Seq<char>) -> bool {
    whitespace_tokens(line).len() >= 2
}

/// `p` holds the first two tokens of `line`.
pub open spec fn parsed_from(line: Seq<char>, p: LocalPackage) -> bool {
    &&& p.name@ == whitespace_tokens(line)[0]
    &&& p.version@ == whitespace_tokens(line)[1]
}

/// The lines of a listing after its header.
pub open spec fn package_lines(text: Seq<char>) -> Seq<Seq<char>> {
    let lines = text_lines(text);
    if lines.len() <= HEADER_LINES {
        Seq::empty()
    } else {
        lines.skip(HEADER_LINES as int)
    }
}

impl LocalPackage {
    /// Reads one line of the listing: its first token is the name, its second
    /// the version.
    pub fn from_str(line: &str) -> (r: Result<LocalPackage, PpsError>)
        ensures
            r is Ok <==> line_parses(line@),
            r matches Ok(p) ==> parsed_from(line@, p),
            r matches Err(e) ==> e == PpsError::Parse,
    {
        let mut tokens = split_tokens(line);
        if tokens.len() < 2 {
            return Err(PpsError::Parse);
        }
        let ghost t = tokens.deep_view();
        tokens.truncate(2);
        assert(tokens.deep_view()[0] == t[0] && tokens.deep_view()[1] == t[1]);
        let version = tokens.pop().unwrap();
        let name = tokens.pop().unwrap();
        Ok(LocalPackage { name, version })
    }
}

/// Reads the listing of locally installed packages: the header lines are
/// skipped and every other line must name a package.
pub fn parse_inventory(text: &str) -> (r: Result<Vec<LocalPackage>, PpsError>)
    ensures
        r is Ok <==> forall|i: int| 0 <= i < package_lines(text@).len() ==> line_parses(#[trigger] package_lines(text@)[i]),
        r matches Ok(v) ==> v@.len() == package_lines(text@).len() && forall|i: int|
            0 <= i < v@.len() ==> parsed_from(package_lines(text@)[i], #[trigger] v@[i]),
        r matches Err(e) ==> e == PpsError::Parse,
{
    let lines = split_lines(text);
    let ghost all = lines.deep_view();
    let ghost rest = package_lines(text@);
    let mut out: Vec<LocalPackage> = Vec::new();
    if lines.len() <= HEADER_LINES {
        return Ok(out);
    }
    let mut i: usize = HEADER_LINES;
    while i < lines.len()
        invariant
            HEADER_LINES <= i <= lines@.len(),
            all == lines.deep_view(),
            all == text_lines(text@),
            lines@.len() > HEADER_LINES,
            rest == all.skip(HEADER_LINES as int),
            out@.len() == i - HEADER_LINES,
            forall|k: int| 0 <= k < out@.len() ==> parsed_from(rest[k], #[trigger] out@[k]),
            forall|k: int| 0 <= k < out@.len() ==> line_parses(#[trigger] rest[k]),
        decreases lines@.len() - i,
    {
        assert(lines[i as int]@ == rest[i - HEADER_LINES]);
        match LocalPackage::from_str(lines[i].as_str()) {
            Ok(p) => out.push(p),
            Err(e) => {
                assert(!line_parses(package_lines(text@)[i - HEADER_LINES]));
                return Err(e);
            },
        }
        i += 1;
    }
    Ok(out)
}

} // verus!
