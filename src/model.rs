use vstd::prelude::*;

verus! {

/// A UTC instant: whole seconds since the Unix epoch and the nanoseconds
/// past that second.
#[derive(Clone, Copy, Debug, PartialEq, Eq, Structural)]
pub struct Timestamp {
    pub secs: i64,
    pub nanos: u32,
}

impl Timestamp {
    /// Whether `self` lies strictly after `other` in time.
    pub open spec fn later_than(self, other: Timestamp) -> bool {
        self.secs > other.secs || (self.secs == other.secs && self.nanos > other.nanos)
    }

    pub fn is_later_than(&self, other: &Timestamp) -> (r: bool)
        ensures
            r == self.later_than(*other),
    {
        self.secs > other.secs || (self.secs == other.secs && self.nanos > other.nanos)
    }
}

/// Recent download counts of one package.
#[derive(Clone, Copy, Debug, PartialEq, Eq, Structural)]
pub struct Downloads {
    pub last_day: u64,
    pub last_week: u64,
    pub last_month: u64,
}

impl Downloads {
    /// Downloads are ordered by the monthly count alone.
    pub fn compare(&self, other: &Downloads) -> (r: std::cmp::Ordering)
        ensures
            (r == std::cmp::Ordering::Less) == (self.last_month < other.last_month),
            (r == std::cmp::Ordering::Equal) == (self.last_month == other.last_month),
            (r == std::cmp::Ordering::Greater) == (self.last_month > other.last_month),
    {
        if self.last_month < other.last_month {
            std::cmp::Ordering::Less
        } else if self.last_month == other.last_month {
            std::cmp::Ordering::Equal
        } else {
            std::cmp::Ordering::Greater
        }
    }
}

/// One locally installed package.
#[derive(Clone, Debug, PartialEq)]
pub struct LocalPackage {
    pub name: String,
    pub version: String,
}

/// One package found by a search, with what later stages attach to it.
#[derive(Clone, Debug)]
pub struct Package {
    pub name: String,
    pub installed: Option<String>,
    pub version: String,
    pub release: Timestamp,
    pub description: String,
    pub downloads: Option<Downloads>,
}

impl Package {
    /// Records the locally installed version.
    pub fn local(&mut self, version: &str)
        ensures
            final(self).installed matches Some(v) && v@ == version@,
            final(self).name == old(self).name,
            final(self).version == old(self).version,
            final(self).release == old(self).release,
            final(self).description == old(self).description,
            final(self).downloads == old(self).downloads,
    {
        self.installed = Some(version.to_owned());
    }

    /// Records the download counts fetched for this package.
    pub fn update_downloads(&mut self, downloads: Downloads)
        ensures
            final(self).downloads == Some(downloads),
            final(self).name == old(self).name,
            final(self).installed == old(self).installed,
            final(self).version == old(self).version,
            final(self).release == old(self).release,
            final(self).description == old(self).description,
    {
        self.downloads = Some(downloads);
    }
}

/// What can go wrong in the pipeline.
#[derive(Clone, Debug, PartialEq)]
pub enum PpsError {
    /// A request failed: network error, timeout or an unsuccessful status.
    Transport(String),
    /// A search-result entry lacks a readable release timestamp.
    Extraction,
    /// A line of the local inventory does not hold a name and a version.
    Parse,
    /// A statistics response does not have the expected shape.
    Enrichment,
    /// The caller gave up on the operation.
    Cancelled,
}

impl PpsError {
    /// An equal copy of this error.
    pub fn duplicate(&self) -> (r: PpsError)
        ensures
            r == *self,
    {
        match self {
            PpsError::Transport(m) => PpsError::Transport(m.clone()),
            PpsError::Extraction => PpsError::Extraction,
            PpsError::Parse => PpsError::Parse,
            PpsError::Enrichment => PpsError::Enrichment,
            PpsError::Cancelled => PpsError::Cancelled,
        }
    }
}

} // verus!
