use vstd::prelude::*;

verus! {

/// How the final result is rendered.
#[derive(Debug, Clone, Copy, PartialEq, Eq, Structural)]
pub enum ResultFormat {
    Json,
    Yaml,
    Personal,
}

impl Default for ResultFormat {
    fn default() -> (r: ResultFormat)
        ensures
            r == ResultFormat::Personal,
    {
        ResultFormat::Personal
    }
}

/// The digest used to confirm that same-size files hold the same bytes.
#[derive(Debug, Clone, Copy, PartialEq, Eq, Structural)]
pub enum Algorithm {
    Sha256,
    Sha512,
    SipHash,
}

impl Default for Algorithm {
    fn default() -> (r: Algorithm)
        ensures
            r == Algorithm::Sha256,
    {
        Algorithm::Sha256
    }
}

/// The options of one run, as given on the command line.
pub struct Arguments {
    pub algorithm: Algorithm,
    pub clear_terminal: bool,
    pub full_path: bool,
    pub min_depth: Option<usize>,
    pub max_depth: Option<usize>,
    pub min_size: Option<u64>,
    pub max_size: Option<u64>,
    pub omit_hidden: bool,
    pub path: Option<String>,
    pub result_format: ResultFormat,
    pub sort: bool,
    pub time: bool,
    pub verbose: bool,
}

/// The bounds that the walk applies to each entry, with absent bounds filled in.
#[derive(Debug, Clone, Copy, PartialEq, Eq, Structural)]
pub struct WalkFilter {
    pub min_depth: usize,
    pub max_depth: usize,
    pub min_size: u64,
    pub max_size: u64,
    pub omit_hidden: bool,
}

/// An inconsistent configuration, reported before any traversal.
#[derive(Debug, Clone, Copy, PartialEq, Eq, Structural)]
pub enum ConfigError {
    DepthRange { min_depth: usize, max_depth: usize },
    SizeRange { min_size: u64, max_size: u64 },
}

pub open spec fn lower_size(a: &Arguments) -> u64 {
    match a.min_size {
        Some(m) => m,
        None => 0,
    }
}

pub open spec fn upper_size(a: &Arguments) -> u64 {
    match a.max_size {
        Some(m) => m,
        None => u64::MAX,
    }
}

pub open spec fn lower_depth(a: &Arguments) -> usize {
    match a.min_depth {
        Some(m) => m,
        None => 0,
    }
}

pub open spec fn upper_depth(a: &Arguments) -> usize {
    match a.max_depth {
        Some(m) => m,
        None => usize::MAX,
    }
}

impl Arguments {
    /// The inclusive size range `min_size <= size <= max_size`; absent bounds
    /// default to zero and to the largest `u64`.
    pub fn get_size_range(&self) -> (r: std::ops::RangeInclusive<u64>)
        ensures
            r@.start == lower_size(self),
            r@.end == upper_size(self),
            !r@.exhausted,
    {
        let (min_size, max_size) = self.size_bounds();
        std::ops::RangeInclusive::new(min_size, max_size)
    }

    fn size_bounds(&self) -> (r: (u64, u64))
        ensures
            r.0 == lower_size(self),
            r.1 == upper_size(self),
    {
        let min_size: u64 = match self.min_size {
            Some(m) => m,
            None => 0,
        };
        let max_size: u64 = match self.max_size {
            Some(m) => m,
            None => u64::MAX,
        };
        (min_size, max_size)
    }

    /// The inclusive depth range; absent bounds default to zero and to the
    /// largest `usize`.
    pub fn get_depth_range(&self) -> (r: (usize, usize))
        ensures
            r.0 == lower_depth(self),
            r.1 == upper_depth(self),
    {
        let min_depth: usize = match self.min_depth {
            Some(m) => m,
            None => 0,
        };
        let max_depth: usize = match self.max_depth {
            Some(m) => m,
            None => usize::MAX,
        };
        (min_depth, max_depth)
    }

    /// Checks that both ranges are non-empty and yields the walk's filter.
    pub fn walk_filter(&self) -> (r: Result<WalkFilter, ConfigError>)
        ensures
            lower_depth(self) > upper_depth(self) ==> r == Err::<WalkFilter, ConfigError>(
                ConfigError::DepthRange {
                    min_depth: lower_depth(self),
                    max_depth: upper_depth(self),
                },
            ),
            lower_depth(self) <= upper_depth(self) && lower_size(self) > upper_size(self) ==> r
                == Err::<WalkFilter, ConfigError>(
                ConfigError::SizeRange {
                    min_size: lower_size(self),
                    max_size: upper_size(self),
                },
            ),
            lower_depth(self) <= upper_depth(self) && lower_size(self) <= upper_size(self) ==> r
                == Ok::<WalkFilter, ConfigError>(
                WalkFilter {
                    min_depth: lower_depth(self),
                    max_depth: upper_depth(self),
                    min_size: lower_size(self),
                    max_size: upper_size(self),
                    omit_hidden: self.omit_hidden,
                },
            ),
    {
        let (min_depth, max_depth) = self.get_depth_range();
        if min_depth > max_depth {
            return Err(ConfigError::DepthRange { min_depth, max_depth });
        }
        let (min_size, max_size) = self.size_bounds();
        if min_size > max_size {
            return Err(ConfigError::SizeRange { min_size, max_size });
        }
        Ok(WalkFilter { min_depth, max_depth, min_size, max_size, omit_hidden: self.omit_hidden })
    }
}

} // verus!
