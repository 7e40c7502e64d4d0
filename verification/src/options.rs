//! Iteration configuration and its resolution into concrete read options.

use vstd::prelude::*;
use vstd::slice::slice_to_vec;

verus! {

/// How a cursor positions itself on a seek.
#[derive(Clone, Copy, PartialEq, Eq, Structural, Debug)]
enum SeekMode {
    TotalOrder,
    Prefix,
}

/// Describes one iteration: its exclusive upper bound, whether it fills the
/// block cache, and how it seeks.
pub struct IterOption {
    upper_bound: Option<Vec<u8>>,
    prefix_same_as_start: bool,
    fill_cache: bool,
    seek_mode: SeekMode,
}

/// The mathematical content of an [`IterOption`].
pub struct IterOptionView {
    /// Exclusive upper bound on the keys that are visited, if any.
    pub upper_bound: Option<Seq<u8>>,
    /// Whether iteration is to stay within the prefix of the seek target.
    pub prefix_same_as_start: bool,
    /// Whether blocks read while iterating enter the block cache.
    pub fill_cache: bool,
    /// Whether prefix seek replaces total-order seek.
    pub prefix_seek: bool,
}

/// The options handed to the store when a read or a cursor is set up.
pub struct ReadOpts {
    pub fill_cache: bool,
    pub total_order_seek: bool,
    pub prefix_same_as_start: bool,
    pub iterate_upper_bound: Option<Vec<u8>>,
}

/// The mathematical content of a [`ReadOpts`].
pub struct ReadOptsView {
    pub fill_cache: bool,
    pub total_order_seek: bool,
    pub prefix_same_as_start: bool,
    pub iterate_upper_bound: Option<Seq<u8>>,
}

impl View for ReadOpts {
    type V = ReadOptsView;

    open spec fn view(&self) -> ReadOptsView {
        ReadOptsView {
            fill_cache: self.fill_cache,
            total_order_seek: self.total_order_seek,
            prefix_same_as_start: self.prefix_same_as_start,
            iterate_upper_bound: match self.iterate_upper_bound {
                Some(b) => Some(b@),
                None => None,
            },
        }
    }
}

/// The read options that a configuration resolves to.
///
/// Total-order seek is requested exactly when prefix seek is not in use, and
/// then the prefix restriction is not applied even if it was enabled. The
/// upper bound is carried over whenever one is present, whatever the seek
/// mode.
pub open spec fn resolve(opt: IterOptionView) -> ReadOptsView {
    ReadOptsView {
        fill_cache: opt.fill_cache,
        total_order_seek: !opt.prefix_seek,
        prefix_same_as_start: opt.prefix_seek && opt.prefix_same_as_start,
        iterate_upper_bound: opt.upper_bound,
    }
}

/// The configuration with no bound, total-order seek and a filling cache.
pub open spec fn default_view() -> IterOptionView {
    IterOptionView {
        upper_bound: None,
        prefix_same_as_start: false,
        fill_cache: true,
        prefix_seek: false,
    }
}

impl View for IterOption {
    type V = IterOptionView;

    closed spec fn view(&self) -> IterOptionView {
        IterOptionView {
            upper_bound: match self.upper_bound {
                Some(b) => Some(b@),
                None => None,
            },
            prefix_same_as_start: self.prefix_same_as_start,
            fill_cache: self.fill_cache,
            prefix_seek: self.seek_mode == SeekMode::Prefix,
        }
    }
}

impl IterOption {
    /// A total-order configuration with the given bound and cache policy.
    pub fn new(upper_bound: Option<Vec<u8>>, fill_cache: bool) -> (opt: IterOption)
        ensures
            opt@ == (IterOptionView {
                upper_bound: match upper_bound {
                    Some(b) => Some(b@),
                    None => None,
                },
                prefix_same_as_start: false,
                fill_cache: fill_cache,
                prefix_seek: false,
            }),
    {
        IterOption {
            upper_bound: upper_bound,
            prefix_same_as_start: false,
            fill_cache: fill_cache,
            seek_mode: SeekMode::TotalOrder,
        }
    }

    /// Switches from total-order seek to prefix seek.
    #[inline]
    pub fn use_prefix_seek(self) -> (opt: IterOption)
        ensures
            opt@ == (IterOptionView { prefix_seek: true, ..self@ }),
    {
        let mut opt = self;
        opt.seek_mode = SeekMode::Prefix;
        opt
    }

    /// Whether seeks use the total order of the keyspace.
    #[inline]
    pub fn total_order_seek_used(&self) -> (used: bool)
        ensures
            used == !self@.prefix_seek,
    {
        self.seek_mode == SeekMode::TotalOrder
    }

    /// The exclusive upper bound, if one is set.
    #[inline]
    pub fn upper_bound(&self) -> (bound: Option<&[u8]>)
        ensures
            bound is Some == self@.upper_bound is Some,
            bound matches Some(b) ==> self@.upper_bound == Some(b@),
    {
        match &self.upper_bound {
            Some(v) => Some(v.as_slice()),
            None => None,
        }
    }

    /// Replaces the upper bound.
    #[inline]
    pub fn set_upper_bound(self, bound: Vec<u8>) -> (opt: IterOption)
        ensures
            opt@ == (IterOptionView { upper_bound: Some(bound@), ..self@ }),
    {
        let mut opt = self;
        opt.upper_bound = Some(bound);
        opt
    }

    /// Enables or disables the restriction to the seek target's prefix.
    #[inline]
    pub fn set_prefix_same_as_start(self, enable: bool) -> (opt: IterOption)
        ensures
            opt@ == (IterOptionView { prefix_same_as_start: enable, ..self@ }),
    {
        let mut opt = self;
        opt.prefix_same_as_start = enable;
        opt
    }

    /// Resolves the configuration into the options handed to the store.
    pub fn build_read_opts(&self) -> (opts: ReadOpts)
        ensures
            opts@ == resolve(self@),
    {
        let mut opts = ReadOpts {
            fill_cache: true,
            total_order_seek: false,
            prefix_same_as_start: false,
            iterate_upper_bound: None,
        };
        opts.fill_cache = self.fill_cache;
        if self.total_order_seek_used() {
            opts.total_order_seek = true;
        } else if self.prefix_same_as_start {
            opts.prefix_same_as_start = true;
        }
        if let Some(key) = &self.upper_bound {
            opts.iterate_upper_bound = Some(slice_to_vec(key.as_slice()));
        }
        opts
    }
}

impl Default for IterOption {
    /// Unbounded, total-order, cache-filling.
    fn default() -> (opt: IterOption)
        ensures
            opt@ == default_view(),
    {
        IterOption {
            upper_bound: None,
            prefix_same_as_start: false,
            fill_cache: true,
            seek_mode: SeekMode::TotalOrder,
        }
    }
}

} // verus!
