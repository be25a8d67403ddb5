//! The status document, as the aggregator produces it.
//!
//! The capacities are a contract: they mirror the aggregator's own limits, and
//! a document that overruns one of them does not parse.
//!
//! Numbers with a fraction arrive here in decimal, as they are drawn.

use vstd::prelude::*;

use crate::text::Number;

verus! {

use crate::text::byte_len;

pub const MAX_GROUPS: usize = 10;

pub const MAX_DOWN: usize = 6;

pub const MAX_HOSTS: usize = 6;

/// `heapless::Vec`.
#[verifier::external_type_specification]
#[verifier::external_body]
#[verifier::reject_recursive_types(T)]
pub struct ExHeaplessVec<T, const N: usize>(heapless::Vec<T, N>);

/// `heapless::String`.
#[verifier::external_type_specification]
#[verifier::external_body]
pub struct ExHeaplessString<const N: usize>(heapless::String<N>);

/// A monitor group rolled up to "n of m up".
pub struct Group {
    pub label: heapless::String<16>,
    pub up: u16,
    pub total: u16,
}

/// A monitor that is currently down, and for how long.
pub struct Down {
    pub name: heapless::String<32>,
    /// `None` when there is no recorded state change to measure from.
    pub secs: Option<u32>,
}

/// Uptime Kuma's half of the document.
pub struct Kuma {
    pub ok: bool,
    pub up: u16,
    /// Settled monitors only, see `unsettled`.
    pub total: u16,
    /// Monitors mid-retry or in maintenance. They are outside `up` and `total`
    /// so that the headline ratio does not flap during a retry window, which
    /// makes this count the only place where they appear.
    pub unsettled: u16,
    pub groups: heapless::Vec<Group, 10>,
    pub down: heapless::Vec<Down, 6>,
    /// Down monitors the aggregator had to trim to fit the screen.
    pub down_more: u16,
}

/// Per-node gauges. All optional: a node missing one series is drawn blank
/// rather than as a confident zero.
pub struct Node {
    pub name: heapless::String<16>,
    /// Percent, rounded to a whole number.
    pub cpu: Option<Number>,
    /// Percent, rounded to a whole number.
    pub mem: Option<Number>,
    /// Percent, rounded to a whole number.
    pub disk: Option<Number>,
    /// Load average, one decimal.
    pub load: Option<Number>,
    /// Days of uptime, rounded to a whole number.
    pub up_d: Option<Number>,
}

/// Prometheus' half. `ok` goes false when the cluster it lives in is gone.
pub struct Hosts {
    pub ok: bool,
    pub nodes: heapless::Vec<Node, 6>,
}

/// The whole document.
pub struct Status {
    /// Seconds since the snapshot was built, stamped when the request was
    /// served.
    pub age: i32,
    /// Wall-clock time of the snapshot, preformatted by the server.
    pub generated_at: heapless::String<24>,
    pub stale: bool,
    /// False before the aggregator's first refresh has landed.
    pub ready: bool,
    pub kuma: Kuma,
    pub hosts: Hosts,
}

/// What a group's label or a node's name holds.
pub uninterp spec fn label_of(s: heapless::String<16>) -> Seq<char>;

/// What a monitor's name holds.
pub uninterp spec fn name_of(s: heapless::String<32>) -> Seq<char>;

/// What the snapshot's time stamp holds.
pub uninterp spec fn stamp_of(s: heapless::String<24>) -> Seq<char>;

/// The groups of a document.
pub uninterp spec fn groups_of(v: heapless::Vec<Group, 10>) -> Seq<Group>;

/// The down monitors of a document.
pub uninterp spec fn down_of(v: heapless::Vec<Down, 6>) -> Seq<Down>;

/// The nodes of a document.
pub uninterp spec fn nodes_of(v: heapless::Vec<Node, 6>) -> Seq<Node>;

/// `heapless::String::as_str`. Claims that it hands out the contents, which
/// take no more bytes than the capacity.
#[verifier::external_body]
pub(crate) fn label_str(s: &heapless::String<16>) -> (text: &str)
    ensures
        text@ == label_of(*s),
        byte_len(text@) <= 16,
{
    s.as_str()
}

/// `heapless::String::as_str`. Claims that it hands out the contents, which
/// take no more bytes than the capacity.
#[verifier::external_body]
pub(crate) fn name_str(s: &heapless::String<32>) -> (text: &str)
    ensures
        text@ == name_of(*s),
        byte_len(text@) <= 32,
{
    s.as_str()
}

/// `heapless::String::as_str`. Claims that it hands out the contents, which
/// take no more bytes than the capacity.
#[verifier::external_body]
pub(crate) fn stamp_str(s: &heapless::String<24>) -> (text: &str)
    ensures
        text@ == stamp_of(*s),
        byte_len(text@) <= 24,
{
    s.as_str()
}

/// `heapless::Vec::as_slice`. Claims that it hands out the contents, no more
/// than the capacity.
#[verifier::external_body]
pub(crate) fn groups_slice(v: &heapless::Vec<Group, 10>) -> (items: &[Group])
    ensures
        items@ == groups_of(*v),
        items@.len() <= MAX_GROUPS,
{
    v.as_slice()
}

/// `heapless::Vec::as_slice`. Claims that it hands out the contents, no more
/// than the capacity.
#[verifier::external_body]
pub(crate) fn down_slice(v: &heapless::Vec<Down, 6>) -> (items: &[Down])
    ensures
        items@ == down_of(*v),
        items@.len() <= MAX_DOWN,
{
    v.as_slice()
}

/// `heapless::Vec::as_slice`. Claims that it hands out the contents, no more
/// than the capacity.
#[verifier::external_body]
pub(crate) fn nodes_slice(v: &heapless::Vec<Node, 6>) -> (items: &[Node])
    ensures
        items@ == nodes_of(*v),
        items@.len() <= MAX_HOSTS,
{
    v.as_slice()
}

impl Kuma {
    /// How many monitors are down, the trimmed ones included; `None` when the
    /// number does not fit.
    pub fn down_total(&self) -> (total: Option<u16>)
        ensures
            total == (if down_of(self.down).len() + self.down_more <= u16::MAX {
                Some((down_of(self.down).len() + self.down_more) as u16)
            } else {
                None
            }),
    {
        (down_slice(&self.down).len() as u16).checked_add(self.down_more)
    }
}

} // verus!
