//! The shelf display's loop: what a fetch means for the panel, and when to fetch
//! again.

use vstd::prelude::*;

use crate::frame::Frame;
use crate::model::Status;
use crate::net::FetchError;
use crate::render::{message, try_draw, Room};

verus! {

use crate::model::down_of;
use crate::net::detail_text;
use crate::render::{countable, message_screen, screen};
use crate::text::{byte_len, lemma_ascii_byte_len};

/// How often to refetch and redraw. The aggregator rebuilds every 30 s, so
/// anything much faster only adds traffic.
pub const REFRESH_SECS: u64 = 30;

/// Pause after a failed fetch. Short enough that a brief blip self-heals before
/// anyone notices, long enough not to hammer a host that is down.
pub const RETRY_SECS: u64 = 10;

/// How long to wait for DHCP before telling the panel about it.
pub const DHCP_REPORT_AFTER_SECS: u32 = 20;

/// So many failures in a row are shown.
pub const REPORT_AFTER: u32 = 3;

/// What a fetch came to.
pub enum Outcome {
    Fetched(Status),
    Failed(FetchError),
}

/// The loop's state between two fetches.
pub struct Refresh {
    pub consecutive_failures: u32,
}

/// What to do after a fetch.
#[derive(Clone, Copy, Debug, PartialEq, Eq, Structural)]
pub struct Reaction {
    /// Whether there is a new picture to flush.
    pub flush: bool,
    /// How long to wait before the next fetch.
    pub wait_secs: u64,
}

/// Failures in a row after one more fetch.
pub open spec fn failures_after(failures: nat, outcome: Outcome) -> nat {
    match outcome {
        Outcome::Fetched(_) => 0,
        Outcome::Failed(_) => failures + 1,
    }
}

/// Whether a fetch changes the picture: a document is drawn, and of the failures
/// only a sustained outage is worth overwriting the last good screen with.
pub open spec fn repaints(failures: nat, outcome: Outcome) -> bool {
    match outcome {
        Outcome::Fetched(status) => countable(status),
        Outcome::Failed(_) => failures + 1 >= REPORT_AFTER,
    }
}

/// The picture after a fetch that changes it.
pub open spec fn picture(outcome: Outcome, room: Option<Room>) -> Set<(int, int)> {
    match outcome {
        Outcome::Fetched(status) => screen(status, room),
        Outcome::Failed(error) => message_screen("NO DATA"@, detail_text(error)),
    }
}

/// The details of failures are short.
proof fn lemma_detail_is_short(error: FetchError)
    ensures
        byte_len(detail_text(error)) <= 100,
{
    reveal_strlit("pi01 did not answer in time");
    reveal_strlit("could not open connection to pi01");
    reveal_strlit("no response from homelab-status");
    reveal_strlit("STATUS_TOKEN rejected - rebuild firmware");
    reveal_strlit("homelab-status returned an error");
    reveal_strlit("response outgrew the parse buffer");
    reveal_strlit("response body could not be read");
    reveal_strlit("response did not match expected shape");
    lemma_ascii_byte_len(detail_text(error));
}

impl Refresh {
    /// The loop begins without failures.
    pub fn new() -> (this: Self)
        ensures
            this.consecutive_failures == 0,
    {
        Refresh { consecutive_failures: 0 }
    }

    /// React to a fetch: put its outcome in the frame, as far as it belongs there.
    /// The first failures are left alone: the panel keeps showing the last good
    /// screen, which still carries the stamp of when it was true. A document whose
    /// down monitors cannot be counted is left alone as well.
    pub fn react(&mut self, target: &mut Frame, outcome: &Outcome, room: &Option<Room>) -> (reaction:
        Reaction)
        requires
            old(self).consecutive_failures < u32::MAX,
        ensures
            final(self).consecutive_failures == failures_after(
                old(self).consecutive_failures as nat,
                *outcome,
            ),
            reaction.flush == repaints(old(self).consecutive_failures as nat, *outcome),
            reaction.wait_secs == (if *outcome is Fetched {
                REFRESH_SECS
            } else {
                RETRY_SECS
            }),
            reaction.flush ==> final(target)@ == picture(*outcome, *room),
            !reaction.flush ==> *final(target) == *old(target),
    {
        match outcome {
            Outcome::Fetched(status) => {
                self.consecutive_failures = 0;
                let drawn = try_draw(target, status, room);
                Reaction { flush: drawn, wait_secs: REFRESH_SECS }
            },
            Outcome::Failed(error) => {
                self.consecutive_failures = self.consecutive_failures + 1;
                let report = self.consecutive_failures >= REPORT_AFTER;
                if report {
                    let detail = error.detail();
                    proof {
                        reveal_strlit("NO DATA");
                        lemma_ascii_byte_len("NO DATA"@);
                        lemma_detail_is_short(*error);
                    }
                    message(target, "NO DATA", detail);
                }
                Reaction { flush: report, wait_secs: RETRY_SECS }
            },
        }
    }
}

/// The splash before the network is up.
pub fn splash(target: &mut Frame)
    ensures
        final(target)@ == message_screen("HOMELAB"@, "connecting to WiFi..."@),
{
    proof {
        reveal_strlit("HOMELAB");
        reveal_strlit("connecting to WiFi...");
        lemma_ascii_byte_len("HOMELAB"@);
        lemma_ascii_byte_len("connecting to WiFi..."@);
    }
    message(target, "HOMELAB", "connecting to WiFi...");
}

/// DHCP has not answered for another while: say so on the panel. Not a failure,
/// the wait simply resumes. Returns for how long it has been.
pub fn still_waiting(target: &mut Frame, waited: u32) -> (now: u32)
    requires
        waited <= u32::MAX - DHCP_REPORT_AFTER_SECS,
    ensures
        now == waited + DHCP_REPORT_AFTER_SECS,
        final(target)@ == message_screen("NO NETWORK"@, "waiting for WiFi and DHCP..."@),
{
    proof {
        reveal_strlit("NO NETWORK");
        reveal_strlit("waiting for WiFi and DHCP...");
        lemma_ascii_byte_len("NO NETWORK"@);
        lemma_ascii_byte_len("waiting for WiFi and DHCP..."@);
    }
    message(target, "NO NETWORK", "waiting for WiFi and DHCP...");
    waited + DHCP_REPORT_AFTER_SECS
}

/// Failures in a row after a history of fetches.
pub open spec fn failures_through(outcomes: Seq<Outcome>) -> nat
    decreases outcomes.len(),
{
    if outcomes.len() == 0 {
        0
    } else {
        failures_after(failures_through(outcomes.drop_last()), outcomes.last())
    }
}

/// The last good screen survives a blip: the first two failures after a document
/// leave the picture alone, and every further one replaces it until a document
/// comes.
pub proof fn law_blips_keep_the_last_good_screen(good: Seq<Outcome>, failures: Seq<Outcome>)
    requires
        good.len() > 0,
        good.last() is Fetched,
        failures.len() > 0,
        forall|i: int| 0 <= i < failures.len() ==> (#[trigger] failures[i]) is Failed,
    ensures
        failures_through(good + failures) == failures.len(),
        repaints(failures_through(good + failures.drop_last()), failures.last())
            <==> failures.len() >= 3,
    decreases failures.len(),
{
    let before = failures.drop_last();
    assert((good + failures).drop_last() =~= good + before);
    assert(failures[failures.len() - 1] is Failed);
    assert((good + failures).last() == failures.last());
    if before.len() == 0 {
        assert(good + before =~= good);
        assert(failures_through(good) == 0);
    } else {
        assert forall|i: int| 0 <= i < before.len() implies (#[trigger] before[i]) is Failed by {
            assert(before[i] == failures[i]);
        }
        law_blips_keep_the_last_good_screen(good, before);
    }
}

/// Every document whose down monitors can be counted is drawn and flushed, whatever it
/// says is up or down and however many fetches had failed before; the panel then shows
/// that document. One from an unreachable Uptime Kuma has nothing to count.
pub proof fn law_every_document_is_drawn(failures: nat, status: Status, room: Option<Room>)
    ensures
        repaints(failures, Outcome::Fetched(status)) <==> !status.kuma.ok || down_of(
            status.kuma.down,
        ).len() + status.kuma.down_more <= 65_535,
        picture(Outcome::Fetched(status), room) == screen(status, room),
        failures_after(failures, Outcome::Fetched(status)) == 0,
{
}

/// A failure leaves the picture alone until it is the third in a row. From then on the
/// panel says which failure it was, the latest one, whichever it is.
pub proof fn law_outage_is_reported(failures: nat, error: FetchError, room: Option<Room>)
    ensures
        repaints(failures, Outcome::Failed(error)) <==> failures >= 2,
        picture(Outcome::Failed(error), room) == message_screen("NO DATA"@, detail_text(error)),
        failures_after(failures, Outcome::Failed(error)) == failures + 1,
{
}

/// The pauses of the loop: half a minute after a document, ten seconds after a failure,
/// and a word on the panel for every twenty seconds without a network.
pub proof fn law_pauses()
    ensures
        REFRESH_SECS == 30,
        RETRY_SECS == 10,
        DHCP_REPORT_AFTER_SECS == 20,
{
}

} // verus!
