//! Poking an app on a schedule: which targets and settings are refused, who acts, and what
//! is told of a round.

use vstd::prelude::*;
use vstd::string::*;

use crate::number::{dec, dec_of};
use crate::text::{debug, debug_of, same, starts_with, strs};
use crate::url::{Url, UrlView, read_url, url_in, url_view};

verus! {

/// Why a target is refused: what is said of it, and what the parser of URLs said where it is
/// none.
#[derive(Debug, PartialEq, Eq)]
pub struct Refused {
    pub message: String,
    pub cause: Option<String>,
}

/// Why a target is refused, as plain values.
pub struct RefusedView {
    pub message: Seq<char>,
    pub cause: Option<Seq<char>>,
}

impl View for Refused {
    type V = RefusedView;

    open spec fn view(&self) -> RefusedView {
        RefusedView {
            message: self.message@,
            cause: match self.cause {
                Some(c) => Some(c@),
                None => None,
            },
        }
    }
}

/// Why a target is refused, given what it is as a URL. A bare path is what an app calls
/// the endpoint, so that refusal says what to type instead.
pub open spec fn target_refused(t: Seq<char>, url: Result<UrlView, Seq<char>>) -> Option<
    RefusedView,
> {
    let shown = "target "@ + debug_of(t);
    if "/"@.is_prefix_of(t) {
        Some(
            RefusedView {
                message: shown
                    + " is a path, not a URL — name the app too, e.g. http://127.0.0.1:3012"@ + t,
                cause: None,
            },
        )
    } else {
        match url {
            Err(e) => Some(RefusedView { message: shown + " is not a URL"@, cause: Some(e) }),
            Ok(u) => if u.scheme != "http"@ && u.scheme != "https"@ {
                Some(
                    RefusedView {
                        message: shown + " must be http or https, not "@ + debug_of(u.scheme),
                        cause: None,
                    },
                )
            } else if u.host is None {
                Some(RefusedView { message: shown + " names no host"@, cause: None })
            } else {
                None
            },
        }
    }
}

/// Why a target is refused, given what it is as a URL.
pub fn refuse_target(t: &str, url: &Result<Url, String>) -> (r: Option<Refused>)
    ensures
        (match r {
            Some(e) => Some(e@),
            None => None,
        }) == target_refused(t@, url_view(*url)),
{
    let shown = "target ".to_string().concat(debug(t).as_str());
    if starts_with(t, "/") {
        let message = shown.concat(
            " is a path, not a URL — name the app too, e.g. http://127.0.0.1:3012",
        ).concat(t);
        return Some(Refused { message, cause: None });
    }
    match url {
        Err(e) => Some(Refused { message: shown.concat(" is not a URL"), cause: Some(e.clone()) }),
        Ok(u) => if !same(u.scheme.as_str(), "http") && !same(u.scheme.as_str(), "https") {
            let message = shown.concat(" must be http or https, not ").concat(
                debug(u.scheme.as_str()).as_str(),
            );
            Some(Refused { message, cause: None })
        } else if u.host.is_none() {
            Some(Refused { message: shown.concat(" names no host"), cause: None })
        } else {
            None
        },
    }
}

/// Why the first target that is refused is refused, looked for from `i` on.
pub open spec fn refused_from(ts: Seq<Seq<char>>, i: int) -> Option<RefusedView>
    decreases ts.len() - i,
{
    if i < 0 || i >= ts.len() {
        None
    } else {
        match target_refused(ts[i], url_in(ts[i])) {
            Some(e) => Some(e),
            None => refused_from(ts, i + 1),
        }
    }
}

/// Refuse a target that is not a URL to dial, before a relay runs that pokes nothing.
pub fn check_targets(targets: &Vec<String>) -> (r: Result<(), Refused>)
    ensures
        (match r {
            Ok(()) => None,
            Err(e) => Some(e@),
        }) == refused_from(strs(targets@), 0),
{
    let ghost ts = strs(targets@);
    let mut i: usize = 0;
    while i < targets.len()
        invariant
            i <= targets.len(),
            ts == strs(targets@),
            refused_from(ts, i as int) == refused_from(ts, 0),
        decreases targets.len() - i,
    {
        assert(ts[i as int] == targets@[i as int]@);
        let url = read_url(targets[i].as_str());
        match refuse_target(targets[i].as_str(), &url) {
            Some(e) => {
                return Err(e);
            },
            None => {},
        }
        i = i + 1;
    }
    Ok(())
}

/// Targets that are accepted are all web addresses of some host: nothing else is dialled.
pub proof fn law_accepted_targets_are_web_addresses(ts: Seq<Seq<char>>, i: int)
    requires
        refused_from(ts, 0) is None,
        0 <= i < ts.len(),
    ensures
        url_in(ts[i]) matches Ok(u) && (u.scheme == "http"@ || u.scheme == "https"@)
            && u.host is Some,
        !"/"@.is_prefix_of(ts[i]),
{
    lemma_none_refused(ts, 0, i);
}

proof fn lemma_none_refused(ts: Seq<Seq<char>>, j: int, i: int)
    requires
        refused_from(ts, j) is None,
        0 <= j <= i < ts.len(),
    ensures
        target_refused(ts[i], url_in(ts[i])) is None,
    decreases i - j,
{
    if j < i {
        lemma_none_refused(ts, j + 1, i);
    }
}

/// Why some settings are refused: a lease that would run out between two renewals, and a
/// watch on a bus that nothing reaches.
pub open spec fn settings_refused(
    lease_ttl: u64,
    interval: u64,
    no_lease: bool,
    nats: bool,
    watch_bus: bool,
) -> Option<Seq<char>> {
    if lease_ttl <= interval && !no_lease && nats {
        Some(
            "lease-ttl "@ + dec_of(lease_ttl as nat) + " is not longer than interval "@ + dec_of(
                interval as nat,
            )
                + " — the lease is renewed once per sweep, so it would expire between renewals"@,
        )
    } else if watch_bus && !nats {
        Some("--watch-bus needs --nats-url: the sequence keys it watches live in NATS KV"@)
    } else {
        None
    }
}

/// Why some settings are refused.
pub fn refuse_settings(
    lease_ttl: u64,
    interval: u64,
    no_lease: bool,
    nats: bool,
    watch_bus: bool,
) -> (r: Option<String>)
    ensures
        (match r {
            Some(e) => Some(e@),
            None => None,
        }) == settings_refused(lease_ttl, interval, no_lease, nats, watch_bus),
{
    if lease_ttl <= interval && !no_lease && nats {
        return Some(
            "lease-ttl ".to_string().concat(dec(lease_ttl).as_str()).concat(
                " is not longer than interval ",
            ).concat(dec(interval).as_str()).concat(
                " — the lease is renewed once per sweep, so it would expire between renewals",
            ),
        );
    }
    if watch_bus && !nats {
        return Some(
            "--watch-bus needs --nats-url: the sequence keys it watches live in NATS KV".to_string(),
        );
    }
    None
}

/// Does a relay contend for a lease? Without a lattice it fires alone.
pub fn takes_lease(nats: bool, no_lease: bool) -> (r: bool)
    ensures
        r == (nats && !no_lease),
{
    nats && !no_lease
}

/// A relay that contends for a lease renews it in time: once in every interval, and the
/// lease lasts longer than that.
pub proof fn law_a_lease_outlives_its_renewal(
    lease_ttl: u64,
    interval: u64,
    no_lease: bool,
    nats: bool,
    watch_bus: bool,
)
    requires
        settings_refused(lease_ttl, interval, no_lease, nats, watch_bus) is None,
    ensures
        nats && !no_lease ==> lease_ttl > interval,
        watch_bus ==> nats,
{
}

/// Does a relay act in this round? The holder of the lease does, and one without a lease.
pub fn acts(held: Option<bool>) -> (r: bool)
    ensures
        r == (held != Some(false)),
{
    match held {
        Some(h) => h,
        None => true,
    }
}

/// The key that relays contend for: their own, for the reconcilers have one too.
pub fn lease_scope(lattice: &str) -> (out: String)
    ensures
        out@ == lattice@ + "-relay"@,
{
    lattice.to_string().concat("-relay")
}

/// The name under which a relay holds the lease: its machine and its process.
pub fn holder(host: Option<&String>, pid: u32) -> (out: String)
    ensures
        out@ == (match host {
            Some(h) => h@,
            None => "unknown"@,
        }) + ":"@ + dec_of(pid as nat),
{
    match host {
        Some(h) => h.clone().concat(":").concat(dec(pid as u64).as_str()),
        None => "unknown".to_string().concat(":").concat(dec(pid as u64).as_str()),
    }
}

/// What a target did in a round.
pub enum Poked<'a> {
    /// It succeeded.
    Done,
    /// It answered with a status that is no success.
    Answered(&'a str),
    /// It could not be reached, and why.
    Unreachable(&'a str),
}

/// What is told of a target in a round. A target that is down may be up in the next.
pub open spec fn remark_of(target: Seq<char>, poked: Poked, why: Seq<char>) -> Option<Seq<char>> {
    match poked {
        Poked::Done => None,
        Poked::Answered(s) => Some(
            "comp-relay: "@ + target + " answered "@ + s@ + " ["@ + why + "]"@,
        ),
        Poked::Unreachable(e) => Some(
            "comp-relay: "@ + target + " unreachable: "@ + e@ + " ["@ + why + "]"@,
        ),
    }
}

/// What is told of a target in a round.
pub fn remark(target: &str, poked: Poked, why: &str) -> (r: Option<String>)
    ensures
        (match r {
            Some(t) => Some(t@),
            None => None,
        }) == remark_of(target@, poked, why@),
{
    match poked {
        Poked::Done => None,
        Poked::Answered(s) => Some(
            "comp-relay: ".to_string().concat(target).concat(" answered ").concat(s).concat(
                " [",
            ).concat(why).concat("]"),
        ),
        Poked::Unreachable(e) => Some(
            "comp-relay: ".to_string().concat(target).concat(" unreachable: ").concat(e).concat(
                " [",
            ).concat(why).concat("]"),
        ),
    }
}

/// What is told when a relay starts.
pub fn started(targets: usize, interval: u64, watch_bus: bool) -> (out: String)
    ensures
        out@ == "comp-relay: "@ + dec_of(targets as nat) + " target(s), sweeping every "@ + dec_of(
            interval as nat,
        ) + "s"@ + (if watch_bus {
            ", and early on any bus publish"@
        } else {
            ""@
        }),
{
    let tail = if watch_bus {
        ", and early on any bus publish"
    } else {
        ""
    };
    "comp-relay: ".to_string().concat(dec(targets as u64).as_str()).concat(
        " target(s), sweeping every ",
    ).concat(dec(interval).as_str()).concat("s").concat(tail)
}

/// A target is poked exactly where it is no bare path and is an address of the web that names
/// a host.
pub proof fn law_which_target_is_poked(t: Seq<char>, url: Result<UrlView, Seq<char>>)
    ensures
        target_refused(t, url) is None <==> !"/"@.is_prefix_of(t) && url is Ok && (url->Ok_0.scheme
            == "http"@ || url->Ok_0.scheme == "https"@) && url->Ok_0.host is Some,
{
}

/// The settings are refused exactly where a lease that is taken would not outlive its renewal,
/// or where the bus is to be watched and there is none.
pub proof fn law_which_settings_are_refused(
    lease_ttl: u64,
    interval: u64,
    no_lease: bool,
    nats: bool,
    watch_bus: bool,
)
    ensures
        settings_refused(lease_ttl, interval, no_lease, nats, watch_bus) is Some <==> (nats
            && !no_lease && lease_ttl <= interval) || (watch_bus && !nats),
{
}

/// Only a poke that went wrong is remarked on, and the remark names the target.
pub proof fn law_only_what_went_wrong_is_remarked(target: Seq<char>, poked: Poked, why: Seq<char>)
    ensures
        remark_of(target, poked, why) is None <==> poked is Done,
        remark_of(target, poked, why) matches Some(r) ==> ("comp-relay: "@ + target).is_prefix_of(r),
{
    if let Some(r) = remark_of(target, poked, why) {
        let head = "comp-relay: "@ + target;
        assert(r.subrange(0, head.len() as int) =~= head);
    }
}

/// A refusal is seen by its message and its cause.
pub proof fn law_a_refusal_is_seen_whole(r: Refused)
    ensures
        r@.message == r.message@,
        r@.cause is Some <==> r.cause is Some,
        r.cause is Some ==> r@.cause->Some_0 == r.cause->Some_0@,
{
}

/// A remark names the target first, then what it did, and why it was poked last; and where all
/// went well there is none.
pub proof fn law_a_remark_tells_who_and_why(target: Seq<char>, poked: Poked, why: Seq<char>)
    ensures
        poked is Done <==> remark_of(target, poked, why) is None,
        remark_of(target, poked, why) matches Some(t) ==> ("comp-relay: "@ + target).is_prefix_of(t)
            && (" ["@ + why + "]"@).is_suffix_of(t),
        poked matches Poked::Answered(s) ==> (remark_of(target, poked, why) matches Some(t)
            && ("comp-relay: "@ + target + " answered "@ + s@).is_prefix_of(t)),
        poked matches Poked::Unreachable(e) ==> (remark_of(target, poked, why) matches Some(t)
            && ("comp-relay: "@ + target + " unreachable: "@ + e@).is_prefix_of(t)),
{
    let who = "comp-relay: "@ + target;
    let end = " ["@ + why + "]"@;
    if let Some(t) = remark_of(target, poked, why) {
        assert(t.subrange(0, who.len() as int) =~= who);
        assert(t.subrange(t.len() - end.len(), t.len() as int) =~= end);
        match poked {
            Poked::Answered(s) => {
                let head = who + " answered "@ + s@;
                assert(t.subrange(0, head.len() as int) =~= head);
            },
            Poked::Unreachable(e) => {
                let head = who + " unreachable: "@ + e@;
                assert(t.subrange(0, head.len() as int) =~= head);
            },
            Poked::Done => {},
        }
    }
}

} // verus!
