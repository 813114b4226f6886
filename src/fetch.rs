//! The fetch discipline: request pacing and the request profile.

use vstd::prelude::*;
use rand::Rng;
use crate::proxy::ProxyInfo;

verus! {

/// Relies on `rand::Rng::gen_range` on the thread-local generator: a value drawn
/// from `[low, high)`.
#[verifier::external_body]
pub(crate) fn random_in(low: u64, high: u64) -> (r: u64)
    requires
        low < high,
    ensures
        low <= r < high,
{
    rand::thread_rng().gen_range(low, high)
}


/// The shortest spacing between the starts of two fetches, in milliseconds.
pub const MIN_SPACING_MS: u64 = 2000;

/// The bound (exclusive) of the spacing drawn before each fetch, in milliseconds.
pub const MAX_SPACING_MS: u64 = 5000;

/// The time to wait, after `last`, before a fetch at `now` with the target spacing
/// `spacing`: what is left of the spacing, if anything.
pub open spec fn wait_for(last: u64, now: u64, spacing: u64) -> u64 {
    let elapsed = if now >= last {
        now - last
    } else {
        0
    };
    if spacing <= elapsed {
        0
    } else {
        (spacing - elapsed) as u64
    }
}

/// The shared record of the last fetch instant, in milliseconds on the caller's
/// monotonic clock. It never moves backwards.
pub struct PacingClock {
    last_fetch_ms: u64,
}

impl PacingClock {
    pub closed spec fn last(&self) -> u64 {
        self.last_fetch_ms
    }

    /// A clock whose last fetch instant is `now_ms`.
    pub fn new(now_ms: u64) -> (r: PacingClock)
        ensures
            r.last() == now_ms,
    {
        PacingClock { last_fetch_ms: now_ms }
    }

    /// The last recorded fetch instant.
    pub fn last_fetch_time(&self) -> (r: u64)
        ensures
            r == self.last(),
    {
        self.last_fetch_ms
    }

    /// Records a fetch that starts at `now_ms`; an earlier instant than the one
    /// recorded leaves the record as it is.
    pub fn set_last_fetch_time(&mut self, now_ms: u64)
        ensures
            final(self).last() == if now_ms > old(self).last() {
                now_ms
            } else {
                old(self).last()
            },
            final(self).last() >= old(self).last(),
    {
        if now_ms > self.last_fetch_ms {
            self.last_fetch_ms = now_ms;
        }
    }

    /// The wait before a fetch at `now_ms` for a given target spacing.
    pub fn wait_before_fetch(&self, now_ms: u64, spacing_ms: u64) -> (r: u64)
        ensures
            r == wait_for(self.last(), now_ms, spacing_ms),
    {
        let elapsed = if now_ms >= self.last_fetch_ms {
            now_ms - self.last_fetch_ms
        } else {
            0
        };
        if spacing_ms <= elapsed {
            0
        } else {
            spacing_ms - elapsed
        }
    }

    /// Draws a target spacing uniformly from `[MIN_SPACING_MS, MAX_SPACING_MS)` and
    /// returns the wait before a fetch at `now_ms`.
    pub fn sleep_if_fetch_too_fast(&self, now_ms: u64) -> (r: u64)
        ensures
            exists|spacing: u64|
                MIN_SPACING_MS <= spacing < MAX_SPACING_MS && r == wait_for(
                    self.last(),
                    now_ms,
                    spacing,
                ),
    {
        let spacing = random_in(MIN_SPACING_MS, MAX_SPACING_MS);
        self.wait_before_fetch(now_ms, spacing)
    }
}

/// Two fetches are at least the minimum spacing apart, whatever spacing was drawn:
/// a fetch called at `now`, no earlier than the recorded start `last` of the one
/// before, starts after waiting, no sooner than `MIN_SPACING_MS` after `last`.
pub proof fn lemma_spacing_respected(last: u64, now: u64, spacing: u64)
    requires
        last <= now,
        MIN_SPACING_MS <= spacing,
    ensures
        now + wait_for(last, now, spacing) >= last + MIN_SPACING_MS,
{
}

/// The relay address of an endpoint, as the HTTP client takes it.
pub fn proxy_url(p: &ProxyInfo) -> (r: String)
    ensures
        r@ == "http://"@ + p.ip@ + ":"@ + p.port@,
{
    let mut r = String::from_str("http://");
    r.append(p.ip.as_str());
    r.append(":");
    r.append(p.port.as_str());
    r
}

/// The fixed request profile: header names and values, sent with every fetch.
pub fn get_default_headers() -> (r: Vec<(String, String)>)
    ensures
        r@.len() == 6,
        r@[0].0@ == "user-agent"@ && r@[0].1@ == "Mozilla/5.0 (Windows NT 10.0; Win64; x64) AppleWebKit/537.36 (KHTML, like Gecko) Chrome/81.0.4044.138 Safari/537.36"@,
        r@[1].0@ == "host"@ && r@[1].1@ == "book.douban.com"@,
        r@[2].0@ == "connection"@ && r@[2].1@ == "keep-alive"@,
        r@[3].0@ == "accept"@ && r@[3].1@ == "text/html,application/xhtml+xml,application/xml;q=0.9,image/webp,image/apng,*/*;q=0.8,application/signed-exchange;v=b3;q=0.9"@,
        r@[4].0@ == "accept-encoding"@ && r@[4].1@ == "gzip deflate"@,
        r@[5].0@ == "accept-language"@ && r@[5].1@ == "zh-CN,zh;q=0.9"@,
{
    let mut r: Vec<(String, String)> = Vec::new();
    r.push((String::from_str("user-agent"), String::from_str(
        "Mozilla/5.0 (Windows NT 10.0; Win64; x64) AppleWebKit/537.36 (KHTML, like Gecko) Chrome/81.0.4044.138 Safari/537.36",
    )));
    r.push((String::from_str("host"), String::from_str("book.douban.com")));
    r.push((String::from_str("connection"), String::from_str("keep-alive")));
    r.push((String::from_str("accept"), String::from_str(
        "text/html,application/xhtml+xml,application/xml;q=0.9,image/webp,image/apng,*/*;q=0.8,application/signed-exchange;v=b3;q=0.9",
    )));
    r.push((String::from_str("accept-encoding"), String::from_str("gzip deflate")));
    r.push((String::from_str("accept-language"), String::from_str("zh-CN,zh;q=0.9")));
    r
}

} // verus!
