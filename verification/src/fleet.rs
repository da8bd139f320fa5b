//! The fleet plane's state and its rules.
//!
//! Channels each hold a current release and at most one staged (canary)
//! rollout that a percentage of the channel's devices run. Devices are put in
//! a stable bucket 0..=99 by their id, so a device stays in or out of a
//! canary consistently. Devices report the outcome of their own accept gate,
//! and the canary's health is read from those reports.
use vstd::prelude::*;
use vstd::utf8::{encode_utf8, is_char_boundary};
use vstd::string::StringSliceAdditionalSpecFns;
use crate::registry::NameMap;
use vstd::string::StringExecFns;
use crate::text::{chars_of, has_char, same_text};

verus! {

/// Offset basis of 64-bit FNV-1a.
pub const FNV_OFFSET: u64 = 0xcbf2_9ce4_8422_2325;

/// Prime of 64-bit FNV-1a.
pub const FNV_PRIME: u64 = 0x100_0000_01b3;

/// 64-bit FNV-1a of a byte string.
pub open spec fn fnv1a(bytes: Seq<u8>) -> u64
    decreases bytes.len(),
{
    if bytes.len() == 0 {
        FNV_OFFSET
    } else {
        (fnv1a(bytes.drop_last()) ^ (bytes.last() as u64)).wrapping_mul(FNV_PRIME)
    }
}

/// The stable bucket 0..=99 of a device id: FNV-1a of its UTF-8 bytes, mod 100.
pub open spec fn bucket(device: Seq<char>) -> u8 {
    (fnv1a(encode_utf8(device)) % 100) as u8
}

/// Deterministic 0..=99 bucket for a device id — FNV-1a mod 100. Stable across
/// polls and servers, so a device stays in or out of a canary consistently.
pub fn pctl(device: &str) -> (p: u8)
    ensures
        p == bucket(device@),
        p as int == fnv1a(device.spec_bytes()) as int % 100,
        p < 100,
{
    let bytes = device.as_bytes();
    let mut h: u64 = FNV_OFFSET;
    let mut i: usize = 0;
    while i < bytes.len()
        invariant
            i <= bytes@.len(),
            bytes@ == encode_utf8(device@),
            h == fnv1a(bytes@.take(i as int)),
        decreases bytes.len() - i,
    {
        proof {
            assert(bytes@.take(i + 1).drop_last() =~= bytes@.take(i as int));
        }
        h = h ^ (bytes[i] as u64);
        h = h.wrapping_mul(FNV_PRIME);
        i = i + 1;
    }
    proof {
        assert(bytes@.take(bytes@.len() as int) =~= bytes@);
    }
    (h % 100) as u8
}

/// A release: a validated pack that a channel can target.
#[derive(Debug)]
pub struct Release {
    pub name: String,
    pub version: String,
    pub sha256: String,
    pub signer: String,
    /// seconds since epoch, stamped by the server on upload
    pub published: u64,
}

/// A staged (canary) rollout: a new release going to a fraction of a channel's
/// devices while the rest stay on `current`.
#[derive(Debug)]
pub struct Rollout {
    pub release: Release,
    /// 0..=100 — a device runs the rollout iff its stable percentile < percent.
    pub percent: u8,
}

/// A channel's state: the current release plus an optional in-flight rollout.
#[derive(Debug)]
pub struct Channel {
    pub current: Release,
    pub rollout: Option<Rollout>,
}

/// What a device last reported of a release it ran through its accept gate.
#[derive(Debug)]
pub struct DeviceReport {
    pub device: String,
    pub channel: String,
    pub target_sha: String,
    pub version: String,
    pub behavior: String,
    pub ok: bool,
    pub platform: String,
    /// seconds since epoch of the last report
    pub seen: u64,
}

/// The device is covered by the channel's canary.
pub open spec fn on_rollout(ch: Channel, device: Seq<char>) -> bool {
    ch.rollout matches Some(r) && bucket(device) < r.percent
}

/// The release a device should run on a channel, honoring the canary.
pub open spec fn resolved(ch: Channel, device: Seq<char>) -> Release {
    if on_rollout(ch, device) {
        ch.rollout->0.release
    } else {
        ch.current
    }
}

/// Which release this device should run on the channel, honoring the canary.
pub fn resolve<'a>(ch: &'a Channel, device: &str) -> (r: &'a Release)
    ensures
        *r == resolved(*ch, device@),
{
    match &ch.rollout {
        Some(r) if pctl(device) < r.percent => &r.release,
        _ => &ch.current,
    }
}

/// A channel name is usable as a file stem: it holds no `/` and no `.`.
pub open spec fn channel_name_ok(ch: Seq<char>) -> bool {
    !ch.contains('/') && !ch.contains('.')
}

/// Whether a channel name may be used (`/` or `.` would reach outside the
/// channel directory).
pub fn valid_channel_name(ch: &str) -> (ok: bool)
    ensures
        ok == channel_name_ok(ch@),
        ok == (!ch@.contains('/') && !ch@.contains('.')),
{
    !has_char(ch, '/') && !has_char(ch, '.')
}

/// Where a channel's pack is kept in the channel directory.
#[derive(Clone, Copy, Debug, PartialEq, Eq)]
pub enum PackSlot {
    /// The current release's pack.
    Current,
    /// The staged rollout's pack.
    Rollout,
    /// An upload not yet validated.
    Incoming,
}

/// The file-name suffix of a slot.
pub open spec fn slot_suffix(slot: PackSlot) -> Seq<char> {
    match slot {
        PackSlot::Current => ".fpack"@,
        PackSlot::Rollout => ".rollout.fpack"@,
        PackSlot::Incoming => ".incoming"@,
    }
}

/// The file name of a channel's pack slot: the channel name and the slot's
/// suffix.
pub fn slot_file(ch: &str, slot: PackSlot) -> (f: String)
    ensures
        f@ == ch@ + slot_suffix(slot),
{
    let mut f = ch.to_owned();
    match slot {
        PackSlot::Current => f.append(".fpack"),
        PackSlot::Rollout => f.append(".rollout.fpack"),
        PackSlot::Incoming => f.append(".incoming"),
    }
    f
}

/// How many leading bytes of a digest a dashboard shows.
pub const SHORT_SHA_BYTES: usize = 12;

/// Where a digest is cut for display: after 12 bytes, or at its end if it is
/// shorter.
pub open spec fn short_sha_cut(sha: &str) -> int {
    if sha.spec_bytes().len() < SHORT_SHA_BYTES {
        sha.spec_bytes().len() as int
    } else {
        SHORT_SHA_BYTES as int
    }
}

/// The leading 12 bytes of a digest (all of it if shorter), as shown on the
/// dashboard. The cut must fall between characters.
pub fn short_sha(sha: &str) -> (r: &str)
    requires
        is_char_boundary(sha.spec_bytes(), short_sha_cut(sha)),
    ensures
        r.spec_bytes() == sha.spec_bytes().subrange(0, short_sha_cut(sha)),
{
    let n = sha.as_bytes().len();
    let cut = if n < SHORT_SHA_BYTES {
        n
    } else {
        SHORT_SHA_BYTES
    };
    let (head, _) = sha.split_at(cut);
    head
}

/// The character is an ASCII decimal digit.
pub open spec fn is_digit(c: char) -> bool {
    '0' <= c <= '9'
}

/// The value of a string of decimal digits.
pub open spec fn digits_value(ds: Seq<char>) -> int
    decreases ds.len(),
{
    if ds.len() == 0 {
        0
    } else {
        digits_value(ds.drop_last()) * 10 + (ds.last() as int - '0' as int)
    }
}

/// The text after an optional leading `+`.
pub open spec fn unsigned_part(s: Seq<char>) -> Seq<char> {
    if s.len() > 0 && s[0] == '+' {
        s.drop_first()
    } else {
        s
    }
}

/// Every character is a decimal digit.
pub open spec fn all_digits(ds: Seq<char>) -> bool {
    forall|i: int| 0 <= i < ds.len() ==> is_digit(#[trigger] ds[i])
}

/// The canary percentage a request asks for: an optional `+` and one or
/// more decimal digits, whose value is clamped to 100; `None` for any other
/// text.
pub open spec fn canary_of(raw: Seq<char>) -> Option<u8> {
    let ds = unsigned_part(raw);
    if ds.len() > 0 && all_digits(ds) {
        Some(if digits_value(ds) > 100 {
            100u8
        } else {
            digits_value(ds) as u8
        })
    } else {
        None
    }
}

proof fn lemma_digits_nonneg(ds: Seq<char>)
    requires
        all_digits(ds),
    ensures
        digits_value(ds) >= 0,
    decreases ds.len(),
{
    if ds.len() > 0 {
        assert(is_digit(ds[ds.len() - 1]));
        lemma_digits_nonneg(ds.drop_last());
    }
}

/// Reads a canary percentage: an optional `+` and decimal digits, clamped
/// to 100. Any other text is refused with `None`.
pub fn canary_percent(raw: &str) -> (r: Option<u8>)
    ensures
        r == canary_of(raw@),
        r matches Some(p) ==> p <= 100,
{
    let cs = chars_of(raw);
    let start: usize = if cs.len() > 0 && cs[0] == '+' {
        1
    } else {
        0
    };
    let ghost ds = unsigned_part(raw@);
    assert(ds =~= cs@.skip(start as int));
    if start >= cs.len() {
        return None;
    }
    // `acc` is the value read so far, held at 256 once it passes 255.
    let mut acc: u32 = 0;
    let mut i: usize = start;
    while i < cs.len()
        invariant
            start <= i <= cs@.len(),
            ds == unsigned_part(raw@),
            ds =~= cs@.skip(start as int),
            forall|j: int| start <= j < i ==> is_digit(#[trigger] cs@[j]),
            acc <= 256,
            acc == (if digits_value(cs@.subrange(start as int, i as int)) > 256 {
                256
            } else {
                digits_value(cs@.subrange(start as int, i as int))
            }),
            digits_value(cs@.subrange(start as int, i as int)) >= 0,
        decreases cs.len() - i,
    {
        let c = cs[i];
        if !('0' <= c && c <= '9') {
            proof {
                assert(ds[i - start] == c);
                assert(!is_digit(ds[i - start]));
                assert(!all_digits(ds));
            }
            return None;
        }
        let d: u32 = (c as u32) - ('0' as u32);
        proof {
            let pre = cs@.subrange(start as int, i as int);
            let post = cs@.subrange(start as int, i + 1);
            assert(post.drop_last() =~= pre);
            assert(post.last() == c);
            assert(digits_value(post) == digits_value(pre) * 10 + d);
        }
        if acc * 10 + d > 256 {
            acc = 256;
        } else {
            acc = acc * 10 + d;
        }
        i = i + 1;
    }
    proof {
        assert(cs@.subrange(start as int, cs@.len() as int) =~= ds);
        lemma_digits_nonneg(ds);
    }
    if acc > 100 {
        Some(100)
    } else {
        Some(acc as u8)
    }
}

/// A canary percentage was asked for, but its value is not a number.
#[derive(Clone, Copy, Debug, PartialEq, Eq)]
pub struct BadCanary;

/// What an upload's optional `canary` value asks for: no canary when absent,
/// the clamped percentage when it reads as one, and a refusal otherwise — a
/// request that asks for a canary never becomes a plain release.
pub fn canary_request(raw: Option<&str>) -> (r: Result<Option<u8>, BadCanary>)
    ensures
        match raw {
            None => r == Ok::<Option<u8>, BadCanary>(None),
            Some(s) => match canary_of(s@) {
                Some(p) => r == Ok::<Option<u8>, BadCanary>(Some(p)),
                None => r == Err::<Option<u8>, BadCanary>(BadCanary),
            },
        },
{
    match raw {
        None => Ok(None),
        Some(s) => match canary_percent(s) {
            Some(p) => Ok(Some(p)),
            None => Err(BadCanary),
        },
    }
}

/// A request that names a canary value either stages a canary or is
/// refused: it never asks for a plain release.
pub proof fn lemma_canary_request_never_releases(raw: Option<&str>, r: Result<Option<u8>, BadCanary>)
    requires
        raw is Some,
        match raw {
            None => r == Ok::<Option<u8>, BadCanary>(None),
            Some(s) => match canary_of(s@) {
                Some(p) => r == Ok::<Option<u8>, BadCanary>(Some(p)),
                None => r == Err::<Option<u8>, BadCanary>(BadCanary),
            },
        },
    ensures
        r matches Ok(c) ==> c is Some,
{
}

/// How many seconds ago something was seen, by a clock reading `now`; 0 when
/// it was seen at or after `now`.
pub fn seen_ago(now: u64, seen: u64) -> (age: u64)
    ensures
        age == if now >= seen {
            now - seen
        } else {
            0
        },
{
    now.saturating_sub(seen)
}

/// A channel that releases `rel` with no rollout.
pub open spec fn released(rel: Release) -> Channel {
    Channel { current: rel, rollout: None }
}

/// A channel with `rel` staged to `percent` of its devices.
pub open spec fn staged(ch: Channel, rel: Release, percent: u8) -> Channel {
    Channel { current: ch.current, rollout: Some(Rollout { release: rel, percent }) }
}

/// A channel whose rollout has become its current release.
pub open spec fn promoted(ch: Channel) -> Channel {
    Channel { current: ch.rollout->0.release, rollout: None }
}

/// A channel whose rollout was dropped.
pub open spec fn aborted(ch: Channel) -> Channel {
    Channel { current: ch.current, rollout: None }
}

/// A report as stored: stamped with the device id and the time it was seen.
pub open spec fn stamped(rep: DeviceReport, id: String, seen: u64) -> DeviceReport {
    DeviceReport {
        device: id,
        channel: rep.channel,
        target_sha: rep.target_sha,
        version: rep.version,
        behavior: rep.behavior,
        ok: rep.ok,
        platform: rep.platform,
        seen,
    }
}

/// Why a release could not be staged.
#[derive(Clone, Copy, Debug, PartialEq, Eq)]
pub enum PublishError {
    /// A canary needs a current release on the channel to stage against.
    EmptyChannel,
}

/// Why a rollout could not be promoted.
#[derive(Clone, Copy, Debug, PartialEq, Eq)]
pub enum PromoteError {
    NoSuchChannel,
    NoRollout,
}

/// The channel asked for is not there.
#[derive(Clone, Copy, Debug, PartialEq, Eq)]
pub struct NoSuchChannel;

/// What the fleet answers of a channel.
#[derive(Debug)]
pub enum ChannelAnswer<'a> {
    /// The release a given device should run.
    ForDevice(&'a Release),
    /// The whole channel state (operator view).
    Whole(&'a Channel),
}

/// How many devices report on a canary, and how many of them verified it.
#[derive(Clone, Copy, Debug, PartialEq, Eq)]
pub struct CanaryHealth {
    pub reports: usize,
    pub verified: usize,
}

/// How a canary's health is shown.
#[derive(Clone, Copy, Debug, PartialEq, Eq)]
pub enum HealthClass {
    /// Every reporting device verified it.
    Good,
    /// Some reporting device failed it.
    Failing,
    /// No device reports on it yet.
    Quiet,
}

/// The report is about the canary `sha` of channel `ch`.
pub open spec fn reports_on(rep: DeviceReport, ch: Seq<char>, sha: Seq<char>) -> bool {
    rep.channel@ == ch && rep.target_sha@ == sha
}

/// How many of the listed reports are about canary `sha` of channel `ch`;
/// with `need_ok`, only those that verified it.
pub open spec fn count_reports(s: Seq<(String, DeviceReport)>, ch: Seq<char>, sha: Seq<char>, need_ok: bool) -> nat
    decreases s.len(),
{
    if s.len() == 0 {
        0
    } else {
        let rep = s.last().1;
        count_reports(s.drop_last(), ch, sha, need_ok) + if reports_on(rep, ch, sha) && (rep.ok || !need_ok) {
            1nat
        } else {
            0nat
        }
    }
}

/// Verified reports never outnumber reports.
pub proof fn lemma_verified_within_reports(s: Seq<(String, DeviceReport)>, ch: Seq<char>, sha: Seq<char>)
    ensures
        count_reports(s, ch, sha, true) <= count_reports(s, ch, sha, false),
        count_reports(s, ch, sha, false) <= s.len(),
    decreases s.len(),
{
    if s.len() > 0 {
        lemma_verified_within_reports(s.drop_last(), ch, sha);
    }
}

impl CanaryHealth {
    /// The class a dashboard shows: good when every reporting device
    /// verified, failing when some did not, quiet when none reports.
    pub open spec fn spec_class(self) -> HealthClass {
        if self.reports > 0 && self.verified == self.reports {
            HealthClass::Good
        } else if self.verified < self.reports {
            HealthClass::Failing
        } else {
            HealthClass::Quiet
        }
    }

    /// The class a dashboard shows for this health.
    pub fn class(&self) -> (c: HealthClass)
        ensures
            c == self.spec_class(),
    {
        if self.reports > 0 && self.verified == self.reports {
            HealthClass::Good
        } else if self.verified < self.reports {
            HealthClass::Failing
        } else {
            HealthClass::Quiet
        }
    }
}

/// The fleet: channels and the last report of each device, each keyed and
/// listed by name.
pub struct FleetState {
    pub channels: NameMap<Channel>,
    pub devices: NameMap<DeviceReport>,
}

impl FleetState {
    /// The state's invariant: both tables are well formed.
    pub open spec fn wf(&self) -> bool {
        self.channels.wf() && self.devices.wf()
    }

    /// An empty fleet.
    pub fn new() -> (st: Self)
        ensures
            st.wf(),
            st.channels@ == Map::<Seq<char>, Channel>::empty(),
            st.devices@ == Map::<Seq<char>, DeviceReport>::empty(),
    {
        FleetState { channels: NameMap::new(), devices: NameMap::new() }
    }

    /// Makes `rel` the channel's release. With a canary percentage it is
    /// staged as a rollout beside the current release, which needs the
    /// channel to exist; without one it becomes `current` and any in-flight
    /// rollout is cleared.
    pub fn publish(&mut self, ch: String, rel: Release, canary: Option<u8>) -> (r: Result<(), PublishError>)
        requires
            old(self).wf(),
        ensures
            final(self).wf(),
            final(self).devices@ == old(self).devices@,
            match canary {
                Some(p) => if old(self).channels@.contains_key(ch@) {
                    &&& r is Ok
                    &&& final(self).channels@ == old(self).channels@.insert(
                        ch@,
                        staged(old(self).channels@[ch@], rel, p),
                    )
                } else {
                    &&& r == Err::<(), PublishError>(PublishError::EmptyChannel)
                    &&& final(self).channels@ == old(self).channels@
                },
                None => {
                    &&& r is Ok
                    &&& final(self).channels@ == old(self).channels@.insert(ch@, released(rel))
                },
            },
    {
        match canary {
            Some(p) => {
                match self.channels.locate(ch.as_str()) {
                    Ok(i) => {
                        let (name, c) = self.channels.remove_at(i);
                        self.channels.insert(
                            name,
                            Channel { current: c.current, rollout: Some(Rollout { release: rel, percent: p }) },
                        );
                        proof {
                            assert(final(self).channels@ =~= old(self).channels@.insert(
                                ch@,
                                staged(old(self).channels@[ch@], rel, p),
                            ));
                        }
                        Ok(())
                    },
                    Err(_) => Err(PublishError::EmptyChannel),
                }
            },
            None => {
                self.channels.insert(ch, Channel { current: rel, rollout: None });
                Ok(())
            },
        }
    }

    /// Promotes the in-flight rollout to `current` (the canary becomes the
    /// fleet-wide release).
    pub fn promote(&mut self, ch: &str) -> (r: Result<(), PromoteError>)
        requires
            old(self).wf(),
        ensures
            final(self).wf(),
            final(self).devices@ == old(self).devices@,
            !old(self).channels@.contains_key(ch@) ==> r == Err::<(), PromoteError>(
                PromoteError::NoSuchChannel,
            ) && final(self).channels@ == old(self).channels@,
            old(self).channels@.contains_key(ch@) && old(self).channels@[ch@].rollout is None ==> r
                == Err::<(), PromoteError>(PromoteError::NoRollout) && final(self).channels@ == old(
                self,
            ).channels@,
            old(self).channels@.contains_key(ch@) && old(self).channels@[ch@].rollout is Some ==> r is Ok
                && final(self).channels@ == old(self).channels@.insert(
                ch@,
                promoted(old(self).channels@[ch@]),
            ),
    {
        match self.channels.locate(ch) {
            Err(_) => Err(PromoteError::NoSuchChannel),
            Ok(i) => {
                let has_rollout = self.channels.entry(i).1.rollout.is_some();
                if !has_rollout {
                    return Err(PromoteError::NoRollout);
                }
                let (name, c) = self.channels.remove_at(i);
                match c.rollout {
                    Some(ro) => {
                        self.channels.insert(name, Channel { current: ro.release, rollout: None });
                        proof {
                            assert(final(self).channels@ =~= old(self).channels@.insert(
                                ch@,
                                promoted(old(self).channels@[ch@]),
                            ));
                        }
                        Ok(())
                    },
                    None => {
                        proof {
                            assert(false);
                        }
                        Err(PromoteError::NoRollout)
                    },
                }
            },
        }
    }

    /// Aborts the in-flight rollout — canary devices revert to `current` on
    /// their next poll. Says whether there was a rollout to abort.
    pub fn abort(&mut self, ch: &str) -> (r: Result<bool, NoSuchChannel>)
        requires
            old(self).wf(),
        ensures
            final(self).wf(),
            final(self).devices@ == old(self).devices@,
            !old(self).channels@.contains_key(ch@) ==> r == Err::<bool, NoSuchChannel>(NoSuchChannel)
                && final(self).channels@ == old(self).channels@,
            old(self).channels@.contains_key(ch@) ==> r == Ok::<bool, NoSuchChannel>(
                old(self).channels@[ch@].rollout is Some,
            ) && final(self).channels@ == old(self).channels@.insert(
                ch@,
                aborted(old(self).channels@[ch@]),
            ),
    {
        match self.channels.locate(ch) {
            Err(_) => Err(NoSuchChannel),
            Ok(i) => {
                let (name, c) = self.channels.remove_at(i);
                let had = c.rollout.is_some();
                self.channels.insert(name, Channel { current: c.current, rollout: None });
                proof {
                    assert(final(self).channels@ =~= old(self).channels@.insert(
                        ch@,
                        aborted(old(self).channels@[ch@]),
                    ));
                }
                Ok(had)
            },
        }
    }

    /// Stores a device's report under its id, stamped with the id and the
    /// time it was seen.
    pub fn record_report(&mut self, id: String, rep: DeviceReport, seen: u64)
        requires
            old(self).wf(),
        ensures
            final(self).wf(),
            final(self).channels@ == old(self).channels@,
            final(self).devices@ == old(self).devices@.insert(id@, stamped(rep, id, seen)),
            final(self).devices@.contains_key(id@),
            final(self).devices@[id@].device == id,
            final(self).devices@[id@].seen == seen,
            final(self).devices@[id@].channel == rep.channel,
            final(self).devices@[id@].target_sha == rep.target_sha,
            final(self).devices@[id@].version == rep.version,
            final(self).devices@[id@].behavior == rep.behavior,
            final(self).devices@[id@].ok == rep.ok,
            final(self).devices@[id@].platform == rep.platform,
    {
        let key = id.clone();
        let stored = DeviceReport {
            device: id,
            channel: rep.channel,
            target_sha: rep.target_sha,
            version: rep.version,
            behavior: rep.behavior,
            ok: rep.ok,
            platform: rep.platform,
            seen,
        };
        self.devices.insert(key, stored);
    }

    /// A channel's state as asked for: with a device, the release that
    /// device should run (honoring the canary); without one, the whole
    /// channel. `None` where there is no such channel.
    pub fn lookup_channel<'a>(&'a self, ch: &str, device: Option<&str>) -> (r: Option<ChannelAnswer<'a>>)
        requires
            self.wf(),
        ensures
            (r is Some) == self.channels@.contains_key(ch@),
            r matches Some(a) ==> match device {
                Some(d) => a matches ChannelAnswer::ForDevice(rel) && *rel == resolved(
                    self.channels@[ch@],
                    d@,
                ),
                None => a matches ChannelAnswer::Whole(c) && *c == self.channels@[ch@],
            },
    {
        match self.channels.get(ch) {
            None => None,
            Some(c) => match device {
                Some(d) => Some(ChannelAnswer::ForDevice(resolve(c, d))),
                None => Some(ChannelAnswer::Whole(c)),
            },
        }
    }

    /// Whether the channel's canary pack is the one to serve: only to a
    /// device the canary covers.
    pub fn serves_canary(&self, ch: &str, device: Option<&str>) -> (r: bool)
        requires
            self.wf(),
        ensures
            r == (device matches Some(d) && self.channels@.contains_key(ch@) && on_rollout(
                self.channels@[ch@],
                d@,
            )),
    {
        match (device, self.channels.get(ch)) {
            (Some(d), Some(c)) => match &c.rollout {
                Some(ro) => pctl(d) < ro.percent,
                None => false,
            },
            _ => false,
        }
    }

    /// Of the devices whose last report is about the canary `sha` of channel
    /// `ch`, how many there are and how many verified it.
    pub fn canary_health(&self, ch: &str, sha: &str) -> (h: CanaryHealth)
        requires
            self.wf(),
        ensures
            h.reports == count_reports(self.devices.pairs(), ch@, sha@, false),
            h.verified == count_reports(self.devices.pairs(), ch@, sha@, true),
            h.verified <= h.reports,
    {
        let n = self.devices.len();
        let mut reports: usize = 0;
        let mut verified: usize = 0;
        let mut i: usize = 0;
        while i < n
            invariant
                self.wf(),
                n == self.devices.pairs().len(),
                i <= n,
                reports == count_reports(self.devices.pairs().take(i as int), ch@, sha@, false),
                verified == count_reports(self.devices.pairs().take(i as int), ch@, sha@, true),
            decreases n - i,
        {
            let (_, rep) = self.devices.entry(i);
            proof {
                let s = self.devices.pairs();
                assert(s.take(i + 1).drop_last() =~= s.take(i as int));
                lemma_verified_within_reports(s.take(i as int), ch@, sha@);
                assert(s.take(i as int).len() == i);
            }
            if same_text(rep.channel.as_str(), ch) && same_text(rep.target_sha.as_str(), sha) {
                reports = reports + 1;
                if rep.ok {
                    verified = verified + 1;
                }
            }
            i = i + 1;
        }
        proof {
            let s = self.devices.pairs();
            assert(s.take(n as int) =~= s);
            lemma_verified_within_reports(s, ch@, sha@);
        }
        CanaryHealth { reports, verified }
    }
}

/// Every device falls in one of the buckets 0..=99.
pub proof fn lemma_bucket_below_100(device: Seq<char>)
    ensures
        bucket(device) < 100,
{
}

/// A rollout to 100% (or more) covers every device; one to 0% covers none.
pub proof fn lemma_rollout_extremes(ch: Channel, device: Seq<char>)
    requires
        ch.rollout is Some,
    ensures
        ch.rollout->0.percent >= 100 ==> resolved(ch, device) == ch.rollout->0.release,
        ch.rollout->0.percent == 0 ==> resolved(ch, device) == ch.current,
{
}

/// Widening a canary never drops a device from it: a device covered at one
/// percentage is covered at every larger one.
pub proof fn lemma_rollout_monotone(ch: Channel, rel: Release, p: u8, q: u8, device: Seq<char>)
    requires
        p <= q,
        on_rollout(staged(ch, rel, p), device),
    ensures
        on_rollout(staged(ch, rel, q), device),
{
}

/// Staging a canary keeps the channel's current release, sends the canary
/// to exactly the devices whose bucket is below the percentage, and leaves
/// every other device on the current release.
pub proof fn lemma_staging_splits_devices(ch: Channel, rel: Release, p: u8, device: Seq<char>)
    ensures
        staged(ch, rel, p).current == ch.current,
        on_rollout(staged(ch, rel, p), device) == (bucket(device) < p),
        resolved(staged(ch, rel, p), device) == if bucket(device) < p {
            rel
        } else {
            ch.current
        },
{
}

/// After a release without canary, every device runs that release.
pub proof fn lemma_release_reaches_all(rel: Release, device: Seq<char>)
    ensures
        resolved(released(rel), device) == rel,
{
}

/// After a promotion every device runs the former canary, and there is no
/// rollout left.
pub proof fn lemma_promotion_reaches_all(ch: Channel, device: Seq<char>)
    requires
        ch.rollout is Some,
    ensures
        resolved(promoted(ch), device) == ch.rollout->0.release,
        promoted(ch).rollout is None,
{
}

/// After an abort every device is back on the current release, and there is
/// nothing left to promote.
pub proof fn lemma_abort_reverts_all(ch: Channel, device: Seq<char>)
    ensures
        resolved(aborted(ch), device) == ch.current,
        aborted(ch).rollout is None,
        aborted(ch).current == ch.current,
{
}

/// Aborting undoes staging: a staged canary that is aborted leaves the
/// channel as an abort alone would (as it was, if it had no rollout).
pub proof fn lemma_abort_undoes_staging(ch: Channel, rel: Release, p: u8)
    ensures
        aborted(staged(ch, rel, p)) == aborted(ch),
        ch.rollout is None ==> aborted(staged(ch, rel, p)) == ch,
{
}

/// Staging then promoting a release leaves the channel as releasing it
/// directly would.
pub proof fn lemma_promotion_completes_staging(ch: Channel, rel: Release, p: u8)
    ensures
        promoted(staged(ch, rel, p)) == released(rel),
{
}

/// The same for the whole channel table: publishing a canary to an existing
/// channel and then promoting it gives the table that publishing the release
/// without canary gives.
pub proof fn lemma_canary_then_promote(channels: Map<Seq<char>, Channel>, ch: Seq<char>, rel: Release, p: u8)
    requires
        channels.contains_key(ch),
    ensures
        ({
            let after_canary = channels.insert(ch, staged(channels[ch], rel, p));
            after_canary.insert(ch, promoted(after_canary[ch]))
        }) == channels.insert(ch, released(rel)),
{
    let after_canary = channels.insert(ch, staged(channels[ch], rel, p));
    assert(after_canary.insert(ch, promoted(after_canary[ch])) =~= channels.insert(ch, released(rel)));
}

/// The pack slot a device is served from a channel.
pub open spec fn served_slot(ch: Channel, device: Seq<char>) -> PackSlot {
    if on_rollout(ch, device) {
        PackSlot::Rollout
    } else {
        PackSlot::Current
    }
}

/// The release whose pack a slot holds.
pub open spec fn slot_release(ch: Channel, slot: PackSlot) -> Release {
    match slot {
        PackSlot::Rollout => ch.rollout->0.release,
        _ => ch.current,
    }
}

/// A device is served the pack of the very release the channel resolves
/// for it.
pub proof fn lemma_served_pack_is_resolved_release(ch: Channel, device: Seq<char>)
    ensures
        slot_release(ch, served_slot(ch, device)) == resolved(ch, device),
{
}

/// The pack files of an accepted channel name stay in the channel directory:
/// their names hold no `/`.
pub proof fn lemma_slot_files_stay_in_directory(ch: Seq<char>, slot: PackSlot)
    requires
        channel_name_ok(ch),
    ensures
        !(ch + slot_suffix(slot)).contains('/'),
{
    reveal_strlit(".fpack");
    reveal_strlit(".rollout.fpack");
    reveal_strlit(".incoming");
    let f = ch + slot_suffix(slot);
    if f.contains('/') {
        let i = choose|i: int| 0 <= i < f.len() && f[i] == '/';
        if i < ch.len() {
            assert(ch[i] == '/');
        } else {
            assert(slot_suffix(slot)[i - ch.len()] == '/');
        }
    }
}

/// FNV-1a starts from the offset basis and takes each byte unchanged: xor
/// it into the hash, then multiply by the prime (mod 2⁶⁴).
pub proof fn lemma_fnv1a_steps(s: Seq<u8>, b: u8)
    ensures
        fnv1a(Seq::<u8>::empty()) == 0xcbf2_9ce4_8422_2325u64,
        fnv1a(s.push(b)) == (fnv1a(s) ^ (b as u64)).wrapping_mul(0x100_0000_01b3u64),
{
    assert(s.push(b).drop_last() =~= s);
}

/// A device's bucket is the FNV-1a hash of exactly its UTF-8 bytes, mod 100:
/// ids whose bytes differ (in case, say) are hashed from different bytes.
pub proof fn lemma_bucket_hashes_raw_bytes(device: Seq<char>)
    ensures
        bucket(device) as int == fnv1a(encode_utf8(device)) as int % 100,
{
}

/// A channel name is accepted exactly when it holds neither `/` nor `.`:
/// every other character, upper or lower case, is allowed.
pub proof fn lemma_channel_names_accepted(ch: Seq<char>)
    ensures
        channel_name_ok(ch) == (!ch.contains('/') && !ch.contains('.')),
{
}

/// A stored report is the posted one field for field, except that the
/// server stamps the device id and the time it was seen.
pub proof fn lemma_stamping_keeps_the_report(rep: DeviceReport, id: String, seen: u64)
    ensures
        stamped(rep, id, seen).device == id,
        stamped(rep, id, seen).seen == seen,
        stamped(rep, id, seen).channel == rep.channel,
        stamped(rep, id, seen).target_sha == rep.target_sha,
        stamped(rep, id, seen).version == rep.version,
        stamped(rep, id, seen).behavior == rep.behavior,
        stamped(rep, id, seen).ok == rep.ok,
        stamped(rep, id, seen).platform == rep.platform,
{
}

} // verus!
