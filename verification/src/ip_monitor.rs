//! Watching the public IP address: the monitor's settings, what it reports, what it
//! writes down between runs, and the decisions it takes after each lookup.

use vstd::prelude::*;

use crate::ip::Ipv4Address;
use crate::outside::UtcTime;

verus! {

/// `std::path::PathBuf`, an owned file system path. The library carries it without looking
/// inside.
#[verifier::external_type_specification]
#[verifier::external_body]
pub struct ExPathBuf(std::path::PathBuf);

/// The `Duration` that `Duration::from_secs(secs)` builds.
pub uninterp spec fn duration_from_secs(secs: u64) -> std::time::Duration;

/// `std::time::Duration::from_secs`: the duration of `secs` whole seconds.
#[verifier::external_body]
pub(crate) fn from_secs(secs: u64) -> (d: std::time::Duration)
    ensures
        d == duration_from_secs(secs),
{
    std::time::Duration::from_secs(secs)
}

/// `Clone::clone` for `std::path::PathBuf`: an equal path.
pub assume_specification[ <std::path::PathBuf as Clone>::clone ](p: &std::path::PathBuf) -> (r:
    std::path::PathBuf)
    ensures
        r == *p,
;

/// `Clone::clone` for `std::time::Duration` (a `Copy` type): an equal duration.
pub assume_specification[ <std::time::Duration as Clone>::clone ](d: &std::time::Duration) -> (r:
    std::time::Duration)
    ensures
        r == *d,
;

/// What the monitor reports.
#[derive(Debug, Clone, PartialEq)]
pub enum IpMonitorMessage {
    /// The monitor has started.
    Started,
    /// The public address changed from `old_ip` to `new_ip`.
    IpChanged { old_ip: Ipv4Address, new_ip: Ipv4Address },
    /// A lookup failed; the text says why.
    Error(String),
    /// The public address is the one seen before.
    NoChange,
}

/// The settings of the monitor.
#[derive(Debug, Clone, PartialEq)]
pub struct IpMonitorConfig {
    /// How long to wait after each successful lookup.
    pub wait_time: std::time::Duration,
    /// Where to keep the last known address between runs, if anywhere.
    pub persistent_file: Option<std::path::PathBuf>,
}

impl Default for IpMonitorConfig {
    /// Ten minutes between lookups, nothing kept between runs.
    fn default() -> (c: IpMonitorConfig)
        ensures
            c.wait_time == duration_from_secs(600),
            c.persistent_file is None,
    {
        IpMonitorConfig { wait_time: from_secs(60 * 10), persistent_file: None }
    }
}

impl IpMonitorConfig {
    /// The same settings with another wait between lookups.
    pub fn with_wait_time(self, wait_time: std::time::Duration) -> (c: IpMonitorConfig)
        ensures
            c.wait_time == wait_time,
            c.persistent_file == self.persistent_file,
    {
        IpMonitorConfig { wait_time, ..self }
    }

    /// The same settings, keeping the last known address in `persistent_file`.
    pub fn with_persistent_file(self, persistent_file: std::path::PathBuf) -> (c: IpMonitorConfig)
        ensures
            c.wait_time == self.wait_time,
            c.persistent_file == Some(persistent_file),
    {
        IpMonitorConfig { persistent_file: Some(persistent_file), ..self }
    }
}

/// What the monitor keeps between runs: the last address it saw, and when it saw it.
#[derive(Debug, Clone, Copy, PartialEq, Eq, Structural)]
pub struct PersistentData {
    pub last_known_ip: Ipv4Address,
    pub time: UtcTime,
}

impl PersistentData {
    /// The address `ip`, seen at `time`.
    pub fn at(ip: Ipv4Address, time: UtcTime) -> (d: PersistentData)
        ensures
            d == (PersistentData { last_known_ip: ip, time }),
    {
        PersistentData { last_known_ip: ip, time }
    }
}

/// Whether `ip` differs from the address seen before (always so when none was seen).
pub open spec fn ip_changed(last: Option<Ipv4Address>, ip: Ipv4Address) -> bool {
    match last {
        Some(old) => old != ip,
        None => true,
    }
}

/// The address the monitor remembers after a lookup: the one found, or, when the lookup
/// failed, the one it had.
pub open spec fn next_known_ip(last: Option<Ipv4Address>, fetched: Option<Ipv4Address>) -> Option<
    Ipv4Address,
> {
    match fetched {
        Some(ip) => Some(ip),
        None => last,
    }
}

/// The change a lookup reports, as `(old, new)`: only a found address that differs from a
/// known one is a change.
pub open spec fn reported_change(last: Option<Ipv4Address>, fetched: Option<Ipv4Address>) -> Option<
    (Ipv4Address, Ipv4Address),
> {
    match (last, fetched) {
        (Some(old), Some(ip)) => if old != ip {
            Some((old, ip))
        } else {
            None
        },
        _ => None,
    }
}

/// Whether a lookup makes the monitor write the address down (given a file to write to):
/// when it found an address other than the one it knew.
pub open spec fn records_address(last: Option<Ipv4Address>, fetched: Option<Ipv4Address>) -> bool {
    match fetched {
        Some(ip) => ip_changed(last, ip),
        None => false,
    }
}

/// The text of the error reported when a lookup fails.
pub open spec fn lookup_failed_text() -> Seq<char> {
    "Failed to get public IP address"@
}

/// The address the monitor starts from, given the data read back from its file.
pub open spec fn resumed_ip(persisted: Option<PersistentData>) -> Option<Ipv4Address> {
    match persisted {
        Some(d) => Some(d.last_known_ip),
        None => None,
    }
}

/// The address the monitor knows after a run of lookups.
pub open spec fn known_after(last: Option<Ipv4Address>, fetches: Seq<Option<Ipv4Address>>) -> Option<
    Ipv4Address,
>
    decreases fetches.len(),
{
    if fetches.len() == 0 {
        last
    } else {
        next_known_ip(known_after(last, fetches.drop_last()), fetches.last())
    }
}

/// The changes the monitor reports during a run of lookups, in order.
pub open spec fn changes_during(last: Option<Ipv4Address>, fetches: Seq<Option<Ipv4Address>>) -> Seq<
    (Ipv4Address, Ipv4Address),
>
    decreases fetches.len(),
{
    if fetches.len() == 0 {
        Seq::empty()
    } else {
        let before = changes_during(last, fetches.drop_last());
        match reported_change(known_after(last, fetches.drop_last()), fetches.last()) {
            Some(change) => before.push(change),
            None => before,
        }
    }
}

/// A failed lookup changes nothing: the monitor keeps the address it knew, reports no
/// change and writes nothing down.
pub proof fn law_failed_lookup_keeps_state(last: Option<Ipv4Address>)
    ensures
        next_known_ip(last, None) == last,
        reported_change(last, None) is None,
        !records_address(last, None),
{
}

/// Finding the same address twice in a row: the second lookup reports no change and
/// writes nothing down.
pub proof fn law_same_address_twice(last: Option<Ipv4Address>, ip: Ipv4Address)
    ensures
        !ip_changed(next_known_ip(last, Some(ip)), ip),
        reported_change(next_known_ip(last, Some(ip)), Some(ip)) is None,
        !records_address(next_known_ip(last, Some(ip)), Some(ip)),
{
}

/// A reported change goes from the address the monitor knew to the different address it
/// just found, and the monitor then knows the new one.
pub proof fn law_change_is_real(last: Option<Ipv4Address>, fetched: Option<Ipv4Address>)
    ensures
        reported_change(last, fetched) matches Some((old, new)) ==> {
            &&& old != new
            &&& last == Some(old)
            &&& fetched == Some(new)
            &&& next_known_ip(last, fetched) == Some(new)
            &&& records_address(last, fetched)
        },
{
}

/// A lookup that finds an address other than the known one is always a change: it is
/// reported as going from the known address to the found one, the monitor then knows the
/// found one, and it is written down. Any found address becomes the known one, and an
/// address counts as changed exactly when it differs from the known one.
pub proof fn law_different_address_is_change(o: Ipv4Address, n: Ipv4Address, last: Option<Ipv4Address>)
    ensures
        ip_changed(Some(o), n) <==> o != n,
        next_known_ip(last, Some(n)) == Some(n),
        o != n ==> reported_change(Some(o), Some(n)) == Some((o, n)),
        o != n ==> records_address(Some(o), Some(n)),
        reported_change(last, Some(n)) is None <==> (last is None || last == Some(n)),
{
}

/// The first address the monitor finds is written down but is no change.
pub proof fn law_first_address_is_recorded(ip: Ipv4Address)
    ensures
        records_address(None, Some(ip)),
        reported_change(None, Some(ip)) is None,
        next_known_ip(None, Some(ip)) == Some(ip),
{
}

/// What the monitor writes down is what it starts from on the next run: starting from the
/// written data gives the state that the lookup left.
pub proof fn law_resume_from_written(last: Option<Ipv4Address>, d: PersistentData)
    requires
        records_address(last, Some(d.last_known_ip)),
    ensures
        resumed_ip(Some(d)) == next_known_ip(last, Some(d.last_known_ip)),
{
}

/// The changes reported during a run form a chain: each starts from the address the one
/// before ended at, each really changes the address, and the last ends at the address the
/// monitor knows after the run.
pub proof fn law_changes_chain(last: Option<Ipv4Address>, fetches: Seq<Option<Ipv4Address>>)
    ensures
        forall|i: int|
            0 <= i < changes_during(last, fetches).len() - 1 ==> (#[trigger] changes_during(
                last,
                fetches,
            )[i]).1 == changes_during(last, fetches)[i + 1].0,
        forall|i: int|
            0 <= i < changes_during(last, fetches).len() ==> (#[trigger] changes_during(
                last,
                fetches,
            )[i]).0 != changes_during(last, fetches)[i].1,
        changes_during(last, fetches).len() > 0 ==> known_after(last, fetches) == Some(
            changes_during(last, fetches).last().1,
        ),
    decreases fetches.len(),
{
    if fetches.len() > 0 {
        let init = fetches.drop_last();
        law_changes_chain(last, init);
        let before = changes_during(last, init);
        let prev = known_after(last, init);
        let now = changes_during(last, fetches);
        match reported_change(prev, fetches.last()) {
            Some(change) => {
                assert(now == before.push(change));
                assert forall|i: int| 0 <= i < now.len() - 1 implies (#[trigger] now[i]).1
                    == now[i + 1].0 by {
                    if i < before.len() - 1 {
                        assert(now[i] == before[i]);
                        assert(now[i + 1] == before[i + 1]);
                    } else {
                        assert(now[i] == before.last());
                    }
                }
                assert forall|i: int| 0 <= i < now.len() implies (#[trigger] now[i]).0
                    != now[i].1 by {
                    if i < before.len() {
                        assert(now[i] == before[i]);
                    }
                }
            },
            None => {
                assert(now == before);
            },
        }
    }
}

/// What the monitor does after one lookup.
#[derive(Debug, Clone, PartialEq)]
pub struct MonitorAction {
    /// The message to report, if any.
    pub message: Option<IpMonitorMessage>,
    /// The data to write to the persistent file, if any.
    pub persist: Option<PersistentData>,
    /// Whether to wait `wait_time` before the next lookup (else look again at once).
    pub wait: bool,
}

/// The memory of the monitor: the last public address it knows of, together with (as ghost
/// state) the address it started from and every lookup it has taken in since.
pub struct MonitorState {
    last_ip: Option<Ipv4Address>,
    start_ip: Ghost<Option<Ipv4Address>>,
    lookups: Ghost<Seq<Option<Ipv4Address>>>,
}

impl MonitorState {
    /// The last public address the monitor knows of.
    pub closed spec fn known(self) -> Option<Ipv4Address> {
        self.last_ip
    }

    /// The address the monitor started from.
    pub closed spec fn started_from(self) -> Option<Ipv4Address> {
        self.start_ip@
    }

    /// The results of the lookups taken in since the start, in order (`None` for a failed
    /// one).
    pub closed spec fn lookups(self) -> Seq<Option<Ipv4Address>> {
        self.lookups@
    }

    /// The changes the monitor has reported since the start, in order.
    pub open spec fn changes(self) -> Seq<(Ipv4Address, Ipv4Address)> {
        changes_during(self.started_from(), self.lookups())
    }

    /// The state agrees with its history: the address it knows is the one its lookups left.
    pub closed spec fn wf(self) -> bool {
        self.last_ip == known_after(self.start_ip@, self.lookups@)
    }

    /// The state at start, from the data read back from the persistent file, if any; with
    /// the message that reports the start.
    pub fn start(persisted: Option<PersistentData>) -> (r: (MonitorState, IpMonitorMessage))
        ensures
            r.0.wf(),
            r.0.known() == resumed_ip(persisted),
            r.0.started_from() == resumed_ip(persisted),
            r.0.lookups() == Seq::<Option<Ipv4Address>>::empty(),
            r.0.changes() == Seq::<(Ipv4Address, Ipv4Address)>::empty(),
            r.1 == IpMonitorMessage::Started,
    {
        let last_ip = match persisted {
            Some(d) => Some(d.last_known_ip),
            None => None,
        };
        (
            MonitorState { last_ip, start_ip: Ghost(last_ip), lookups: Ghost(Seq::empty()) },
            IpMonitorMessage::Started,
        )
    }

    /// The last public address the monitor knows of.
    pub fn last_ip(&self) -> (r: Option<Ipv4Address>)
        ensures
            r == self.known(),
    {
        self.last_ip
    }

    /// Takes in the result of a lookup (`None` when it failed), made at the time `now`, and
    /// decides what to report, what to write down and whether to wait.
    pub fn observe(
        &mut self,
        fetched: Option<Ipv4Address>,
        config: &IpMonitorConfig,
        now: UtcTime,
    ) -> (a: MonitorAction)
        requires
            old(self).wf(),
        ensures
            final(self).wf(),
            final(self).started_from() == old(self).started_from(),
            final(self).lookups() == old(self).lookups().push(fetched),
            final(self).known() == next_known_ip(old(self).known(), fetched),
            final(self).changes() == (match a.message {
                Some(IpMonitorMessage::IpChanged { old_ip, new_ip }) => old(self).changes().push(
                    (old_ip, new_ip),
                ),
                _ => old(self).changes(),
            }),
            a.wait == (fetched is Some),
            fetched is None ==> (a.message matches Some(IpMonitorMessage::Error(e)) && e@
                == lookup_failed_text()),
            (fetched matches Some(ip) && !ip_changed(old(self).known(), ip)) ==> a.message
                == Some(IpMonitorMessage::NoChange),
            (fetched matches Some(ip) && ip_changed(old(self).known(), ip)) ==> a.message == (
            match reported_change(old(self).known(), fetched) {
                Some((o, n)) => Some(IpMonitorMessage::IpChanged { old_ip: o, new_ip: n }),
                None => None,
            }),
            a.persist is Some <==> (records_address(old(self).known(), fetched)
                && config.persistent_file is Some),
            a.persist matches Some(d) ==> fetched == Some(d.last_known_ip) && d.time == now,
    {
        let ghost before = self.lookups@;
        proof {
            assert(before.push(fetched).drop_last() == before);
        }
        self.lookups = Ghost(self.lookups@.push(fetched));
        match fetched {
            None => MonitorAction {
                message: Some(
                    IpMonitorMessage::Error(String::from_str("Failed to get public IP address")),
                ),
                persist: None,
                wait: false,
            },
            Some(current_ip) => {
                let changed = match self.last_ip {
                    Some(ip) => ip != current_ip,
                    None => true,
                };
                if changed {
                    let message = match self.last_ip {
                        Some(prev_ip) => Some(
                            IpMonitorMessage::IpChanged { old_ip: prev_ip, new_ip: current_ip },
                        ),
                        None => None,
                    };
                    self.last_ip = Some(current_ip);
                    let persist = match &config.persistent_file {
                        Some(_) => Some(PersistentData::at(current_ip, now)),
                        None => None,
                    };
                    MonitorAction { message, persist, wait: true }
                } else {
                    MonitorAction { message: Some(IpMonitorMessage::NoChange), persist: None, wait: true }
                }
            },
        }
    }
}

/// Over any run of the monitor, the changes it has reported form a chain: each starts from
/// the address the one before ended at, each really changes the address, and the last ends
/// at the address the monitor now knows.
pub proof fn law_reported_changes_chain(s: MonitorState)
    requires
        s.wf(),
    ensures
        forall|i: int|
            0 <= i < s.changes().len() - 1 ==> (#[trigger] s.changes()[i]).1 == s.changes()[i
                + 1].0,
        forall|i: int| 0 <= i < s.changes().len() ==> (#[trigger] s.changes()[i]).0 != s.changes()[i].1,
        s.changes().len() > 0 ==> s.known() == Some(s.changes().last().1),
{
    law_changes_chain(s.started_from(), s.lookups());
}

} // verus!
