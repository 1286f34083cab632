//! Login records, the liveness probe, and the entries published for them.
use crate::clock::{clock_text, clock_with_offset_text, CivilTime};
use vstd::prelude::*;
use vstd::string::*;

verus! {

/// One user-process row of the login-record store.
#[derive(Debug)]
pub struct SessionRecord {
    pub pid: i32,
    pub user: String,
    pub line: String,
    pub host: String,
    /// The login time as stored, with the stored offset.
    pub stored: CivilTime,
    /// The same instant in the local offset, where that offset is known.
    pub local: Option<CivilTime>,
}

/// A record as mathematical values.
pub struct RecordView {
    pub pid: i32,
    pub user: Seq<char>,
    pub line: Seq<char>,
    pub host: Seq<char>,
    pub stored: CivilTime,
    pub local: Option<CivilTime>,
}

impl View for SessionRecord {
    type V = RecordView;

    open spec fn view(&self) -> RecordView {
        RecordView {
            pid: self.pid,
            user: self.user@,
            line: self.line@,
            host: self.host@,
            stored: self.stored,
            local: self.local,
        }
    }
}

impl RecordView {
    /// Both times lie in their calendar ranges.
    pub open spec fn wf(self) -> bool {
        &&& self.stored.wf()
        &&& (self.local matches Some(l) ==> l.wf())
    }
}

/// What a no-op signal to a pid reported.
#[derive(Clone, Copy, Debug, PartialEq, Eq, Structural)]
pub enum Probe {
    /// The signal could be delivered.
    Delivered,
    /// The process exists, but this monitor may not signal it.
    NotPermitted,
    /// No such process.
    NoSuchProcess,
    /// Any other failure.
    OtherError,
}

/// A live session as handed to the presentation layer.
#[derive(Debug)]
pub struct Entry {
    pub pid: i32,
    pub label: String,
    pub is_current: bool,
    pub should_ignore: bool,
    pub can_kill: bool,
}

pub struct EntryView {
    pub pid: i32,
    pub label: Seq<char>,
    pub is_current: bool,
    pub should_ignore: bool,
    pub can_kill: bool,
}

impl View for Entry {
    type V = EntryView;

    open spec fn view(&self) -> EntryView {
        EntryView {
            pid: self.pid,
            label: self.label@,
            is_current: self.is_current,
            should_ignore: self.should_ignore,
            can_kill: self.can_kill,
        }
    }
}

/// The host that a login-screen greeter records.
pub open spec fn greeter_host() -> Seq<char> {
    seq!['l', 'o', 'g', 'i', 'n', ' ', 's', 'c', 'r', 'e', 'e', 'n']
}

/// Sessions from these hosts are marked to be ignored.
pub open spec fn is_ignored_host(host: Seq<char>) -> bool {
    host == greeter_host()
}

/// The login time in the local offset where it is known, else as stored
/// with its offset written out.
pub open spec fn time_text(r: RecordView) -> Seq<char> {
    match r.local {
        Some(l) => clock_text(l),
        None => clock_with_offset_text(r.stored),
    }
}

/// `"{time} - {user} / {line}"`, with `" @ {host}"` after it when the host
/// is not empty.
pub open spec fn label_text(
    time: Seq<char>,
    user: Seq<char>,
    line: Seq<char>,
    host: Seq<char>,
) -> Seq<char> {
    let base = time + seq![' ', '-', ' '] + user + seq![' ', '/', ' '] + line;
    if host.len() == 0 {
        base
    } else {
        base + seq![' ', '@', ' '] + host
    }
}

/// The entry for a record, given what the probe of its pid reported and the
/// monitor's own display; none where the process is gone.
pub open spec fn entry_spec(r: RecordView, probe: Probe, display: Seq<char>) -> Option<EntryView> {
    if probe == Probe::NoSuchProcess {
        None
    } else {
        Some(
            EntryView {
                pid: r.pid,
                label: label_text(time_text(r), r.user, r.line, r.host),
                is_current: r.line == display,
                should_ignore: is_ignored_host(r.host),
                can_kill: probe != Probe::NotPermitted,
            },
        )
    }
}

/// Whether a later record of the same pid was found alive: the batch takes
/// that later record instead, so each pid appears once, from its last live
/// record.
pub open spec fn superseded(recs: Seq<RecordView>, probes: Seq<Probe>, i: int) -> bool {
    exists|j: int|
        i < j < recs.len() && #[trigger] recs[j].pid == recs[i].pid && probes[j]
            != Probe::NoSuchProcess
}

/// The entries of the first `n` records, in order, leaving out superseded
/// records.
pub open spec fn entries_spec(
    recs: Seq<RecordView>,
    probes: Seq<Probe>,
    display: Seq<char>,
    n: int,
) -> Seq<EntryView>
    decreases n,
{
    if n <= 0 {
        Seq::empty()
    } else {
        let prev = entries_spec(recs, probes, display, n - 1);
        if superseded(recs, probes, n - 1) {
            prev
        } else {
            match entry_spec(recs[n - 1], probes[n - 1], display) {
                Some(e) => prev.push(e),
                None => prev,
            }
        }
    }
}

/// The pids of a batch, in order.
pub open spec fn batch_pids(es: Seq<EntryView>) -> Seq<i32> {
    es.map_values(|e: EntryView| e.pid)
}

/// `label_text` of a record, as a `String`.
pub fn make_label(time: &String, user: &String, line: &String, host: &String) -> (r: String)
    ensures
        r@ == label_text(time@, user@, line@, host@),
        host@.len() == 0 ==> r@ == time@ + seq![' ', '-', ' '] + user@ + seq![' ', '/', ' ']
            + line@,
        host@.len() > 0 ==> r@.subrange(r@.len() - (host@.len() + 3), r@.len() as int) == seq![
            ' ',
            '@',
            ' ',
        ] + host@,
{
    let mut s = time.clone();
    proof {
        reveal_strlit(" - ");
        reveal_strlit(" / ");
        reveal_strlit(" @ ");
    }
    s.append(" - ");
    s.append(user.as_str());
    s.append(" / ");
    s.append(line.as_str());
    if !host.as_str().is_empty() {
        s.append(" @ ");
        s.append(host.as_str());
        proof {
            let base = time@ + seq![' ', '-', ' '] + user@ + seq![' ', '/', ' '] + line@;
            assert(s@ =~= base + seq![' ', '@', ' '] + host@);
            assert(s@.subrange(s@.len() - (host@.len() + 3), s@.len() as int) =~= seq![
                ' ',
                '@',
                ' ',
            ] + host@);
        }
    } else {
        proof {
            assert(s@ =~= time@ + seq![' ', '-', ' '] + user@ + seq![' ', '/', ' '] + line@);
        }
    }
    s
}

/// Every entry among the first `n` is built from one of the first `n`
/// records, whose probe found the process and which no later live record of
/// the same pid supersedes; so no pid appears twice in a batch.
pub proof fn lemma_batch_from_last_live_records(
    recs: Seq<RecordView>,
    probes: Seq<Probe>,
    display: Seq<char>,
    n: int,
)
    requires
        0 <= n <= recs.len(),
        probes.len() == recs.len(),
    ensures
        forall|j: int|
            0 <= j < entries_spec(recs, probes, display, n).len() ==> exists|k: int|
                0 <= k < n && recs[k].pid == #[trigger] entries_spec(
                    recs,
                    probes,
                    display,
                    n,
                )[j].pid && probes[k] != Probe::NoSuchProcess && !superseded(recs, probes, k)
                    && entry_spec(recs[k], probes[k], display) == Some(
                    entries_spec(recs, probes, display, n)[j],
                ),
        batch_pids(entries_spec(recs, probes, display, n)).no_duplicates(),
    decreases n,
{
    if n > 0 {
        lemma_batch_from_last_live_records(recs, probes, display, n - 1);
        let prev = entries_spec(recs, probes, display, n - 1);
        let cur = entries_spec(recs, probes, display, n);
        assert forall|j: int| 0 <= j < cur.len() implies exists|k: int|
            0 <= k < n && recs[k].pid == #[trigger] cur[j].pid && probes[k]
                != Probe::NoSuchProcess && !superseded(recs, probes, k) && entry_spec(
                recs[k],
                probes[k],
                display,
            ) == Some(cur[j]) by {
            if j < prev.len() {
                assert(cur[j] == prev[j]);
                let k = choose|k: int|
                    0 <= k < n - 1 && recs[k].pid == #[trigger] prev[j].pid && probes[k]
                        != Probe::NoSuchProcess && !superseded(recs, probes, k) && entry_spec(
                        recs[k],
                        probes[k],
                        display,
                    ) == Some(prev[j]);
                assert(recs[k].pid == cur[j].pid);
            } else {
                assert(recs[n - 1].pid == cur[j].pid);
            }
        }
        if cur.len() > prev.len() {
            let e = cur[cur.len() - 1];
            assert(cur == prev.push(e));
            assert forall|j: int| 0 <= j < prev.len() implies prev[j].pid != e.pid by {
                let k = choose|k: int|
                    0 <= k < n - 1 && recs[k].pid == #[trigger] prev[j].pid && probes[k]
                        != Probe::NoSuchProcess && !superseded(recs, probes, k) && entry_spec(
                        recs[k],
                        probes[k],
                        display,
                    ) == Some(prev[j]);
                if prev[j].pid == e.pid {
                    assert(recs[n - 1].pid == recs[k].pid);
                    assert(superseded(recs, probes, k));
                }
            }
            let bp = batch_pids(prev);
            assert(batch_pids(cur) =~= bp.push(e.pid));
            assert forall|a: int, b: int|
                0 <= a < bp.push(e.pid).len() && 0 <= b < bp.push(e.pid).len() && a != b implies bp.push(
                e.pid,
            )[a] != bp.push(e.pid)[b] by {
                if a == bp.len() {
                    assert(prev[b].pid != e.pid);
                } else if b == bp.len() {
                    assert(prev[a].pid != e.pid);
                }
            }
        } else {
            assert(cur == prev);
        }
    }
}

/// Whether sessions from `host` are marked to be ignored.
pub fn is_ignored(host: &String) -> (r: bool)
    ensures
        r == is_ignored_host(host@),
{
    proof {
        reveal_strlit("login screen");
    }
    let greeter = String::from_str("login screen");
    proof {
        assert(greeter@ =~= greeter_host());
    }
    *host == greeter
}

/// The entry for one record: none where the probe found no such process.
pub fn entry_of(rec: &SessionRecord, probe: Probe, display: &String) -> (r: Option<Entry>)
    requires
        rec@.wf(),
    ensures
        r matches Some(e) ==> entry_spec(rec@, probe, display@) == Some(e@),
        r is None <==> entry_spec(rec@, probe, display@) is None,
{
    if probe == Probe::NoSuchProcess {
        return None;
    }
    let time = match &rec.local {
        Some(l) => l.clock(),
        None => rec.stored.clock_with_offset(),
    };
    let label = make_label(&time, &rec.user, &rec.line, &rec.host);
    Some(
        Entry {
            pid: rec.pid,
            label,
            is_current: rec.line == *display,
            should_ignore: is_ignored(&rec.host),
            can_kill: probe != Probe::NotPermitted,
        },
    )
}

/// The view of each record.
pub open spec fn record_views(recs: Seq<SessionRecord>) -> Seq<RecordView> {
    recs.map_values(|r: SessionRecord| r@)
}

/// The view of each entry.
pub open spec fn entry_views(es: Seq<Entry>) -> Seq<EntryView> {
    es.map_values(|e: Entry| e@)
}

/// Whether a record after `i` has the pid of record `i` and was found alive.
fn superseded_at(recs: &Vec<SessionRecord>, probes: &Vec<Probe>, i: usize) -> (r: bool)
    requires
        probes.len() == recs.len(),
        i < recs.len(),
    ensures
        r == superseded(record_views(recs@), probes@, i as int),
{
    let ghost rv = record_views(recs@);
    let mut j: usize = i + 1;
    while j < recs.len()
        invariant
            i < j <= recs.len(),
            probes.len() == recs.len(),
            rv == record_views(recs@),
            forall|k: int|
                i < k < j ==> !(#[trigger] rv[k].pid == rv[i as int].pid && probes@[k]
                    != Probe::NoSuchProcess),
        decreases recs.len() - j,
    {
        if recs[j].pid == recs[i].pid && probes[j] != Probe::NoSuchProcess {
            assert(rv[j as int].pid == rv[i as int].pid);
            return true;
        }
        assert(rv[j as int] == recs[j as int]@ && rv[i as int] == recs[i as int]@);
        j = j + 1;
    }
    false
}

/// The batch of entries for `recs`, where `probes[i]` is what the probe of
/// `recs[i].pid` reported: one entry per pid found alive, built from the
/// last record of that pid that was found alive.
pub fn entries_from(recs: &Vec<SessionRecord>, probes: &Vec<Probe>, display: &String) -> (r: Vec<
    Entry,
>)
    requires
        probes.len() == recs.len(),
        forall|i: int| 0 <= i < recs.len() ==> (#[trigger] recs[i])@.wf(),
    ensures
        entry_views(r@) == entries_spec(record_views(recs@), probes@, display@, recs.len() as int),
        batch_pids(entry_views(r@)).no_duplicates(),
        forall|j: int|
            0 <= j < r.len() ==> exists|k: int|
                0 <= k < recs.len() && !superseded(record_views(recs@), probes@, k) && entry_spec(
                    record_views(recs@)[k],
                    probes@[k],
                    display@,
                ) == Some((#[trigger] r[j])@),
{
    let ghost rv = record_views(recs@);
    let mut out: Vec<Entry> = Vec::new();
    let mut i: usize = 0;
    while i < recs.len()
        invariant
            i <= recs.len(),
            probes.len() == recs.len(),
            rv == record_views(recs@),
            forall|k: int| 0 <= k < recs.len() ==> (#[trigger] recs[k])@.wf(),
            entry_views(out@) == entries_spec(rv, probes@, display@, i as int),
        decreases recs.len() - i,
    {
        proof {
            assert(rv[i as int] == recs[i as int]@);
        }
        if superseded_at(recs, probes, i) {
            i = i + 1;
            continue;
        }
        let e = entry_of(&recs[i], probes[i], display);
        match e {
            Some(e) => {
                out.push(e);
                proof {
                    assert(entry_views(out@) =~= entries_spec(rv, probes@, display@, i as int)
                        + seq![e@]);
                }
            },
            None => {},
        }
        i = i + 1;
    }
    proof {
        lemma_batch_from_last_live_records(rv, probes@, display@, recs.len() as int);
        assert forall|j: int| 0 <= j < out.len() implies exists|k: int|
            0 <= k < recs.len() && !superseded(rv, probes@, k) && entry_spec(
                rv[k],
                probes@[k],
                display@,
            ) == Some((#[trigger] out[j])@) by {
            let es = entries_spec(rv, probes@, display@, recs.len() as int);
            assert(entry_views(out@)[j] == out[j]@);
            let k = choose|k: int|
                0 <= k < recs.len() && rv[k].pid == #[trigger] es[j].pid && probes@[k]
                    != Probe::NoSuchProcess && !superseded(rv, probes@, k) && entry_spec(
                    rv[k],
                    probes@[k],
                    display@,
                ) == Some(es[j]);
            assert(es[j] == out[j]@);
        }
    }
    out
}

/// Relies on nix::sys::signal::kill with no signal: it reports whether the
/// pid could be signalled, without signalling it. The answer is the
/// operating system's, so nothing is promised of it.
#[verifier::external_body]
fn probe_pid(pid: i32) -> (r: Probe) {
    match nix::sys::signal::kill(nix::unistd::Pid::from_raw(pid), None) {
        Ok(()) => Probe::Delivered,
        Err(nix::errno::Errno::EPERM) => Probe::NotPermitted,
        Err(nix::errno::Errno::ESRCH) => Probe::NoSuchProcess,
        Err(_) => Probe::OtherError,
    }
}

/// Probes the pid of every record, once each and in order, and builds the
/// batch from what the probes reported. Every entry's pid is the pid of a
/// record, and no pid appears twice.
pub fn live_entries(recs: &Vec<SessionRecord>, display: &String) -> (r: Vec<Entry>)
    requires
        forall|i: int| 0 <= i < recs.len() ==> (#[trigger] recs[i])@.wf(),
    ensures
        exists|probes: Seq<Probe>|
            probes.len() == recs.len() && entry_views(r@) == entries_spec(
                record_views(recs@),
                probes,
                display@,
                recs.len() as int,
            ),
        forall|j: int|
            0 <= j < r.len() ==> exists|k: int|
                0 <= k < recs.len() && recs[k].pid == (#[trigger] r[j]).pid,
        batch_pids(entry_views(r@)).no_duplicates(),
{
    let mut probes: Vec<Probe> = Vec::new();
    let mut i: usize = 0;
    while i < recs.len()
        invariant
            i <= recs.len(),
            probes.len() == i,
        decreases recs.len() - i,
    {
        probes.push(probe_pid(recs[i].pid));
        i = i + 1;
    }
    let r = entries_from(recs, &probes, display);
    proof {
        let rv = record_views(recs@);
        lemma_batch_from_last_live_records(rv, probes@, display@, recs.len() as int);
        assert forall|j: int| 0 <= j < r.len() implies exists|k: int|
            0 <= k < recs.len() && recs[k].pid == (#[trigger] r[j]).pid by {
            assert(entry_views(r@)[j] == r[j]@);
            let es = entries_spec(rv, probes@, display@, recs.len() as int);
            let k = choose|k: int|
                0 <= k < recs.len() && rv[k].pid == #[trigger] es[j].pid && probes@[k]
                    != Probe::NoSuchProcess && !superseded(rv, probes@, k) && entry_spec(
                    rv[k],
                    probes@[k],
                    display@,
                ) == Some(es[j]);
            assert(rv[k] == recs[k]@);
        }
    }
    r
}

/// Whether every record's times lie in their calendar ranges.
pub fn all_valid(recs: &Vec<SessionRecord>) -> (r: bool)
    ensures
        r == forall|i: int| 0 <= i < recs.len() ==> (#[trigger] recs[i])@.wf(),
{
    let mut i: usize = 0;
    while i < recs.len()
        invariant
            i <= recs.len(),
            forall|k: int| 0 <= k < i ==> (#[trigger] recs[k])@.wf(),
        decreases recs.len() - i,
    {
        let ok = recs[i].stored.is_valid() && match &recs[i].local {
            Some(l) => l.is_valid(),
            None => true,
        };
        if !ok {
            return false;
        }
        i = i + 1;
    }
    true
}

/// The pids of a batch, in order.
pub fn pids_of(entries: &Vec<Entry>) -> (r: Vec<i32>)
    ensures
        r@ == entries@.map_values(|e: Entry| e.pid),
{
    let mut out: Vec<i32> = Vec::new();
    let mut i: usize = 0;
    while i < entries.len()
        invariant
            i <= entries.len(),
            out@ == entries@.subrange(0, i as int).map_values(|e: Entry| e.pid),
        decreases entries.len() - i,
    {
        out.push(entries[i].pid);
        proof {
            assert(entries@.subrange(0, i + 1).map_values(|e: Entry| e.pid) =~= entries@.subrange(
                0,
                i as int,
            ).map_values(|e: Entry| e.pid).push(entries[i as int].pid));
        }
        i = i + 1;
    }
    proof {
        assert(entries@.subrange(0, entries.len() as int) =~= entries@);
    }
    out
}

} // verus!
