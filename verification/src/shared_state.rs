//! The hub: switches, log buffer, statistics, blocklist, classifier and the
//! queue of suggestions, with one operation for each change.
//!
//! The hub is a plain value. Whoever shares it between tasks puts it behind
//! a lock and makes each operation under that lock.

use crate::ai_tracker::{AITracker, TrackerModel, FULL_CONFIDENCE};
use crate::clock::{local_time_of_day, utc_now_millis};
use crate::text::{
    decimal, decimal_digits, digit, digit_char, followed_by, lemma_without_distinct, list_contains,
    list_remove, push_str, string_from_chars, texts, without,
};
use crate::tracker_blocker::{is_saved_file, normalized, TrackerBlocker};
use vstd::prelude::*;

verus! {

/// The most lines that the log buffer holds.
pub const LOG_CAPACITY: usize = 10000;

/// A log line: the time of day in brackets, a space, the entry.
pub open spec fn stamped(stamp: Seq<char>, entry: Seq<char>) -> Seq<char> {
    seq!['['] + stamp + "] "@ + entry
}

/// The log after `line` was appended: the oldest line leaves once the
/// buffer is over its capacity.
pub open spec fn appended(lines: Seq<Seq<char>>, line: Seq<char>) -> Seq<Seq<char>> {
    if lines.len() + 1 > LOG_CAPACITY {
        lines.push(line).drop_first()
    } else {
        lines.push(line)
    }
}

/// The log after `entries` were appended to `lines` in turn, each with its
/// stamp.
pub open spec fn appended_all(
    lines: Seq<Seq<char>>,
    stamps: Seq<Seq<char>>,
    entries: Seq<Seq<char>>,
) -> Seq<Seq<char>>
    decreases entries.len(),
{
    if entries.len() == 0 {
        lines
    } else {
        appended(
            appended_all(lines, stamps.drop_last(), entries.drop_last()),
            stamped(stamps.last(), entries.last()),
        )
    }
}

/// `after` is `before` with `entries` appended in turn, each stamped with
/// some time.
pub open spec fn logged(
    before: Seq<Seq<char>>,
    after: Seq<Seq<char>>,
    entries: Seq<Seq<char>>,
) -> bool {
    exists|stamps: Seq<Seq<char>>|
        stamps.len() == entries.len() && after == #[trigger] appended_all(before, stamps, entries)
}

/// One appended line is one logged entry.
pub proof fn lemma_logged_one(before: Seq<Seq<char>>, stamp: Seq<char>, entry: Seq<char>)
    ensures
        logged(before, appended(before, stamped(stamp, entry)), seq![entry]),
{
    let stamps = seq![stamp];
    let entries = seq![entry];
    assert(appended_all(before, stamps.drop_last(), entries.drop_last()) == before);
    assert(appended_all(before, stamps, entries) == appended(before, stamped(stamp, entry)));
}

/// Nothing appended is nothing logged.
pub proof fn lemma_logged_none(before: Seq<Seq<char>>)
    ensures
        logged(before, before, Seq::empty()),
{
    assert(appended_all(before, Seq::empty(), Seq::empty()) == before);
}

/// Appending in two runs is appending all in one.
proof fn lemma_appended_all_split(
    lines: Seq<Seq<char>>,
    s1: Seq<Seq<char>>,
    e1: Seq<Seq<char>>,
    s2: Seq<Seq<char>>,
    e2: Seq<Seq<char>>,
)
    requires
        s1.len() == e1.len(),
        s2.len() == e2.len(),
    ensures
        appended_all(lines, s1 + s2, e1 + e2) == appended_all(
            appended_all(lines, s1, e1),
            s2,
            e2,
        ),
    decreases e2.len(),
{
    if e2.len() > 0 {
        lemma_appended_all_split(lines, s1, e1, s2.drop_last(), e2.drop_last());
        assert((s1 + s2).drop_last() =~= s1 + s2.drop_last());
        assert((e1 + e2).drop_last() =~= e1 + e2.drop_last());
    }
}

/// Entries logged one run after another are logged together.
pub proof fn lemma_logged_then(
    a: Seq<Seq<char>>,
    b: Seq<Seq<char>>,
    c: Seq<Seq<char>>,
    e1: Seq<Seq<char>>,
    e2: Seq<Seq<char>>,
)
    requires
        logged(a, b, e1),
        logged(b, c, e2),
    ensures
        logged(a, c, e1 + e2),
{
    let s1 = choose|s: Seq<Seq<char>>|
        s.len() == e1.len() && b == #[trigger] appended_all(a, s, e1);
    let s2 = choose|s: Seq<Seq<char>>|
        s.len() == e2.len() && c == #[trigger] appended_all(b, s, e2);
    lemma_appended_all_split(a, s1, e1, s2, e2);
}

/// What was seen of one host.
#[derive(Clone, Debug)]
pub struct DomainStat {
    pub domain: String,
    /// How many requests went to the host.
    pub requests: usize,
    /// How many of them were blocked.
    pub blocked: usize,
    /// When the last one came, in milliseconds since 1970-01-01T00:00:00Z.
    pub last_seen: i64,
    pub bandwidth_saved: u64,
}

/// The content of a `DomainStat`.
pub struct StatModel {
    pub domain: Seq<char>,
    pub requests: nat,
    pub blocked: nat,
    pub last_seen: int,
    pub bandwidth_saved: nat,
}

impl View for DomainStat {
    type V = StatModel;

    open spec fn view(&self) -> StatModel {
        StatModel {
            domain: self.domain@,
            requests: self.requests as nat,
            blocked: self.blocked as nat,
            last_seen: self.last_seen as int,
            bandwidth_saved: self.bandwidth_saved as nat,
        }
    }
}

/// The contents of a list of statistics.
pub open spec fn stat_views(stats: Seq<DomainStat>) -> Seq<StatModel> {
    Seq::new(stats.len(), |i: int| stats[i]@)
}

/// The index of the entry for `domain` in `stats`; the length of `stats`
/// where there is none.
pub open spec fn stat_index(stats: Seq<StatModel>, domain: Seq<char>) -> int
    decreases stats.len(),
{
    if stats.len() == 0 || stats[0].domain == domain {
        0
    } else {
        1 + stat_index(stats.drop_first(), domain)
    }
}

/// `i` is the index of the first entry for `domain`.
pub proof fn lemma_stat_index(stats: Seq<StatModel>, domain: Seq<char>, i: int)
    requires
        0 <= i <= stats.len(),
        forall|k: int| 0 <= k < i ==> stats[k].domain != domain,
        i == stats.len() || stats[i].domain == domain,
    ensures
        stat_index(stats, domain) == i,
    decreases i,
{
    if i > 0 {
        let rest = stats.drop_first();
        lemma_stat_index(rest, domain, i - 1);
    }
}

/// The statistics after a request to `domain` at the time `now`: its entry
/// counts one more request, and one more blocked request if it was blocked;
/// a host seen for the first time gets an entry at the end.
pub open spec fn recorded(
    stats: Seq<StatModel>,
    domain: Seq<char>,
    blocked: bool,
    now: int,
) -> Seq<StatModel> {
    let i = stat_index(stats, domain);
    let b: nat = if blocked {
        1
    } else {
        0
    };
    if i < stats.len() {
        stats.update(
            i,
            StatModel {
                requests: stats[i].requests + 1,
                blocked: stats[i].blocked + b,
                last_seen: now,
                ..stats[i]
            },
        )
    } else {
        stats.push(
            StatModel { domain, requests: 1, blocked: b, last_seen: now, bandwidth_saved: 0 },
        )
    }
}

/// No host has two entries, and no entry counts more blocked requests than
/// requests.
pub open spec fn stats_valid(stats: Seq<StatModel>) -> bool {
    &&& forall|i: int, j: int| 0 <= i < j < stats.len() ==> stats[i].domain != stats[j].domain
    &&& forall|i: int| 0 <= i < stats.len() ==> (#[trigger] stats[i]).blocked <= stats[i].requests
}

/// The entry for `domain`, if there is one, can count one more request.
pub open spec fn stat_has_room(stats: Seq<StatModel>, domain: Seq<char>) -> bool {
    stat_index(stats, domain) < stats.len() ==> stats[stat_index(stats, domain)].requests
        < usize::MAX
}

/// A threshold of `t` thousandths as a number with two decimals, rounded to
/// the nearer hundredth.
pub open spec fn two_decimals(t: u32) -> Seq<char> {
    let h = (t + 5) / 10;
    decimal((h / 100) as nat) + seq!['.', digit(h / 10 % 10), digit(h % 10)]
}

/// The state that the proxy and its control surface share.
///
/// The statistics are a map from hosts to entries, held as a vector with
/// one entry for each host, for the reason given at the classifier's cache.
pub struct SharedState {
    /// Whether the proxy forwards and blocks at all.
    pub proxy_enabled: bool,
    /// Whether requests are logged.
    pub log_enabled: bool,
    /// The log, oldest line first.
    pub logs: Vec<String>,
    pub blocker: TrackerBlocker,
    /// One entry for each host seen, in the order of their first request.
    pub stats: Vec<DomainStat>,
    pub allowed_count: usize,
    pub blocked_count: usize,
    pub ai_tracker: AITracker,
    /// The hosts that the classifier flagged and nobody has judged yet.
    pub ai_suggested_trackers: Vec<String>,
    /// The bytes not transferred because requests were blocked.
    pub bandwidth_saved: u64,
}

impl SharedState {
    /// The lines of the log.
    pub open spec fn log_lines(&self) -> Seq<Seq<char>> {
        texts(self.logs@)
    }

    /// The hosts in the queue of suggestions.
    pub open spec fn suggestions(&self) -> Seq<Seq<char>> {
        texts(self.ai_suggested_trackers@)
    }

    /// The statistics of the hosts.
    pub open spec fn domain_stats(&self) -> Seq<StatModel> {
        stat_views(self.stats@)
    }

    /// The log is within its capacity, the statistics are valid, no host
    /// is suggested twice, and blocklist and classifier are well-formed.
    pub open spec fn wf(&self) -> bool {
        &&& self.logs@.len() <= LOG_CAPACITY
        &&& stats_valid(self.domain_stats())
        &&& self.suggestions().no_duplicates()
        &&& self.blocker.wf()
        &&& self.ai_tracker.wf()
    }

    /// A request to `domain` can be counted as blocked or as allowed:
    /// neither its entry nor the total that it adds to is at the limit of its
    /// type.
    pub open spec fn has_room(&self, domain: Seq<char>, blocked: bool) -> bool {
        &&& if blocked {
            self.blocked_count < usize::MAX
        } else {
            self.allowed_count < usize::MAX
        }
        &&& stat_has_room(self.domain_stats(), domain)
    }

    /// A hub around `blocker`: proxy and logging on, nothing logged, seen,
    /// counted or suggested, and a new classifier.
    pub fn new(blocker: TrackerBlocker) -> (state: Self)
        requires
            blocker.wf(),
        ensures
            state.wf(),
            state.proxy_enabled,
            state.log_enabled,
            state.log_lines() == Seq::<Seq<char>>::empty(),
            state.blocker == blocker,
            state.domain_stats() == Seq::<StatModel>::empty(),
            state.allowed_count == 0,
            state.blocked_count == 0,
            state.ai_tracker@ == AITracker::new_model(),
            state.suggestions() == Seq::<Seq<char>>::empty(),
            state.bandwidth_saved == 0,
    {
        let state = SharedState {
            proxy_enabled: true,
            log_enabled: true,
            logs: Vec::new(),
            blocker,
            stats: Vec::new(),
            allowed_count: 0,
            blocked_count: 0,
            ai_tracker: AITracker::new(),
            ai_suggested_trackers: Vec::new(),
            bandwidth_saved: 0,
        };
        state
    }

    /// Appends the line for `entry`, stamped `stamp`, to the log; the oldest
    /// line leaves once the buffer is over its capacity.
    pub fn append_log_at(&mut self, stamp: &str, entry: &str)
        requires
            old(self).logs@.len() <= LOG_CAPACITY,
        ensures
            final(self).log_lines() == appended(old(self).log_lines(), stamped(stamp@, entry@)),
            final(self).logs@.len() <= LOG_CAPACITY,
            *final(self) == (SharedState { logs: final(self).logs, ..*old(self) }),
    {
        let mut line: Vec<char> = Vec::new();
        line.push('[');
        push_str(&mut line, stamp);
        push_str(&mut line, "] ");
        push_str(&mut line, entry);
        self.logs.push(string_from_chars(&line));
        if self.logs.len() > LOG_CAPACITY {
            self.logs.remove(0);
        }
    }

    /// Appends `entry` to the log, stamped with the local time of day.
    pub fn append_log(&mut self, entry: String)
        requires
            old(self).logs@.len() <= LOG_CAPACITY,
        ensures
            logged(old(self).log_lines(), final(self).log_lines(), seq![entry@]),
            final(self).logs@.len() <= LOG_CAPACITY,
            *final(self) == (SharedState { logs: final(self).logs, ..*old(self) }),
    {
        let stamp = local_time_of_day();
        self.append_log_at(stamp.as_str(), entry.as_str());
        proof {
            lemma_logged_one(old(self).log_lines(), stamp@, entry@);
        }
    }

    /// Appends the text `entry` to the log.
    fn note(&mut self, entry: &str)
        requires
            old(self).logs@.len() <= LOG_CAPACITY,
        ensures
            logged(old(self).log_lines(), final(self).log_lines(), seq![entry@]),
            final(self).logs@.len() <= LOG_CAPACITY,
            *final(self) == (SharedState { logs: final(self).logs, ..*old(self) }),
    {
        self.append_log(entry.to_owned());
    }

    /// Appends `prefix` followed by `subject` to the log.
    fn note_about(&mut self, prefix: &str, subject: &str)
        requires
            old(self).logs@.len() <= LOG_CAPACITY,
        ensures
            logged(old(self).log_lines(), final(self).log_lines(), seq![prefix@ + subject@]),
            final(self).logs@.len() <= LOG_CAPACITY,
            *final(self) == (SharedState { logs: final(self).logs, ..*old(self) }),
    {
        self.append_log(followed_by(prefix, subject));
    }

    /// Turns the proxy on and logs it.
    pub fn enable_proxy(&mut self)
        requires
            old(self).wf(),
        ensures
            final(self).wf(),
            logged(old(self).log_lines(), final(self).log_lines(), seq!["▶️ Proxy enabled"@]),
            *final(self) == (SharedState {
                proxy_enabled: true,
                logs: final(self).logs,
                ..*old(self)
            }),
    {
        self.proxy_enabled = true;
        self.note("▶️ Proxy enabled");
    }

    /// Turns the proxy off and logs it.
    pub fn disable_proxy(&mut self)
        requires
            old(self).wf(),
        ensures
            final(self).wf(),
            logged(old(self).log_lines(), final(self).log_lines(), seq!["🛑 Proxy disabled"@]),
            *final(self) == (SharedState {
                proxy_enabled: false,
                logs: final(self).logs,
                ..*old(self)
            }),
    {
        self.proxy_enabled = false;
        self.note("🛑 Proxy disabled");
    }

    /// Whether the proxy is on.
    pub fn is_proxy_enabled(&self) -> (enabled: bool)
        ensures
            enabled == self.proxy_enabled,
    {
        self.proxy_enabled
    }

    /// Turns the logging of requests on and logs it.
    pub fn enable_logging(&mut self)
        requires
            old(self).wf(),
        ensures
            final(self).wf(),
            logged(old(self).log_lines(), final(self).log_lines(), seq!["📡 Logging enabled"@]),
            *final(self) == (SharedState {
                log_enabled: true,
                logs: final(self).logs,
                ..*old(self)
            }),
    {
        self.log_enabled = true;
        self.note("📡 Logging enabled");
    }

    /// Turns the logging of requests off and logs it.
    pub fn disable_logging(&mut self)
        requires
            old(self).wf(),
        ensures
            final(self).wf(),
            logged(old(self).log_lines(), final(self).log_lines(), seq!["📴 Logging disabled"@]),
            *final(self) == (SharedState {
                log_enabled: false,
                logs: final(self).logs,
                ..*old(self)
            }),
    {
        self.log_enabled = false;
        self.note("📴 Logging disabled");
    }

    /// Whether requests are logged.
    pub fn is_logging_enabled(&self) -> (enabled: bool)
        ensures
            enabled == self.log_enabled,
    {
        self.log_enabled
    }

    /// The lines of the log, oldest first.
    pub fn get_logs(&self) -> (lines: Vec<String>)
        ensures
            texts(lines@) == self.log_lines(),
    {
        copy_texts(&self.logs)
    }

    /// Empties the log and logs that.
    pub fn clear_logs(&mut self)
        requires
            old(self).wf(),
        ensures
            final(self).wf(),
            logged(Seq::empty(), final(self).log_lines(), seq!["🧹 Logs cleared"@]),
            *final(self) == (SharedState { logs: final(self).logs, ..*old(self) }),
    {
        self.logs.clear();
        assert(self.log_lines() =~= Seq::<Seq<char>>::empty());
        self.note("🧹 Logs cleared");
    }

    /// Adds `bytes` to the bandwidth saved, if the request was blocked.
    pub fn track_bandwidth(&mut self, bytes: u64, blocked: bool)
        requires
            blocked ==> old(self).bandwidth_saved + bytes <= u64::MAX,
        ensures
            *final(self) == (SharedState {
                bandwidth_saved: if blocked {
                    (old(self).bandwidth_saved + bytes) as u64
                } else {
                    old(self).bandwidth_saved
                },
                ..*old(self)
            }),
    {
        if blocked {
            self.bandwidth_saved += bytes;
        }
    }

    /// The bytes not transferred because requests were blocked.
    pub fn get_bandwidth_saved(&self) -> (saved: u64)
        ensures
            saved == self.bandwidth_saved,
    {
        self.bandwidth_saved
    }

    /// Whether a request to `domain` can be counted as blocked or as
    /// allowed.
    pub fn can_record(&self, domain: &str, blocked: bool) -> (room: bool)
        ensures
            room == self.has_room(domain@, blocked),
    {
        let total = if blocked {
            self.blocked_count
        } else {
            self.allowed_count
        };
        if total == usize::MAX {
            return false;
        }
        let (i, found) = self.find_stat(domain);
        !found || self.stats[i].requests < usize::MAX
    }

    /// The index of the entry for `domain`, and whether there is one.
    fn find_stat(&self, domain: &str) -> (r: (usize, bool))
        ensures
            r.0 == stat_index(self.domain_stats(), domain@),
            r.1 == (r.0 < self.stats@.len()),
            r.0 <= self.stats@.len(),
            forall|k: int| 0 <= k < r.0 ==> self.domain_stats()[k].domain != domain@,
            r.1 ==> self.domain_stats()[r.0 as int].domain == domain@,
    {
        let wanted = domain.to_owned();
        let mut i: usize = 0;
        while i < self.stats.len()
            invariant
                i <= self.stats.len(),
                wanted@ == domain@,
                forall|k: int| 0 <= k < i ==> self.domain_stats()[k].domain != domain@,
            decreases self.stats.len() - i,
        {
            if self.stats[i].domain == wanted {
                proof {
                    lemma_stat_index(self.domain_stats(), domain@, i as int);
                }
                return (i, true);
            }
            i += 1;
        }
        proof {
            lemma_stat_index(self.domain_stats(), domain@, i as int);
        }
        (i, false)
    }

    /// Counts a request to `domain` that came at `now`: in the entry of the
    /// host, which is made if the host is new, and in the total of allowed
    /// or of blocked requests.
    pub fn record_request_at(&mut self, domain: &str, blocked: bool, now: i64)
        requires
            old(self).wf(),
            old(self).has_room(domain@, blocked),
        ensures
            final(self).wf(),
            final(self).domain_stats() == recorded(
                old(self).domain_stats(),
                domain@,
                blocked,
                now as int,
            ),
            final(self).blocked_count == old(self).blocked_count + if blocked {
                1int
            } else {
                0
            },
            final(self).allowed_count == old(self).allowed_count + if blocked {
                0int
            } else {
                1
            },
            *final(self) == (SharedState {
                stats: final(self).stats,
                allowed_count: final(self).allowed_count,
                blocked_count: final(self).blocked_count,
                ..*old(self)
            }),
    {
        let (i, found) = self.find_stat(domain);
        let ghost before = self.domain_stats();
        if found {
            let entry = DomainStat {
                domain: self.stats[i].domain.clone(),
                requests: self.stats[i].requests + 1,
                blocked: if blocked {
                    self.stats[i].blocked + 1
                } else {
                    self.stats[i].blocked
                },
                last_seen: now,
                bandwidth_saved: self.stats[i].bandwidth_saved,
            };
            self.stats.set(i, entry);
            assert(self.domain_stats() =~= recorded(before, domain@, blocked, now as int));
        } else {
            let entry = DomainStat {
                domain: domain.to_owned(),
                requests: 1,
                blocked: if blocked {
                    1
                } else {
                    0
                },
                last_seen: now,
                bandwidth_saved: 0,
            };
            self.stats.push(entry);
            assert(self.domain_stats() =~= recorded(before, domain@, blocked, now as int));
        }
        if blocked {
            self.blocked_count += 1;
        } else {
            self.allowed_count += 1;
        }
    }

    /// Counts a request to `domain` that comes now.
    pub fn record_request(&mut self, domain: &str, blocked: bool)
        requires
            old(self).wf(),
            old(self).has_room(domain@, blocked),
        ensures
            final(self).wf(),
            exists|now: int|
                final(self).domain_stats() == recorded(
                    old(self).domain_stats(),
                    domain@,
                    blocked,
                    now,
                ),
            final(self).blocked_count == old(self).blocked_count + if blocked {
                1int
            } else {
                0
            },
            final(self).allowed_count == old(self).allowed_count + if blocked {
                0int
            } else {
                1
            },
            *final(self) == (SharedState {
                stats: final(self).stats,
                allowed_count: final(self).allowed_count,
                blocked_count: final(self).blocked_count,
                ..*old(self)
            }),
    {
        let now = utc_now_millis();
        self.record_request_at(domain, blocked, now);
    }

    /// The statistics of the hosts, in the order of their first request.
    pub fn get_stats(&self) -> (stats: Vec<DomainStat>)
        ensures
            stat_views(stats@) == self.domain_stats(),
    {
        let mut stats: Vec<DomainStat> = Vec::new();
        let mut i: usize = 0;
        while i < self.stats.len()
            invariant
                i <= self.stats.len(),
                stats.len() == i,
                forall|k: int| 0 <= k < i ==> (#[trigger] stats@[k])@ == self.stats@[k]@,
            decreases self.stats.len() - i,
        {
            let s = &self.stats[i];
            stats.push(
                DomainStat {
                    domain: s.domain.clone(),
                    requests: s.requests,
                    blocked: s.blocked,
                    last_seen: s.last_seen,
                    bandwidth_saved: s.bandwidth_saved,
                },
            );
            i += 1;
        }
        stats
    }

    /// How many requests were let through.
    pub fn get_allowed_count(&self) -> (count: usize)
        ensures
            count == self.allowed_count,
    {
        self.allowed_count
    }

    /// How many requests were blocked.
    pub fn get_blocked_count(&self) -> (count: usize)
        ensures
            count == self.blocked_count,
    {
        self.blocked_count
    }

    /// Forgets the statistics of all hosts, sets the two totals to zero and
    /// logs it.
    pub fn reset_stats(&mut self)
        requires
            old(self).wf(),
        ensures
            final(self).wf(),
            final(self).domain_stats() == Seq::<StatModel>::empty(),
            logged(old(self).log_lines(), final(self).log_lines(), seq!["📊 Statistics reset"@]),
            *final(self) == (SharedState {
                stats: final(self).stats,
                allowed_count: 0,
                blocked_count: 0,
                logs: final(self).logs,
                ..*old(self)
            }),
    {
        self.stats.clear();
        self.allowed_count = 0;
        self.blocked_count = 0;
        self.note("📊 Statistics reset");
    }

    /// Adds `domain` to the blocklist. Where it is new, the text to write to
    /// the blocklist file comes back; the addition stands whether or not the
    /// file can be written. `finish_add_tracker` closes the operation.
    pub fn add_tracker(&mut self, domain: &str) -> (to_save: Option<String>)
        requires
            old(self).wf(),
        ensures
            final(self).wf(),
            final(self).blocker@.domains == old(self).blocker@.domains.insert(normalized(domain@)),
            final(self).blocker.vocabulary() == old(self).blocker.vocabulary(),
            to_save is None <==> old(self).blocker@.domains.contains(normalized(domain@)),
            to_save matches Some(content) ==> is_saved_file(
                content@,
                final(self).blocker.entries(),
            ),
            *final(self) == (SharedState { blocker: final(self).blocker, ..*old(self) }),
    {
        self.blocker.add_tracker(domain)
    }

    /// Closes the addition of `domain`: logs it where the file was written
    /// or nothing had to be written, and gives the error where writing
    /// failed with `save_error`.
    pub fn finish_add_tracker(&mut self, domain: &str, save_error: Option<&str>) -> (r: Result<
        (),
        String,
    >)
        requires
            old(self).wf(),
        ensures
            final(self).wf(),
            match save_error {
                None => r is Ok && logged(
                    old(self).log_lines(),
                    final(self).log_lines(),
                    seq!["➕ Added tracker: "@ + domain@],
                ),
                Some(e) => r matches Err(msg) && msg@ == "Failed to add tracker: "@ + e@
                    && *final(self) == *old(self),
            },
            *final(self) == (SharedState { logs: final(self).logs, ..*old(self) }),
    {
        match save_error {
            None => {
                self.note_about("➕ Added tracker: ", domain);
                Ok(())
            },
            Some(e) => Err(followed_by("Failed to add tracker: ", e)),
        }
    }

    /// Removes `domain` from the blocklist and gives the text to write to
    /// the blocklist file; the removal stands whether or not the file can be
    /// written. `finish_remove_tracker` closes the operation.
    pub fn remove_tracker(&mut self, domain: &str) -> (to_save: String)
        requires
            old(self).wf(),
        ensures
            final(self).wf(),
            final(self).blocker@.domains == old(self).blocker@.domains.remove(normalized(domain@)),
            final(self).blocker.vocabulary() == old(self).blocker.vocabulary(),
            is_saved_file(to_save@, final(self).blocker.entries()),
            *final(self) == (SharedState { blocker: final(self).blocker, ..*old(self) }),
    {
        self.blocker.remove_tracker(domain)
    }

    /// Closes the removal of `domain`: logs it where the file was written,
    /// and gives the error where writing failed with `save_error`.
    pub fn finish_remove_tracker(&mut self, domain: &str, save_error: Option<&str>) -> (r: Result<
        (),
        String,
    >)
        requires
            old(self).wf(),
        ensures
            final(self).wf(),
            match save_error {
                None => r is Ok && logged(
                    old(self).log_lines(),
                    final(self).log_lines(),
                    seq!["➖ Removed tracker: "@ + domain@],
                ),
                Some(e) => r matches Err(msg) && msg@ == "Failed to remove tracker: "@ + e@
                    && *final(self) == *old(self),
            },
            *final(self) == (SharedState { logs: final(self).logs, ..*old(self) }),
    {
        match save_error {
            None => {
                self.note_about("➖ Removed tracker: ", domain);
                Ok(())
            },
            Some(e) => Err(followed_by("Failed to remove tracker: ", e)),
        }
    }

    /// The blocked domains, sorted.
    pub fn get_trackers(&self) -> (list: Vec<String>)
        ensures
            texts(list@) == self.blocker.entries(),
    {
        self.blocker.get_trackers()
    }

    /// Turns the classifier on and logs it.
    pub fn enable_ai_detection(&mut self)
        requires
            old(self).wf(),
        ensures
            final(self).wf(),
            final(self).ai_tracker@ == (TrackerModel { enabled: true, ..old(self).ai_tracker@ }),
            logged(
                old(self).log_lines(),
                final(self).log_lines(),
                seq!["🤖 AI tracker detection enabled"@],
            ),
            *final(self) == (SharedState {
                ai_tracker: final(self).ai_tracker,
                logs: final(self).logs,
                ..*old(self)
            }),
    {
        self.ai_tracker.enable();
        self.note("🤖 AI tracker detection enabled");
    }

    /// Turns the classifier off and logs it.
    pub fn disable_ai_detection(&mut self)
        requires
            old(self).wf(),
        ensures
            final(self).wf(),
            final(self).ai_tracker@ == (TrackerModel { enabled: false, ..old(self).ai_tracker@ }),
            logged(
                old(self).log_lines(),
                final(self).log_lines(),
                seq!["🤖 AI tracker detection disabled"@],
            ),
            *final(self) == (SharedState {
                ai_tracker: final(self).ai_tracker,
                logs: final(self).logs,
                ..*old(self)
            }),
    {
        self.ai_tracker.disable();
        self.note("🤖 AI tracker detection disabled");
    }

    /// Whether the classifier is on.
    pub fn is_ai_detection_enabled(&self) -> (enabled: bool)
        ensures
            enabled == self.ai_tracker@.enabled,
    {
        self.ai_tracker.is_enabled()
    }

    /// Sets the classifier's threshold to `threshold` thousandths, 1000 at
    /// most, and logs the value asked for.
    pub fn set_ai_confidence_threshold(&mut self, threshold: u32)
        requires
            old(self).wf(),
        ensures
            final(self).wf(),
            final(self).ai_tracker@ == (TrackerModel {
                threshold: if threshold > FULL_CONFIDENCE {
                    FULL_CONFIDENCE
                } else {
                    threshold
                },
                ..old(self).ai_tracker@
            }),
            logged(
                old(self).log_lines(),
                final(self).log_lines(),
                seq!["🤖 AI confidence threshold set to "@ + two_decimals(threshold)],
            ),
            *final(self) == (SharedState {
                ai_tracker: final(self).ai_tracker,
                logs: final(self).logs,
                ..*old(self)
            }),
    {
        self.ai_tracker.set_confidence_threshold(threshold);
        let hundredths: u64 = (threshold as u64 + 5) / 10;
        let mut number = decimal_digits(hundredths / 100);
        number.push('.');
        number.push(digit_char(hundredths / 10 % 10));
        number.push(digit_char(hundredths % 10));
        assert(number@ =~= two_decimals(threshold));
        let text = string_from_chars(&number);
        self.note_about("🤖 AI confidence threshold set to ", text.as_str());
    }

    /// The classifier's threshold, in thousandths.
    pub fn get_ai_confidence_threshold(&self) -> (threshold: u32)
        ensures
            threshold == self.ai_tracker@.threshold,
    {
        self.ai_tracker.get_confidence_threshold()
    }

    /// Puts `domain` at the end of the queue of suggestions and logs it,
    /// unless it is in the queue.
    pub fn add_ai_suggested_tracker(&mut self, domain: &str)
        requires
            old(self).wf(),
        ensures
            final(self).wf(),
            if old(self).suggestions().contains(domain@) {
                *final(self) == *old(self)
            } else {
                &&& final(self).suggestions() == old(self).suggestions().push(domain@)
                &&& logged(
                    old(self).log_lines(),
                    final(self).log_lines(),
                    seq!["🤖 Added domain to AI suggestions: "@ + domain@],
                )
            },
            *final(self) == (SharedState {
                ai_suggested_trackers: final(self).ai_suggested_trackers,
                logs: final(self).logs,
                ..*old(self)
            }),
    {
        if !list_contains(&self.ai_suggested_trackers, domain) {
            let ghost before = self.suggestions();
            self.ai_suggested_trackers.push(domain.to_owned());
            assert(self.suggestions() =~= before.push(domain@));
            self.note_about("🤖 Added domain to AI suggestions: ", domain);
        }
    }

    /// The queue of suggestions, oldest first.
    pub fn get_ai_suggested_trackers(&self) -> (list: Vec<String>)
        ensures
            texts(list@) == self.suggestions(),
    {
        copy_texts(&self.ai_suggested_trackers)
    }

    /// Empties the queue of suggestions and logs it.
    pub fn clear_ai_suggested_trackers(&mut self)
        requires
            old(self).wf(),
        ensures
            final(self).wf(),
            final(self).suggestions() == Seq::<Seq<char>>::empty(),
            logged(
                old(self).log_lines(),
                final(self).log_lines(),
                seq!["🤖 Cleared AI suggested trackers"@],
            ),
            *final(self) == (SharedState {
                ai_suggested_trackers: final(self).ai_suggested_trackers,
                logs: final(self).logs,
                ..*old(self)
            }),
    {
        self.ai_suggested_trackers.clear();
        self.note("🤖 Cleared AI suggested trackers");
    }

    /// Closes the approval of the suggestion `domain`, after `add_tracker`
    /// put it on the blocklist. Where writing the file failed with
    /// `save_error`, the error comes back and nothing else happens. Else the
    /// addition is logged, `domain` leaves the queue, the classifier learns
    /// that it is a tracker, and the approval is logged.
    pub fn approve_ai_suggestion(&mut self, domain: &str, save_error: Option<&str>) -> (r: Result<
        (),
        String,
    >)
        requires
            old(self).wf(),
            old(self).ai_tracker@.false_negatives < usize::MAX,
        ensures
            final(self).wf(),
            match save_error {
                None => {
                    &&& r is Ok
                    &&& final(self).suggestions() == without(old(self).suggestions(), domain@)
                    &&& final(self).ai_tracker@ == old(self).ai_tracker@.after_false_negative(
                        domain@,
                    )
                    &&& logged(
                        old(self).log_lines(),
                        final(self).log_lines(),
                        seq![
                            "➕ Added tracker: "@ + domain@,
                            "✅ Approved AI-suggested tracker: "@ + domain@,
                        ],
                    )
                },
                Some(e) => r matches Err(msg) && msg@ == "Failed to add tracker: "@ + e@
                    && *final(self) == *old(self),
            },
            *final(self) == (SharedState {
                ai_suggested_trackers: final(self).ai_suggested_trackers,
                ai_tracker: final(self).ai_tracker,
                logs: final(self).logs,
                ..*old(self)
            }),
    {
        match self.finish_add_tracker(domain, save_error) {
            Err(msg) => {
                return Err(msg);
            },
            Ok(_) => {},
        }
        let ghost mid = self.log_lines();
        list_remove(&mut self.ai_suggested_trackers, domain);
        proof {
            lemma_without_distinct(old(self).suggestions(), domain@);
        }
        self.ai_tracker.report_false_negative(domain);
        self.note_about("✅ Approved AI-suggested tracker: ", domain);
        proof {
            lemma_logged_then(
                old(self).log_lines(),
                mid,
                self.log_lines(),
                seq!["➕ Added tracker: "@ + domain@],
                seq!["✅ Approved AI-suggested tracker: "@ + domain@],
            );
            assert(seq!["➕ Added tracker: "@ + domain@] + seq![
                "✅ Approved AI-suggested tracker: "@ + domain@,
            ] =~= seq![
                "➕ Added tracker: "@ + domain@,
                "✅ Approved AI-suggested tracker: "@ + domain@,
            ]);
        }
        Ok(())
    }

    /// Rejects the suggestion `domain`: it leaves the queue, the classifier
    /// learns that it is legitimate, and the rejection is logged.
    pub fn reject_ai_suggestion(&mut self, domain: &str)
        requires
            old(self).wf(),
            old(self).ai_tracker@.false_positives < usize::MAX,
        ensures
            final(self).wf(),
            final(self).suggestions() == without(old(self).suggestions(), domain@),
            final(self).ai_tracker@ == old(self).ai_tracker@.after_false_positive(domain@),
            logged(
                old(self).log_lines(),
                final(self).log_lines(),
                seq!["❌ Rejected AI-suggested tracker: "@ + domain@],
            ),
            *final(self) == (SharedState {
                ai_suggested_trackers: final(self).ai_suggested_trackers,
                ai_tracker: final(self).ai_tracker,
                logs: final(self).logs,
                ..*old(self)
            }),
    {
        list_remove(&mut self.ai_suggested_trackers, domain);
        proof {
            lemma_without_distinct(old(self).suggestions(), domain@);
        }
        self.ai_tracker.report_false_positive(domain);
        self.note_about("❌ Rejected AI-suggested tracker: ", domain);
    }

    /// The classifier's numbers of detections, of reported false positives
    /// and of reported false negatives.
    pub fn get_ai_stats(&self) -> (stats: (usize, usize, usize))
        ensures
            stats.0 == self.ai_tracker@.detections,
            stats.1 == self.ai_tracker@.false_positives,
            stats.2 == self.ai_tracker@.false_negatives,
    {
        self.ai_tracker.get_stats()
    }

    /// Sets the classifier's counters to zero and logs it.
    pub fn reset_ai_stats(&mut self)
        requires
            old(self).wf(),
        ensures
            final(self).wf(),
            final(self).ai_tracker@ == (TrackerModel {
                detections: 0,
                false_positives: 0,
                false_negatives: 0,
                ..old(self).ai_tracker@
            }),
            logged(
                old(self).log_lines(),
                final(self).log_lines(),
                seq!["🤖 Reset AI tracker statistics"@],
            ),
            *final(self) == (SharedState {
                ai_tracker: final(self).ai_tracker,
                logs: final(self).logs,
                ..*old(self)
            }),
    {
        self.ai_tracker.reset_stats();
        self.note("🤖 Reset AI tracker statistics");
    }

    /// Logs that the classifier was saved. The classifier itself is not
    /// stored: the call only logs.
    pub fn save_ai_model(&mut self)
        requires
            old(self).wf(),
        ensures
            final(self).wf(),
            logged(
                old(self).log_lines(),
                final(self).log_lines(),
                seq!["💾 Saved AI model to file"@],
            ),
            *final(self) == (SharedState { logs: final(self).logs, ..*old(self) }),
    {
        self.note("💾 Saved AI model to file");
    }

    /// Replaces the classifier by a new one and logs that it was loaded. The
    /// classifier is not stored, so what is loaded is the initial state.
    pub fn load_ai_model(&mut self)
        requires
            old(self).wf(),
        ensures
            final(self).wf(),
            final(self).ai_tracker@ == AITracker::new_model(),
            logged(
                old(self).log_lines(),
                final(self).log_lines(),
                seq!["📂 Loaded AI model from file"@],
            ),
            *final(self) == (SharedState {
                ai_tracker: final(self).ai_tracker,
                logs: final(self).logs,
                ..*old(self)
            }),
    {
        self.ai_tracker = AITracker::new();
        self.note("📂 Loaded AI model from file");
    }
}

/// A copy of `list`.
pub fn copy_texts(list: &Vec<String>) -> (copy: Vec<String>)
    ensures
        texts(copy@) == texts(list@),
{
    let mut copy: Vec<String> = Vec::new();
    let mut i: usize = 0;
    while i < list.len()
        invariant
            i <= list.len(),
            copy.len() == i,
            forall|k: int| 0 <= k < i ==> (#[trigger] copy@[k])@ == list@[k]@,
        decreases list.len() - i,
    {
        copy.push(list[i].clone());
        i += 1;
    }
    copy
}

} // verus!
