//! The blocklist: a set of lower-case domains with exact and suffix
//! matching, its file format, and the cleaning of tracking parameters from
//! URLs.

use crate::clock::local_date_time;
use crate::text::{
    chars_of, decimal, decimal_digits, ends_with, has_suffix, joined, no_line_break,
    lemma_leading_whitespace, lemma_lex_less_irreflexive, lemma_lex_less_total,
    lemma_lex_less_transitive, lemma_split_concat, lemma_split_joined, lemma_split_plain,
    lemma_trailing_whitespace_stops, lemma_trimmed_ends, lex_less, lex_lt, lowercase, push_chars,
    push_str, rows, same_chars, split, split_on, string_from_chars, texts, to_lowercase, trim,
    trimmed,
};
use crate::url_parts::{
    byte_len, byte_serialize, fits, form_encoded, pair_views, parse_url, replace_query,
    url_query_pairs, url_text, url_with_query,
};
use vstd::prelude::*;

verus! {

/// The form in which a domain is stored: trimmed, then lower-cased.
pub open spec fn normalized(domain: Seq<char>) -> Seq<char> {
    lowercase(trimmed(domain))
}

/// `entry` is the stored form of some text.
pub open spec fn is_normalized(entry: Seq<char>) -> bool {
    exists|domain: Seq<char>| entry == normalized(domain)
}

/// Each text stands before its successors in the order `lex_less`; so none
/// occurs twice.
pub open spec fn sorted(entries: Seq<Seq<char>>) -> bool {
    forall|i: int, j: int| 0 <= i < j < entries.len() ==> lex_less(entries[i], entries[j])
}

/// `entry` covers `host`: they are equal, or `host` ends with a dot and
/// `entry`.
pub open spec fn covers(entry: Seq<char>, host: Seq<char>) -> bool {
    host == entry || ends_with(host, seq!['.'] + entry)
}

/// Some domain of `domains` covers `host`.
pub open spec fn covered(domains: Set<Seq<char>>, host: Seq<char>) -> bool {
    exists|entry: Seq<char>| domains.contains(entry) && covers(entry, host)
}

/// Some domain of `domains` covers the lower-case form of `host`.
pub open spec fn blocks(domains: Set<Seq<char>>, host: Seq<char>) -> bool {
    covered(domains, lowercase(host))
}

/// A line of a blocklist file that holds a domain: after trimming it is
/// neither empty nor a comment.
pub open spec fn is_entry_line(line: Seq<char>) -> bool {
    trimmed(line).len() > 0 && trimmed(line)[0] != '#'
}

/// The domains that the first `upto` of `lines` hold.
pub open spec fn listed_in(lines: Seq<Seq<char>>, upto: int) -> Set<Seq<char>> {
    Set::new(
        |d: Seq<char>|
            exists|i: int|
                0 <= i < upto && i < lines.len() && is_entry_line(lines[i]) && d == normalized(
                    lines[i],
                ),
    )
}

/// The domains that a blocklist file with the text `content` holds.
pub open spec fn listed_domains(content: Seq<char>) -> Set<Seq<char>> {
    let lines = split_on(content, '\n');
    listed_in(lines, lines.len() as int)
}

/// The text of the blocklist file for `entries`, written at `stamp`: three
/// comment lines, then the domains, one on each line.
pub open spec fn saved_file(entries: Seq<Seq<char>>, stamp: Seq<char>) -> Seq<char> {
    "# Tracker list for DeTrack Proxy"@ + seq!['\n'] + ("# Updated: "@ + stamp) + seq!['\n']
        + "# Format: One domain per line"@ + seq!['\n'] + joined(entries, seq!['\n']) + seq![
        '\n',
    ]
}

/// The text of an export of `entries`, written at `stamp`: three comment
/// lines, the last with the number of domains, then the domains, one on
/// each line.
pub open spec fn exported_file(entries: Seq<Seq<char>>, stamp: Seq<char>) -> Seq<char> {
    "# Exported tracker list from DeTrack Proxy"@ + seq!['\n'] + ("# Exported: "@ + stamp)
        + seq!['\n'] + ("# Total domains: "@ + decimal(entries.len())) + seq!['\n'] + joined(
        entries,
        seq!['\n'],
    ) + seq!['\n']
}

/// A domain that a blocklist file gives back as it was written: it is not
/// empty, starts no comment, holds no line break, and is its own trimmed and
/// lower-case form.
pub open spec fn persistable(entry: Seq<char>) -> bool {
    &&& entry.len() > 0
    &&& entry[0] != '#'
    &&& no_line_break(entry)
    &&& trimmed(entry) == entry
    &&& lowercase(entry) == entry
}

/// Each of `entries` is persistable.
pub open spec fn all_persistable(entries: Seq<Seq<char>>) -> bool {
    forall|i: int| 0 <= i < entries.len() ==> persistable(#[trigger] entries[i])
}

/// `content` is the blocklist file for `entries`, stamped with a text
/// without line break. It loads back as `entries` where each of them is
/// persistable; and where none of them breaks a line, each persistable one
/// of them loads back.
pub open spec fn is_saved_file(content: Seq<char>, entries: Seq<Seq<char>>) -> bool {
    &&& exists|stamp: Seq<char>| no_line_break(stamp) && content == saved_file(entries, stamp)
    &&& all_persistable(entries) ==> listed_domains(content) == entries.to_set()
    &&& (forall|i: int| 0 <= i < entries.len() ==> no_line_break(#[trigger] entries[i]))
        ==> forall|j: int|
        0 <= j < entries.len() && persistable(#[trigger] entries[j]) ==> listed_domains(
            content,
        ).contains(entries[j])
}

/// Whether `entry` is persistable.
pub fn is_persistable(entry: &Vec<char>) -> (ok: bool)
    ensures
        ok == persistable(entry@),
{
    if entry.len() == 0 || entry[0] == '#' {
        return false;
    }
    let mut k: usize = 0;
    while k < entry.len()
        invariant
            k <= entry.len(),
            forall|i: int| 0 <= i < k ==> entry@[i] != '\n',
        decreases entry.len() - k,
    {
        if entry[k] == '\n' {
            return false;
        }
        k += 1;
    }
    let trimmed_entry = trim(entry);
    let lower = lowercase_chars(entry);
    same_chars(&trimmed_entry, entry) && same_chars(&lower, entry)
}

/// The lines that report the loaded domains: a title, their number, one
/// line for each domain, and a closing rule.
pub open spec fn report_lines(entries: Seq<Seq<char>>) -> Seq<Seq<char>> {
    seq!["====== Loaded Trackers: ======"@, "Total trackers: "@ + decimal(entries.len())]
        + Seq::new(entries.len(), |i: int| "  - "@ + entries[i]) + seq![
        "=============================="@,
    ]
}

/// The names of the query parameters that carry tracking data.
pub open spec fn tracking_vocabulary() -> Seq<Seq<char>> {
    seq![
        "utm_source"@,
        "utm_medium"@,
        "utm_campaign"@,
        "utm_term"@,
        "utm_content"@,
        "fbclid"@,
        "gclid"@,
        "msclkid"@,
        "dclid"@,
        "twclid"@,
        "_ga"@,
        "_hsenc"@,
        "_openstat"@,
        "ref"@,
        "referrer"@,
        "source"@,
        "mc_cid"@,
        "mc_eid"@,
        "wickedid"@,
        "yclid"@,
    ]
}

/// The vocabulary of a blocklist that was made without a file: the first
/// sixteen names.
pub open spec fn basic_vocabulary() -> Seq<Seq<char>> {
    tracking_vocabulary().take(16)
}

/// The pairs of `pairs` whose lower-case name is not in `vocabulary`, in
/// their order.
pub open spec fn kept_pairs(
    vocabulary: Seq<Seq<char>>,
    pairs: Seq<(Seq<char>, Seq<char>)>,
) -> Seq<(Seq<char>, Seq<char>)>
    decreases pairs.len(),
{
    if pairs.len() == 0 {
        Seq::empty()
    } else {
        let rest = kept_pairs(vocabulary, pairs.drop_last());
        if vocabulary.contains(lowercase(pairs.last().0)) {
            rest
        } else {
            rest.push(pairs.last())
        }
    }
}

/// A parameter as it stands in a query: its encoded name, `=`, its
/// encoded value.
pub open spec fn pair_text(pair: (Seq<char>, Seq<char>)) -> Seq<char> {
    form_encoded(pair.0) + seq!['='] + form_encoded(pair.1)
}

/// The query made of `pairs`: the parameters with `&` between them.
pub open spec fn query_text(pairs: Seq<(Seq<char>, Seq<char>)>) -> Seq<char> {
    joined(Seq::new(pairs.len(), |i: int| pair_text(pairs[i])), seq!['&'])
}

/// The query that replaces the old one when `kept` are the parameters that
/// stay: none where nothing stays.
pub open spec fn new_query(kept: Seq<(Seq<char>, Seq<char>)>) -> Option<Seq<char>> {
    if kept.len() == 0 {
        None
    } else {
        Some(query_text(kept))
    }
}

/// The `url` crate reads `text` back as it was made: its parameters are
/// `kept`, and giving it the query `query` again leaves it as it is.
pub open spec fn reads_back(
    text: Seq<char>,
    kept: Seq<(Seq<char>, Seq<char>)>,
    query: Option<Seq<char>>,
) -> bool {
    url_query_pairs(text) == Some(kept) && (fits(text, query) ==> url_with_query(text, query)
        == Some(text))
}

/// `url` without its tracking parameters, where `pairs` are its query
/// parameters: the URL whose query is made of the parameters that stay. A
/// URL that would outgrow what the `url` crate can hold, or that the crate
/// does not read back as it was made, stays as it is.
pub open spec fn cleaned_with(
    vocabulary: Seq<Seq<char>>,
    url: Seq<char>,
    pairs: Seq<(Seq<char>, Seq<char>)>,
) -> Seq<char> {
    let kept = kept_pairs(vocabulary, pairs);
    let query = new_query(kept);
    if !fits(url, query) {
        url
    } else {
        match url_with_query(url, query) {
            Some(text) => if reads_back(text, kept, query) {
                text
            } else {
                url
            },
            None => url,
        }
    }
}

/// `url` without its tracking parameters; `url` itself where it cannot be
/// parsed.
pub open spec fn cleaned(vocabulary: Seq<Seq<char>>, url: Seq<char>) -> Seq<char> {
    match url_query_pairs(url) {
        Some(pairs) => cleaned_with(vocabulary, url, pairs),
        None => url,
    }
}

/// Inserting into a list inserts into its set.
proof fn lemma_insert_to_set(e: Seq<Seq<char>>, p: int, d: Seq<char>)
    requires
        0 <= p <= e.len(),
    ensures
        e.insert(p, d).to_set() == e.to_set().insert(d),
{
    let n = e.insert(p, d);
    assert forall|x: Seq<char>| n.to_set().contains(x) implies e.to_set().insert(d).contains(
        x,
    ) by {
        let k = choose|k: int| 0 <= k < n.len() && n[k] == x;
        assert(k == p || e.contains(x));
    }
    assert forall|x: Seq<char>| e.to_set().insert(d).contains(x) implies n.to_set().contains(
        x,
    ) by {
        if x == d {
            assert(n[p] == x);
        } else {
            let k = choose|k: int| 0 <= k < e.len() && e[k] == x;
            if k < p {
                assert(n[k] == x);
            } else {
                assert(n[k + 1] == x);
            }
        }
    }
}

/// Removing from a list without repetitions removes from its set.
proof fn lemma_remove_to_set(e: Seq<Seq<char>>, p: int)
    requires
        0 <= p < e.len(),
        e.no_duplicates(),
    ensures
        e.remove(p).to_set() == e.to_set().remove(e[p]),
{
    let n = e.remove(p);
    assert forall|x: Seq<char>| n.to_set().contains(x) implies e.to_set().remove(e[p]).contains(
        x,
    ) by {
        let k = choose|k: int| 0 <= k < n.len() && n[k] == x;
        assert(x == if k < p { e[k] } else { e[k + 1] });
    }
    assert forall|x: Seq<char>| e.to_set().remove(e[p]).contains(x) implies n.to_set().contains(
        x,
    ) by {
        let k = choose|k: int| 0 <= k < e.len() && e[k] == x;
        if k < p {
            assert(n[k] == x);
        } else {
            assert(n[k - 1] == x);
        }
    }
}

/// A sorted list holds nothing twice, so it is as long as its set is large.
pub proof fn lemma_sorted_distinct(e: Seq<Seq<char>>)
    requires
        sorted(e),
    ensures
        e.no_duplicates(),
        e.to_set().len() == e.len(),
        e.to_set().finite(),
{
    assert forall|i: int, j: int| 0 <= i < e.len() && 0 <= j < e.len() && i != j implies e[i]
        != e[j] by {
        lemma_lex_less_irreflexive(e[i]);
    }
    e.unique_seq_to_set();
    vstd::seq_lib::seq_to_set_is_finite(e);
}

/// The lower-case form of the text in `v`.
pub fn lowercase_chars(v: &Vec<char>) -> (out: Vec<char>)
    ensures
        out@ == lowercase(v@),
{
    let text = string_from_chars(v);
    let lower = to_lowercase(text.as_str());
    chars_of(lower.as_str())
}

/// Whether `host` ends with a dot and `entry`.
fn has_dot_suffix(host: &Vec<char>, entry: &Vec<char>) -> (r: bool)
    ensures
        r == ends_with(host@, seq!['.'] + entry@),
{
    let mut pattern: Vec<char> = Vec::new();
    pattern.push('.');
    push_chars(&mut pattern, entry);
    has_suffix(host, &pattern)
}

/// The blocklist with its vocabulary of tracking parameters.
///
/// The domains are a set, held as a sorted vector: vstd gives the hash
/// collections a model only for keys whose hashing it specifies, and text is
/// not among them.
pub struct TrackerBlocker {
    trackers: Vec<Vec<char>>,
    tracking_params: Vec<Vec<char>>,
}

/// What a blocklist holds.
pub struct BlocklistModel {
    /// The set of blocked domains.
    pub domains: Set<Seq<char>>,
    /// The names of the tracking parameters.
    pub vocabulary: Seq<Seq<char>>,
}

impl View for TrackerBlocker {
    type V = BlocklistModel;

    open spec fn view(&self) -> BlocklistModel {
        BlocklistModel { domains: self.entries().to_set(), vocabulary: self.vocabulary() }
    }
}

impl TrackerBlocker {
    /// The blocked domains in the order in which they are listed and saved.
    pub closed spec fn entries(&self) -> Seq<Seq<char>> {
        rows(self.trackers@)
    }

    /// The names of the tracking parameters.
    pub closed spec fn vocabulary(&self) -> Seq<Seq<char>> {
        rows(self.tracking_params@)
    }

    /// The domains are sorted, hence unique, and each is in stored form.
    pub open spec fn wf(&self) -> bool {
        &&& sorted(self.entries())
        &&& forall|i: int|
            0 <= i < self.entries().len() ==> is_normalized(#[trigger] self.entries()[i])
    }

    /// The index at which `d` stands or would have to be inserted, and
    /// whether it stands there.
    fn position(&self, d: &Vec<char>) -> (r: (usize, bool))
        requires
            sorted(self.entries()),
        ensures
            r.0 <= self.entries().len(),
            r.0 <= self.trackers.len(),
            forall|i: int| 0 <= i < r.0 ==> lex_less(self.entries()[i], d@),
            r.1 ==> r.0 < self.entries().len() && self.entries()[r.0 as int] == d@,
            forall|i: int|
                r.0 <= i < self.entries().len() && !(r.1 && i == r.0) ==> lex_less(
                    d@,
                    self.entries()[i],
                ),
            r.1 == self.entries().contains(d@),
    {
        let n = self.trackers.len();
        let mut p: usize = 0;
        while p < n && lex_lt(&self.trackers[p], d)
            invariant
                p <= n,
                n == self.trackers.len(),
                forall|i: int| 0 <= i < p ==> lex_less(self.entries()[i], d@),
            decreases n - p,
        {
            p += 1;
        }
        let found = p < n && same_chars(&self.trackers[p], d);
        proof {
            let e = self.entries();
            assert forall|i: int| p <= i < e.len() && !(found && i == p) implies lex_less(
                d@,
                e[i],
            ) by {
                lemma_lex_less_total(e[p as int], d@);
                if i > p && !found {
                    lemma_lex_less_transitive(d@, e[p as int], e[i]);
                }
            }
            if !found {
                lemma_lex_less_irreflexive(d@);
            }
        }
        (p, found)
    }

    /// Puts `d` into the set.
    fn insert_entry(&mut self, d: Vec<char>) -> (added: bool)
        requires
            sorted(old(self).entries()),
        ensures
            sorted(final(self).entries()),
            final(self)@.domains == old(self)@.domains.insert(d@),
            added == !old(self)@.domains.contains(d@),
            final(self).vocabulary() == old(self).vocabulary(),
            final(self).entries().len() == old(self).entries().len() + if added {
                1int
            } else {
                0
            },
            forall|i: int|
                0 <= i < final(self).entries().len() ==> #[trigger] final(self).entries()[i] == d@
                    || old(self).entries().contains(final(self).entries()[i]),
    {
        let (p, found) = self.position(&d);
        if found {
            false
        } else {
            let ghost e = self.entries();
            let ghost dv = d@;
            self.trackers.insert(p, d);
            proof {
                assert(self.entries() =~= e.insert(p as int, dv));
                lemma_insert_to_set(e, p as int, dv);
            }
            true
        }
    }

    /// Takes `d` out of the set.
    fn remove_entry(&mut self, d: &Vec<char>) -> (removed: bool)
        requires
            sorted(old(self).entries()),
        ensures
            sorted(final(self).entries()),
            final(self)@.domains == old(self)@.domains.remove(d@),
            removed == old(self)@.domains.contains(d@),
            final(self).vocabulary() == old(self).vocabulary(),
            forall|i: int|
                0 <= i < final(self).entries().len() ==> old(self).entries().contains(
                    #[trigger] final(self).entries()[i],
                ),
    {
        let (p, found) = self.position(d);
        if found {
            let ghost e = self.entries();
            self.trackers.remove(p);
            proof {
                let n = self.entries();
                assert(n =~= e.remove(p as int));
                lemma_sorted_distinct(e);
                lemma_remove_to_set(e, p as int);
                assert forall|i: int| 0 <= i < n.len() implies e.contains(#[trigger] n[i]) by {
                    assert(n[i] == if i < p { e[i] } else { e[i + 1] });
                }
            }
            true
        } else {
            false
        }
    }

    /// The vocabulary of tracking parameters.
    fn make_vocabulary() -> (v: Vec<Vec<char>>)
        ensures
            rows(v@) == tracking_vocabulary(),
    {
        let mut v: Vec<Vec<char>> = Vec::new();
        v.push(chars_of("utm_source"));
        v.push(chars_of("utm_medium"));
        v.push(chars_of("utm_campaign"));
        v.push(chars_of("utm_term"));
        v.push(chars_of("utm_content"));
        v.push(chars_of("fbclid"));
        v.push(chars_of("gclid"));
        v.push(chars_of("msclkid"));
        v.push(chars_of("dclid"));
        v.push(chars_of("twclid"));
        v.push(chars_of("_ga"));
        v.push(chars_of("_hsenc"));
        v.push(chars_of("_openstat"));
        v.push(chars_of("ref"));
        v.push(chars_of("referrer"));
        v.push(chars_of("source"));
        v.push(chars_of("mc_cid"));
        v.push(chars_of("mc_eid"));
        v.push(chars_of("wickedid"));
        v.push(chars_of("yclid"));
        v
    }

    /// Adds the domains that the lines of `content` hold.
    fn merge(&mut self, content: &str) -> (count: usize)
        requires
            old(self).wf(),
        ensures
            final(self).wf(),
            final(self)@.domains == old(self)@.domains.union(listed_domains(content@)),
            count == final(self).entries().len() - old(self).entries().len(),
            final(self).vocabulary() == old(self).vocabulary(),
    {
        let text = chars_of(content);
        let lines = split(&text, '\n');
        let mut count: usize = 0;
        let mut k: usize = 0;
        while k < lines.len()
            invariant
                k <= lines.len(),
                rows(lines@) == split_on(content@, '\n'),
                self.wf(),
                self@.domains == old(self)@.domains.union(listed_in(rows(lines@), k as int)),
                count == self.entries().len() - old(self).entries().len(),
                count <= k,
                self.vocabulary() == old(self).vocabulary(),
            decreases lines.len() - k,
        {
            let line = trim(&lines[k]);
            let ghost raw = rows(lines@)[k as int];
            if line.len() > 0 && line[0] != '#' {
                let domain = lowercase_chars(&line);
                let added = self.insert_entry(domain);
                if added {
                    count += 1;
                }
                assert(listed_in(rows(lines@), k + 1) =~= listed_in(rows(lines@), k as int).insert(
                    normalized(raw),
                ));
            }
            k += 1;
        }
        count
    }

    /// The blocklist that a file with the text `content` holds, with the
    /// full vocabulary of tracking parameters. Blank lines and lines that
    /// start with `#` hold no domain.
    pub fn new(content: &str) -> (blocker: Self)
        ensures
            blocker.wf(),
            blocker@.domains == listed_domains(content@),
            blocker.vocabulary() == tracking_vocabulary(),
    {
        let mut blocker = TrackerBlocker {
            trackers: Vec::new(),
            tracking_params: Self::make_vocabulary(),
        };
        blocker.merge(content);
        assert(Set::<Seq<char>>::empty().union(listed_domains(content@)) =~= listed_domains(
            content@,
        ));
        blocker
    }

    /// Whether a request to `host` is blocked: some domain of the list
    /// equals the lower-case host, or the lower-case host ends with a dot
    /// and that domain. An empty list blocks nothing.
    pub fn is_blocked(&self, host: &str) -> (blocked: bool)
        ensures
            blocked == blocks(self@.domains, host@),
    {
        let lower = to_lowercase(host);
        self.covers_host(lower.as_str())
    }

    /// Whether some domain of the list covers `host` as it is written: it
    /// equals `host`, or `host` ends with a dot and the domain.
    pub fn covers_host(&self, host: &str) -> (found: bool)
        ensures
            found == covered(self@.domains, host@),
    {
        let h = chars_of(host);
        let mut i: usize = 0;
        while i < self.trackers.len()
            invariant
                i <= self.trackers.len(),
                h@ == host@,
                forall|k: int| 0 <= k < i ==> !covers(self.entries()[k], h@),
            decreases self.trackers.len() - i,
        {
            let entry = &self.trackers[i];
            if same_chars(entry, &h) || has_dot_suffix(&h, entry) {
                assert(self@.domains.contains(self.entries()[i as int]));
                return true;
            }
            i += 1;
        }
        assert forall|e: Seq<char>| self@.domains.contains(e) implies !covers(e, h@) by {
            let k = choose|k: int| 0 <= k < self.entries().len() && self.entries()[k] == e;
            assert(!covers(self.entries()[k], h@));
        }
        false
    }

    /// The text of the blocklist file for the present domains, written at
    /// `stamp`: three comment lines, then one domain per line, sorted.
    pub fn render_file(&self, stamp: &str) -> (content: String)
        ensures
            content@ == saved_file(self.entries(), stamp@),
    {
        let mut out: Vec<char> = Vec::new();
        push_str(&mut out, "# Tracker list for DeTrack Proxy");
        out.push('\n');
        push_str(&mut out, "# Updated: ");
        push_str(&mut out, stamp);
        out.push('\n');
        push_str(&mut out, "# Format: One domain per line");
        out.push('\n');
        let mut sep: Vec<char> = Vec::new();
        sep.push('\n');
        let body = crate::text::join(&self.trackers, &sep);
        push_chars(&mut out, &body);
        out.push('\n');
        string_from_chars(&out)
    }

    /// The text of an export of the present domains, written at `stamp`:
    /// three comment lines, the last with the number of domains, then one
    /// domain per line, sorted.
    pub fn render_export(&self, stamp: &str) -> (content: String)
        ensures
            content@ == exported_file(self.entries(), stamp@),
    {
        let mut out: Vec<char> = Vec::new();
        push_str(&mut out, "# Exported tracker list from DeTrack Proxy");
        out.push('\n');
        push_str(&mut out, "# Exported: ");
        push_str(&mut out, stamp);
        out.push('\n');
        push_str(&mut out, "# Total domains: ");
        let digits = decimal_digits(self.trackers.len() as u64);
        push_chars(&mut out, &digits);
        out.push('\n');
        let mut sep: Vec<char> = Vec::new();
        sep.push('\n');
        let body = crate::text::join(&self.trackers, &sep);
        push_chars(&mut out, &body);
        out.push('\n');
        string_from_chars(&out)
    }

    /// The text of the blocklist file for the present domains, stamped with
    /// the local time.
    pub fn save_trackers(&self) -> (content: String)
        ensures
            is_saved_file(content@, self.entries()),
    {
        let stamp = local_date_time();
        let content = self.render_file(stamp.as_str());
        proof {
            assert(no_line_break(stamp@) && content@ == saved_file(self.entries(), stamp@));
            let entries = self.entries();
            if all_persistable(entries) {
                lemma_saved_file_loads_back(entries, stamp@);
            }
            if forall|i: int| 0 <= i < entries.len() ==> no_line_break(#[trigger] entries[i]) {
                assert forall|j: int|
                    0 <= j < entries.len() && persistable(
                        #[trigger] entries[j],
                    ) implies listed_domains(content@).contains(entries[j]) by {
                    lemma_saved_entry_loads_back(entries, stamp@, j);
                }
            }
        }
        content
    }

    /// Whether the list survives saving: each domain is persistable, so the
    /// file that `save_trackers` gives loads back as the same list.
    pub fn survives_saving(&self) -> (ok: bool)
        ensures
            ok == all_persistable(self.entries()),
    {
        let mut i: usize = 0;
        while i < self.trackers.len()
            invariant
                i <= self.trackers.len(),
                forall|k: int| 0 <= k < i ==> persistable(#[trigger] self.entries()[k]),
            decreases self.trackers.len() - i,
        {
            if !is_persistable(&self.trackers[i]) {
                assert(!persistable(self.entries()[i as int]));
                return false;
            }
            i += 1;
        }
        true
    }

    /// Adds the stored form of `domain`. Where the domain is new, the text
    /// to write to the blocklist file comes back; where it was there, nothing
    /// changes and nothing is to be written.
    pub fn add_tracker(&mut self, domain: &str) -> (to_save: Option<String>)
        requires
            old(self).wf(),
        ensures
            final(self).wf(),
            final(self)@.domains == old(self)@.domains.insert(normalized(domain@)),
            final(self).vocabulary() == old(self).vocabulary(),
            to_save is None <==> old(self)@.domains.contains(normalized(domain@)),
            to_save matches Some(content) ==> is_saved_file(content@, final(self).entries()),
    {
        let raw = chars_of(domain);
        let d = lowercase_chars(&trim(&raw));
        assert(d@ == normalized(domain@));
        let added = self.insert_entry(d);
        if added {
            Some(self.save_trackers())
        } else {
            None
        }
    }

    /// Removes the stored form of `domain`, if it is there, and gives the
    /// text to write to the blocklist file.
    pub fn remove_tracker(&mut self, domain: &str) -> (to_save: String)
        requires
            old(self).wf(),
        ensures
            final(self).wf(),
            final(self)@.domains == old(self)@.domains.remove(normalized(domain@)),
            final(self).vocabulary() == old(self).vocabulary(),
            is_saved_file(to_save@, final(self).entries()),
    {
        let raw = chars_of(domain);
        let d = lowercase_chars(&trim(&raw));
        self.remove_entry(&d);
        proof {
            assert forall|i: int| 0 <= i < self.entries().len() implies is_normalized(
                #[trigger] self.entries()[i],
            ) by {
                let k = choose|k: int|
                    0 <= k < old(self).entries().len() && old(self).entries()[k]
                        == self.entries()[i];
                assert(is_normalized(old(self).entries()[k]));
            }
        }
        self.save_trackers()
    }

    /// The domains, sorted.
    pub fn get_trackers(&self) -> (list: Vec<String>)
        ensures
            texts(list@) == self.entries(),
            texts(list@).to_set() == self@.domains,
            self.wf() ==> sorted(texts(list@)),
    {
        let mut list: Vec<String> = Vec::new();
        let mut i: usize = 0;
        while i < self.trackers.len()
            invariant
                i <= self.trackers.len(),
                list.len() == i,
                forall|k: int| 0 <= k < i ==> (#[trigger] list@[k])@ == self.trackers@[k]@,
            decreases self.trackers.len() - i,
        {
            let text = string_from_chars(&self.trackers[i]);
            list.push(text);
            i += 1;
        }
        assert(texts(list@) =~= self.entries());
        list
    }

    /// The lines that report the loaded domains, for a console.
    pub fn loaded_trackers_report(&self) -> (lines: Vec<String>)
        ensures
            texts(lines@) == report_lines(self.entries()),
    {
        let mut lines: Vec<String> = Vec::new();
        lines.push("====== Loaded Trackers: ======".to_owned());
        let mut total = chars_of("Total trackers: ");
        let digits = decimal_digits(self.trackers.len() as u64);
        push_chars(&mut total, &digits);
        lines.push(string_from_chars(&total));
        let mut i: usize = 0;
        while i < self.trackers.len()
            invariant
                i <= self.trackers.len(),
                lines.len() == i + 2,
                lines@[0]@ == "====== Loaded Trackers: ======"@,
                lines@[1]@ == "Total trackers: "@ + decimal(self.entries().len()),
                forall|k: int|
                    0 <= k < i ==> (#[trigger] lines@[k + 2])@ == "  - "@ + self.entries()[k],
            decreases self.trackers.len() - i,
        {
            let mut line = chars_of("  - ");
            push_chars(&mut line, &self.trackers[i]);
            lines.push(string_from_chars(&line));
            i += 1;
        }
        lines.push("==============================".to_owned());
        assert(texts(lines@) =~= report_lines(self.entries())) by {
            let want = report_lines(self.entries());
            assert forall|k: int| 0 <= k < want.len() implies texts(lines@)[k] == want[k] by {
                if 2 <= k < want.len() - 1 {
                    assert(lines@[(k - 2) + 2]@ == "  - "@ + self.entries()[k - 2]);
                }
            }
        }
        lines
    }

    /// The number of domains.
    pub fn tracker_count(&self) -> (count: usize)
        ensures
            count == self.entries().len(),
            self.wf() ==> count == self@.domains.len(),
    {
        proof {
            if self.wf() {
                lemma_sorted_distinct(self.entries());
            }
        }
        self.trackers.len()
    }

    /// Adds the domains that a file with the text `content` holds. Gives the
    /// number of domains that were new and, where there were any, the text
    /// to write to the blocklist file.
    pub fn import_trackers(&mut self, content: &str) -> (r: (usize, Option<String>))
        requires
            old(self).wf(),
        ensures
            final(self).wf(),
            final(self)@.domains == old(self)@.domains.union(listed_domains(content@)),
            final(self).vocabulary() == old(self).vocabulary(),
            r.0 == final(self)@.domains.len() - old(self)@.domains.len(),
            r.1 is Some <==> r.0 > 0,
            r.1 matches Some(text) ==> is_saved_file(text@, final(self).entries()),
    {
        proof {
            lemma_sorted_distinct(self.entries());
        }
        let count = self.merge(content);
        proof {
            lemma_sorted_distinct(self.entries());
        }
        if count > 0 {
            (count, Some(self.save_trackers()))
        } else {
            (count, None)
        }
    }

    /// The text of an export of the domains, stamped with the local time,
    /// and the number of domains in it. The blocklist stays as it is.
    pub fn export_trackers(&self) -> (r: (String, usize))
        ensures
            exists|stamp: Seq<char>|
                no_line_break(stamp) && r.0@ == exported_file(self.entries(), stamp),
            r.1 == self.entries().len(),
    {
        let stamp = local_date_time();
        let content = self.render_export(stamp.as_str());
        (content, self.trackers.len())
    }

    /// Whether the lower-case form of `param_name` is a tracking parameter.
    pub fn is_tracking_parameter(&self, param_name: &str) -> (is_tracking: bool)
        ensures
            is_tracking == self.vocabulary().contains(lowercase(param_name@)),
    {
        let lower = to_lowercase(param_name);
        self.in_vocabulary(lower.as_str())
    }

    /// Whether `param_name`, as it is written, is in the vocabulary.
    pub fn in_vocabulary(&self, param_name: &str) -> (found: bool)
        ensures
            found == self.vocabulary().contains(param_name@),
    {
        let name = chars_of(param_name);
        let mut i: usize = 0;
        while i < self.tracking_params.len()
            invariant
                i <= self.tracking_params.len(),
                name@ == param_name@,
                forall|k: int| 0 <= k < i ==> self.vocabulary()[k] != name@,
            decreases self.tracking_params.len() - i,
        {
            if same_chars(&self.tracking_params[i], &name) {
                assert(self.vocabulary()[i as int] == name@);
                return true;
            }
            i += 1;
        }
        false
    }

    /// The parameters of `pairs` that are no tracking parameters, in their
    /// order.
    pub fn strip_tracking_pairs(&self, pairs: &Vec<(String, String)>) -> (kept: Vec<
        (String, String),
    >)
        ensures
            pair_views(kept@) == kept_pairs(self.vocabulary(), pair_views(pairs@)),
    {
        let mut kept: Vec<(String, String)> = Vec::new();
        let mut i: usize = 0;
        while i < pairs.len()
            invariant
                i <= pairs.len(),
                pair_views(kept@) == kept_pairs(
                    self.vocabulary(),
                    pair_views(pairs@).take(i as int),
                ),
            decreases pairs.len() - i,
        {
            proof {
                let next = pair_views(pairs@).take(i + 1);
                assert(next.drop_last() =~= pair_views(pairs@).take(i as int));
            }
            if !self.is_tracking_parameter(pairs[i].0.as_str()) {
                let name = pairs[i].0.clone();
                let value = pairs[i].1.clone();
                kept.push((name, value));
            }
            i += 1;
        }
        assert(pair_views(pairs@).take(pairs.len() as int) =~= pair_views(pairs@));
        kept
    }

    /// `url_str`, which the `url` crate writes in `text_len` bytes, with the
    /// parameters `pairs` reduced to those that are no tracking parameters.
    fn rebuild(&self, url_str: &str, text_len: usize, pairs: &Vec<(String, String)>) -> (out:
        String)
        requires
            url_text(url_str@) matches Some(text) && text_len == byte_len(text),
        ensures
            out@ == cleaned_with(self.vocabulary(), url_str@, pair_views(pairs@)),
    {
        let kept = self.strip_tracking_pairs(pairs);
        let query = query_string(&kept);
        let new_query = if kept.len() == 0 {
            None
        } else {
            Some(query.as_str())
        };
        if !within_limit(text_len, new_query) {
            return url_str.to_owned();
        }
        let text = match replace_query(url_str, new_query) {
            Some(text) => text,
            None => {
                return url_str.to_owned();
            },
        };
        let read = match parse_url(text.as_str()) {
            Some(read) => read,
            None => {
                return url_str.to_owned();
            },
        };
        if !same_pairs(&read.query_pairs, &kept) {
            return url_str.to_owned();
        }
        if within_limit(read.text.as_str().as_bytes().len(), new_query) {
            match replace_query(text.as_str(), new_query) {
                Some(again) => {
                    if again != text {
                        return url_str.to_owned();
                    }
                },
                None => {
                    return url_str.to_owned();
                },
            }
        }
        text
    }

    /// `url_str` with the parameters `pairs` of its query reduced to those
    /// that are no tracking parameters.
    pub fn clean_url_with(&self, url_str: &str, pairs: &Vec<(String, String)>) -> (out: String)
        ensures
            out@ == cleaned_with(self.vocabulary(), url_str@, pair_views(pairs@)),
    {
        match parse_url(url_str) {
            Some(parts) => self.rebuild(url_str, parts.text.as_str().as_bytes().len(), pairs),
            None => url_str.to_owned(),
        }
    }

    /// `url_str` without its tracking parameters: the query keeps the
    /// parameters whose lower-case name is not in the vocabulary, in their
    /// order, each written in its encoded form; without any, the URL has no
    /// query. A text that is no URL comes back as it is. Cleaning what was
    /// cleaned changes nothing.
    pub fn clean_url(&self, url_str: &str) -> (out: String)
        ensures
            out@ == cleaned(self.vocabulary(), url_str@),
            cleaned(self.vocabulary(), out@) == out@,
            out@ != url_str@ ==> url_query_pairs(out@) == Some(
                kept_pairs(self.vocabulary(), url_query_pairs(url_str@).unwrap()),
            ),
    {
        proof {
            lemma_clean_url_idempotent(self.vocabulary(), url_str@);
        }
        match parse_url(url_str) {
            Some(parts) => {
                self.rebuild(url_str, parts.text.as_str().as_bytes().len(), &parts.query_pairs)
            },
            None => url_str.to_owned(),
        }
    }
}

/// Whether a URL written in `text_len` bytes, with the new query `query`,
/// stays within the 32-bit length that the `url` crate can hold.
fn within_limit(text_len: usize, query: Option<&str>) -> (ok: bool)
    ensures
        ok == (text_len + 3 * (match query {
            Some(q) => byte_len(q@),
            None => 0,
        }) + 2 <= u32::MAX),
{
    let query_len: usize = match query {
        Some(q) => q.as_bytes().len(),
        None => 0,
    };
    text_len <= 0xffff_ffff && query_len <= 0xffff_ffff && (text_len as u64) + 3 * (
    query_len as u64) + 2 <= 0xffff_ffff
}

/// Whether `a` and `b` hold the same parameters in the same order.
pub fn same_pairs(a: &Vec<(String, String)>, b: &Vec<(String, String)>) -> (same: bool)
    ensures
        same == (pair_views(a@) == pair_views(b@)),
{
    if a.len() != b.len() {
        return false;
    }
    let mut i: usize = 0;
    while i < a.len()
        invariant
            i <= a.len(),
            a.len() == b.len(),
            forall|k: int| 0 <= k < i ==> pair_views(a@)[k] == pair_views(b@)[k],
        decreases a.len() - i,
    {
        if a[i].0 != b[i].0 || a[i].1 != b[i].1 {
            assert(pair_views(a@)[i as int] != pair_views(b@)[i as int]);
            return false;
        }
        i += 1;
    }
    assert(pair_views(a@) =~= pair_views(b@));
    true
}

/// The query made of `pairs`: each as encoded name, `=`, encoded value, with
/// `&` between them.
pub fn query_string(pairs: &Vec<(String, String)>) -> (query: String)
    ensures
        query@ == query_text(pair_views(pairs@)),
{
    let mut parts: Vec<Vec<char>> = Vec::new();
    let mut i: usize = 0;
    while i < pairs.len()
        invariant
            i <= pairs.len(),
            parts.len() == i,
            forall|k: int|
                0 <= k < i ==> (#[trigger] parts@[k])@ == pair_text(pair_views(pairs@)[k]),
        decreases pairs.len() - i,
    {
        let name = byte_serialize(pairs[i].0.as_str());
        let value = byte_serialize(pairs[i].1.as_str());
        let mut part = chars_of(name.as_str());
        part.push('=');
        push_str(&mut part, value.as_str());
        parts.push(part);
        i += 1;
    }
    let mut sep: Vec<char> = Vec::new();
    sep.push('&');
    assert(rows(parts@) =~= Seq::new(
        pair_views(pairs@).len(),
        |i: int| pair_text(pair_views(pairs@)[i]),
    ));
    let text = crate::text::join(&parts, &sep);
    string_from_chars(&text)
}

impl Default for TrackerBlocker {
    /// The blocklist to fall back on where no file can be had: no domains,
    /// and the basic vocabulary.
    fn default() -> (blocker: Self)
        ensures
            blocker.wf(),
            blocker@.domains == Set::<Seq<char>>::empty(),
            blocker.vocabulary() == basic_vocabulary(),
    {
        let mut params = Self::make_vocabulary();
        params.truncate(16);
        TrackerBlocker { trackers: Vec::new(), tracking_params: params }
    }
}

/// A host whose lower-case form equals a listed domain, or ends with a dot
/// and a listed domain, is blocked, whatever else is listed; so is a host in
/// lower case that does so itself. A host that no listed domain covers is
/// not blocked.
pub proof fn lemma_blocked_exactly_when_covered(
    domains: Set<Seq<char>>,
    host: Seq<char>,
    entry: Seq<char>,
)
    ensures
        domains.contains(entry) && (lowercase(host) == entry || ends_with(
            lowercase(host),
            seq!['.'] + entry,
        )) ==> blocks(domains, host),
        domains.contains(entry) && lowercase(host) == host && (host == entry || ends_with(
            host,
            seq!['.'] + entry,
        )) ==> blocks(domains, host),
        (forall|e: Seq<char>| domains.contains(e) ==> !covers(e, lowercase(host))) ==> !blocks(
            domains,
            host,
        ),
        domains == Set::<Seq<char>>::empty() ==> !blocks(domains, host),
{
}

/// A line that starts with `#` holds no domain, and neither does an empty
/// line.
pub proof fn lemma_comment_line(line: Seq<char>)
    requires
        line.len() == 0 || line[0] == '#',
    ensures
        !is_entry_line(line),
{
    if line.len() > 0 {
        lemma_leading_whitespace(line, 0);
        assert(line.skip(0) =~= line);
        lemma_trailing_whitespace_stops(line);
    } else {
        lemma_trimmed_ends(line);
    }
}

/// The lines of a saved blocklist file: the three comment lines, the
/// domains, and an empty line after the last line break. A file without
/// domains has one more empty line in their place.
pub proof fn lemma_saved_file_lines(entries: Seq<Seq<char>>, stamp: Seq<char>)
    requires
        forall|i: int, k: int|
            0 <= i < entries.len() && 0 <= k < entries[i].len() ==> entries[i][k] != '\n',
        no_line_break(stamp),
    ensures
        split_on(saved_file(entries, stamp), '\n') == seq![
            "# Tracker list for DeTrack Proxy"@,
            "# Updated: "@ + stamp,
            "# Format: One domain per line"@,
        ] + (if entries.len() == 0 {
            seq![Seq::<char>::empty()]
        } else {
            entries
        }) + seq![Seq::<char>::empty()],
{
    reveal_strlit("# Tracker list for DeTrack Proxy");
    reveal_strlit("# Updated: ");
    reveal_strlit("# Format: One domain per line");
    let nl = seq!['\n'];
    let h1 = "# Tracker list for DeTrack Proxy"@;
    let h2 = "# Updated: "@ + stamp;
    let h3 = "# Format: One domain per line"@;
    let body = joined(entries, nl);
    let none = Seq::<char>::empty();
    let r4 = body + nl + none;
    let r3 = h3 + nl + r4;
    let r2 = h2 + nl + r3;
    assert(saved_file(entries, stamp) =~= h1 + nl + r2);
    lemma_split_concat(h1, r2, '\n');
    lemma_split_concat(h2, r3, '\n');
    lemma_split_concat(h3, r4, '\n');
    lemma_split_concat(body, none, '\n');
    lemma_split_plain(h1, '\n');
    lemma_split_plain(h2, '\n');
    lemma_split_plain(h3, '\n');
    lemma_split_plain(none, '\n');
    lemma_split_joined(entries, '\n');
}

/// A saved blocklist loads back: the domains that the file for `entries`
/// holds are `entries`, provided each of them is persistable and the stamp
/// holds no line break.
pub proof fn lemma_saved_file_loads_back(entries: Seq<Seq<char>>, stamp: Seq<char>)
    requires
        all_persistable(entries),
        no_line_break(stamp),
    ensures
        listed_domains(saved_file(entries, stamp)) == entries.to_set(),
{
    reveal_strlit("# Tracker list for DeTrack Proxy");
    reveal_strlit("# Updated: ");
    reveal_strlit("# Format: One domain per line");
    lemma_saved_file_lines(entries, stamp);
    let lines = split_on(saved_file(entries, stamp), '\n');
    let listed = listed_domains(saved_file(entries, stamp));
    let n = entries.len() as int;
    lemma_comment_line(lines[0]);
    lemma_comment_line(lines[1]);
    lemma_comment_line(lines[2]);
    lemma_comment_line(Seq::<char>::empty());
    assert forall|d: Seq<char>| listed.contains(d) implies entries.to_set().contains(d) by {
        let i = choose|i: int|
            0 <= i < lines.len() && i < lines.len() && is_entry_line(lines[i]) && d == normalized(
                lines[i],
            );
        assert(3 <= i < 3 + n && lines[i] == entries[i - 3]);
    }
    assert forall|d: Seq<char>| entries.to_set().contains(d) implies listed.contains(d) by {
        let j = choose|j: int| 0 <= j < entries.len() && entries[j] == d;
        assert(lines[j + 3] == d);
    }
}

/// A persistable domain that was saved is among the domains that load back,
/// whatever else the list holds, provided nothing in the file breaks a line.
pub proof fn lemma_saved_entry_loads_back(entries: Seq<Seq<char>>, stamp: Seq<char>, j: int)
    requires
        0 <= j < entries.len(),
        persistable(entries[j]),
        forall|i: int| 0 <= i < entries.len() ==> no_line_break(#[trigger] entries[i]),
        no_line_break(stamp),
    ensures
        listed_domains(saved_file(entries, stamp)).contains(entries[j]),
{
    assert forall|i: int, k: int|
        0 <= i < entries.len() && 0 <= k < entries[i].len() implies entries[i][k] != '\n' by {
        assert(no_line_break(entries[i]));
    }
    lemma_saved_file_lines(entries, stamp);
    let lines = split_on(saved_file(entries, stamp), '\n');
    assert(lines[j + 3] == entries[j]);
    assert(is_entry_line(lines[j + 3]) && entries[j] == normalized(lines[j + 3]));
}

/// Every parameter that is kept has a name outside the vocabulary, so
/// keeping again keeps all.
pub proof fn lemma_kept_pairs_idempotent(
    vocabulary: Seq<Seq<char>>,
    pairs: Seq<(Seq<char>, Seq<char>)>,
)
    ensures
        kept_pairs(vocabulary, kept_pairs(vocabulary, pairs)) == kept_pairs(vocabulary, pairs),
        forall|i: int|
            0 <= i < kept_pairs(vocabulary, pairs).len() ==> !vocabulary.contains(
                lowercase(#[trigger] kept_pairs(vocabulary, pairs)[i].0),
            ),
    decreases pairs.len(),
{
    if pairs.len() > 0 {
        let rest = kept_pairs(vocabulary, pairs.drop_last());
        lemma_kept_pairs_idempotent(vocabulary, pairs.drop_last());
        if !vocabulary.contains(lowercase(pairs.last().0)) {
            let kept = rest.push(pairs.last());
            assert(kept.drop_last() =~= rest);
        }
    }
}

/// Cleaning a URL twice gives what cleaning once gives.
pub proof fn lemma_clean_url_idempotent(vocabulary: Seq<Seq<char>>, url: Seq<char>)
    ensures
        cleaned(vocabulary, cleaned(vocabulary, url)) == cleaned(vocabulary, url),
        cleaned(vocabulary, url) != url ==> url_query_pairs(cleaned(vocabulary, url)) == Some(
            kept_pairs(vocabulary, url_query_pairs(url).unwrap()),
        ),
{
    if cleaned(vocabulary, url) != url {
        lemma_kept_pairs_idempotent(vocabulary, url_query_pairs(url).unwrap());
    }
}

/// Adding a domain a second time changes nothing, and removing one that is
/// not listed changes nothing.
pub proof fn lemma_add_remove_idempotent(domains: Set<Seq<char>>, domain: Seq<char>)
    ensures
        domains.insert(normalized(domain)).insert(normalized(domain)) == domains.insert(
            normalized(domain),
        ),
        !domains.contains(normalized(domain)) ==> domains.remove(normalized(domain)) == domains,
        domains.remove(normalized(domain)).remove(normalized(domain)) == domains.remove(
            normalized(domain),
        ),
{
}

} // verus!
