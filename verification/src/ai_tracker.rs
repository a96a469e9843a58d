//! The heuristic classifier: features of a request, a weighted confidence
//! score, a cache of verdicts, and correction by feedback.
//!
//! Weights, threshold and confidence are whole thousandths: 650 stands for
//! 0.65. The entropy of a host is given in thousandths of a bit.

use crate::text::{
    char_is_numeric, chars_of, contains, ends_with, has_substring, has_suffix, is_numeric,
    lemma_without_contains, lemma_without_distinct, list_contains, list_remove, lowercase, rows,
    split, split_on, texts, to_lowercase, without,
};
use crate::url_parts::{pair_views, parse_url, url_host, url_path, url_query_pairs, UrlParts};
use vstd::prelude::*;

verus! {

/// The weight of each feature, in thousandths.
#[derive(Clone, Copy, Debug, PartialEq, Eq, Structural)]
pub struct FeatureWeights {
    pub tracking_param_weight: u32,
    pub suspicious_path_weight: u32,
    pub numeric_id_weight: u32,
    pub domain_entropy_weight: u32,
    pub third_party_weight: u32,
    pub suspicious_keywords_weight: u32,
    pub path_depth_weight: u32,
    pub query_count_weight: u32,
}

/// The weights that a new classifier has.
pub open spec fn default_weights() -> FeatureWeights {
    FeatureWeights {
        tracking_param_weight: 700,
        suspicious_path_weight: 500,
        numeric_id_weight: 300,
        domain_entropy_weight: 400,
        third_party_weight: 600,
        suspicious_keywords_weight: 800,
        path_depth_weight: 200,
        query_count_weight: 300,
    }
}

impl Default for FeatureWeights {
    fn default() -> (weights: Self)
        ensures
            weights == default_weights(),
    {
        FeatureWeights {
            tracking_param_weight: 700,
            suspicious_path_weight: 500,
            numeric_id_weight: 300,
            domain_entropy_weight: 400,
            third_party_weight: 600,
            suspicious_keywords_weight: 800,
            path_depth_weight: 200,
            query_count_weight: 300,
        }
    }
}

/// What the classifier derives from one request.
#[derive(Clone, Copy, Debug, PartialEq, Eq, Structural)]
pub struct RequestFeatures {
    pub has_tracking_params: bool,
    pub has_suspicious_path: bool,
    pub has_numeric_id: bool,
    /// Shannon entropy of the host, in thousandths of a bit.
    pub domain_entropy: u32,
    pub is_third_party: bool,
    pub has_suspicious_keywords: bool,
    pub path_depth: usize,
    pub query_param_count: usize,
}

/// The content of `RequestFeatures`, with its two counts as natural numbers.
pub struct FeatureModel {
    pub has_tracking_params: bool,
    pub has_suspicious_path: bool,
    pub has_numeric_id: bool,
    pub domain_entropy: u32,
    pub is_third_party: bool,
    pub has_suspicious_keywords: bool,
    pub path_depth: nat,
    pub query_param_count: nat,
}

impl View for RequestFeatures {
    type V = FeatureModel;

    open spec fn view(&self) -> FeatureModel {
        FeatureModel {
            has_tracking_params: self.has_tracking_params,
            has_suspicious_path: self.has_suspicious_path,
            has_numeric_id: self.has_numeric_id,
            domain_entropy: self.domain_entropy,
            is_third_party: self.is_third_party,
            has_suspicious_keywords: self.has_suspicious_keywords,
            path_depth: self.path_depth as nat,
            query_param_count: self.query_param_count as nat,
        }
    }
}

/// The features of a request whose URL cannot be parsed.
pub open spec fn no_features() -> FeatureModel {
    FeatureModel {
        has_tracking_params: false,
        has_suspicious_path: false,
        has_numeric_id: false,
        domain_entropy: 0,
        is_third_party: false,
        has_suspicious_keywords: false,
        path_depth: 0,
        query_param_count: 0,
    }
}

/// The texts that mark the name of a tracking parameter.
pub open spec fn tracking_marks() -> Seq<Seq<char>> {
    seq!["utm_"@, "fbclid"@, "gclid"@, "msclkid"@, "dclid"@, "twclid"@, "_ga"@, "ref"@]
}

/// The texts that mark the path of a tracking endpoint.
pub open spec fn suspicious_paths() -> Seq<Seq<char>> {
    seq!["/pixel"@, "/track"@, "/collect"@, "/beacon"@, "/1x1.gif"@, "/1x1.png"@, "/impression"@]
}

/// The words that mark the URL of a tracker.
pub open spec fn suspicious_keywords() -> Seq<Seq<char>> {
    seq![
        "analytics"@,
        "tracker"@,
        "pixel"@,
        "stat"@,
        "metrics"@,
        "telemetry"@,
        "beacon"@,
        "counter"@,
    ]
}

/// Some text of `marks` stands in `text`.
pub open spec fn contains_any(text: Seq<char>, marks: Seq<Seq<char>>) -> bool {
    exists|i: int| 0 <= i < marks.len() && contains(text, marks[i])
}

/// Some parameter has a lower-case name in which a tracking mark stands.
pub open spec fn has_tracking_params(pairs: Seq<(Seq<char>, Seq<char>)>) -> bool {
    exists|k: int| 0 <= k < pairs.len() && contains_any(lowercase(pairs[k].0), tracking_marks())
}

/// How many of `segments` are not empty.
pub open spec fn nonempty_count(segments: Seq<Seq<char>>) -> nat
    decreases segments.len(),
{
    if segments.len() == 0 {
        0
    } else {
        nonempty_count(segments.drop_last()) + if segments.last().len() > 0 {
            1nat
        } else {
            0
        }
    }
}

/// `segment` is longer than five characters, all of them numeric.
pub open spec fn is_numeric_id(segment: Seq<char>) -> bool {
    segment.len() > 5 && forall|i: int| 0 <= i < segment.len() ==> is_numeric(segment[i])
}

/// Some segment of `path` is a numeric identifier.
pub open spec fn has_numeric_id(path: Seq<char>) -> bool {
    exists|i: int|
        0 <= i < split_on(path, '/').len() && is_numeric_id(#[trigger] split_on(path, '/')[i])
}

/// A request to `host` is third-party: its referrer is a URL without a
/// host, or a URL whose host neither ends with `host` nor `host` with it. A
/// request without a referrer, or with one that is no URL, is not: what
/// cannot be told counts as same-party.
pub open spec fn is_third_party(host: Seq<char>, referer: Option<Seq<char>>) -> bool {
    match referer {
        None => false,
        Some(r) => url_path(r) is Some && match url_host(r) {
            None => true,
            Some(referer_host) => !ends_with(host, referer_host) && !ends_with(referer_host, host),
        },
    }
}

/// The features of a request whose URL has the path `path` and the query
/// parameters `pairs`.
pub open spec fn features_from(
    path: Seq<char>,
    pairs: Seq<(Seq<char>, Seq<char>)>,
    url: Seq<char>,
    host: Seq<char>,
    referer: Option<Seq<char>>,
    host_entropy: u32,
) -> FeatureModel {
    FeatureModel {
        has_tracking_params: has_tracking_params(pairs),
        has_suspicious_path: contains_any(path, suspicious_paths()),
        has_numeric_id: has_numeric_id(path),
        domain_entropy: host_entropy,
        is_third_party: is_third_party(host, referer),
        has_suspicious_keywords: contains_any(lowercase(url), suspicious_keywords()),
        path_depth: nonempty_count(split_on(path, '/')),
        query_param_count: pairs.len(),
    }
}

/// The features of a request; none where the URL cannot be parsed.
pub open spec fn features_of(
    url: Seq<char>,
    host: Seq<char>,
    referer: Option<Seq<char>>,
    host_entropy: u32,
) -> FeatureModel {
    match (url_path(url), url_query_pairs(url)) {
        (Some(path), Some(pairs)) => features_from(path, pairs, url, host, referer, host_entropy),
        _ => no_features(),
    }
}

/// A confidence of one, and the largest threshold: 1000 thousandths.
pub const FULL_CONFIDENCE: u32 = 1000;

/// The entropy, in thousandths of a bit, from which on a host earns the
/// whole weight of its entropy: 4.5 bits.
pub const ENTROPY_CAP: u64 = 4500;

/// The number of path segments from which on a path earns the whole weight
/// of its depth.
pub const DEPTH_CAP: u64 = 10;

/// The number of query parameters from which on a query earns the whole
/// weight of its length.
pub const QUERY_CAP: u64 = 20;

/// What the weighted sum is divided by to give the confidence. The value
/// was found by trial; it is not the number of features.
pub const SCORE_DIVISOR: u64 = 3;

/// The part of `weight` that `amount` earns: all of it from `cap` on, and in
/// proportion below, rounded down.
pub open spec fn share(amount: int, cap: int, weight: int) -> int {
    (if amount > cap {
        cap
    } else {
        amount
    }) * weight / cap
}

/// `weight` where `present`, else nothing.
pub open spec fn flag(present: bool, weight: u32) -> int {
    if present {
        weight as int
    } else {
        0
    }
}

/// The weighted sum of the features, in thousandths.
pub open spec fn raw_score(f: FeatureModel, w: FeatureWeights) -> int {
    flag(f.has_tracking_params, w.tracking_param_weight) + flag(
        f.has_suspicious_path,
        w.suspicious_path_weight,
    ) + flag(f.has_numeric_id, w.numeric_id_weight) + share(
        f.domain_entropy as int,
        ENTROPY_CAP as int,
        w.domain_entropy_weight as int,
    ) + flag(f.is_third_party, w.third_party_weight) + flag(
        f.has_suspicious_keywords,
        w.suspicious_keywords_weight,
    ) + share(f.path_depth as int, DEPTH_CAP as int, w.path_depth_weight as int) + share(
        f.query_param_count as int,
        QUERY_CAP as int,
        w.query_count_weight as int,
    )
}

/// The confidence that a request with the features `f` goes to a tracker:
/// the weighted sum divided by `SCORE_DIVISOR`, rounded down, and one at
/// most.
pub open spec fn confidence(f: FeatureModel, w: FeatureWeights) -> int {
    if raw_score(f, w) / (SCORE_DIVISOR as int) > FULL_CONFIDENCE {
        FULL_CONFIDENCE as int
    } else {
        raw_score(f, w) / (SCORE_DIVISOR as int)
    }
}

/// The part of `weight` that `amount` earns.
fn share_of(amount: u64, cap: u64, weight: u32) -> (part: u64)
    requires
        0 < cap <= ENTROPY_CAP,
    ensures
        part == share(amount as int, cap as int, weight as int),
        part <= weight,
{
    let capped: u64 = if amount > cap {
        cap
    } else {
        amount
    };
    assert(capped * weight <= 4500 * 0xffff_ffff) by (nonlinear_arith)
        requires
            capped <= 4500,
            weight <= 0xffff_ffff,
    ;
    assert((capped * weight) / (cap as int) <= weight) by (nonlinear_arith)
        requires
            0 <= capped <= cap,
            0 < cap,
            0 <= weight,
    ;
    capped * (weight as u64) / cap
}

/// `weight` where `present`, else nothing.
fn flag_of(present: bool, weight: u32) -> (part: u64)
    ensures
        part == flag(present, weight),
{
    if present {
        weight as u64
    } else {
        0
    }
}

/// The confidence, in thousandths, that a request with the features `f`
/// goes to a tracker, under the weights `w`.
pub fn calculate_confidence(f: &RequestFeatures, w: &FeatureWeights) -> (score: u32)
    ensures
        score == confidence(f@, *w),
        score <= FULL_CONFIDENCE,
{
    let depth: u64 = if f.path_depth as u64 > DEPTH_CAP {
        DEPTH_CAP
    } else {
        f.path_depth as u64
    };
    let count: u64 = if f.query_param_count as u64 > QUERY_CAP {
        QUERY_CAP
    } else {
        f.query_param_count as u64
    };
    let entropy_part = share_of(f.domain_entropy as u64, ENTROPY_CAP, w.domain_entropy_weight);
    let depth_part = share_of(depth, DEPTH_CAP, w.path_depth_weight);
    let count_part = share_of(count, QUERY_CAP, w.query_count_weight);
    let raw: u64 = flag_of(f.has_tracking_params, w.tracking_param_weight) + flag_of(
        f.has_suspicious_path,
        w.suspicious_path_weight,
    ) + flag_of(f.has_numeric_id, w.numeric_id_weight) + entropy_part + flag_of(
        f.is_third_party,
        w.third_party_weight,
    ) + flag_of(f.has_suspicious_keywords, w.suspicious_keywords_weight) + depth_part
        + count_part;
    let scaled = raw / SCORE_DIVISOR;
    if scaled > FULL_CONFIDENCE as u64 {
        FULL_CONFIDENCE
    } else {
        scaled as u32
    }
}

/// The list of texts `names`.
fn marks_of(names: &[&str]) -> (marks: Vec<Vec<char>>)
    ensures
        marks.len() == names.len(),
        forall|i: int| 0 <= i < names.len() ==> (#[trigger] marks@[i])@ == names@[i]@,
{
    let mut marks: Vec<Vec<char>> = Vec::new();
    let mut i: usize = 0;
    while i < names.len()
        invariant
            i <= names.len(),
            marks.len() == i,
            forall|k: int| 0 <= k < i ==> (#[trigger] marks@[k])@ == names@[k]@,
        decreases names.len() - i,
    {
        marks.push(chars_of(names[i]));
        i += 1;
    }
    marks
}

/// Whether some text of `marks` stands in `text`.
pub fn has_any(text: &Vec<char>, marks: &Vec<Vec<char>>) -> (found: bool)
    ensures
        found == contains_any(text@, rows(marks@)),
{
    let mut i: usize = 0;
    while i < marks.len()
        invariant
            i <= marks.len(),
            forall|k: int| 0 <= k < i ==> !contains(text@, rows(marks@)[k]),
        decreases marks.len() - i,
    {
        if has_substring(text, &marks[i]) {
            assert(contains(text@, rows(marks@)[i as int]));
            return true;
        }
        i += 1;
    }
    false
}

/// Whether `segment` is longer than five characters, all of them numeric.
pub fn segment_is_numeric_id(segment: &Vec<char>) -> (r: bool)
    ensures
        r == is_numeric_id(segment@),
{
    if segment.len() <= 5 {
        return false;
    }
    let mut i: usize = 0;
    while i < segment.len()
        invariant
            i <= segment.len(),
            segment.len() > 5,
            forall|k: int| 0 <= k < i ==> is_numeric(segment@[k]),
        decreases segment.len() - i,
    {
        if !char_is_numeric(segment[i]) {
            return false;
        }
        i += 1;
    }
    true
}

/// The features of a request whose URL was parsed into `parts`.
/// `referer_host` is `None` for a request without a referrer that is a URL,
/// and holds the referrer's host, if it has one, for the others.
pub fn features_from_parts(
    parts: &UrlParts,
    url: &str,
    host: &str,
    referer_host: Option<Option<&str>>,
    host_entropy: u32,
) -> (f: RequestFeatures)
    ensures
        f.has_tracking_params == has_tracking_params(pair_views(parts.query_pairs@)),
        f.has_suspicious_path == contains_any(parts.path@, suspicious_paths()),
        f.has_numeric_id == has_numeric_id(parts.path@),
        f.domain_entropy == host_entropy,
        f.is_third_party == match referer_host {
            None => false,
            Some(None) => true,
            Some(Some(rh)) => !ends_with(host@, rh@) && !ends_with(rh@, host@),
        },
        f.has_suspicious_keywords == contains_any(lowercase(url@), suspicious_keywords()),
        f.path_depth == nonempty_count(split_on(parts.path@, '/')),
        f.query_param_count == parts.query_pairs@.len(),
{
    let marks = marks_of(&["utm_", "fbclid", "gclid", "msclkid", "dclid", "twclid", "_ga", "ref"]);
    let pairs = &parts.query_pairs;
    let mut has_tracking = false;
    let mut k: usize = 0;
    while k < pairs.len() && !has_tracking
        invariant
            k <= pairs.len(),
            rows(marks@) == tracking_marks(),
            has_tracking ==> has_tracking_params(pair_views(pairs@)),
            !has_tracking ==> forall|j: int|
                0 <= j < k ==> !contains_any(lowercase(pair_views(pairs@)[j].0), tracking_marks()),
        decreases pairs.len() - k + if has_tracking { 0int } else { 1 },
    {
        let key = to_lowercase(pairs[k].0.as_str());
        let key_chars = chars_of(key.as_str());
        if has_any(&key_chars, &marks) {
            assert(contains_any(lowercase(pair_views(pairs@)[k as int].0), tracking_marks()));
            has_tracking = true;
        } else {
            k += 1;
        }
    }
    let path = chars_of(parts.path.as_str());
    let segments = split(&path, '/');
    let mut depth: usize = 0;
    let mut numeric = false;
    let mut i: usize = 0;
    while i < segments.len()
        invariant
            i <= segments.len(),
            rows(segments@) == split_on(parts.path@, '/'),
            depth == nonempty_count(rows(segments@).take(i as int)),
            depth <= i,
            numeric == exists|j: int| 0 <= j < i && is_numeric_id(#[trigger] rows(segments@)[j]),
        decreases segments.len() - i,
    {
        proof {
            let next = rows(segments@).take(i + 1);
            assert(next.drop_last() =~= rows(segments@).take(i as int));
            assert(next.last() == segments@[i as int]@);
        }
        if segments[i].len() > 0 {
            depth += 1;
        }
        if segment_is_numeric_id(&segments[i]) {
            numeric = true;
        }
        i += 1;
    }
    assert(rows(segments@).take(segments.len() as int) =~= rows(segments@));
    let paths = marks_of(
        &["/pixel", "/track", "/collect", "/beacon", "/1x1.gif", "/1x1.png", "/impression"],
    );
    assert(rows(paths@) =~= suspicious_paths());
    let suspicious_path = has_any(&path, &paths);
    let third_party = match referer_host {
        None => false,
        Some(None) => true,
        Some(Some(rh)) => {
            let h = chars_of(host);
            let r = chars_of(rh);
            !has_suffix(&h, &r) && !has_suffix(&r, &h)
        },
    };
    let words = marks_of(
        &["analytics", "tracker", "pixel", "stat", "metrics", "telemetry", "beacon", "counter"],
    );
    assert(rows(words@) =~= suspicious_keywords());
    let url_lower = to_lowercase(url);
    let url_chars = chars_of(url_lower.as_str());
    let keywords = has_any(&url_chars, &words);
    RequestFeatures {
        has_tracking_params: has_tracking,
        has_suspicious_path: suspicious_path,
        has_numeric_id: numeric,
        domain_entropy: host_entropy,
        is_third_party: third_party,
        has_suspicious_keywords: keywords,
        path_depth: depth,
        query_param_count: pairs.len(),
    }
}

/// The features of a request for `url` on `host`, sent with the referrer
/// `referer`, where the entropy of the host is `host_entropy` thousandths of
/// a bit. A URL that cannot be parsed has no features.
pub fn extract_features(url: &str, host: &str, referer: Option<&str>, host_entropy: u32) -> (f:
    RequestFeatures)
    ensures
        f@ == features_of(url@, host@, crate::url_parts::str_view(referer), host_entropy),
{
    match parse_url(url) {
        None => RequestFeatures {
            has_tracking_params: false,
            has_suspicious_path: false,
            has_numeric_id: false,
            domain_entropy: 0,
            is_third_party: false,
            has_suspicious_keywords: false,
            path_depth: 0,
            query_param_count: 0,
        },
        Some(parts) => {
            match referer {
                None => features_from_parts(&parts, url, host, None, host_entropy),
                Some(r) => match parse_url(r) {
                    None => features_from_parts(&parts, url, host, None, host_entropy),
                    Some(referer_parts) => match &referer_parts.host {
                        None => features_from_parts(&parts, url, host, Some(None), host_entropy),
                        Some(rh) => features_from_parts(
                            &parts,
                            url,
                            host,
                            Some(Some(rh.as_str())),
                            host_entropy,
                        ),
                    },
                },
            }
        },
    }
}

/// What a classifier holds.
pub struct TrackerModel {
    pub enabled: bool,
    /// The least confidence that makes a tracker, in thousandths.
    pub threshold: u32,
    pub weights: FeatureWeights,
    /// The hosts that feedback declared trackers.
    pub known_trackers: Seq<Seq<char>>,
    /// The hosts that feedback declared legitimate.
    pub known_legitimate: Seq<Seq<char>>,
    /// The verdict given for each URL that was classified.
    pub cache: Map<Seq<char>, bool>,
    pub detections: nat,
    pub false_positives: nat,
    pub false_negatives: nat,
}

impl TrackerModel {
    /// The threshold is a share of one, no host is listed twice, and none is
    /// both a known tracker and known to be legitimate.
    pub open spec fn valid(self) -> bool {
        &&& self.threshold <= FULL_CONFIDENCE
        &&& self.known_trackers.no_duplicates()
        &&& self.known_legitimate.no_duplicates()
        &&& forall|h: Seq<char>|
            !(self.known_trackers.contains(h) && self.known_legitimate.contains(h))
    }

    /// The classifier after the verdict `verdict` for `url` was cached; a
    /// tracker counts as a detection.
    pub open spec fn with_verdict(self, url: Seq<char>, verdict: bool) -> TrackerModel {
        TrackerModel {
            cache: self.cache.insert(url, verdict),
            detections: if verdict {
                self.detections + 1
            } else {
                self.detections
            },
            ..self
        }
    }

    /// A request for `url` can add to the detections: the classifier is on
    /// and has no verdict for `url` yet.
    pub open spec fn may_count(self, url: Seq<char>) -> bool {
        self.enabled && !self.cache.dom().contains(url)
    }

    /// What is decided without looking at the request's features: `false`
    /// while the classifier is off, the cached verdict of a URL that was
    /// classified before, `true` for a known tracker and `false` for a host
    /// known to be legitimate. `None` where the features decide.
    pub open spec fn settled(self, url: Seq<char>, host: Seq<char>) -> Option<bool> {
        if !self.enabled {
            Some(false)
        } else if self.cache.dom().contains(url) {
            Some(self.cache[url])
        } else if self.known_trackers.contains(host) {
            Some(true)
        } else if self.known_legitimate.contains(host) {
            Some(false)
        } else {
            None
        }
    }

    /// The verdict for a request with the features `f`.
    pub open spec fn verdict(self, url: Seq<char>, host: Seq<char>, f: FeatureModel) -> bool {
        match self.settled(url, host) {
            Some(v) => v,
            None => confidence(f, self.weights) >= self.threshold,
        }
    }

    /// The classifier after a request with the features `f`: a verdict that
    /// was not cached is cached, and counted if it makes a tracker.
    pub open spec fn classified(
        self,
        url: Seq<char>,
        host: Seq<char>,
        f: FeatureModel,
    ) -> TrackerModel {
        if !self.enabled || self.cache.dom().contains(url) {
            self
        } else {
            self.with_verdict(url, self.verdict(url, host, f))
        }
    }

    /// The classifier after `domain` was reported as wrongly flagged.
    pub open spec fn after_false_positive(self, domain: Seq<char>) -> TrackerModel {
        TrackerModel {
            false_positives: self.false_positives + 1,
            known_legitimate: if self.known_legitimate.contains(domain) {
                self.known_legitimate
            } else {
                self.known_legitimate.push(domain)
            },
            known_trackers: without(self.known_trackers, domain),
            cache: self.cache.remove(domain),
            ..self
        }
    }

    /// The classifier after `domain` was reported as wrongly passed.
    pub open spec fn after_false_negative(self, domain: Seq<char>) -> TrackerModel {
        TrackerModel {
            false_negatives: self.false_negatives + 1,
            known_trackers: if self.known_trackers.contains(domain) {
                self.known_trackers
            } else {
                self.known_trackers.push(domain)
            },
            known_legitimate: without(self.known_legitimate, domain),
            cache: self.cache.remove(domain),
            ..self
        }
    }
}

/// The map that the cache entries `entries` make.
pub open spec fn cache_of(entries: Seq<(String, bool)>) -> Map<Seq<char>, bool>
    decreases entries.len(),
{
    if entries.len() == 0 {
        Map::empty()
    } else {
        cache_of(entries.drop_last()).insert(entries.last().0@, entries.last().1)
    }
}

/// No URL has two cache entries.
pub open spec fn keys_distinct(entries: Seq<(String, bool)>) -> bool {
    forall|i: int, j: int| 0 <= i < j < entries.len() ==> entries[i].0@ != entries[j].0@
}

/// Each entry is in the map.
proof fn lemma_cache_entry(entries: Seq<(String, bool)>, i: int)
    requires
        keys_distinct(entries),
        0 <= i < entries.len(),
    ensures
        cache_of(entries).dom().contains(entries[i].0@),
        cache_of(entries)[entries[i].0@] == entries[i].1,
    decreases entries.len(),
{
    if i < entries.len() - 1 {
        lemma_cache_entry(entries.drop_last(), i);
    }
}

/// A key of the map is the key of an entry.
proof fn lemma_cache_key(entries: Seq<(String, bool)>, key: Seq<char>)
    requires
        cache_of(entries).dom().contains(key),
    ensures
        exists|i: int| 0 <= i < entries.len() && entries[i].0@ == key,
    decreases entries.len(),
{
    if entries.len() > 0 && entries.last().0@ != key {
        let rest = entries.drop_last();
        lemma_cache_key(rest, key);
        let i = choose|i: int| 0 <= i < rest.len() && rest[i].0@ == key;
        assert(entries[i].0@ == key);
    }
}

/// Taking an entry out takes its key out of the map.
proof fn lemma_cache_remove(entries: Seq<(String, bool)>, p: int)
    requires
        keys_distinct(entries),
        0 <= p < entries.len(),
    ensures
        cache_of(entries.remove(p)) == cache_of(entries).remove(entries[p].0@),
        keys_distinct(entries.remove(p)),
    decreases entries.len(),
{
    let rest = entries.drop_last();
    if p == entries.len() - 1 {
        if cache_of(rest).dom().contains(entries[p].0@) {
            lemma_cache_key(rest, entries[p].0@);
            let i = choose|i: int| 0 <= i < rest.len() && rest[i].0@ == entries[p].0@;
            assert(entries[i].0@ == entries[p].0@);
        }
    } else {
        lemma_cache_remove(rest, p);
        assert(entries.remove(p).drop_last() =~= rest.remove(p));
    }
}

/// The heuristic classifier.
///
/// The cache is a map from URLs to verdicts, held as a vector with one
/// entry for each URL: vstd gives the hash collections a model only for keys
/// whose hashing it specifies, and text is not among them.
#[derive(Clone, Debug)]
pub struct AITracker {
    enabled: bool,
    confidence_threshold: u32,
    feature_weights: FeatureWeights,
    known_trackers: Vec<String>,
    known_legitimate: Vec<String>,
    decision_cache: Vec<(String, bool)>,
    detection_count: usize,
    false_positive_count: usize,
    false_negative_count: usize,
}

impl View for AITracker {
    type V = TrackerModel;

    closed spec fn view(&self) -> TrackerModel {
        TrackerModel {
            enabled: self.enabled,
            threshold: self.confidence_threshold,
            weights: self.feature_weights,
            known_trackers: texts(self.known_trackers@),
            known_legitimate: texts(self.known_legitimate@),
            cache: cache_of(self.decision_cache@),
            detections: self.detection_count as nat,
            false_positives: self.false_positive_count as nat,
            false_negatives: self.false_negative_count as nat,
        }
    }
}

impl AITracker {
    /// The cache holds one entry for each URL.
    pub closed spec fn inv(&self) -> bool {
        keys_distinct(self.decision_cache@)
    }

    /// The classifier is consistent: see `TrackerModel::valid`.
    pub open spec fn wf(&self) -> bool {
        self.inv() && self@.valid()
    }

    /// What a new classifier holds: it is on, with the threshold 0.65, the
    /// default weights, and nothing learned, cached or counted.
    pub open spec fn new_model() -> TrackerModel {
        TrackerModel {
            enabled: true,
            threshold: 650,
            weights: default_weights(),
            known_trackers: Seq::empty(),
            known_legitimate: Seq::empty(),
            cache: Map::empty(),
            detections: 0,
            false_positives: 0,
            false_negatives: 0,
        }
    }

    /// A new classifier.
    pub fn new() -> (tracker: Self)
        ensures
            tracker.wf(),
            tracker@ == Self::new_model(),
    {
        let tracker = AITracker {
            enabled: true,
            confidence_threshold: 650,
            feature_weights: FeatureWeights::default(),
            known_trackers: Vec::new(),
            known_legitimate: Vec::new(),
            decision_cache: Vec::new(),
            detection_count: 0,
            false_positive_count: 0,
            false_negative_count: 0,
        };
        assert(tracker@.known_trackers =~= Seq::empty());
        tracker
    }

    /// Turns the classifier on.
    pub fn enable(&mut self)
        ensures
            final(self)@ == (TrackerModel { enabled: true, ..old(self)@ }),
            old(self).wf() ==> final(self).wf(),
    {
        self.enabled = true;
    }

    /// Turns the classifier off.
    pub fn disable(&mut self)
        ensures
            final(self)@ == (TrackerModel { enabled: false, ..old(self)@ }),
            old(self).wf() ==> final(self).wf(),
    {
        self.enabled = false;
    }

    /// Whether the classifier is on.
    pub fn is_enabled(&self) -> (enabled: bool)
        ensures
            enabled == self@.enabled,
    {
        self.enabled
    }

    /// Sets the threshold, in thousandths; more than one counts as one.
    pub fn set_confidence_threshold(&mut self, threshold: u32)
        ensures
            final(self)@ == (TrackerModel {
                threshold: if threshold > FULL_CONFIDENCE {
                    FULL_CONFIDENCE
                } else {
                    threshold
                },
                ..old(self)@
            }),
            old(self).wf() ==> final(self).wf(),
    {
        self.confidence_threshold = if threshold > FULL_CONFIDENCE {
            FULL_CONFIDENCE
        } else {
            threshold
        };
    }

    /// The threshold, in thousandths.
    pub fn get_confidence_threshold(&self) -> (threshold: u32)
        ensures
            threshold == self@.threshold,
    {
        self.confidence_threshold
    }

    /// The cached verdict for `url`, if there is one.
    fn cached(&self, url: &str) -> (hit: Option<bool>)
        requires
            self.inv(),
        ensures
            hit == if self@.cache.dom().contains(url@) {
                Some(self@.cache[url@])
            } else {
                None
            },
    {
        let wanted = url.to_owned();
        let mut i: usize = 0;
        while i < self.decision_cache.len()
            invariant
                i <= self.decision_cache.len(),
                wanted@ == url@,
                keys_distinct(self.decision_cache@),
                forall|k: int| 0 <= k < i ==> self.decision_cache@[k].0@ != url@,
            decreases self.decision_cache.len() - i,
        {
            if self.decision_cache[i].0 == wanted {
                proof {
                    lemma_cache_entry(self.decision_cache@, i as int);
                }
                return Some(self.decision_cache[i].1);
            }
            i += 1;
        }
        proof {
            if cache_of(self.decision_cache@).dom().contains(url@) {
                lemma_cache_key(self.decision_cache@, url@);
            }
        }
        None
    }

    /// Whether a request for `url` can be classified: it cannot add to the
    /// detections, or their counter is below its limit.
    pub fn can_count(&self, url: &str) -> (ok: bool)
        requires
            self.wf(),
        ensures
            ok == (self@.may_count(url@) ==> self@.detections < usize::MAX),
    {
        self.detection_count < usize::MAX || !self.enabled || self.cached(url).is_some()
    }

    /// Caches `verdict` for `url`, which has no entry yet, and counts a
    /// tracker.
    fn remember(&mut self, url: &str, verdict: bool)
        requires
            old(self).wf(),
            !old(self)@.cache.dom().contains(url@),
            verdict ==> old(self)@.detections < usize::MAX,
        ensures
            final(self).wf(),
            final(self)@ == old(self)@.with_verdict(url@, verdict),
    {
        let ghost entries = self.decision_cache@;
        let key = url.to_owned();
        self.decision_cache.push((key, verdict));
        if verdict {
            self.detection_count += 1;
        }
        proof {
            let now = self.decision_cache@;
            assert(now.drop_last() =~= entries);
            assert forall|i: int, j: int| 0 <= i < j < now.len() implies now[i].0@
                != now[j].0@ by {
                if j == now.len() - 1 {
                    lemma_cache_entry(entries, i);
                }
            }
        }
    }

    /// What is decided without looking at the request's features, if
    /// anything; a verdict from the lists of known hosts is cached.
    pub fn settle(&mut self, url: &str, host: &str) -> (verdict: Option<bool>)
        requires
            old(self).wf(),
            old(self)@.may_count(url@) ==> old(self)@.detections < usize::MAX,
        ensures
            final(self).wf(),
            verdict == old(self)@.settled(url@, host@),
            final(self)@ == match verdict {
                Some(v) if old(self)@.enabled && !old(self)@.cache.dom().contains(url@) => old(
                    self,
                )@.with_verdict(url@, v),
                _ => old(self)@,
            },
    {
        if !self.enabled {
            return Some(false);
        }
        match self.cached(url) {
            Some(v) => {
                return Some(v);
            },
            None => {},
        }
        if list_contains(&self.known_trackers, host) {
            self.remember(url, true);
            return Some(true);
        }
        if list_contains(&self.known_legitimate, host) {
            self.remember(url, false);
            return Some(false);
        }
        None
    }

    /// Gives the verdict for a request with the features `f` that nothing
    /// else settles: a tracker where the confidence reaches the threshold.
    /// The verdict is cached, and a tracker is counted.
    pub fn conclude(&mut self, url: &str, host: &str, f: &RequestFeatures) -> (verdict: bool)
        requires
            old(self).wf(),
            confidence(f@, old(self)@.weights) >= old(self)@.threshold ==> old(self)@.detections
                < usize::MAX,
            old(self)@.settled(url@, host@) is None,
        ensures
            final(self).wf(),
            verdict == (confidence(f@, old(self)@.weights) >= old(self)@.threshold),
            verdict == old(self)@.verdict(url@, host@, f@),
            final(self)@ == old(self)@.classified(url@, host@, f@),
    {
        let score = calculate_confidence(f, &self.feature_weights);
        let verdict = score >= self.confidence_threshold;
        self.remember(url, verdict);
        verdict
    }

    /// Whether a request for `url` on `host` is likely to go to a tracker.
    /// `referer` is the referrer it was sent with, `host_entropy` the
    /// entropy of the host in thousandths of a bit.
    pub fn is_likely_tracker(
        &mut self,
        url: &str,
        host: &str,
        referer: Option<&str>,
        host_entropy: u32,
    ) -> (verdict: bool)
        requires
            old(self).wf(),
            old(self)@.may_count(url@) ==> old(self)@.detections < usize::MAX,
        ensures
            final(self).wf(),
            verdict == old(self)@.verdict(
                url@,
                host@,
                features_of(url@, host@, crate::url_parts::str_view(referer), host_entropy),
            ),
            final(self)@ == old(self)@.classified(
                url@,
                host@,
                features_of(url@, host@, crate::url_parts::str_view(referer), host_entropy),
            ),
    {
        match self.settle(url, host) {
            Some(v) => v,
            None => {
                let f = extract_features(url, host, referer, host_entropy);
                self.conclude(url, host, &f)
            },
        }
    }

    /// Takes the cache entry for `key` out, if there is one.
    fn forget(&mut self, key: &str)
        requires
            old(self).inv(),
        ensures
            final(self).inv(),
            final(self)@ == (TrackerModel { cache: old(self)@.cache.remove(key@), ..old(self)@ }),
    {
        let wanted = key.to_owned();
        let mut i: usize = 0;
        while i < self.decision_cache.len()
            invariant
                i <= self.decision_cache.len(),
                wanted@ == key@,
                *self == *old(self),
                keys_distinct(self.decision_cache@),
                forall|k: int| 0 <= k < i ==> self.decision_cache@[k].0@ != key@,
            decreases self.decision_cache.len() - i,
        {
            if self.decision_cache[i].0 == wanted {
                proof {
                    lemma_cache_remove(self.decision_cache@, i as int);
                }
                self.decision_cache.remove(i);
                return ;
            }
            i += 1;
        }
        proof {
            if cache_of(self.decision_cache@).dom().contains(key@) {
                lemma_cache_key(self.decision_cache@, key@);
            }
            assert(self@.cache.remove(key@) =~= self@.cache);
        }
    }

    /// Records that `domain` was flagged wrongly: it becomes known as
    /// legitimate, is no known tracker any more, and a cache entry with
    /// `domain` itself as its URL is dropped.
    pub fn report_false_positive(&mut self, domain: &str)
        requires
            old(self).wf(),
            old(self)@.false_positives < usize::MAX,
        ensures
            final(self).wf(),
            final(self)@ == old(self)@.after_false_positive(domain@),
    {
        self.false_positive_count += 1;
        if !list_contains(&self.known_legitimate, domain) {
            self.known_legitimate.push(domain.to_owned());
            assert(texts(self.known_legitimate@) =~= old(self)@.known_legitimate.push(domain@));
        }
        list_remove(&mut self.known_trackers, domain);
        self.forget(domain);
        proof {
            lemma_feedback_keeps_valid(old(self)@, domain@);
        }
    }

    /// Records that `domain` was passed wrongly: it becomes a known
    /// tracker, is not known as legitimate any more, and a cache entry with
    /// `domain` itself as its URL is dropped.
    pub fn report_false_negative(&mut self, domain: &str)
        requires
            old(self).wf(),
            old(self)@.false_negatives < usize::MAX,
        ensures
            final(self).wf(),
            final(self)@ == old(self)@.after_false_negative(domain@),
    {
        self.false_negative_count += 1;
        if !list_contains(&self.known_trackers, domain) {
            self.known_trackers.push(domain.to_owned());
            assert(texts(self.known_trackers@) =~= old(self)@.known_trackers.push(domain@));
        }
        list_remove(&mut self.known_legitimate, domain);
        self.forget(domain);
        proof {
            lemma_feedback_keeps_valid(old(self)@, domain@);
        }
    }

    /// The numbers of detections, of reported false positives and of
    /// reported false negatives.
    pub fn get_stats(&self) -> (stats: (usize, usize, usize))
        ensures
            stats.0 == self@.detections,
            stats.1 == self@.false_positives,
            stats.2 == self@.false_negatives,
    {
        (self.detection_count, self.false_positive_count, self.false_negative_count)
    }

    /// Sets the three counters to zero; cache and lists stay.
    pub fn reset_stats(&mut self)
        ensures
            final(self)@ == (TrackerModel {
                detections: 0,
                false_positives: 0,
                false_negatives: 0,
                ..old(self)@
            }),
            old(self).wf() ==> final(self).wf(),
    {
        self.detection_count = 0;
        self.false_positive_count = 0;
        self.false_negative_count = 0;
    }

    /// The URLs whose cached verdict is "tracker", each once.
    pub fn get_detected_domains(&self) -> (detected: Vec<String>)
        requires
            self.wf(),
        ensures
            forall|url: Seq<char>|
                texts(detected@).contains(url) <==> self@.cache.dom().contains(url)
                    && self@.cache[url],
            texts(detected@).no_duplicates(),
    {
        let mut detected: Vec<String> = Vec::new();
        let ghost mut source: Seq<int> = Seq::empty();
        let mut i: usize = 0;
        while i < self.decision_cache.len()
            invariant
                i <= self.decision_cache.len(),
                keys_distinct(self.decision_cache@),
                source.len() == detected.len(),
                forall|k: int|
                    0 <= k < source.len() ==> 0 <= #[trigger] source[k] < i
                        && self.decision_cache@[source[k]].1 && detected@[k]@
                        == self.decision_cache@[source[k]].0@,
                forall|a: int, b: int| 0 <= a < b < source.len() ==> source[a] < source[b],
                forall|j: int|
                    0 <= j < i && self.decision_cache@[j].1 ==> exists|k: int|
                        0 <= k < source.len() && #[trigger] source[k] == j,
            decreases self.decision_cache.len() - i,
        {
            if self.decision_cache[i].1 {
                detected.push(self.decision_cache[i].0.clone());
                proof {
                    let ghost prior = source;
                    source = source.push(i as int);
                    assert forall|j: int|
                        0 <= j < i + 1 && self.decision_cache@[j].1 implies exists|k: int|
                        0 <= k < source.len() && #[trigger] source[k] == j by {
                        if j < i {
                            let k = choose|k: int| 0 <= k < prior.len() && #[trigger] prior[k] == j;
                            assert(source[k] == j);
                        } else {
                            assert(source[prior.len() as int] == j);
                        }
                    }
                }
            }
            i += 1;
        }
        proof {
            let entries = self.decision_cache@;
            let found = texts(detected@);
            assert forall|url: Seq<char>| found.contains(url) <==> self@.cache.dom().contains(url)
                && self@.cache[url] by {
                if found.contains(url) {
                    let k = choose|k: int| 0 <= k < found.len() && found[k] == url;
                    lemma_cache_entry(entries, source[k]);
                }
                if self@.cache.dom().contains(url) && self@.cache[url] {
                    lemma_cache_key(entries, url);
                    let j = choose|j: int| 0 <= j < entries.len() && entries[j].0@ == url;
                    lemma_cache_entry(entries, j);
                    let k = choose|k: int| 0 <= k < source.len() && #[trigger] source[k] == j;
                    assert(found[k] == url);
                }
            }
            assert forall|a: int, b: int| 0 <= a < found.len() && 0 <= b < found.len() && a
                != b implies found[a] != found[b] by {
                assert(source[a] != source[b]);
            }
        }
        detected
    }

    /// Empties the cache of verdicts.
    pub fn clear_cache(&mut self)
        ensures
            final(self)@ == (TrackerModel { cache: Map::empty(), ..old(self)@ }),
            old(self).wf() ==> final(self).wf(),
    {
        self.decision_cache.clear();
    }
}

impl Default for AITracker {
    fn default() -> (tracker: Self)
        ensures
            tracker.wf(),
            tracker@ == AITracker::new_model(),
    {
        AITracker::new()
    }
}

/// Feedback keeps a classifier consistent: after either report the host is
/// in exactly one of the two lists.
pub proof fn lemma_feedback_keeps_valid(model: TrackerModel, domain: Seq<char>)
    requires
        model.valid(),
    ensures
        model.after_false_positive(domain).valid(),
        model.after_false_negative(domain).valid(),
        model.after_false_positive(domain).known_legitimate.contains(domain),
        !model.after_false_positive(domain).known_trackers.contains(domain),
        model.after_false_negative(domain).known_trackers.contains(domain),
        !model.after_false_negative(domain).known_legitimate.contains(domain),
{
    lemma_without_distinct(model.known_trackers, domain);
    lemma_without_distinct(model.known_legitimate, domain);
    lemma_without_contains(model.known_trackers, domain, domain);
    lemma_without_contains(model.known_legitimate, domain, domain);
    let fp = model.after_false_positive(domain);
    let fneg = model.after_false_negative(domain);
    if !model.known_legitimate.contains(domain) {
        let pushed = model.known_legitimate.push(domain);
        assert(pushed[pushed.len() - 1] == domain);
    }
    if !model.known_trackers.contains(domain) {
        let pushed = model.known_trackers.push(domain);
        assert(pushed[pushed.len() - 1] == domain);
    }
    assert forall|h: Seq<char>| !(fp.known_trackers.contains(h) && fp.known_legitimate.contains(
        h,
    )) by {
        lemma_without_contains(model.known_trackers, domain, h);
        if fp.known_legitimate.contains(h) && h != domain {
            let k = choose|k: int|
                0 <= k < fp.known_legitimate.len() && fp.known_legitimate[k] == h;
            assert(model.known_legitimate[k] == h);
        }
    }
    assert forall|h: Seq<char>| !(fneg.known_trackers.contains(h)
        && fneg.known_legitimate.contains(h)) by {
        lemma_without_contains(model.known_legitimate, domain, h);
        if fneg.known_trackers.contains(h) && h != domain {
            let k = choose|k: int|
                0 <= k < fneg.known_trackers.len() && fneg.known_trackers[k] == h;
            assert(model.known_trackers[k] == h);
        }
    }
}

/// A URL with a cached verdict gets that verdict, whatever the host and the
/// features of the request, and the classifier stays exactly as it was.
pub proof fn lemma_cached_url_keeps_verdict(
    model: TrackerModel,
    url: Seq<char>,
    host: Seq<char>,
    f: FeatureModel,
)
    requires
        model.enabled,
        model.cache.dom().contains(url),
    ensures
        model.verdict(url, host, f) == model.cache[url],
        model.classified(url, host, f) == model,
{
}

/// What a report of a false positive does: the host is known as legitimate
/// once, is no known tracker, and the counter of false positives is one
/// higher; every other host keeps its place, the other counters stay, and
/// no host is in both lists.
pub proof fn lemma_false_positive_effect(model: TrackerModel, domain: Seq<char>, other: Seq<char>)
    requires
        model.valid(),
    ensures
        model.after_false_positive(domain).valid(),
        model.after_false_positive(domain).known_legitimate.contains(domain),
        !model.after_false_positive(domain).known_trackers.contains(domain),
        model.after_false_positive(domain).false_positives == model.false_positives + 1,
        model.after_false_positive(domain).detections == model.detections,
        model.after_false_positive(domain).false_negatives == model.false_negatives,
        other != domain ==> model.after_false_positive(domain).known_trackers.contains(other)
            == model.known_trackers.contains(other),
        other != domain ==> model.after_false_positive(domain).known_legitimate.contains(other)
            == model.known_legitimate.contains(other),
{
    lemma_feedback_keeps_valid(model, domain);
    lemma_without_contains(model.known_trackers, domain, other);
    let before = model.known_legitimate;
    let after = model.after_false_positive(domain).known_legitimate;
    if other != domain && !before.contains(domain) {
        if before.contains(other) {
            let k = choose|k: int| 0 <= k < before.len() && before[k] == other;
            assert(after[k] == other);
        }
        if after.contains(other) {
            let k = choose|k: int| 0 <= k < after.len() && after[k] == other;
            assert(before[k] == other);
        }
    }
}

/// A second request for the same URL gets the verdict of the first and
/// changes nothing: no detection is counted twice.
pub proof fn lemma_same_url_same_verdict(
    model: TrackerModel,
    url: Seq<char>,
    host: Seq<char>,
    f: FeatureModel,
    other_host: Seq<char>,
    other_f: FeatureModel,
)
    ensures
        model.classified(url, host, f).verdict(url, other_host, other_f) == model.verdict(
            url,
            host,
            f,
        ),
        model.classified(url, host, f).classified(url, other_host, other_f) == model.classified(
            url,
            host,
            f,
        ),
{
}

/// After a host was reported as wrongly flagged, a request to it is no
/// tracker, unless a verdict "tracker" is cached for the request's URL.
pub proof fn lemma_false_positive_passes(
    model: TrackerModel,
    domain: Seq<char>,
    url: Seq<char>,
    f: FeatureModel,
)
    requires
        model.valid(),
        !(model.enabled && model.cache.remove(domain).dom().contains(url) && model.cache[url]),
    ensures
        !model.after_false_positive(domain).verdict(url, domain, f),
{
    lemma_feedback_keeps_valid(model, domain);
}

/// How often `c` occurs in `s`.
pub open spec fn occurrences(s: Seq<char>, c: char) -> nat
    decreases s.len(),
{
    if s.len() == 0 {
        0
    } else {
        occurrences(s.drop_last(), c) + if s.last() == c {
            1nat
        } else {
            0
        }
    }
}

/// The characters of the lower-case form of `text`, each once, in the order
/// of their first occurrence, with the number of its occurrences. The
/// Shannon entropy of `text` is the sum of `-p * log2(p)` over these
/// characters, where `p` is a character's share of all occurrences.
pub fn character_counts(text: &str) -> (counts: Vec<(char, usize)>)
    ensures
        forall|i: int|
            0 <= i < counts.len() ==> (#[trigger] counts[i]).1 > 0 && counts[i].1 == occurrences(
                lowercase(text@),
                counts[i].0,
            ),
        forall|i: int, j: int| 0 <= i < j < counts.len() ==> counts[i].0 != counts[j].0,
        forall|c: char|
            occurrences(lowercase(text@), c) > 0 ==> exists|i: int|
                0 <= i < counts.len() && (#[trigger] counts[i]).0 == c,
{
    let lower = to_lowercase(text);
    let chars = chars_of(lower.as_str());
    let mut counts: Vec<(char, usize)> = Vec::new();
    let mut k: usize = 0;
    while k < chars.len()
        invariant
            k <= chars.len(),
            chars@ == lowercase(text@),
            forall|i: int|
                0 <= i < counts.len() ==> 0 < (#[trigger] counts[i]).1 <= k && counts[i].1
                    == occurrences(chars@.take(k as int), counts[i].0),
            forall|i: int, j: int| 0 <= i < j < counts.len() ==> counts[i].0 != counts[j].0,
            forall|c: char|
                occurrences(chars@.take(k as int), c) > 0 ==> exists|i: int|
                    0 <= i < counts.len() && (#[trigger] counts[i]).0 == c,
        decreases chars.len() - k,
    {
        let c = chars[k];
        let ghost before = counts@;
        let ghost prefix = chars@.take(k as int);
        let ghost next = chars@.take(k + 1);
        proof {
            assert(next.drop_last() =~= prefix);
        }
        let mut j: usize = 0;
        while j < counts.len() && counts[j].0 != c
            invariant
                j <= counts.len(),
                forall|i: int| 0 <= i < j ==> (#[trigger] counts[i]).0 != c,
            decreases counts.len() - j,
        {
            j += 1;
        }
        if j < counts.len() {
            let seen = counts[j].1;
            counts.set(j, (c, seen + 1));
            proof {
                assert forall|x: char| occurrences(next, x) > 0 implies exists|i: int|
                    0 <= i < counts.len() && (#[trigger] counts[i]).0 == x by {
                    if x == c {
                        assert(counts[j as int].0 == x);
                    } else {
                        assert(occurrences(prefix, x) == occurrences(next, x));
                        let i = choose|i: int|
                            0 <= i < before.len() && (#[trigger] before[i]).0 == x;
                        assert(counts[i].0 == x);
                    }
                }
            }
        } else {
            counts.push((c, 1));
            proof {
                assert(occurrences(prefix, c) == 0) by {
                    if occurrences(prefix, c) > 0 {
                        let i = choose|i: int|
                            0 <= i < before.len() && (#[trigger] before[i]).0 == c;
                        assert(before[i].0 != c);
                    }
                }
                assert forall|x: char| occurrences(next, x) > 0 implies exists|i: int|
                    0 <= i < counts.len() && (#[trigger] counts[i]).0 == x by {
                    if x == c {
                        assert(counts[before.len() as int].0 == x);
                    } else {
                        assert(occurrences(prefix, x) == occurrences(next, x));
                        let i = choose|i: int|
                            0 <= i < before.len() && (#[trigger] before[i]).0 == x;
                        assert(counts[i].0 == x);
                    }
                }
            }
        }
        k += 1;
    }
    assert(chars@.take(chars.len() as int) =~= chars@);
    counts
}

} // verus!
