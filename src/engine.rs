use vstd::prelude::*;

verus! {

#[verifier::external_type_specification]
#[verifier::external_body]
pub struct ExRegex(regex::Regex);

#[verifier::external_type_specification]
#[verifier::external_body]
pub struct ExRegexError(regex::Error);

#[verifier::external_type_specification]
#[verifier::external_body]
pub struct ExRegexSet(regex::RegexSet);

/// The characters that `regex::escape` puts a backslash before.
pub open spec fn is_meta_character(c: char) -> bool {
    c == '\\' || c == '.' || c == '+' || c == '*' || c == '?' || c == '(' || c == ')' || c == '|'
        || c == '[' || c == ']' || c == '{' || c == '}' || c == '^' || c == '$' || c == '#'
        || c == '&' || c == '-' || c == '~'
}

/// `text` with a backslash before each meta character: a regex that
/// matches `text` literally.
pub open spec fn escaped(text: Seq<char>) -> Seq<char>
    decreases text.len(),
{
    if text.len() == 0 {
        Seq::empty()
    } else {
        let c = text.last();
        escaped(text.drop_last()) + if is_meta_character(c) {
            seq!['\\', c]
        } else {
            seq![c]
        }
    }
}

/// Whether `regex::Regex::new` accepts the regex source `source`.
pub uninterp spec fn regex_accepts(source: Seq<char>) -> bool;

/// The groups that `regex::Regex::captures` reports, for a regex that
/// `Regex::new` built from `source`, on a haystack: `None` where there is no
/// match, else each group in order, group zero first, `None` for a group
/// that took no part.
pub uninterp spec fn capture_groups(source: Seq<char>, haystack: Seq<char>) -> Option<
    Seq<Option<Seq<char>>>,
>;

/// Whether `regex::RegexSet::new` accepts the regex sources `sources`.
pub uninterp spec fn set_accepts(sources: Seq<Seq<char>>) -> bool;

/// Whether the pattern with regex source `source`, as a member of a set
/// that `regex::RegexSet::new` built, matches `haystack`.
pub uninterp spec fn is_set_match(source: Seq<char>, haystack: Seq<char>) -> bool;

/// Relies on `regex::escape`, which puts a backslash before every meta
/// character of `text` and keeps every other character.
#[verifier::external_body]
pub(crate) fn escape(text: &str) -> (r: String)
    ensures
        r@ == escaped(text@),
{
    regex::escape(text)
}

/// A regex built by `regex::Regex::new`, with default options. Only
/// `new_regex` makes one.
#[derive(Debug)]
pub struct ExactRegex {
    regex: regex::Regex,
    source: String,
}

impl ExactRegex {
    /// The source the regex was built from.
    pub closed spec fn source(&self) -> Seq<char> {
        self.source@
    }
}

/// Relies on `regex::Regex::new`, which succeeds or fails on the source
/// alone.
#[verifier::external_body]
pub(crate) fn new_regex(source: &str) -> (r: Result<ExactRegex, regex::Error>)
    ensures
        r is Ok <==> regex_accepts(source@),
        r matches Ok(re) ==> re.source() == source@,
{
    regex::Regex::new(source).map(|regex| ExactRegex { regex, source: source.to_string() })
}

/// Whether a regex that `regex::Regex::new` built from `source` matches
/// somewhere in `haystack`.
pub uninterp spec fn regex_matches(source: Seq<char>, haystack: Seq<char>) -> bool;

/// Relies on `regex::Regex::is_match`.
#[verifier::external_body]
pub(crate) fn is_match(re: &ExactRegex, haystack: &str) -> (r: bool)
    ensures
        r == regex_matches(re.source(), haystack@),
{
    re.regex.is_match(haystack)
}

/// The view of what `captures` hands back.
pub open spec fn groups_view(r: Option<Vec<Option<String>>>) -> Option<Seq<Option<Seq<char>>>> {
    match r {
        Some(v) => Some(
            v@.map_values(
                |g: Option<String>|
                    match g {
                        Some(s) => Some(s@),
                        None => None,
                    },
            ),
        ),
        None => None,
    }
}

/// Relies on `regex::Regex::captures` and `Captures::iter`: every group of
/// the leftmost match, group zero first.
#[verifier::external_body]
pub(crate) fn captures(re: &ExactRegex, haystack: &str) -> (r: Option<Vec<Option<String>>>)
    ensures
        groups_view(r) == capture_groups(re.source(), haystack@),
{
    re.regex.captures(haystack).map(
        |caps| caps.iter().map(|g| g.map(|m| m.as_str().to_string())).collect(),
    )
}

/// A set built by `regex::RegexSet::new`, with default options. Only
/// `new_regex_set` makes one.
#[derive(Debug)]
pub struct PatternSet {
    set: regex::RegexSet,
    patterns: Vec<String>,
}

impl PatternSet {
    /// The patterns of the set, in order.
    pub closed spec fn patterns(&self) -> Seq<Seq<char>> {
        self.patterns@.map_values(|s: String| s@)
    }
}

/// Relies on `regex::RegexSet::new`, which succeeds or fails on the sources
/// alone; the set holds the given patterns in the given order.
#[verifier::external_body]
pub(crate) fn new_regex_set(sources: &Vec<String>) -> (r: Result<PatternSet, regex::Error>)
    ensures
        r is Ok <==> set_accepts(sources@.map_values(|s: String| s@)),
        r matches Ok(set) ==> set.patterns() == sources@.map_values(|s: String| s@),
{
    regex::RegexSet::new(sources).map(|set| PatternSet { set, patterns: sources.clone() })
}

/// Relies on `regex::RegexSet::matches` and its iteration: the index of
/// every pattern that matches, in ascending order, in one search.
#[verifier::external_body]
pub(crate) fn set_matches(set: &PatternSet, haystack: &str) -> (r: Vec<usize>)
    ensures
        forall|i: int, j: int| 0 <= i < j < r@.len() ==> r@[i] < r@[j],
        forall|j: int| 0 <= j < r@.len() ==> r@[j] < set.patterns().len(),
        forall|k: usize|
            k < set.patterns().len() ==> (#[trigger] r@.contains(k) <==> is_set_match(
                set.patterns()[k as int],
                haystack@,
            )),
{
    set.set.matches(haystack).into_iter().collect()
}

/// What `percent_encoding::percent_decode_str` followed by
/// `PercentDecode::decode_utf8` makes of a raw path: `None` where the
/// decoded bytes are not UTF-8.
pub uninterp spec fn percent_decoded(raw: Seq<char>) -> Option<Seq<char>>;

/// Relies on `percent_encoding::percent_decode_str` and
/// `PercentDecode::decode_utf8`.
#[verifier::external_body]
pub(crate) fn percent_decode(raw: &str) -> (r: Option<String>)
    ensures
        r is None ==> percent_decoded(raw@) is None,
        r matches Some(s) ==> percent_decoded(raw@) == Some(s@),
{
    percent_encoding::percent_decode_str(raw).decode_utf8().ok().map(|s| s.into_owned())
}

} // verus!
