use vstd::prelude::*;

verus! {

// ---------------------------------------------------------------------------
// Mathematical model of case-insensitive multi-pattern matching.
// ---------------------------------------------------------------------------

/// ASCII case folding of one character: `A`..`Z` map to `a`..`z`, every other
/// character is unchanged.
pub open spec fn lower_char(c: char) -> char {
    if 65 <= c as u32 && c as u32 <= 90 {
        ((c as u32) + 32) as char
    } else {
        c
    }
}

/// ASCII case folding of a whole character sequence.
pub open spec fn lower(s: Seq<char>) -> Seq<char> {
    s.map_values(|c: char| lower_char(c))
}

/// `pat` stands in `hay` at position `i` (no case folding here).
pub open spec fn occurs_at(hay: Seq<char>, pat: Seq<char>, i: int) -> bool {
    hay.subrange(i, i + pat.len()) == pat
}

/// `hay` contains `pat` as a substring, without respect to case for ASCII
/// letters.
pub open spec fn contains_ci(hay: Seq<char>, pat: Seq<char>) -> bool {
    exists|i: int|
        0 <= i && i + pat.len() <= hay.len() && occurs_at(lower(hay), lower(pat), i)
}

/// A line matches a group iff it contains at least one of the group's literal
/// patterns as a substring, case-insensitively.
pub open spec fn line_matches(pats: Seq<Seq<char>>, line: Seq<char>) -> bool {
    exists|j: int| 0 <= j < pats.len() && contains_ci(line, pats[j])
}

// ---------------------------------------------------------------------------
// The automaton of the aho_corasick crate, taken on trust at its interface.
// ---------------------------------------------------------------------------

#[verifier::external_type_specification]
#[verifier::external_body]
pub struct ExAhoCorasick(aho_corasick::AhoCorasick);

/// The literal patterns an automaton was built from, in build order.
pub uninterp spec fn automaton_patterns(m: aho_corasick::AhoCorasick) -> Seq<Seq<char>>;

/// Whether `AhoCorasickBuilder::build` succeeds on this pattern list: its
/// only failure is a fixed internal limit, so success is a function of the
/// patterns alone.
pub uninterp spec fn automaton_buildable(pats: Seq<Seq<char>>) -> bool;

/// Relies on `AhoCorasickBuilder::build` with `ascii_case_insensitive(true)`:
/// on success the automaton holds exactly the literal patterns it was given,
/// and whether it succeeds depends on the pattern list alone.
#[verifier::external_body]
fn build_automaton(patterns: &Vec<String>) -> (r: Option<aho_corasick::AhoCorasick>)
    ensures
        r is Some <==> automaton_buildable(patterns.deep_view()),
        r is Some ==> automaton_patterns(r->Some_0) == patterns.deep_view(),
{
    aho_corasick::AhoCorasickBuilder::new()
        .ascii_case_insensitive(true)
        .build(patterns)
        .ok()
}

/// Relies on `AhoCorasick::is_match`: true iff the haystack contains an
/// occurrence of at least one pattern; with `ascii_case_insensitive(true)`
/// the search ignores case for ASCII letters `a`-`z` and `A`-`Z` only.
#[verifier::external_body]
fn automaton_is_match(m: &aho_corasick::AhoCorasick, line: &str) -> (r: bool)
    ensures
        r == line_matches(automaton_patterns(*m), line@),
{
    m.is_match(line)
}

// ---------------------------------------------------------------------------
// One query group's matcher.
// ---------------------------------------------------------------------------

/// The matcher of one query group: a single automaton that tests a line
/// against every literal pattern of the group in one pass.
pub struct Matcher {
    automaton: aho_corasick::AhoCorasick,
}

impl Matcher {
    /// The group's literal patterns, in configuration order.
    pub closed spec fn patterns(self) -> Seq<Seq<char>> {
        automaton_patterns(self.automaton)
    }

    /// Build the matcher for one group. Returns `None` exactly when the
    /// underlying automaton cannot be constructed (a fixed resource limit
    /// decided by the pattern list alone).
    pub fn new(patterns: &Vec<String>) -> (r: Option<Matcher>)
        ensures
            r is Some <==> automaton_buildable(patterns.deep_view()),
            r is Some ==> r->Some_0.patterns() == patterns.deep_view(),
    {
        match build_automaton(patterns) {
            Some(a) => Some(Matcher { automaton: a }),
            None => None,
        }
    }

    /// Test one line: true iff the line contains at least one of the group's
    /// patterns, case-insensitively.
    pub fn is_match(&self, line: &str) -> (r: bool)
        ensures
            r == line_matches(self.patterns(), line@),
    {
        automaton_is_match(&self.automaton, line)
    }
}

/// One query group as configured: the name of the output file its matches
/// are routed to, and the ordered literal patterns that route a line there.
/// The position of a group in the configuration list is its index into every
/// per-group collection (matchers, batches, sinks).
pub struct Query {
    /// Name of the group's output file, the group's identity.
    pub filename: String,
    /// The group's literal search strings.
    pub expressions: Vec<String>,
}

impl Query {
    /// Build the group's matcher from its literal patterns. Succeeds exactly
    /// when the automaton can be built from them.
    pub fn matcher(&self) -> (r: Option<Matcher>)
        ensures
            r is Some <==> automaton_buildable(self.expressions.deep_view()),
            r is Some ==> r->Some_0.patterns() == self.expressions.deep_view(),
    {
        Matcher::new(&self.expressions)
    }
}

/// Evaluate one line against every group's matcher, recording per-group
/// membership into the first `matchers.len()` entries of `does_match` by
/// group index; any entries beyond the matcher count keep their old values.
pub fn search_line(line: &str, matchers: &Vec<Matcher>, does_match: &mut Vec<bool>)
    requires
        old(does_match).len() >= matchers.len(),
    ensures
        final(does_match).len() == old(does_match).len(),
        forall|g: int|
            0 <= g < matchers.len() ==> final(does_match)@[g] == line_matches(
                matchers@[g].patterns(),
                line@,
            ),
        forall|g: int|
            matchers.len() <= g < final(does_match).len() ==> final(does_match)@[g] == old(
                does_match,
            )@[g],
{
    let n = matchers.len();
    let mut g: usize = 0;
    while g < n
        invariant
            n == matchers.len(),
            does_match.len() == old(does_match).len(),
            n <= does_match.len(),
            g <= n,
            forall|k: int|
                0 <= k < g ==> does_match@[k] == line_matches(matchers@[k].patterns(), line@),
            forall|k: int| g <= k < does_match.len() ==> does_match@[k] == old(does_match)@[k],
        decreases n - g,
    {
        let m = matchers[g].is_match(line);
        does_match[g] = m;
        g += 1;
    }
}

} // verus!
