//! The pattern library: named regular expressions applied to text, with
//! ignore predicates for whole URLs and for individual matched values.
//!
//! Matching is done by the `regex` crate behind a trusted wrapper; which
//! hits survive the ignore list, their pairing with rule names and their
//! order are verified. The rules themselves are data: a scan carries a
//! `Ruleset` value.

use vstd::prelude::*;
use vstd::string::StringExecFns;
use crate::strutil::str_eq;
use crate::strutil::contains_sub;
use crate::strutil::has_substring;

verus! {

/// Whether `regex::Regex::new` accepts the pattern.
pub uninterp spec fn regex_ok(pattern: Seq<char>) -> bool;

/// The successive non-overlapping matches of the pattern in the text,
/// leftmost first, as `regex::Regex::find_iter` yields them.
pub uninterp spec fn regex_matches(pattern: Seq<char>, text: Seq<char>) -> Seq<Seq<char>>;

/// Relies on regex::Regex::new and Regex::find_iter: compilation and the
/// match sequence are pure functions of pattern and text, and every match is
/// a range of the haystack, hence a substring of the text.
#[verifier::external_body]
fn regex_find_all(pattern: &str, text: &str) -> (r: Option<Vec<String>>)
    ensures
        r is Some <==> regex_ok(pattern@),
        r matches Some(v) ==> v.deep_view() == regex_matches(pattern@, text@),
        r is Some ==> forall|i: int|
            0 <= i < regex_matches(pattern@, text@).len() ==> has_substring(
                text@,
                #[trigger] regex_matches(pattern@, text@)[i],
            ),
{
    match regex::Regex::new(pattern) {
        Ok(re) => Some(re.find_iter(text).map(|m| m.as_str().to_string()).collect()),
        Err(_) => None,
    }
}

/// One named pattern.
pub struct Rule {
    pub name: String,
    pub pattern: String,
}

/// The rules of a scan plus its two ignore lists: URL fragments that gate
/// whole URLs out, and exact values to drop from the hits.
pub struct Ruleset {
    pub rules: Vec<Rule>,
    pub ignore_path_parts: Vec<String>,
    pub ignore_values: Vec<String>,
}

pub open spec fn rules_view(rules: Seq<Rule>) -> Seq<(Seq<char>, Seq<char>)> {
    rules.map_values(|r: Rule| (r.name@, r.pattern@))
}

/// A value is ignored when it equals one of the ignore-list entries.
pub open spec fn ignored_value(v: Seq<char>, ignores: Seq<Seq<char>>) -> bool {
    exists|i: int| 0 <= i < ignores.len() && ignores[i] == v
}

/// A URL is ignored when it contains one of the ignore-list fragments.
pub open spec fn ignored_path(u: Seq<char>, parts: Seq<Seq<char>>) -> bool {
    exists|i: int| 0 <= i < parts.len() && has_substring(u, #[trigger] parts[i])
}

/// The hits one rule contributes: its matches in order, each paired with the
/// rule name, those on the ignore list dropped.
pub open spec fn kept_hits(
    name: Seq<char>,
    ms: Seq<Seq<char>>,
    ignores: Seq<Seq<char>>,
) -> Seq<(Seq<char>, Seq<char>)>
    decreases ms.len(),
{
    if ms.len() == 0 {
        Seq::empty()
    } else {
        kept_hits(name, ms.drop_last(), ignores) + if ignored_value(ms.last(), ignores) {
            Seq::empty()
        } else {
            seq![(name, ms.last())]
        }
    }
}

pub open spec fn rule_hits(
    name: Seq<char>,
    pattern: Seq<char>,
    text: Seq<char>,
    ignores: Seq<Seq<char>>,
) -> Seq<(Seq<char>, Seq<char>)> {
    if regex_ok(pattern) {
        kept_hits(name, regex_matches(pattern, text), ignores)
    } else {
        Seq::empty()
    }
}

/// All hits of a scan: each rule's kept matches, rules in declared order.
pub open spec fn scan_spec(
    rules: Seq<(Seq<char>, Seq<char>)>,
    ignores: Seq<Seq<char>>,
    text: Seq<char>,
) -> Seq<(Seq<char>, Seq<char>)>
    decreases rules.len(),
{
    if rules.len() == 0 {
        Seq::empty()
    } else {
        scan_spec(rules.drop_last(), ignores, text) + rule_hits(
            rules.last().0,
            rules.last().1,
            text,
            ignores,
        )
    }
}

impl Ruleset {
    pub fn new(rules: Vec<Rule>, ignore_path_parts: Vec<String>, ignore_values: Vec<String>) -> (r:
        Ruleset)
        ensures
            r.rules == rules,
            r.ignore_path_parts == ignore_path_parts,
            r.ignore_values == ignore_values,
    {
        Ruleset { rules, ignore_path_parts, ignore_values }
    }

    /// Whether a matched value is on the ignore list.
    pub fn should_ignore_value(&self, v: &str) -> (r: bool)
        ensures
            r == ignored_value(v@, self.ignore_values.deep_view()),
    {
        let mut i: usize = 0;
        while i < self.ignore_values.len()
            invariant
                i <= self.ignore_values@.len(),
                forall|t: int|
                    0 <= t < i ==> #[trigger] self.ignore_values.deep_view()[t] != v@,
            decreases self.ignore_values@.len() - i,
        {
            if str_eq(self.ignore_values[i].as_str(), v) {
                assert(self.ignore_values.deep_view()[i as int] == v@);
                return true;
            }
            i = i + 1;
        }
        false
    }

    /// Whether a URL is gated out of the pipeline.
    pub fn should_ignore_path(&self, url: &str) -> (r: bool)
        ensures
            r == ignored_path(url@, self.ignore_path_parts.deep_view()),
    {
        let mut i: usize = 0;
        while i < self.ignore_path_parts.len()
            invariant
                i <= self.ignore_path_parts@.len(),
                forall|t: int|
                    0 <= t < i ==> !has_substring(
                        url@,
                        #[trigger] self.ignore_path_parts.deep_view()[t],
                    ),
            decreases self.ignore_path_parts@.len() - i,
        {
            if contains_sub(url, self.ignore_path_parts[i].as_str()) {
                assert(has_substring(url@, self.ignore_path_parts.deep_view()[i as int]));
                return true;
            }
            i = i + 1;
        }
        false
    }
}

/// Scan text with every rule in order; emit `(rule name, matched value)` for
/// each surviving match, duplicates preserved.
pub fn scan_patterns(rs: &Ruleset, text: &str) -> (hits: Vec<(String, String)>)
    ensures
        hits.deep_view() == scan_spec(
            rules_view(rs.rules@),
            rs.ignore_values.deep_view(),
            text@,
        ),
        forall|k: int|
            0 <= k < hits.deep_view().len() ==> has_substring(
                text@,
                (#[trigger] hits.deep_view()[k]).1,
            ),
{
    let ghost igs = rs.ignore_values.deep_view();
    let ghost rv = rules_view(rs.rules@);
    let mut hits: Vec<(String, String)> = Vec::new();
    let mut i: usize = 0;
    proof {
        assert(hits.deep_view() =~= scan_spec(rv.take(0), igs, text@));
    }
    while i < rs.rules.len()
        invariant
            i <= rs.rules@.len(),
            igs == rs.ignore_values.deep_view(),
            rv == rules_view(rs.rules@),
            hits.deep_view() == scan_spec(rv.take(i as int), igs, text@),
            forall|k: int|
                0 <= k < hits.deep_view().len() ==> has_substring(
                    text@,
                    (#[trigger] hits.deep_view()[k]).1,
                ),
        decreases rs.rules@.len() - i,
    {
        let name = &rs.rules[i].name;
        let pattern = &rs.rules[i].pattern;
        let ghost base = hits.deep_view();
        match regex_find_all(pattern.as_str(), text) {
            None => {
                proof {
                    assert(rv.take(i + 1).drop_last() =~= rv.take(i as int));
                    assert(rv.take(i + 1).last() == rv[i as int]);
                    assert(hits.deep_view() =~= base + rule_hits(name@, pattern@, text@, igs));
                }
            },
            Some(ms) => {
                let ghost mv = ms.deep_view();
                let mut j: usize = 0;
                proof {
                    assert(hits.deep_view() =~= base + kept_hits(name@, mv.take(0), igs));
                }
                while j < ms.len()
                    invariant
                        j <= ms@.len(),
                        mv == ms.deep_view(),
                        mv == regex_matches(rs.rules@[i as int].pattern@, text@),
                        forall|t: int|
                            0 <= t < mv.len() ==> has_substring(text@, #[trigger] mv[t]),
                        igs == rs.ignore_values.deep_view(),
                        i < rs.rules@.len(),
                        name == &rs.rules@[i as int].name,
                        hits.deep_view() == base + kept_hits(name@, mv.take(j as int), igs),
                        forall|k: int|
                            0 <= k < hits.deep_view().len() ==> has_substring(
                                text@,
                                (#[trigger] hits.deep_view()[k]).1,
                            ),
                    decreases ms@.len() - j,
                {
                    let ghost before = hits.deep_view();
                    if !rs.should_ignore_value(ms[j].as_str()) {
                        let m = ms[j].clone();
                        let nm = name.clone();
                        hits.push((nm, m));
                        proof {
                            assert(hits.deep_view() =~= before.push((name@, mv[j as int])));
                        }
                    }
                    proof {
                        assert(mv.take(j + 1).drop_last() =~= mv.take(j as int));
                        assert(mv.take(j + 1).last() == mv[j as int]);
                        assert(hits.deep_view() =~= base + kept_hits(name@, mv.take(j + 1), igs));
                    }
                    j = j + 1;
                }
                proof {
                    assert(mv.take(ms@.len() as int) =~= mv);
                    assert(rv.take(i + 1).drop_last() =~= rv.take(i as int));
                    assert(rv.take(i + 1).last() == rv[i as int]);
                    assert(hits.deep_view() =~= base + rule_hits(name@, pattern@, text@, igs));
                }
            },
        }
        i = i + 1;
    }
    proof {
        assert(rv.take(rs.rules@.len() as int) =~= rv);
    }
    hits
}

/// The stock rules a scan starts from, with a small ignore list for known
/// placeholder values and for static asset paths that are not worth
/// fetching.
pub fn standard_ruleset() -> (r: Ruleset)
    ensures
        rules_view(r.rules@) == seq![
            ("aws_access_key"@, "AKIA[0-9A-Z]{16}"@),
            ("google_api_key"@, "AIza[0-9A-Za-z_-]{35}"@),
            ("private_key_block"@, "-----BEGIN [A-Z ]*PRIVATE KEY-----"@),
            ("password_assignment"@, "(?i)password[ \\t]*=[ \\t]*[^ \\t\\r\\n]+"@),
            ("bearer_token"@, "Bearer [A-Za-z0-9_.=-]+"@),
            ("slack_token"@, "xox[baprs]-[A-Za-z0-9-]{10,}"@),
        ],
        r.ignore_values.deep_view() == seq!["SECRET-REDACTED"@, "password=********"@],
        r.ignore_path_parts.deep_view() == seq![".woff"@, ".ttf"@, ".eot"@, ".ico"@],
{
    let mut rules: Vec<Rule> = Vec::new();
    rules.push(rule_of("aws_access_key", "AKIA[0-9A-Z]{16}"));
    rules.push(rule_of("google_api_key", "AIza[0-9A-Za-z_-]{35}"));
    rules.push(rule_of("private_key_block", "-----BEGIN [A-Z ]*PRIVATE KEY-----"));
    rules.push(rule_of("password_assignment", "(?i)password[ \\t]*=[ \\t]*[^ \\t\\r\\n]+"));
    rules.push(rule_of("bearer_token", "Bearer [A-Za-z0-9_.=-]+"));
    rules.push(rule_of("slack_token", "xox[baprs]-[A-Za-z0-9-]{10,}"));
    let mut ignore_values: Vec<String> = Vec::new();
    ignore_values.push(string_of("SECRET-REDACTED"));
    ignore_values.push(string_of("password=********"));
    let mut ignore_path_parts: Vec<String> = Vec::new();
    ignore_path_parts.push(string_of(".woff"));
    ignore_path_parts.push(string_of(".ttf"));
    ignore_path_parts.push(string_of(".eot"));
    ignore_path_parts.push(string_of(".ico"));
    proof {
        assert(rules_view(rules@) =~= seq![
            ("aws_access_key"@, "AKIA[0-9A-Z]{16}"@),
            ("google_api_key"@, "AIza[0-9A-Za-z_-]{35}"@),
            ("private_key_block"@, "-----BEGIN [A-Z ]*PRIVATE KEY-----"@),
            ("password_assignment"@, "(?i)password[ \\t]*=[ \\t]*[^ \\t\\r\\n]+"@),
            ("bearer_token"@, "Bearer [A-Za-z0-9_.=-]+"@),
            ("slack_token"@, "xox[baprs]-[A-Za-z0-9-]{10,}"@),
        ]);
        assert(ignore_values.deep_view() =~= seq![
            "SECRET-REDACTED"@,
            "password=********"@,
        ]);
        assert(ignore_path_parts.deep_view() =~= seq![".woff"@, ".ttf"@, ".eot"@, ".ico"@]);
    }
    Ruleset { rules, ignore_path_parts, ignore_values }
}

fn string_of(s: &str) -> (r: String)
    ensures
        r@ == s@,
{
    let mut out = String::new();
    out.append(s);
    proof {
        assert(Seq::<char>::empty() + s@ =~= s@);
    }
    out
}

fn rule_of(name: &str, pattern: &str) -> (r: Rule)
    ensures
        r.name@ == name@,
        r.pattern@ == pattern@,
{
    Rule { name: string_of(name), pattern: string_of(pattern) }
}

} // verus!
