//! The header scanner: a fixed table of rules over a response's headers,
//! each of which yields at most one finding per page.
use vstd::prelude::*;
use crate::text::{contains_seq, contains_str, eq_ignore_case, starts_with_ignore_ascii_case};

verus! {

/// One response header, as received (names compare without regard to ASCII
/// case).
pub struct Header {
    pub name: String,
    pub value: String,
}

/// What a finding reports.
#[derive(PartialEq, Eq, Structural, Clone, Copy, Debug)]
pub enum FindingKind {
    MissingHeader,
    OutdatedServer,
    OutdatedRuntime,
}

/// The rules of the scanner's table.
#[derive(PartialEq, Eq, Structural, Clone, Copy, Debug)]
pub enum Rule {
    /// `X-Content-Type-Options` is absent.
    ContentTypeOptions,
    /// `Strict-Transport-Security` is absent.
    StrictTransportSecurity,
    /// `Content-Security-Policy` is absent.
    ContentSecurityPolicy,
    /// `Server` contains `Apache/2.4`.
    OldApache,
    /// `X-Powered-By` contains `PHP/7`.
    OldPhp,
}

/// A weakness found on one page.
pub struct Finding {
    pub url: String,
    pub rule: Rule,
}

/// The rules in the order in which they are applied.
pub open spec fn rule_table() -> Seq<Rule> {
    seq![
        Rule::ContentTypeOptions,
        Rule::StrictTransportSecurity,
        Rule::ContentSecurityPolicy,
        Rule::OldApache,
        Rule::OldPhp,
    ]
}

pub open spec fn rule_kind(r: Rule) -> FindingKind {
    match r {
        Rule::ContentTypeOptions => FindingKind::MissingHeader,
        Rule::StrictTransportSecurity => FindingKind::MissingHeader,
        Rule::ContentSecurityPolicy => FindingKind::MissingHeader,
        Rule::OldApache => FindingKind::OutdatedServer,
        Rule::OldPhp => FindingKind::OutdatedRuntime,
    }
}

/// The header a rule reads.
pub open spec fn rule_header(r: Rule) -> Seq<char> {
    match r {
        Rule::ContentTypeOptions => "X-Content-Type-Options"@,
        Rule::StrictTransportSecurity => "Strict-Transport-Security"@,
        Rule::ContentSecurityPolicy => "Content-Security-Policy"@,
        Rule::OldApache => "Server"@,
        Rule::OldPhp => "X-Powered-By"@,
    }
}

/// The text whose presence in the header's value fires a version rule.
pub open spec fn rule_pattern(r: Rule) -> Seq<char> {
    match r {
        Rule::OldApache => "Apache/2.4"@,
        Rule::OldPhp => "PHP/7"@,
        _ => ""@,
    }
}

/// The rule fires when its header is absent (rather than when its value
/// holds the pattern).
pub open spec fn fires_on_absence(r: Rule) -> bool {
    rule_kind(r) == FindingKind::MissingHeader
}

/// Header `i` carries the name `name`.
pub open spec fn names(hs: Seq<Header>, name: Seq<char>, i: int) -> bool {
    0 <= i < hs.len() && eq_ignore_case(hs[i].name@, name)
}

/// Header `i` is the first that carries the name `name`.
pub open spec fn first_named(hs: Seq<Header>, name: Seq<char>, i: int) -> bool {
    names(hs, name, i) && forall|j: int| 0 <= j < i ==> !names(hs, name, j)
}

pub open spec fn has_header(hs: Seq<Header>, name: Seq<char>) -> bool {
    exists|i: int| names(hs, name, i)
}

/// The value of the first header named `name`, if any.
pub open spec fn header_value(hs: Seq<Header>, name: Seq<char>) -> Option<Seq<char>> {
    if has_header(hs, name) {
        Some(hs[choose|i: int| first_named(hs, name, i)].value@)
    } else {
        None
    }
}

/// Whether rule `r` fires on the headers `hs`.
pub open spec fn fires(r: Rule, hs: Seq<Header>) -> bool {
    if fires_on_absence(r) {
        !has_header(hs, rule_header(r))
    } else {
        match header_value(hs, rule_header(r)) {
            Some(v) => contains_seq(v, rule_pattern(r)),
            None => false,
        }
    }
}

/// The rules of the table that fire on `hs`, in table order.
pub open spec fn fired_rules(hs: Seq<Header>) -> Seq<Rule> {
    rule_table().filter(|r: Rule| fires(r, hs))
}

impl Rule {
    pub fn kind(&self) -> (k: FindingKind)
        ensures
            k == rule_kind(*self),
    {
        match self {
            Rule::ContentTypeOptions => FindingKind::MissingHeader,
            Rule::StrictTransportSecurity => FindingKind::MissingHeader,
            Rule::ContentSecurityPolicy => FindingKind::MissingHeader,
            Rule::OldApache => FindingKind::OutdatedServer,
            Rule::OldPhp => FindingKind::OutdatedRuntime,
        }
    }

    pub fn header(&self) -> (h: &'static str)
        ensures
            h@ == rule_header(*self),
    {
        match self {
            Rule::ContentTypeOptions => "X-Content-Type-Options",
            Rule::StrictTransportSecurity => "Strict-Transport-Security",
            Rule::ContentSecurityPolicy => "Content-Security-Policy",
            Rule::OldApache => "Server",
            Rule::OldPhp => "X-Powered-By",
        }
    }

    pub fn pattern(&self) -> (p: &'static str)
        ensures
            p@ == rule_pattern(*self),
    {
        match self {
            Rule::OldApache => "Apache/2.4",
            Rule::OldPhp => "PHP/7",
            _ => "",
        }
    }
}

/// The rules in the order in which they are applied.
pub fn rules() -> (r: Vec<Rule>)
    ensures
        r@ == rule_table(),
{
    let r = vec![
        Rule::ContentTypeOptions,
        Rule::StrictTransportSecurity,
        Rule::ContentSecurityPolicy,
        Rule::OldApache,
        Rule::OldPhp,
    ];
    assert(r@ =~= rule_table());
    r
}

/// The index of the first header named `name` (ASCII case ignored), if any.
pub fn find_header(hs: &Vec<Header>, name: &str) -> (r: Option<usize>)
    ensures
        r matches Some(i) ==> first_named(hs@, name@, i as int),
        r is None ==> !has_header(hs@, name@),
{
    let mut i: usize = 0;
    while i < hs.len()
        invariant
            i <= hs@.len(),
            forall|j: int| 0 <= j < i ==> !names(hs@, name@, j),
        decreases hs@.len() - i,
    {
        let same = same_name(hs[i].name.as_str(), name);
        if same {
            return Some(i);
        }
        i = i + 1;
    }
    None
}

/// Whether two header names are equal up to ASCII case.
fn same_name(a: &str, b: &str) -> (r: bool)
    ensures
        r == eq_ignore_case(a@, b@),
{
    if a.unicode_len() != b.unicode_len() {
        return false;
    }
    let r = starts_with_ignore_ascii_case(a, b);
    proof {
        assert(a@.subrange(0, b@.len() as int) =~= a@);
    }
    r
}

proof fn lemma_first_named_unique(hs: Seq<Header>, name: Seq<char>, i: int, j: int)
    requires
        first_named(hs, name, i),
        first_named(hs, name, j),
    ensures
        i == j,
{
}

/// Whether rule `r` fires on the headers `hs`.
pub fn rule_fires(r: Rule, hs: &Vec<Header>) -> (b: bool)
    ensures
        b == fires(r, hs@),
{
    let found = find_header(hs, r.header());
    let on_absence = r.kind() == FindingKind::MissingHeader;
    if on_absence {
        found.is_none()
    } else {
        match found {
            Some(i) => {
                proof {
                    let k = choose|k: int| first_named(hs@, rule_header(r), k);
                    lemma_first_named_unique(hs@, rule_header(r), i as int, k);
                }
                contains_str(hs[i].value.as_str(), r.pattern())
            },
            None => false,
        }
    }
}

/// Applies the rule table to the headers of the page at `url`: one finding
/// for each rule that fires, in table order.
pub fn check_for_vulnerabilities(hs: &Vec<Header>, url: &str) -> (r: Vec<Finding>)
    ensures
        r@.map_values(|f: Finding| f.rule) == fired_rules(hs@),
        forall|i: int| 0 <= i < r@.len() ==> (#[trigger] r@[i]).url@ == url@,
{
    let table = rules();
    let mut out: Vec<Finding> = Vec::new();
    let mut i: usize = 0;
    while i < table.len()
        invariant
            table@ == rule_table(),
            i <= table@.len(),
            out@.map_values(|f: Finding| f.rule) == table@.subrange(0, i as int).filter(
                |r: Rule| fires(r, hs@),
            ),
            forall|k: int| 0 <= k < out@.len() ==> (#[trigger] out@[k]).url@ == url@,
        decreases table@.len() - i,
    {
        let rule = table[i];
        let ghost prefix = table@.subrange(0, i as int);
        proof {
            assert(table@.subrange(0, i + 1) =~= prefix.push(rule));
            reveal(Seq::filter);
            assert(prefix.push(rule).drop_last() =~= prefix);
        }
        if rule_fires(rule, hs) {
            out.push(Finding { url: String::from_str(url), rule });
            assert(out@.map_values(|f: Finding| f.rule) =~= prefix.filter(
                |r: Rule| fires(r, hs@),
            ).push(rule));
        }
        i = i + 1;
    }
    assert(table@.subrange(0, table@.len() as int) =~= table@);
    out
}

/// `seq![r]` when `b` holds, else the empty sequence.
pub open spec fn when(b: bool, r: Rule) -> Seq<Rule> {
    if b {
        seq![r]
    } else {
        Seq::empty()
    }
}

proof fn lemma_filter_push_when(x: Seq<Rule>, r: Rule, p: spec_fn(Rule) -> bool)
    ensures
        x.push(r).filter(p) == x.filter(p) + when(p(r), r),
{
    x.lemma_filter_push(r, p);
    if p(r) {
        assert(x.filter(p).push(r) =~= x.filter(p) + seq![r]);
    } else {
        assert(x.filter(p) =~= x.filter(p) + Seq::<Rule>::empty());
    }
}

/// Filtering the table by any predicate, rule by rule.
proof fn lemma_table_filter(p: spec_fn(Rule) -> bool)
    ensures
        rule_table().filter(p) == when(p(Rule::ContentTypeOptions), Rule::ContentTypeOptions)
            + when(p(Rule::StrictTransportSecurity), Rule::StrictTransportSecurity)
            + when(p(Rule::ContentSecurityPolicy), Rule::ContentSecurityPolicy)
            + when(p(Rule::OldApache), Rule::OldApache)
            + when(p(Rule::OldPhp), Rule::OldPhp),
{
    let e = Seq::<Rule>::empty();
    assert(e.filter(p) =~= e) by {
        reveal(Seq::filter);
    }
    let s1 = e.push(Rule::ContentTypeOptions);
    let s2 = s1.push(Rule::StrictTransportSecurity);
    let s3 = s2.push(Rule::ContentSecurityPolicy);
    let s4 = s3.push(Rule::OldApache);
    let s5 = s4.push(Rule::OldPhp);
    assert(rule_table() =~= s5);
    let w1 = when(p(Rule::ContentTypeOptions), Rule::ContentTypeOptions);
    lemma_filter_push_when(e, Rule::ContentTypeOptions, p);
    assert(e + w1 =~= w1);
    lemma_filter_push_when(s1, Rule::StrictTransportSecurity, p);
    lemma_filter_push_when(s2, Rule::ContentSecurityPolicy, p);
    lemma_filter_push_when(s3, Rule::OldApache, p);
    lemma_filter_push_when(s4, Rule::OldPhp, p);
}

/// The fired rules, rule by rule.
pub proof fn lemma_fired_rules_unfold(hs: Seq<Header>)
    ensures
        fired_rules(hs) == when(fires(Rule::ContentTypeOptions, hs), Rule::ContentTypeOptions)
            + when(fires(Rule::StrictTransportSecurity, hs), Rule::StrictTransportSecurity)
            + when(fires(Rule::ContentSecurityPolicy, hs), Rule::ContentSecurityPolicy)
            + when(fires(Rule::OldApache, hs), Rule::OldApache)
            + when(fires(Rule::OldPhp, hs), Rule::OldPhp),
{
    lemma_table_filter(|r: Rule| fires(r, hs));
}

/// Each rule yields at most one finding per page: no rule occurs twice
/// among the fired rules.
pub proof fn lemma_fired_rules_distinct(hs: Seq<Header>)
    ensures
        fired_rules(hs).no_duplicates(),
{
    lemma_fired_rules_unfold(hs);
}

/// A page without a `Content-Security-Policy` header gets exactly one
/// missing-header finding for it, and a page with one (whatever its value)
/// gets none.
pub proof fn lemma_missing_csp(hs: Seq<Header>)
    ensures
        fired_rules(hs).contains(Rule::ContentSecurityPolicy) <==> !has_header(
            hs,
            "Content-Security-Policy"@,
        ),
        fired_rules(hs).no_duplicates(),
        rule_kind(Rule::ContentSecurityPolicy) == FindingKind::MissingHeader,
{
    lemma_fired_rules_unfold(hs);
    let s = fired_rules(hs);
    if !has_header(hs, "Content-Security-Policy"@) {
        assert(fires(Rule::ContentSecurityPolicy, hs));
        let k = if fires(Rule::ContentTypeOptions, hs) { 1int } else { 0int } + if fires(
            Rule::StrictTransportSecurity,
            hs,
        ) {
            1int
        } else {
            0int
        };
        assert(s[k] == Rule::ContentSecurityPolicy);
    }
}

} // verus!
