//! Inclusion rules: an ordered list of glob patterns, each either excluding
//! the paths it matches or, written with a leading `!`, rescuing them.
use vstd::prelude::*;

verus! {

#[verifier::external_type_specification]
#[verifier::external_body]
pub struct ExGlobError(globset::Error);

/// Whether globset accepts `pattern` and builds a matcher for it.
pub uninterp spec fn glob_compiles(pattern: Seq<char>) -> bool;

/// Whether the glob `pattern` matches the whole of `path`, read with `/`
/// as the separator: `*` and `?` stay within one component, `**` crosses
/// any number of them.
pub uninterp spec fn glob_matches(pattern: Seq<char>, path: Seq<char>) -> bool;

/// Relies on globset: `GlobBuilder::build` parses the pattern, with
/// `literal_separator` set so that wildcards other than `**` do not match
/// `/`; `GlobSet::new` builds its matcher (either fails with an error on a
/// malformed or oversized pattern); `GlobSet::is_match` tests the path.
#[verifier::external_body]
fn glob_match(pattern: &str, path: &str) -> (r: Result<bool, globset::Error>)
    ensures
        r is Ok <==> glob_compiles(pattern@),
        r matches Ok(b) ==> b == glob_matches(pattern@, path@),
{
    let glob = globset::GlobBuilder::new(pattern).literal_separator(true).build()?;
    let set = globset::GlobSet::new([glob])?;
    Ok(set.is_match(path))
}

/// A rule that cannot be used as a glob pattern.
pub enum FilterError {
    /// The rule, as it was written, is not a valid glob pattern.
    InvalidPattern(String),
}

/// One rule: its glob pattern and whether it was negated with `!`.
pub struct FilterRule {
    pub negated: bool,
    pub pattern: String,
}

/// The meaning of a rule as written: a leading `!` negates it.
pub open spec fn rule_of(text: Seq<char>) -> (bool, Seq<char>) {
    if text.len() > 0 && text[0] == '!' {
        (true, text.drop_first())
    } else {
        (false, text)
    }
}

/// Whether `path` is extracted: the first rule whose pattern matches it
/// decides, a negated rule including it and a positive one excluding it; a
/// path that no rule matches is included.
pub open spec fn first_match_included(rules: Seq<(bool, Seq<char>)>, path: Seq<char>) -> bool
    decreases rules.len(),
{
    if rules.len() == 0 {
        true
    } else if glob_matches(rules[0].1, path) {
        rules[0].0
    } else {
        first_match_included(rules.drop_first(), path)
    }
}

/// All patterns of `rules` compile.
pub open spec fn all_compile(rules: Seq<(bool, Seq<char>)>) -> bool {
    forall|i: int| 0 <= i < rules.len() ==> glob_compiles(#[trigger] rules[i].1)
}

impl View for FilterRule {
    type V = (bool, Seq<char>);

    open spec fn view(&self) -> (bool, Seq<char>) {
        (self.negated, self.pattern@)
    }
}

/// Reads one rule as written: a leading `!` marks it negated and is not part
/// of its pattern.
pub fn parse_rule(text: &str) -> (r: FilterRule)
    ensures
        r@ == rule_of(text@),
{
    let n = text.unicode_len();
    if n > 0 && text.get_char(0) == '!' {
        let rest = text.substring_char(1, n);
        proof {
            assert(rest@ =~= text@.drop_first());
        }
        FilterRule { negated: true, pattern: rest.to_string() }
    } else {
        FilterRule { negated: false, pattern: text.to_string() }
    }
}

/// Whether the glob `pattern` matches `path`; a pattern that globset
/// refuses is an error naming it.
pub fn match_glob(pattern: &str, path: &str) -> (r: Result<bool, FilterError>)
    ensures
        r is Ok <==> glob_compiles(pattern@),
        r matches Ok(b) ==> b == glob_matches(pattern@, path@),
        r matches Err(FilterError::InvalidPattern(p)) ==> p@ == pattern@,
{
    match glob_match(pattern, path) {
        Ok(b) => Ok(b),
        Err(_) => Err(FilterError::InvalidPattern(pattern.to_string())),
    }
}

/// An ordered list of rules whose patterns all compile.
pub struct EntryFilter {
    rules: Vec<FilterRule>,
}

impl View for EntryFilter {
    type V = Seq<(bool, Seq<char>)>;

    closed spec fn view(&self) -> Seq<(bool, Seq<char>)> {
        self.rules@.map_values(|r: FilterRule| r@)
    }
}

/// The rules that `texts` write, in order.
pub open spec fn rules_of(texts: Seq<String>) -> Seq<(bool, Seq<char>)> {
    texts.map_values(|t: String| rule_of(t@))
}

/// The position of the first rule whose pattern does not compile, if any.
pub open spec fn first_bad_rule(texts: Seq<String>, i: int) -> bool {
    &&& 0 <= i < texts.len()
    &&& !glob_compiles(rule_of(texts[i]@).1)
    &&& forall|j: int| 0 <= j < i ==> glob_compiles(#[trigger] rule_of(texts[j]@).1)
}

impl EntryFilter {
    /// Every pattern compiles.
    pub closed spec fn wf(&self) -> bool {
        all_compile(self@)
    }

    /// Builds the filter from its rules as written. A malformed pattern is
    /// refused here, before any entry is looked at: the error names the
    /// first such rule.
    pub fn new(texts: &Vec<String>) -> (r: Result<EntryFilter, FilterError>)
        ensures
            r is Ok <==> all_compile(rules_of(texts@)),
            r matches Ok(f) ==> f.wf() && f@ == rules_of(texts@),
            r matches Err(FilterError::InvalidPattern(p)) ==> exists|i: int|
                first_bad_rule(texts@, i) && p@ == texts@[i]@,
    {
        let mut rules: Vec<FilterRule> = Vec::new();
        let mut i: usize = 0;
        while i < texts.len()
            invariant
                i <= texts.len(),
                rules@.len() == i,
                forall|j: int| 0 <= j < i ==> (#[trigger] rules@[j])@ == rule_of(texts@[j]@),
                forall|j: int| 0 <= j < i ==> glob_compiles(#[trigger] rule_of(texts@[j]@).1),
            decreases texts.len() - i,
        {
            let rule = parse_rule(texts[i].as_str());
            match match_glob(rule.pattern.as_str(), "") {
                Ok(_) => {},
                Err(_) => {
                    assert(first_bad_rule(texts@, i as int));
                    assert(rules_of(texts@)[i as int] == rule_of(texts@[i as int]@));
                    return Err(FilterError::InvalidPattern(texts[i].clone()));
                },
            }
            rules.push(rule);
            i = i + 1;
        }
        let f = EntryFilter { rules };
        proof {
            assert(f@ =~= rules_of(texts@));
        }
        Ok(f)
    }

    /// Whether the entry at logical path `path` is extracted: the rules
    /// are tried in order and the first whose pattern matches decides, a
    /// negated rule including the entry and a positive one excluding it; an
    /// entry that no rule matches is included.
    pub fn is_included(&self, path: &str) -> (r: bool)
        requires
            self.wf(),
        ensures
            r == first_match_included(self@, path@),
    {
        let ghost rules = self@;
        let mut i: usize = 0;
        assert(rules.subrange(0, rules.len() as int) =~= rules);
        while i < self.rules.len()
            invariant
                rules == self@,
                all_compile(rules),
                i <= self.rules.len(),
                rules.len() == self.rules@.len(),
                first_match_included(rules, path@) == first_match_included(
                    rules.subrange(i as int, rules.len() as int),
                    path@,
                ),
            decreases self.rules.len() - i,
        {
            let rule = &self.rules[i];
            let ghost rest = rules.subrange(i as int, rules.len() as int);
            assert(rules[i as int] == rule@);
            assert(rest[0] == rules[i as int]);
            assert(rest.drop_first() =~= rules.subrange(i + 1, rules.len() as int));
            assert(glob_compiles(rules[i as int].1));
            let hit = match match_glob(rule.pattern.as_str(), path) {
                Ok(b) => b,
                Err(_) => false,
            };
            if hit {
                return rule.negated;
            }
            i = i + 1;
        }
        assert(rules.subrange(i as int, rules.len() as int) =~= Seq::<(bool, Seq<char>)>::empty());
        true
    }
}

} // verus!
