//! Patterns on paths: which are well formed, what they match, and which
//! directories the reader asked not to watch.
use crate::config::text_of;
use crate::names::views;
use crate::text::{has_suffix, is_white, lemma_trimmed_end, strip_suffix, trim_end, trimmed_end};
use glob::{MatchOptions, Pattern};
use ignore::overrides::{Override, OverrideBuilder};
use vstd::prelude::*;

verus! {

/// What `glob` says is wrong with a pattern, if it is not well formed.
pub uninterp spec fn pattern_fault(pattern: Seq<char>) -> Option<Seq<char>>;

/// Whether `glob` finds that a path matches a pattern, under three options:
/// case counts, wildcards stop at a slash, wildcards do not match a leading
/// dot. Nothing for a pattern that is not well formed.
pub uninterp spec fn pattern_match(
    pattern: Seq<char>,
    path: Seq<char>,
    case_sensitive: bool,
    literal_separator: bool,
    literal_leading_dot: bool,
) -> Option<bool>;

/// `glob::Pattern::new`: what it says is wrong with a pattern depends on the
/// pattern alone.
#[verifier::external_body]
fn compile_pattern(pattern: &str) -> (r: Option<String>)
    ensures
        text_of(r) == pattern_fault(pattern@),
{
    match Pattern::new(pattern) {
        Ok(_) => None,
        Err(fault) => Some(fault.to_string()),
    }
}

/// `glob::Pattern::matches_with` of a pattern that is compiled for the purpose:
/// the answer depends on the pattern, the path and the options alone, and there
/// is one exactly for the patterns that compile.
#[verifier::external_body]
fn match_pattern(
    pattern: &str,
    path: &str,
    case_sensitive: bool,
    literal_separator: bool,
    literal_leading_dot: bool,
) -> (r: Option<bool>)
    ensures
        r == pattern_match(
            pattern@,
            path@,
            case_sensitive,
            literal_separator,
            literal_leading_dot,
        ),
        r is Some <==> pattern_fault(pattern@) is None,
{
    let options = MatchOptions {
        case_sensitive,
        require_literal_separator: literal_separator,
        require_literal_leading_dot: literal_leading_dot,
    };
    Pattern::new(pattern).ok().map(|compiled| compiled.matches_with(path, options))
}

/// What is wrong with a pattern, if it is not well formed.
pub fn fault_of(pattern: &str) -> (r: Option<String>)
    ensures
        text_of(r) == pattern_fault(pattern@),
{
    compile_pattern(pattern)
}

/// Whether a path matches a pattern: case counts, and a wildcard stays within
/// one part of the path unless it is a doubled one.
pub open spec fn matches(pattern: Seq<char>, path: Seq<char>) -> bool {
    pattern_match(pattern, path, true, true, false) == Some(true)
}

/// Whether a path matches a pattern of what to watch.
pub fn matches_glob(pattern: &str, path: &str) -> (r: bool)
    ensures
        r == matches(pattern@, path@),
{
    match match_pattern(pattern, path, true, true, false) {
        Some(answer) => answer,
        None => false,
    }
}

/// Whether a path matches a pattern of what to ignore.
pub fn matches_ignore(pattern: &str, path: &str) -> (r: bool)
    ensures
        r == matches(pattern@, path@),
{
    matches_glob(pattern, path)
}

/// Whether a path matches one of some patterns.
pub open spec fn matches_any(patterns: Seq<Seq<char>>, path: Seq<char>) -> bool {
    exists|i: int| 0 <= i < patterns.len() && matches(#[trigger] patterns[i], path)
}

/// Whether a path matches one of some patterns.
pub fn any_matches(patterns: &Vec<String>, path: &str) -> (r: bool)
    ensures
        r == matches_any(views(patterns@), path@),
{
    let mut i: usize = 0;
    while i < patterns.len()
        invariant
            i <= patterns@.len(),
            forall|j: int| 0 <= j < i ==> !matches(#[trigger] views(patterns@)[j], path@),
        decreases patterns@.len() - i,
    {
        if matches_glob(patterns[i].as_str(), path) {
            assert(views(patterns@)[i as int] == patterns@[i as int]@);
            return true;
        }
        i += 1;
    }
    false
}

/// A set of rules being collected, of the `ignore` crate.
#[verifier::external_type_specification]
#[verifier::external_body]
pub struct ExOverrideBuilder(ignore::overrides::OverrideBuilder);

/// A compiled set of rules, of the `ignore` crate.
#[verifier::external_type_specification]
#[verifier::external_body]
pub struct ExOverride(ignore::overrides::Override);

/// The rules that a builder took.
pub uninterp spec fn rules_taken(builder: OverrideBuilder) -> Seq<Seq<char>>;

/// The directory that a builder's rules are read from.
pub uninterp spec fn rules_root(builder: OverrideBuilder) -> Seq<char>;

/// The rules of a compiled set.
pub uninterp spec fn set_rules(set: Override) -> Seq<Seq<char>>;

/// The directory that a compiled set's rules are read from.
pub uninterp spec fn set_root(set: Override) -> Seq<char>;

/// What `ignore` says is wrong with a rule, if it does not take it.
pub uninterp spec fn rule_fault(rule: Seq<char>) -> Option<Seq<char>>;

/// Whether `ignore` finds that a list of rules, read from a directory, excludes
/// a path.
pub uninterp spec fn excluded(
    root: Seq<char>,
    rules: Seq<Seq<char>>,
    path: Seq<char>,
    is_dir: bool,
) -> bool;

/// A directory without a leading `./`, one time.
pub open spec fn plain_root(root: Seq<char>) -> Seq<char> {
    if root.len() >= 2 && root[0] == '.' && root[1] == '/' {
        root.skip(2)
    } else {
        root
    }
}

/// `ignore::overrides::OverrideBuilder::new`: a builder without rules, for a
/// directory of which it leaves out a leading `./`, as it does on Unix.
#[verifier::external_body]
fn new_rules(root: &str) -> (r: OverrideBuilder)
    ensures
        rules_taken(r) == Seq::<Seq<char>>::empty(),
        rules_root(r) == plain_root(root@),
{
    OverrideBuilder::new(root)
}

/// Whether a rule is kept as it is written: it is not empty, it is not a
/// comment, and it ends in no white space but an escaped blank.
pub open spec fn kept_as_written(rule: Seq<char>) -> bool {
    &&& rule.len() > 0
    &&& rule[0] != '#'
    &&& has_suffix(rule, "\\ "@) || !is_white(rule.last())
}

/// `ignore::overrides::OverrideBuilder::add` of a rule that it keeps as it is
/// written: the rule is taken or refused, which depends on the rule alone; a
/// refused one changes nothing.
#[verifier::external_body]
fn take_rule(builder: &mut OverrideBuilder, rule: &str) -> (r: Option<String>)
    requires
        kept_as_written(rule@),
    ensures
        text_of(r) == rule_fault(rule@),
        rules_root(*final(builder)) == rules_root(*old(builder)),
        rules_taken(*final(builder)) == (if rule_fault(rule@) is None {
            rules_taken(*old(builder)).push(rule@)
        } else {
            rules_taken(*old(builder))
        }),
{
    match builder.add(rule) {
        Ok(_) => None,
        Err(fault) => Some(fault.to_string()),
    }
}

/// `ignore::overrides::OverrideBuilder::build`: the set of the rules taken, or
/// the text of the error. Without rules there is nothing to go wrong, and the
/// set is read from no directory. Of others
/// nothing is claimed as to which go wrong, since what does is a limit on the
/// compiled size.
#[verifier::external_body]
fn compile_rules(builder: &OverrideBuilder) -> (r: Result<Override, String>)
    ensures
        r matches Ok(set) ==> set_rules(set) == rules_taken(*builder),
        r matches Ok(set) ==> rules_taken(*builder).len() > 0 ==> set_root(set) == rules_root(
            *builder,
        ),
        rules_taken(*builder).len() == 0 ==> r is Ok,
{
    builder.build().map_err(|fault| fault.to_string())
}

/// `ignore::overrides::Override::empty`: a set without rules.
#[verifier::external_body]
fn no_rules() -> (r: Override)
    ensures
        set_rules(r) == Seq::<Seq<char>>::empty(),
{
    Override::empty()
}

/// `ignore::overrides::Override::matched`: whether the answer is to ignore the
/// path, which depends on the rules, where they are read from, the path, and
/// whether it is a directory. Without rules nothing is ignored.
#[verifier::external_body]
fn match_rules(set: &Override, path: &str, is_dir: bool) -> (r: bool)
    ensures
        r == excluded(set_root(*set), set_rules(*set), path@, is_dir),
        set_rules(*set).len() == 0 ==> !r,
{
    set.matched(path, is_dir).is_ignore()
}

/// The rules that say what not to watch, and the directory they are read from.
pub struct WatchIgnore {
    pub set: Override,
}

impl WatchIgnore {
    /// Whether a path is not to be watched.
    pub open spec fn excludes(&self, path: Seq<char>, is_dir: bool) -> bool {
        excluded(set_root(self.set), set_rules(self.set), path, is_dir)
    }

    /// Whether a path is not to be watched.
    pub fn is_ignored(&self, path: &str, is_dir: bool) -> (r: bool)
        ensures
            r == self.excludes(path@, is_dir),
            set_rules(self.set).len() == 0 ==> !r,
    {
        match_rules(&self.set, path, is_dir)
    }
}

/// The ending of a pattern for everything in a directory.
pub open spec fn names_contents(pattern: Seq<char>) -> bool {
    has_suffix(pattern, "/**"@)
}

/// The directory whose contents a pattern names.
pub open spec fn contents_dir(pattern: Seq<char>) -> Seq<char> {
    pattern.take(pattern.len() - 3)
}

/// The rule that excludes a pattern: white space at its end does not count
/// unless it is an escaped blank.
pub open spec fn exclusion(pattern: Seq<char>) -> Seq<char> {
    let rule = "!"@ + pattern;
    if has_suffix(rule, "\\ "@) {
        rule
    } else {
        trimmed_end(rule)
    }
}

/// The rules of a list of patterns: each pattern that is taken and, where it
/// names all of a directory's contents, the directory itself.
pub open spec fn ignore_rules(patterns: Seq<Seq<char>>) -> Seq<Seq<char>>
    decreases patterns.len(),
{
    if patterns.len() == 0 {
        Seq::empty()
    } else {
        let before = ignore_rules(patterns.drop_last());
        let pattern = patterns.last();
        let first = if rule_fault(exclusion(pattern)) is None {
            before.push(exclusion(pattern))
        } else {
            before
        };
        if names_contents(pattern) && rule_fault(exclusion(contents_dir(pattern))) is None {
            first.push(exclusion(contents_dir(pattern)))
        } else {
            first
        }
    }
}

/// What is said of the patterns that are not taken.
pub open spec fn ignore_warnings(patterns: Seq<Seq<char>>) -> Seq<Seq<char>>
    decreases patterns.len(),
{
    if patterns.len() == 0 {
        Seq::empty()
    } else {
        let before = ignore_warnings(patterns.drop_last());
        let pattern = patterns.last();
        match rule_fault(exclusion(pattern)) {
            Some(fault) => before.push(
                "invalid watch_ignore pattern '"@ + pattern + "': "@ + fault,
            ),
            None => before,
        }
    }
}

/// Everything that is said of a list of patterns, given what went wrong as the
/// rules were compiled, if anything did.
pub open spec fn all_ignore_warnings(
    patterns: Seq<Seq<char>>,
    fault: Option<Seq<char>>,
) -> Seq<Seq<char>> {
    match fault {
        Some(fault) => ignore_warnings(patterns).push(compile_warning(fault)),
        None => ignore_warnings(patterns),
    }
}

/// What is said where the rules could not be compiled.
pub open spec fn compile_warning(fault: Seq<char>) -> Seq<char> {
    "failed to compile watch_ignore globs: "@ + fault
}

/// Whether a set of rules is that of a list of patterns, given what went wrong
/// as they were compiled, if anything did: then there are no rules.
pub open spec fn ignores(
    set: Override,
    base: Seq<char>,
    patterns: Seq<Seq<char>>,
    fault: Option<Seq<char>>,
) -> bool {
    match fault {
        Some(_) => ignore_rules(patterns).len() > 0 && set_rules(set) == Seq::<
            Seq<char>,
        >::empty(),
        None => {
            &&& set_rules(set) == ignore_rules(patterns)
            &&& set_rules(set).len() > 0 ==> set_root(set) == plain_root(base)
        },
    }
}

/// The rules that came of compiling: without any where that went wrong, which
/// is added to the warnings.
pub fn settle_rules(compiled: Result<Override, String>, warnings: &mut Vec<String>) -> (r:
    WatchIgnore)
    ensures
        match compiled {
            Ok(set) => r.set == set && *final(warnings) == *old(warnings),
            Err(fault) => set_rules(r.set) == Seq::<Seq<char>>::empty() && views(
                final(warnings)@,
            ) == views(old(warnings)@).push(compile_warning(fault@)),
        },
{
    match compiled {
        Ok(set) => WatchIgnore { set },
        Err(fault) => {
            let ghost before = views(warnings@);
            let mut warning = "failed to compile watch_ignore globs: ".to_owned();
            warning.append(fault.as_str());
            let ghost words = warning@;
            warnings.push(warning);
            assert(views(warnings@) =~= before.push(words));
            WatchIgnore { set: no_rules() }
        },
    }
}

fn add_pattern(builder: &mut OverrideBuilder, pattern: &str) -> (r: Option<String>)
    ensures
        text_of(r) == rule_fault(exclusion(pattern@)),
        rules_root(*final(builder)) == rules_root(*old(builder)),
        rules_taken(*final(builder)) == (if rule_fault(exclusion(pattern@)) is None {
            rules_taken(*old(builder)).push(exclusion(pattern@))
        } else {
            rules_taken(*old(builder))
        }),
{
    let mut rule = "!".to_owned();
    rule.append(pattern);
    proof {
        reveal_strlit("!");
        assert(rule@[0] == '!');
    }
    if strip_suffix(rule.as_str(), "\\ ").is_some() {
        take_rule(builder, rule.as_str())
    } else {
        proof {
            lemma_trimmed_end(rule@);
        }
        let shorter = trim_end(rule.as_str());
        take_rule(builder, shorter.as_str())
    }
}

/// Compiles what the reader asked not to watch. What is wrong with a pattern is
/// added to the warnings; where the whole cannot be compiled, nothing is
/// excluded.
pub fn build_watch_ignore_overrides(
    base_dir: &str,
    watch_ignore: &Vec<String>,
    warnings: &mut Vec<String>,
) -> (r: WatchIgnore)
    ensures
        exists|fault: Option<Seq<char>>|
            views(final(warnings)@) == views(old(warnings)@) + #[trigger] all_ignore_warnings(
                views(watch_ignore@),
                fault,
            ) && ignores(r.set, base_dir@, views(watch_ignore@), fault),
{
    let mut builder = new_rules(base_dir);
    let mut i: usize = 0;
    let ghost all = views(watch_ignore@);
    let ghost said = views(warnings@);
    proof {
        assert(all.take(0) =~= Seq::<Seq<char>>::empty());
        assert(views(warnings@) =~= said + ignore_warnings(all.take(0)));
        assert("/**"@.len() == 3) by {
            reveal_strlit("/**");
        }
    }
    while i < watch_ignore.len()
        invariant
            i <= watch_ignore@.len(),
            "/**"@.len() == 3,
            all == views(watch_ignore@),
            rules_root(builder) == plain_root(base_dir@),
            rules_taken(builder) == ignore_rules(all.take(i as int)),
            views(warnings@) == said + ignore_warnings(all.take(i as int)),
        decreases watch_ignore@.len() - i,
    {
        let pattern = &watch_ignore[i];
        let ghost before = views(warnings@);
        proof {
            assert(all.take(i + 1).drop_last() =~= all.take(i as int));
            assert(all.take(i + 1).last() == pattern@);
        }
        match add_pattern(&mut builder, pattern.as_str()) {
            Some(fault) => {
                let mut warning = "invalid watch_ignore pattern '".to_owned();
                warning.append(pattern.as_str());
                warning.append("': ");
                warning.append(fault.as_str());
                let ghost words = warning@;
                warnings.push(warning);
                proof {
                    assert(views(warnings@) =~= before.push(words));
                    assert(views(warnings@) =~= said + ignore_warnings(all.take(i + 1)));
                }
            },
            None => {
                assert(views(warnings@) =~= said + ignore_warnings(all.take(i + 1)));
            },
        }
        if let Some(dir) = strip_suffix(pattern.as_str(), "/**") {
            let _ = add_pattern(&mut builder, dir.as_str());
        }
        i += 1;
    }
    assert(all.take(watch_ignore@.len() as int) =~= all);
    let compiled = compile_rules(&builder);
    let ghost fault = match &compiled {
        Ok(_) => None,
        Err(fault) => Some(fault@),
    };
    let r = settle_rules(compiled, warnings);
    proof {
        assert(views(warnings@) =~= said + all_ignore_warnings(all, fault));
        assert(ignores(r.set, base_dir@, all, fault));
    }
    r
}

/// A pattern to ignore excludes what it matches, and one that ends in `/**` the
/// directory itself as well, so that it is not gone into.
pub proof fn ignoring_contents_ignores_the_directory(dir: Seq<char>)
    requires
        dir.len() > 0,
    ensures
        names_contents(dir + "/**"@),
        contents_dir(dir + "/**"@) == dir,
        !is_white(dir.last()) && !has_suffix("!"@ + dir, "\\ "@) ==> exclusion(dir) == "!"@ + dir,
{
    let pattern = dir + "/**"@;
    reveal_strlit("/**");
    assert(pattern.skip(pattern.len() - 3) =~= "/**"@);
    assert(pattern.take(pattern.len() - 3) =~= dir);
    reveal_strlit("!");
    let rule = "!"@ + dir;
    assert(rule.last() == dir.last());
}

proof fn lemma_rules(patterns: Seq<Seq<char>>, i: int)
    requires
        0 <= i < patterns.len(),
    ensures
        rule_fault(exclusion(patterns[i])) is None ==> ignore_rules(patterns).contains(
            exclusion(patterns[i]),
        ),
        names_contents(patterns[i]) && rule_fault(exclusion(contents_dir(patterns[i]))) is None
            ==> ignore_rules(patterns).contains(exclusion(contents_dir(patterns[i]))),
    decreases patterns.len(),
{
    let front = patterns.drop_last();
    let before = ignore_rules(front);
    let all = ignore_rules(patterns);
    assert(before.is_prefix_of(all));
    if i < front.len() {
        lemma_rules(front, i);
        assert(front[i] == patterns[i]);
        let rule = exclusion(patterns[i]);
        if before.contains(rule) {
            let k = choose|k: int| 0 <= k < before.len() && before[k] == rule;
            assert(all[k] == rule);
        }
        let dir = exclusion(contents_dir(patterns[i]));
        if before.contains(dir) {
            let k = choose|k: int| 0 <= k < before.len() && before[k] == dir;
            assert(all[k] == dir);
        }
    } else {
        if rule_fault(exclusion(patterns[i])) is None {
            assert(all[before.len() as int] == exclusion(patterns[i]));
        }
        if names_contents(patterns[i]) && rule_fault(exclusion(contents_dir(patterns[i]))) is None {
            assert(all.last() == exclusion(contents_dir(patterns[i])));
        }
    }
}

/// Every pattern to ignore that is well formed becomes a rule, and one that is
/// not is warned of.
pub proof fn every_pattern_is_a_rule_or_a_warning(patterns: Seq<Seq<char>>, i: int)
    requires
        0 <= i < patterns.len(),
    ensures
        rule_fault(exclusion(patterns[i])) is None ==> ignore_rules(patterns).contains(
            exclusion(patterns[i]),
        ),
        rule_fault(exclusion(patterns[i])) is Some ==> exists|k: int|
            0 <= k < ignore_warnings(patterns).len() && #[trigger] ignore_warnings(patterns)[k]
                == "invalid watch_ignore pattern '"@ + patterns[i] + "': "@ + rule_fault(
                exclusion(patterns[i]),
            )->0,
        has_suffix(patterns[i], "/**"@) && rule_fault(
            exclusion(patterns[i].take(patterns[i].len() - 3)),
        ) is None ==> ignore_rules(patterns).contains(
            exclusion(patterns[i].take(patterns[i].len() - 3)),
        ),
{
    lemma_rules(patterns, i);
    lemma_warned(patterns, i);
}

proof fn lemma_warned(patterns: Seq<Seq<char>>, i: int)
    requires
        0 <= i < patterns.len(),
    ensures
        rule_fault(exclusion(patterns[i])) is Some ==> exists|k: int|
            0 <= k < ignore_warnings(patterns).len() && #[trigger] ignore_warnings(patterns)[k]
                == "invalid watch_ignore pattern '"@ + patterns[i] + "': "@ + rule_fault(
                exclusion(patterns[i]),
            )->0,
    decreases patterns.len(),
{
    let front = patterns.drop_last();
    let before = ignore_warnings(front);
    let all = ignore_warnings(patterns);
    if rule_fault(exclusion(patterns[i])) is Some {
        let warning = "invalid watch_ignore pattern '"@ + patterns[i] + "': "@ + rule_fault(
            exclusion(patterns[i]),
        )->0;
        if i < front.len() {
            lemma_warned(front, i);
            assert(front[i] == patterns[i]);
            let k = choose|k: int| 0 <= k < before.len() && #[trigger] before[k] == warning;
            assert(all[k] == warning);
        } else {
            assert(all[all.len() - 1] == warning);
        }
    }
}

/// What is ignored goes by the rules that were made of the patterns, under the
/// workspace's directory; where the rules could not be put together nothing is
/// ignored by them.
pub proof fn the_rules_are_those_of_the_patterns(
    set: Override,
    base: Seq<char>,
    patterns: Seq<Seq<char>>,
    i: int,
)
    requires
        ignores(set, base, patterns, None),
        0 <= i < patterns.len(),
        rule_fault(exclusion(patterns[i])) is None,
    ensures
        set_rules(set).contains(exclusion(patterns[i])),
        !(base.len() >= 2 && base[0] == '.' && base[1] == '/') ==> set_root(set) == base,
{
    lemma_rules(patterns, i);
    let k = choose|k: int|
        0 <= k < ignore_rules(patterns).len() && ignore_rules(patterns)[k] == exclusion(patterns[i]);
    assert(set_rules(set).len() > 0);
}

} // verus!
