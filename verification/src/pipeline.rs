//! The pipeline model: rulesets of ordered rules, their parsed spellings,
//! and the per-ruleset decision the orchestrator acts on.
//!
//! A ruleset's `input` is either the command-line entry point or
//! `ruleset:<name>`, linking it to another ruleset's output. Within one
//! ruleset the first rule whose condition holds wins; a rule whose condition
//! errors counts as non-matching.

use crate::context::MediaContext;
use crate::context::SourceContext;
use crate::engine::RuleEngine;
use crate::engine::RuleError;
use crate::engine::spec_evaluate_condition;
use crate::template::apply_template;
use crate::template::has_prefix;
use crate::template::spec_expand;
use crate::text::chars_to_string;
use crate::text::copy_range;
use crate::text::str_eq;
use crate::text::str_to_chars;
use vstd::prelude::*;

verus! {

/// Where a ruleset takes its files from.
#[derive(Clone, Debug, PartialEq)]
pub enum InputSpec {
    Cmdline,
    Prefixed(String),
}

pub enum InputSpecV {
    Cmdline,
    Prefixed(Seq<char>),
}

impl View for InputSpec {
    type V = InputSpecV;

    open spec fn view(&self) -> InputSpecV {
        match self {
            InputSpec::Cmdline => InputSpecV::Cmdline,
            InputSpec::Prefixed(s) => InputSpecV::Prefixed(s@),
        }
    }
}

/// First position of `c` in `s` at or after `i`, or -1.
pub open spec fn first_index_of(s: Seq<char>, c: char, i: int) -> int
    decreases s.len() - i,
{
    if i < 0 || i >= s.len() {
        -1
    } else if s[i] == c {
        i
    } else {
        first_index_of(s, c, i + 1)
    }
}

proof fn lemma_first_index_of_range(s: Seq<char>, c: char, i: int)
    requires
        0 <= i <= s.len(),
    ensures
        first_index_of(s, c, i) == -1 || i <= first_index_of(s, c, i) < s.len(),
        first_index_of(s, c, i) >= 0 ==> s[first_index_of(s, c, i)] == c,
    decreases s.len() - i,
{
    if i < s.len() && s[i] != c {
        lemma_first_index_of_range(s, c, i + 1);
    }
}

impl InputSpec {
    /// Builds the spec from its configuration spelling: the literal
    /// `cmdline` is the entry point, anything else is kept verbatim.
    pub fn from_config_str(s: &str) -> (r: InputSpec)
        ensures
            r@ == if s@ == "cmdline"@ {
                InputSpecV::Cmdline
            } else {
                InputSpecV::Prefixed(s@)
            },
    {
        if str_eq(s, "cmdline") {
            InputSpec::Cmdline
        } else {
            InputSpec::Prefixed(String::from_str(s))
        }
    }

    /// Splits the spelling into `(kind, value)`: `("cmdline", None)` for the
    /// entry point; a prefixed form splits at its first colon; a form with
    /// no colon is `("unknown", None)`.
    pub fn parse_type(&self) -> (r: (String, Option<String>))
        ensures
            match self@ {
                InputSpecV::Cmdline => r.0@ == "cmdline"@ && r.1 is None,
                InputSpecV::Prefixed(s) => {
                    let i = first_index_of(s, ':', 0);
                    if i >= 0 {
                        r.0@ == s.take(i) && match r.1 {
                            Option::Some(v) => v@ == s.skip(i + 1),
                            Option::None => false,
                        }
                    } else {
                        r.0@ == "unknown"@ && r.1 is None
                    }
                },
            },
    {
        match self {
            InputSpec::Cmdline => (String::from_str("cmdline"), Option::None),
            InputSpec::Prefixed(s) => split_once_colon(s.as_str()),
        }
    }
}

/// Splits `s` at its first colon; `("unknown", None)` when there is none.
fn split_once_colon(s: &str) -> (r: (String, Option<String>))
    ensures
        ({
            let i = first_index_of(s@, ':', 0);
            if i >= 0 {
                r.0@ == s@.take(i) && match r.1 {
                    Option::Some(v) => v@ == s@.skip(i + 1),
                    Option::None => false,
                }
            } else {
                r.0@ == "unknown"@ && r.1 is None
            }
        }),
{
    let chars = str_to_chars(s);
    let n = chars.len();
    let mut i: usize = 0;
    while i < n && chars[i] != ':'
        invariant
            i <= n,
            n == s@.len(),
            chars@ == s@,
            first_index_of(s@, ':', 0) == first_index_of(s@, ':', i as int),
        decreases n - i,
    {
        i += 1;
    }
    if i >= n {
        return (String::from_str("unknown"), Option::None);
    }
    proof {
        lemma_first_index_of_range(s@, ':', i as int);
    }
    let prefix = copy_range(&chars, 0, i);
    let value = copy_range(&chars, i + 1, n);
    proof {
        assert(s@.take(i as int) =~= chars@.subrange(0, i as int));
        assert(s@.skip(i + 1 as int) =~= chars@.subrange(i + 1 as int, n as int));
    }
    (chars_to_string(&prefix), Option::Some(chars_to_string(&value)))
}

/// How a matched rule places the file.
#[derive(Clone, Debug, PartialEq)]
pub enum ActionSpec {
    Move,
    Copy,
    Symlink,
    Hardlink,
    Command(String),
}

pub enum ActionSpecV {
    Move,
    Copy,
    Symlink,
    Hardlink,
    Command(Seq<char>),
}

impl View for ActionSpec {
    type V = ActionSpecV;

    open spec fn view(&self) -> ActionSpecV {
        match self {
            ActionSpec::Move => ActionSpecV::Move,
            ActionSpec::Copy => ActionSpecV::Copy,
            ActionSpec::Symlink => ActionSpecV::Symlink,
            ActionSpec::Hardlink => ActionSpecV::Hardlink,
            ActionSpec::Command(s) => ActionSpecV::Command(s@),
        }
    }
}

impl ActionSpec {
    /// Builds the action from its configuration spelling: the four literals
    /// name the built-in placements; any other string is an inline command
    /// template.
    pub fn from_config_str(s: &str) -> (r: ActionSpec)
        ensures
            r@ == if s@ == "move"@ {
                ActionSpecV::Move
            } else if s@ == "copy"@ {
                ActionSpecV::Copy
            } else if s@ == "symlink"@ {
                ActionSpecV::Symlink
            } else if s@ == "hardlink"@ {
                ActionSpecV::Hardlink
            } else {
                ActionSpecV::Command(s@)
            },
    {
        if str_eq(s, "move") {
            ActionSpec::Move
        } else if str_eq(s, "copy") {
            ActionSpec::Copy
        } else if str_eq(s, "symlink") {
            ActionSpec::Symlink
        } else if str_eq(s, "hardlink") {
            ActionSpec::Hardlink
        } else {
            ActionSpec::Command(String::from_str(s))
        }
    }

    /// A structural copy whose view equals this value's view.
    pub fn duplicate(&self) -> (r: ActionSpec)
        ensures
            r@ == self@,
    {
        match self {
            ActionSpec::Move => ActionSpec::Move,
            ActionSpec::Copy => ActionSpec::Copy,
            ActionSpec::Symlink => ActionSpec::Symlink,
            ActionSpec::Hardlink => ActionSpec::Hardlink,
            ActionSpec::Command(s) => ActionSpec::Command(s.clone()),
        }
    }

    /// Splits the action into `(kind, payload)`: the four built-ins carry no
    /// payload; a command spelled `cmd:<template>` yields
    /// `("cmd", Some(template))`; anything else is `("unknown", None)`.
    pub fn parse_action(&self) -> (r: (String, Option<String>))
        ensures
            match self@ {
                ActionSpecV::Move => r.0@ == "move"@ && r.1 is None,
                ActionSpecV::Copy => r.0@ == "copy"@ && r.1 is None,
                ActionSpecV::Symlink => r.0@ == "symlink"@ && r.1 is None,
                ActionSpecV::Hardlink => r.0@ == "hardlink"@ && r.1 is None,
                ActionSpecV::Command(s) => {
                    let i = first_index_of(s, ':', 0);
                    if i >= 0 && s.take(i) == "cmd"@ {
                        r.0@ == "cmd"@ && match r.1 {
                            Option::Some(v) => v@ == s.skip(i + 1),
                            Option::None => false,
                        }
                    } else {
                        r.0@ == "unknown"@ && r.1 is None
                    }
                },
            },
    {
        match self {
            ActionSpec::Move => (String::from_str("move"), Option::None),
            ActionSpec::Copy => (String::from_str("copy"), Option::None),
            ActionSpec::Symlink => (String::from_str("symlink"), Option::None),
            ActionSpec::Hardlink => (String::from_str("hardlink"), Option::None),
            ActionSpec::Command(s) => {
                let (prefix, value) = split_once_colon(s.as_str());
                match value {
                    Option::Some(v) => {
                        if str_eq(prefix.as_str(), "cmd") {
                            (prefix, Option::Some(v))
                        } else {
                            (String::from_str("unknown"), Option::None)
                        }
                    },
                    Option::None => (String::from_str("unknown"), Option::None),
                }
            },
        }
    }
}

/// The placement a matched rule's action maps to at execution time.
#[derive(Clone, Debug, PartialEq)]
pub enum Action {
    Move,
    Copy,
    Symlink,
    Hardlink,
    Custom(String),
}

/// One rule: a condition over the context, a destination template, an
/// action.
#[derive(Clone, Debug, PartialEq)]
pub struct Rule {
    pub condition: String,
    pub template: String,
    pub action: ActionSpec,
}

/// A named, ordered list of rules fed from `input`.
#[derive(Clone, Debug, PartialEq)]
pub struct Ruleset {
    pub name: String,
    pub input: InputSpec,
    pub rules: Vec<Rule>,
}

/// The whole configured pipeline.
#[derive(Clone, Debug, PartialEq)]
pub struct Pipeline {
    pub rulesets: Vec<Ruleset>,
    pub location_history_path: Option<String>,
    pub location_history_max_hours: u64,
}

/// Is `rs` fed from the output of the ruleset called `name`?
pub open spec fn spec_is_dependent(rs: Ruleset, name: Seq<char>) -> bool {
    match rs.input {
        InputSpec::Cmdline => false,
        InputSpec::Prefixed(s) => s@ == "ruleset:"@ + name,
    }
}

/// The rulesets fed from `name`'s output, in declaration order.
pub open spec fn spec_dependents(all: Seq<Ruleset>, name: Seq<char>) -> Seq<int>
    decreases all.len(),
{
    if all.len() == 0 {
        Seq::<int>::empty()
    } else if spec_is_dependent(all.last(), name) {
        spec_dependents(all.drop_last(), name).push(all.len() - 1)
    } else {
        spec_dependents(all.drop_last(), name)
    }
}

/// Indices of the rulesets whose `input` is `ruleset:<ruleset_name>`, in
/// declaration order.
pub fn find_dependent_rulesets(ruleset_name: &str, all_rulesets: &Vec<Ruleset>) -> (r: Vec<usize>)
    ensures
        r@.map_values(|u: usize| u as int) == spec_dependents(all_rulesets@, ruleset_name@),
        forall|k: int| 0 <= k < r@.len() ==> r@[k] < all_rulesets@.len(),
{
    let mut expected = String::from_str("ruleset:");
    expected.append(ruleset_name);
    let mut out: Vec<usize> = Vec::new();
    let mut i: usize = 0;
    let n = all_rulesets.len();
    proof {
        assert(all_rulesets@.subrange(0, 0) =~= Seq::<Ruleset>::empty());
        assert(out@.map_values(|u: usize| u as int) =~= Seq::<int>::empty());
    }
    while i < n
        invariant
            i <= n,
            n == all_rulesets@.len(),
            expected@ == "ruleset:"@ + ruleset_name@,
            out@.map_values(|u: usize| u as int) == spec_dependents(
                all_rulesets@.subrange(0, i as int),
                ruleset_name@,
            ),
            forall|k: int| 0 <= k < out@.len() ==> out@[k] < i,
        decreases n - i,
    {
        let ghost prev = out@;
        let matched: bool;
        match &all_rulesets[i].input {
            InputSpec::Cmdline => {
                matched = false;
            },
            InputSpec::Prefixed(s) => {
                matched = str_eq(s.as_str(), expected.as_str());
            },
        }
        if matched {
            out.push(i);
            proof {
                assert(out@.map_values(|u: usize| u as int) =~= prev.map_values(
                    |u: usize| u as int,
                ).push(i as int));
            }
        }
        proof {
            assert(all_rulesets@.subrange(0, i + 1 as int).drop_last() =~= all_rulesets@.subrange(
                0,
                i as int,
            ));
            assert(all_rulesets@.subrange(0, i + 1 as int).last() == all_rulesets@[i as int]);
        }
        i += 1;
    }
    proof {
        assert(all_rulesets@.subrange(0, n as int) =~= all_rulesets@);
    }
    out
}

impl RuleEngine {
    /// Evaluates one rule: `Ok(Some((destination, action)))` when the
    /// condition holds, `Ok(None)` when it does not, `Err` when it cannot be
    /// evaluated.
    pub fn process_rule(&self, rule: &Rule, context: &MediaContext) -> (r: Result<
        Option<(String, ActionSpec)>,
        RuleError,
    >)
        ensures
            match spec_evaluate_condition(rule.condition@, context@) {
                Option::None => r is Err,
                Option::Some(false) => r == Result::<
                    Option<(String, ActionSpec)>,
                    RuleError,
                >::Ok(Option::<(String, ActionSpec)>::None),
                Option::Some(true) => match r {
                    Result::Ok(Option::Some((d, a))) => d@ == spec_expand(
                        rule.template@,
                        context@,
                    ) && a@ == rule.action@,
                    _ => false,
                },
            },
    {
        match self.evaluate_condition(rule.condition.as_str(), context) {
            Result::Ok(true) => {
                let destination = apply_template(rule.template.as_str(), context);
                Result::Ok(Option::Some((destination, rule.action.duplicate())))
            },
            Result::Ok(false) => Result::Ok(Option::None),
            Result::Err(e) => Result::Err(e),
        }
    }

    /// First-match-wins over one ruleset: the result names the smallest-index
    /// rule whose condition evaluates true (rules whose conditions error are
    /// non-matching), with its expanded destination and its action; `None`
    /// when no rule matches.
    pub fn match_ruleset(&self, ruleset: &Ruleset, context: &MediaContext) -> (r: Option<
        (usize, String, ActionSpec),
    >)
        ensures
            match r {
                Option::Some((i, d, a)) => {
                    &&& i < ruleset.rules@.len()
                    &&& spec_evaluate_condition(ruleset.rules@[i as int].condition@, context@)
                        == Option::Some(true)
                    &&& forall|j: int|
                        0 <= j < i ==> spec_evaluate_condition(
                            #[trigger] ruleset.rules@[j].condition@,
                            context@,
                        ) != Option::Some(true)
                    &&& d@ == spec_expand(ruleset.rules@[i as int].template@, context@)
                    &&& a@ == ruleset.rules@[i as int].action@
                },
                Option::None => forall|j: int|
                    0 <= j < ruleset.rules@.len() ==> spec_evaluate_condition(
                        #[trigger] ruleset.rules@[j].condition@,
                        context@,
                    ) != Option::Some(true),
            },
    {
        let mut i: usize = 0;
        let n = ruleset.rules.len();
        while i < n
            invariant
                i <= n,
                n == ruleset.rules@.len(),
                forall|j: int|
                    0 <= j < i ==> spec_evaluate_condition(
                        #[trigger] ruleset.rules@[j].condition@,
                        context@,
                    ) != Option::Some(true),
            decreases n - i,
        {
            match self.process_rule(&ruleset.rules[i], context) {
                Result::Ok(Option::Some((destination, action))) => {
                    return Option::Some((i, destination, action));
                },
                Result::Ok(Option::None) => {},
                Result::Err(_) => {},
            }
            i += 1;
        }
        Option::None
    }
}

/// The media type a sniffed MIME string maps to.
pub open spec fn spec_media_type(mime: Option<Seq<char>>) -> Seq<char> {
    match mime {
        Option::Some(m) => {
            if has_prefix(m, "image/"@) {
                "image"@
            } else if has_prefix(m, "video/"@) {
                "video"@
            } else {
                "unknown"@
            }
        },
        Option::None => "unknown"@,
    }
}

/// Maps a sniffed MIME type to `image`, `video` or `unknown`.
pub fn media_type_from_mime(mime: Option<&str>) -> (r: String)
    ensures
        r@ == spec_media_type(
            match mime {
                Option::Some(m) => Option::Some(m@),
                Option::None => Option::None,
            },
        ),
{
    match mime {
        Option::Some(m) => {
            let chars = str_to_chars(m);
            if crate::template::has_prefix_exec(&chars, "image/") {
                String::from_str("image")
            } else if crate::template::has_prefix_exec(&chars, "video/") {
                String::from_str("video")
            } else {
                String::from_str("unknown")
            }
        },
        Option::None => String::from_str("unknown"),
    }
}

/// Last position of `c` in `s`, or -1.
pub open spec fn last_index_of(s: Seq<char>, c: char) -> int
    decreases s.len(),
{
    if s.len() == 0 {
        -1
    } else if s.last() == c {
        s.len() - 1
    } else {
        last_index_of(s.drop_last(), c)
    }
}

proof fn lemma_last_index_of_range(s: Seq<char>, c: char)
    ensures
        -1 <= last_index_of(s, c) < s.len(),
        last_index_of(s, c) >= 0 ==> s[last_index_of(s, c)] == c,
        forall|j: int| last_index_of(s, c) < j < s.len() ==> s[j] != c,
    decreases s.len(),
{
    if s.len() > 0 && s.last() != c {
        lemma_last_index_of_range(s.drop_last(), c);
        assert(forall|j: int| 0 <= j < s.len() - 1 ==> s[j] == s.drop_last()[j]);
    }
}

/// The basename of a path: everything after the last slash.
pub open spec fn spec_basename(p: Seq<char>) -> Seq<char> {
    p.skip(last_index_of(p, '/') + 1)
}

/// The parent of a path: everything before the last slash; `/` itself when
/// the last slash leads the path; empty when there is no slash.
pub open spec fn spec_parent(p: Seq<char>) -> Seq<char> {
    let i = last_index_of(p, '/');
    if i < 0 {
        Seq::<char>::empty()
    } else if i == 0 {
        "/"@
    } else {
        p.take(i)
    }
}

/// The stem of a basename: the part before its last dot, unless that dot
/// leads the name or there is none.
pub open spec fn spec_stem(b: Seq<char>) -> Seq<char> {
    let d = last_index_of(b, '.');
    if d <= 0 {
        b
    } else {
        b.take(d)
    }
}

/// The extension of a basename: the part after its last dot, unless that
/// dot leads the name or there is none (then empty).
pub open spec fn spec_extension(b: Seq<char>) -> Seq<char> {
    let d = last_index_of(b, '.');
    if d <= 0 {
        Seq::<char>::empty()
    } else {
        b.skip(d + 1)
    }
}

fn last_index_of_exec(chars: &Vec<char>, c: char) -> (r: Option<usize>)
    ensures
        match r {
            Option::Some(i) => last_index_of(chars@, c) == i && i < chars@.len(),
            Option::None => last_index_of(chars@, c) == -1,
        },
{
    let n = chars.len();
    let mut k = n;
    proof {
        assert(chars@.take(n as int) =~= chars@);
    }
    while k > 0
        invariant
            k <= n,
            n == chars@.len(),
            last_index_of(chars@, c) == last_index_of(chars@.take(k as int), c),
        decreases k,
    {
        proof {
            assert(chars@.take(k as int).last() == chars@[k - 1 as int]);
            assert(chars@.take(k as int).drop_last() =~= chars@.take(k - 1 as int));
        }
        if chars[k - 1] == c {
            proof {
                lemma_last_index_of_range(chars@.take(k as int), c);
            }
            return Option::Some(k - 1);
        }
        k -= 1;
    }
    proof {
        assert(chars@.take(0) =~= Seq::<char>::empty());
    }
    Option::None
}

/// The source block of a file path: parent directory, stem, extension,
/// basename, and the given size. Empty stems or basenames fall back to
/// `unknown`, as the extractor reports them.
pub fn source_context_from_path(path: &str, size: u64) -> (r: SourceContext)
    ensures
        r@.path == if spec_parent(path@).len() == 0 {
            "."@
        } else {
            spec_parent(path@)
        },
        r@.name == if spec_stem(spec_basename(path@)).len() == 0 {
            "unknown"@
        } else {
            spec_stem(spec_basename(path@))
        },
        r@.extension == spec_extension(spec_basename(path@)),
        r@.original == if spec_basename(path@).len() == 0 {
            "unknown"@
        } else {
            spec_basename(path@)
        },
        r@.size == size,
{
    proof {
        reveal_strlit("/");
        reveal_strlit(".");
    }
    let chars = str_to_chars(path);
    let n = chars.len();
    let base: Vec<char>;
    let parent: String;
    match last_index_of_exec(&chars, '/') {
        Option::Some(i) => {
            base = copy_range(&chars, i + 1, n);
            proof {
                assert(chars@.subrange(i + 1 as int, n as int) =~= spec_basename(path@));
            }
            if i == 0 {
                parent = String::from_str("/");
            } else {
                let pv = copy_range(&chars, 0, i);
                proof {
                    assert(chars@.subrange(0, i as int) =~= path@.take(i as int));
                }
                parent = chars_to_string(&pv);
            }
        },
        Option::None => {
            base = copy_range(&chars, 0, n);
            proof {
                assert(chars@.subrange(0, n as int) =~= spec_basename(path@));
            }
            parent = String::from_str(".");
        },
    }
    let bn = base.len();
    let stem: Vec<char>;
    let extension: Vec<char>;
    match last_index_of_exec(&base, '.') {
        Option::Some(d) => {
            if d == 0 {
                stem = copy_range(&base, 0, bn);
                extension = Vec::new();
                proof {
                    assert(base@.subrange(0, bn as int) =~= base@);
                }
            } else {
                stem = copy_range(&base, 0, d);
                extension = copy_range(&base, d + 1, bn);
                proof {
                    assert(base@.subrange(0, d as int) =~= base@.take(d as int));
                    assert(base@.subrange(d + 1 as int, bn as int) =~= base@.skip(d + 1 as int));
                }
            }
        },
        Option::None => {
            stem = copy_range(&base, 0, bn);
            extension = Vec::new();
            proof {
                assert(base@.subrange(0, bn as int) =~= base@);
            }
        },
    }
    let name: String = if stem.len() == 0 {
        String::from_str("unknown")
    } else {
        chars_to_string(&stem)
    };
    let original: String = if base.len() == 0 {
        String::from_str("unknown")
    } else {
        chars_to_string(&base)
    };
    SourceContext {
        path: parent,
        name,
        extension: chars_to_string(&extension),
        original,
        size,
    }
}

/// The source block the traversal hands to a dependent ruleset: the path
/// field carries the destination's parent directory, names fall back to
/// empty.
pub fn create_source_context(path: &str, size: u64) -> (r: SourceContext)
    ensures
        r@.path == if spec_parent(path@).len() == 0 {
            "."@
        } else {
            spec_parent(path@)
        },
        r@.name == spec_stem(spec_basename(path@)),
        r@.extension == spec_extension(spec_basename(path@)),
        r@.original == spec_basename(path@),
        r@.size == size,
{
    proof {
        reveal_strlit("/");
        reveal_strlit(".");
    }
    let chars = str_to_chars(path);
    let n = chars.len();
    let base: Vec<char>;
    let parent: String;
    match last_index_of_exec(&chars, '/') {
        Option::Some(i) => {
            base = copy_range(&chars, i + 1, n);
            proof {
                assert(chars@.subrange(i + 1 as int, n as int) =~= spec_basename(path@));
            }
            if i == 0 {
                parent = String::from_str("/");
            } else {
                let pv = copy_range(&chars, 0, i);
                proof {
                    assert(chars@.subrange(0, i as int) =~= path@.take(i as int));
                }
                parent = chars_to_string(&pv);
            }
        },
        Option::None => {
            base = copy_range(&chars, 0, n);
            proof {
                assert(chars@.subrange(0, n as int) =~= spec_basename(path@));
            }
            parent = String::from_str(".");
        },
    }
    let bn = base.len();
    let stem: Vec<char>;
    let extension: Vec<char>;
    match last_index_of_exec(&base, '.') {
        Option::Some(d) => {
            if d == 0 {
                stem = copy_range(&base, 0, bn);
                extension = Vec::new();
                proof {
                    assert(base@.subrange(0, bn as int) =~= base@);
                }
            } else {
                stem = copy_range(&base, 0, d);
                extension = copy_range(&base, d + 1, bn);
                proof {
                    assert(base@.subrange(0, d as int) =~= base@.take(d as int));
                    assert(base@.subrange(d + 1 as int, bn as int) =~= base@.skip(d + 1 as int));
                }
            }
        },
        Option::None => {
            stem = copy_range(&base, 0, bn);
            extension = Vec::new();
            proof {
                assert(base@.subrange(0, bn as int) =~= base@);
            }
        },
    }
    SourceContext {
        path: parent,
        name: chars_to_string(&stem),
        extension: chars_to_string(&extension),
        original: chars_to_string(&base),
        size,
    }
}

} // verus!
