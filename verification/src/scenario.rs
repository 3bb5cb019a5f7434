//! Tag-based scenario selection: include/exclude tag patterns, a
//! skip-slow switch, presets, and detailed selection logging.

use vstd::prelude::*;

use crate::text::{join_sep, spec_join, str_eq};

verus! {

/// How a scenario can be run.
#[derive(Clone, Copy, PartialEq, Eq, Structural, Debug)]
pub enum ExecutionMode {
    E2E,
    Conformance,
    Benchmark,
}

/// The word for an execution mode.
pub open spec fn spec_mode_str(m: ExecutionMode) -> Seq<char> {
    match m {
        ExecutionMode::E2E => "E2E"@,
        ExecutionMode::Conformance => "Conformance"@,
        ExecutionMode::Benchmark => "Benchmark"@,
    }
}

impl ExecutionMode {
    /// The word for this mode.
    pub fn as_str(&self) -> (r: &'static str)
        ensures
            r@ == spec_mode_str(*self),
    {
        match self {
            ExecutionMode::E2E => "E2E",
            ExecutionMode::Conformance => "Conformance",
            ExecutionMode::Benchmark => "Benchmark",
        }
    }
}

/// The command a scenario runs.
pub struct ScenarioCommand {
    pub args: Vec<String>,
}

impl ScenarioCommand {
    /// A command from its arguments.
    pub fn new(args: Vec<String>) -> (r: ScenarioCommand)
        ensures
            r.args == args,
    {
        ScenarioCommand { args }
    }
}

/// One test scenario: a named command with tags and supported modes.
/// An empty mode list means the scenario supports every mode.
pub struct Scenario {
    pub name: String,
    pub command: ScenarioCommand,
    pub tags: Vec<String>,
    pub modes: Vec<ExecutionMode>,
}

impl Scenario {
    /// A scenario with no tags, supporting every mode.
    pub fn new(name: String, command: ScenarioCommand) -> (r: Scenario)
        ensures
            r.name == name && r.command == command,
            r.tags@.len() == 0 && r.modes@.len() == 0,
    {
        Scenario { name, command, tags: Vec::new(), modes: Vec::new() }
    }

    /// Replaces the tags.
    pub fn with_tags(self, tags: Vec<String>) -> (r: Scenario)
        ensures
            r.name == self.name && r.command == self.command && r.modes == self.modes,
            r.tags == tags,
    {
        Scenario { tags, ..self }
    }

    /// Replaces the supported modes.
    pub fn with_modes(self, modes: Vec<ExecutionMode>) -> (r: Scenario)
        ensures
            r.name == self.name && r.command == self.command && r.tags == self.tags,
            r.modes == modes,
    {
        Scenario { modes, ..self }
    }

    /// Whether the scenario carries the tag.
    pub fn has_tag(&self, tag: &str) -> (r: bool)
        ensures
            r == self.tags.deep_view().contains(tag@),
    {
        let mut i: usize = 0;
        while i < self.tags.len()
            invariant
                i <= self.tags@.len(),
                forall|j: int| 0 <= j < i ==> self.tags.deep_view()[j] != tag@,
            decreases self.tags@.len() - i,
        {
            proof {
                assert(self.tags.deep_view()[i as int] == self.tags@[i as int]@);
            }
            if str_eq(self.tags[i].as_str(), tag) {
                return true;
            }
            i = i + 1;
        }
        false
    }

    /// Whether the scenario supports the mode: listed, or no list given.
    pub open spec fn spec_supports_mode(self, mode: ExecutionMode) -> bool {
        self.modes@.len() == 0 || self.modes@.contains(mode)
    }

    /// Whether the scenario supports the mode.
    pub fn supports_mode(&self, mode: ExecutionMode) -> (r: bool)
        ensures
            r == self.spec_supports_mode(mode),
    {
        if self.modes.len() == 0 {
            return true;
        }
        let mut i: usize = 0;
        while i < self.modes.len()
            invariant
                i <= self.modes@.len(),
                forall|j: int| 0 <= j < i ==> self.modes@[j] != mode,
            decreases self.modes@.len() - i,
        {
            if self.modes[i] == mode {
                return true;
            }
            i = i + 1;
        }
        false
    }
}

/// Filter for selecting scenarios by tags, with a skip-slow switch and
/// an optional required execution mode.
///
/// Tag lists keep the order they were given in, and a repeated tag has
/// no further effect: matching only asks whether a tag is present.
pub struct ScenarioFilter {
    /// Only scenarios with at least one of these tags pass (empty: all).
    pub include_tags: Vec<String>,
    /// Scenarios with any of these tags are excluded.
    pub exclude_tags: Vec<String>,
    /// Scenarios tagged `slow` are excluded.
    pub skip_slow: bool,
    /// Only scenarios supporting this mode pass.
    pub required_mode: Option<ExecutionMode>,
}

/// Whether a scenario passes a filter: the required mode is supported,
/// slow scenarios are kept only when allowed, no excluded tag is
/// present, and — when include tags are given — at least one is.
pub open spec fn filter_matches(f: ScenarioFilter, sc: Scenario) -> bool {
    &&& (match f.required_mode {
        Some(m) => sc.spec_supports_mode(m),
        None => true,
    })
    &&& (f.skip_slow ==> !sc.tags.deep_view().contains("slow"@))
    &&& (forall|i: int|
        0 <= i < f.exclude_tags.deep_view().len() ==> !sc.tags.deep_view().contains(
            #[trigger] f.exclude_tags.deep_view()[i],
        ))
    &&& (f.include_tags.deep_view().len() > 0 ==> exists|i: int|
        0 <= i < f.include_tags.deep_view().len() && sc.tags.deep_view().contains(
            #[trigger] f.include_tags.deep_view()[i],
        ))
}

impl ScenarioFilter {
    /// A filter that accepts every scenario.
    pub fn all() -> (r: ScenarioFilter)
        ensures
            r.include_tags@.len() == 0 && r.exclude_tags@.len() == 0,
            !r.skip_slow && r.required_mode is None,
    {
        ScenarioFilter {
            include_tags: Vec::new(),
            exclude_tags: Vec::new(),
            skip_slow: false,
            required_mode: None,
        }
    }

    /// The quick preset: only `quick` scenarios, nothing slow.
    pub fn quick() -> (r: ScenarioFilter)
        ensures
            r.include_tags.deep_view() =~= seq!["quick"@],
            r.exclude_tags.deep_view() =~= seq!["slow"@, "stress"@],
            r.skip_slow && r.required_mode is None,
    {
        let mut include_tags: Vec<String> = Vec::new();
        include_tags.push("quick".to_owned());
        let mut exclude_tags: Vec<String> = Vec::new();
        exclude_tags.push("slow".to_owned());
        exclude_tags.push("stress".to_owned());
        let r = ScenarioFilter { include_tags, exclude_tags, skip_slow: true, required_mode: None };
        proof {
            assert(r.include_tags.deep_view() =~= seq!["quick"@]);
            assert(r.exclude_tags.deep_view() =~= seq!["slow"@, "stress"@]);
        }
        r
    }

    /// The continuous-integration preset: nothing slow, no stress, no
    /// benchmarks.
    pub fn ci() -> (r: ScenarioFilter)
        ensures
            r.include_tags@.len() == 0,
            r.exclude_tags.deep_view() =~= seq!["slow"@, "stress"@, "benchmark"@],
            r.skip_slow && r.required_mode is None,
    {
        let mut exclude_tags: Vec<String> = Vec::new();
        exclude_tags.push("slow".to_owned());
        exclude_tags.push("stress".to_owned());
        exclude_tags.push("benchmark".to_owned());
        let r = ScenarioFilter {
            include_tags: Vec::new(),
            exclude_tags,
            skip_slow: true,
            required_mode: None,
        };
        proof {
            assert(r.exclude_tags.deep_view() =~= seq!["slow"@, "stress"@, "benchmark"@]);
        }
        r
    }

    /// Replaces the include tags.
    pub fn with_include_tags(self, tags: Vec<String>) -> (r: ScenarioFilter)
        ensures
            r.include_tags == tags,
            r.exclude_tags == self.exclude_tags && r.skip_slow == self.skip_slow
                && r.required_mode == self.required_mode,
    {
        ScenarioFilter { include_tags: tags, ..self }
    }

    /// Replaces the exclude tags.
    pub fn with_exclude_tags(self, tags: Vec<String>) -> (r: ScenarioFilter)
        ensures
            r.exclude_tags == tags,
            r.include_tags == self.include_tags && r.skip_slow == self.skip_slow
                && r.required_mode == self.required_mode,
    {
        ScenarioFilter { exclude_tags: tags, ..self }
    }

    /// Sets the skip-slow switch.
    pub fn with_skip_slow(self, skip: bool) -> (r: ScenarioFilter)
        ensures
            r.skip_slow == skip,
            r.include_tags == self.include_tags && r.exclude_tags == self.exclude_tags
                && r.required_mode == self.required_mode,
    {
        ScenarioFilter { skip_slow: skip, ..self }
    }

    /// Requires an execution mode.
    pub fn with_required_mode(self, mode: ExecutionMode) -> (r: ScenarioFilter)
        ensures
            r.required_mode == Some(mode),
            r.include_tags == self.include_tags && r.exclude_tags == self.exclude_tags
                && r.skip_slow == self.skip_slow,
    {
        ScenarioFilter { required_mode: Some(mode), ..self }
    }

    /// Whether a scenario passes this filter.
    pub fn matches(&self, scenario: &Scenario) -> (r: bool)
        ensures
            r == filter_matches(*self, *scenario),
    {
        match self.required_mode {
            Some(m) => {
                if !scenario.supports_mode(m) {
                    return false;
                }
            },
            None => {},
        }
        if self.skip_slow && scenario.has_tag("slow") {
            return false;
        }
        let mut i: usize = 0;
        while i < self.exclude_tags.len()
            invariant
                i <= self.exclude_tags@.len(),
                forall|j: int|
                    0 <= j < i ==> !scenario.tags.deep_view().contains(
                        #[trigger] self.exclude_tags.deep_view()[j],
                    ),
            decreases self.exclude_tags@.len() - i,
        {
            proof {
                assert(self.exclude_tags.deep_view()[i as int] == self.exclude_tags@[i as int]@);
            }
            if scenario.has_tag(self.exclude_tags[i].as_str()) {
                return false;
            }
            i = i + 1;
        }
        if self.include_tags.len() > 0 {
            let mut any = false;
            let mut i: usize = 0;
            while i < self.include_tags.len()
                invariant
                    i <= self.include_tags@.len(),
                    any ==> (exists|j: int|
                        0 <= j < self.include_tags.deep_view().len()
                            && scenario.tags.deep_view().contains(
                            #[trigger] self.include_tags.deep_view()[j],
                        )),
                    !any ==> (forall|j: int|
                        0 <= j < i ==> !scenario.tags.deep_view().contains(
                            #[trigger] self.include_tags.deep_view()[j],
                        )),
                decreases self.include_tags@.len() - i,
            {
                proof {
                    assert(self.include_tags.deep_view()[i as int]
                        == self.include_tags@[i as int]@);
                }
                if scenario.has_tag(self.include_tags[i].as_str()) {
                    any = true;
                }
                i = i + 1;
            }
            if !any {
                return false;
            }
        }
        true
    }

    /// A human-readable description of the filter: its parts in a fixed
    /// order, or `all scenarios` when it has none.  Tags are listed in
    /// the order they were given, so the description is deterministic
    /// for a given filter value.
    pub fn describe(&self) -> (r: String)
        ensures
            r@ == spec_describe(*self),
    {
        let mut parts: Vec<String> = Vec::new();
        if self.include_tags.len() > 0 {
            let mut p = "include=[".to_owned();
            p.append(join_sep(&self.include_tags, ",").as_str());
            p.append("]");
            parts.push(p);
        }
        if self.exclude_tags.len() > 0 {
            let mut p = "exclude=[".to_owned();
            p.append(join_sep(&self.exclude_tags, ",").as_str());
            p.append("]");
            parts.push(p);
        }
        if self.skip_slow {
            parts.push("skip_slow".to_owned());
        }
        match self.required_mode {
            Some(m) => {
                let mut p = "mode=".to_owned();
                p.append(m.as_str());
                parts.push(p);
            },
            None => {},
        }
        if parts.len() == 0 {
            "all scenarios".to_owned()
        } else {
            let r = join_sep(&parts, ", ");
            proof {
                assert(parts.deep_view() =~= spec_describe_parts(*self));
            }
            r
        }
    }
}

/// The parts a filter's description is joined from, in order.
pub open spec fn spec_describe_parts(f: ScenarioFilter) -> Seq<Seq<char>> {
    (if f.include_tags@.len() > 0 {
        seq!["include=["@ + spec_join(f.include_tags.deep_view(), ","@) + "]"@]
    } else {
        Seq::empty()
    }) + (if f.exclude_tags@.len() > 0 {
        seq!["exclude=["@ + spec_join(f.exclude_tags.deep_view(), ","@) + "]"@]
    } else {
        Seq::empty()
    }) + (if f.skip_slow {
        seq!["skip_slow"@]
    } else {
        Seq::empty()
    }) + (match f.required_mode {
        Some(m) => seq!["mode="@ + spec_mode_str(m)],
        None => Seq::empty(),
    })
}

/// A filter's description: its parts joined by a comma, or a notice
/// that it keeps everything.
pub open spec fn spec_describe(f: ScenarioFilter) -> Seq<char> {
    if spec_describe_parts(f).len() == 0 {
        "all scenarios"@
    } else {
        spec_join(spec_describe_parts(f), ", "@)
    }
}

/// Why a scenario was excluded: the first reason that applies, in the
/// order the filter tests them.
pub open spec fn spec_exclusion_reason(f: ScenarioFilter, sc: Scenario) -> Seq<char> {
    if (match f.required_mode {
        Some(m) => !sc.spec_supports_mode(m),
        None => false,
    }) {
        "does not support mode "@ + spec_mode_str(f.required_mode.unwrap())
    } else if f.skip_slow && sc.tags.deep_view().contains("slow"@) {
        "tagged 'slow' and skip_slow=true"@
    } else if (exists|i: int|
        0 <= i < f.exclude_tags.deep_view().len() && sc.tags.deep_view().contains(
            #[trigger] f.exclude_tags.deep_view()[i],
        )) {
        "has excluded tag '"@ + first_excluded_tag(f.exclude_tags.deep_view(), sc) + "'"@
    } else if f.include_tags.deep_view().len() > 0 {
        "does not have any included tags"@
    } else {
        "unknown"@
    }
}

/// The first exclude tag the scenario carries.
pub open spec fn first_excluded_tag(ex: Seq<Seq<char>>, sc: Scenario) -> Seq<char>
    decreases ex.len(),
{
    if ex.len() == 0 {
        Seq::empty()
    } else if sc.tags.deep_view().contains(ex[0]) {
        ex[0]
    } else {
        first_excluded_tag(ex.drop_first(), sc)
    }
}

/// Result of filtering scenarios with detailed logging.
pub struct FilterResult {
    /// Scenarios seen.
    pub total_count: usize,
    /// Scenarios that passed.
    pub matched_count: usize,
    /// Scenarios that were excluded.
    pub excluded_count: usize,
    /// Names of the scenarios that passed, in order.
    pub matched_names: Vec<String>,
    /// Names of the excluded scenarios, each with the reason.
    pub excluded_names: Vec<(String, String)>,
    /// The filter's description, for the log.
    pub filter_settings: String,
}

/// The names of the scenarios of `scan` that pass the filter, in order.
pub open spec fn spec_matched_names(f: ScenarioFilter, scan: Seq<Scenario>) -> Seq<Seq<char>>
    decreases scan.len(),
{
    if scan.len() == 0 {
        Seq::empty()
    } else if filter_matches(f, scan.last()) {
        spec_matched_names(f, scan.drop_last()).push(scan.last().name@)
    } else {
        spec_matched_names(f, scan.drop_last())
    }
}

/// The names and reasons of the scenarios of `scan` that the filter
/// excludes, in order.
pub open spec fn spec_excluded_names(f: ScenarioFilter, scan: Seq<Scenario>) -> Seq<
    (Seq<char>, Seq<char>),
>
    decreases scan.len(),
{
    if scan.len() == 0 {
        Seq::empty()
    } else if !filter_matches(f, scan.last()) {
        spec_excluded_names(f, scan.drop_last()).push(
            (scan.last().name@, spec_exclusion_reason(f, scan.last())),
        )
    } else {
        spec_excluded_names(f, scan.drop_last())
    }
}

impl ScenarioFilter {
    /// Why this scenario was excluded.
    fn exclusion_reason(&self, scenario: &Scenario) -> (r: String)
        ensures
            r@ == spec_exclusion_reason(*self, *scenario),
    {
        match self.required_mode {
            Some(m) => {
                if !scenario.supports_mode(m) {
                    let mut r = "does not support mode ".to_owned();
                    r.append(m.as_str());
                    return r;
                }
            },
            None => {},
        }
        if self.skip_slow && scenario.has_tag("slow") {
            return "tagged 'slow' and skip_slow=true".to_owned();
        }
        let mut i: usize = 0;
        while i < self.exclude_tags.len()
            invariant
                i <= self.exclude_tags@.len(),
                (match self.required_mode {
                    Some(m) => scenario.spec_supports_mode(m),
                    None => true,
                }),
                !(self.skip_slow && scenario.tags.deep_view().contains("slow"@)),
                forall|j: int|
                    0 <= j < i ==> !scenario.tags.deep_view().contains(
                        #[trigger] self.exclude_tags.deep_view()[j],
                    ),
            decreases self.exclude_tags@.len() - i,
        {
            proof {
                assert(self.exclude_tags.deep_view()[i as int] == self.exclude_tags@[i as int]@);
            }
            if scenario.has_tag(self.exclude_tags[i].as_str()) {
                let mut r = "has excluded tag '".to_owned();
                r.append(self.exclude_tags[i].as_str());
                r.append("'");
                proof {
                    lemma_first_excluded_skip(
                        self.exclude_tags.deep_view(),
                        *scenario,
                        i as int,
                    );
                    assert(r@ =~= "has excluded tag '"@ + first_excluded_tag(
                        self.exclude_tags.deep_view(),
                        *scenario,
                    ) + "'"@);
                    assert(exists|j: int|
                        0 <= j < self.exclude_tags.deep_view().len()
                            && scenario.tags.deep_view().contains(
                            #[trigger] self.exclude_tags.deep_view()[j],
                        ));
                    assert(match self.required_mode {
                        Some(m) => scenario.spec_supports_mode(m),
                        None => true,
                    });
                    assert(!(self.skip_slow && scenario.tags.deep_view().contains("slow"@)));
                    assert(r@ =~= spec_exclusion_reason(*self, *scenario));
                }
                return r;
            }
            i = i + 1;
        }
        if self.include_tags.len() > 0 {
            return "does not have any included tags".to_owned();
        }
        "unknown".to_owned()
    }

    /// Filters scenarios, logging each outcome: the counts, the matched
    /// names in order, and each excluded name with its reason.
    pub fn filter_with_log(&self, scenarios: &Vec<Scenario>) -> (r: FilterResult)
        ensures
            r.total_count == scenarios@.len(),
            r.matched_count == r.matched_names@.len(),
            r.excluded_count == r.excluded_names@.len(),
            r.matched_count + r.excluded_count == r.total_count,
            r.matched_names.deep_view() == spec_matched_names(*self, scenarios@),
            r.excluded_names.deep_view() == spec_excluded_names(*self, scenarios@),
            r.filter_settings@ == spec_describe(*self),
    {
        let mut matched_names: Vec<String> = Vec::new();
        let mut excluded_names: Vec<(String, String)> = Vec::new();
        let mut i: usize = 0;
        while i < scenarios.len()
            invariant
                i <= scenarios@.len(),
                matched_names@.len() + excluded_names@.len() == i,
                matched_names.deep_view() =~= spec_matched_names(*self, scenarios@.take(i as int)),
                excluded_names.deep_view() =~= spec_excluded_names(
                    *self,
                    scenarios@.take(i as int),
                ),
            decreases scenarios@.len() - i,
        {
            let sc = &scenarios[i];
            if self.matches(sc) {
                matched_names.push(sc.name.clone());
            } else {
                excluded_names.push((sc.name.clone(), self.exclusion_reason(sc)));
            }
            i = i + 1;
            proof {
                assert(scenarios@.take(i as int).drop_last() =~= scenarios@.take(i - 1));
                assert(scenarios@.take(i as int).last() == scenarios@[i - 1]);
                assert(matched_names.deep_view() =~= spec_matched_names(
                    *self,
                    scenarios@.take(i as int),
                ));
                assert(excluded_names.deep_view() =~= spec_excluded_names(
                    *self,
                    scenarios@.take(i as int),
                ));
            }
        }
        proof {
            assert(scenarios@.take(scenarios@.len() as int) =~= scenarios@);
        }
        let total_count = scenarios.len();
        let matched_count = matched_names.len();
        let excluded_count = excluded_names.len();
        FilterResult {
            total_count,
            matched_count,
            excluded_count,
            matched_names,
            excluded_names,
            filter_settings: self.describe(),
        }
    }
}

/// When no exclude tag before `i` is carried and the tag at `i` is, the
/// first carried exclude tag is the one at `i`.
proof fn lemma_first_excluded_skip(ex: Seq<Seq<char>>, sc: Scenario, i: int)
    requires
        0 <= i < ex.len(),
        forall|j: int| 0 <= j < i ==> !sc.tags.deep_view().contains(#[trigger] ex[j]),
        sc.tags.deep_view().contains(ex[i]),
    ensures
        first_excluded_tag(ex, sc) == ex[i],
    decreases i,
{
    if i > 0 {
        lemma_first_excluded_skip(ex.drop_first(), sc, i - 1);
        assert(ex.drop_first()[i - 1] == ex[i]);
        assert forall|j: int| 0 <= j < i - 1 implies !sc.tags.deep_view().contains(
            #[trigger] ex.drop_first()[j],
        ) by {
            assert(ex.drop_first()[j] == ex[j + 1]);
        }
    }
}

} // verus!
