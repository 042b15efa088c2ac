//! The decisions of a parse request, apart from the work they wait on.
//!
//! A request runs with configuration keys that its caller gives or that are
//! detected from the statement's text. It looks up the configuration of each
//! key, in order, then runs the statement parsers (or renders debug output)
//! with those configurations. A [`ConfigRun`] makes every decision of that
//! flow: it says which [`Step`] its caller takes next, and is told what came of
//! it by an [`Answer`].

use vstd::prelude::*;
use crate::error::ParseError;
use crate::text::{join_strings, join_with, string_views};

verus! {

/// What a request asks for.
#[derive(Debug, Clone, Copy, PartialEq, Eq, Structural)]
pub enum Request {
    /// The first error-free statement that the parsers read.
    Statement,
    /// The parsers' debug output.
    Debug,
}

/// Where a run stands.
#[derive(Debug, Clone, Copy, PartialEq, Eq, Structural)]
pub enum Phase {
    /// Waiting for the detected keys.
    AwaitKeys,
    /// Looking up the configuration of each key.
    LookUp,
    /// Waiting for the parsers (or the debug renderer).
    AwaitParsers,
    /// Finished.
    Done,
}

/// What the caller of a run does next.
#[derive(Debug)]
pub enum Step {
    /// Detect the keys of the configurations that apply to the statement.
    DetectKeys,
    /// Look up the configuration registered under this key.
    LookUpConfig(String),
    /// Run the parsers (for a statement request) or render debug output (for a
    /// debug request) with the configurations looked up, in order.
    RunParsers,
    /// Return the parse result at this index.
    ReturnStatement(usize),
    /// Return this debug output.
    ReturnDebug(String),
    /// Fail with this error.
    Fail(ParseError),
}

/// What came of a step.
#[derive(Debug)]
pub enum Answer {
    /// The detected keys.
    Keys(Vec<String>),
    /// The configuration was found.
    ConfigFound,
    /// No configuration could be had; the store's message.
    ConfigMissing(String),
    /// The parsers' results: the number of errors of each, in order.
    Statements(Vec<usize>),
    /// The rendered debug output.
    DebugText(String),
    /// The parsers failed; their message.
    ParsersFailed(String),
}

/// The abstract state of a run.
pub struct RunModel {
    pub request: Request,
    pub keys: Seq<Seq<char>>,
    pub found: nat,
    pub phase: Phase,
}

/// A parse request in progress.
pub struct ConfigRun {
    request: Request,
    keys: Vec<String>,
    found: usize,
    phase: Phase,
}

impl View for ConfigRun {
    type V = RunModel;

    closed spec fn view(&self) -> RunModel {
        RunModel {
            request: self.request,
            keys: string_views(self.keys@),
            found: self.found as nat,
            phase: self.phase,
        }
    }
}

/// Message of the error for a request that no configuration applies to.
pub open spec fn no_config_message(request: Request) -> Seq<char> {
    match request {
        Request::Statement => "No applicable configurations found for this statement"@,
        Request::Debug => "No applicable configurations found"@,
    }
}

/// Message of the error for a key whose configuration could not be had.
pub open spec fn missing_config_message(key: Seq<char>, reason: Seq<char>) -> Seq<char> {
    "Config '"@ + key + "': "@ + reason
}

/// Index of the first zero among `counts`, if there is one.
pub open spec fn first_zero(counts: Seq<usize>) -> Option<int> {
    if exists|i: int| 0 <= i < counts.len() && counts[i] == 0 {
        Some(choose|i: int| 0 <= i < counts.len() && counts[i] == 0 && forall|j: int| 0 <= j < i ==> counts[j] != 0)
    } else {
        None
    }
}

impl RunModel {
    /// The run's state is consistent: configurations are looked up only for
    /// keys that exist, and the parsers wait only once every key was found.
    pub open spec fn wf(self) -> bool {
        &&& self.found <= self.keys.len()
        &&& self.phase == Phase::AwaitKeys ==> self.keys.len() == 0 && self.found == 0
        &&& self.phase == Phase::LookUp ==> self.found < self.keys.len()
        &&& self.phase == Phase::AwaitParsers ==> self.keys.len() > 0 && self.found
            == self.keys.len()
    }

    /// Whether the run is waiting for this kind of answer.
    pub open spec fn accepts(self, answer: Answer) -> bool {
        match answer {
            Answer::Keys(_) => self.phase == Phase::AwaitKeys,
            Answer::ConfigFound | Answer::ConfigMissing(_) => self.phase == Phase::LookUp,
            Answer::Statements(_) => self.phase == Phase::AwaitParsers && self.request
                == Request::Statement,
            Answer::DebugText(_) => self.phase == Phase::AwaitParsers && self.request
                == Request::Debug,
            Answer::ParsersFailed(_) => self.phase == Phase::AwaitParsers,
        }
    }

    /// How many more answers the run takes at most, once its keys are known.
    pub open spec fn answers_left(self) -> nat {
        match self.phase {
            Phase::AwaitKeys => 0,
            Phase::LookUp => (self.keys.len() - self.found + 1) as nat,
            Phase::AwaitParsers => 1,
            Phase::Done => 0,
        }
    }
}

/// The state and step of a run of `request` once its keys are known: it fails
/// at once when there are none, else it looks up the first.
pub open spec fn keys_known(run: RunModel, step: Step, request: Request, keys: Seq<Seq<char>>) -> bool {
    &&& run.request == request
    &&& run.keys == keys
    &&& run.found == 0
    &&& if keys.len() == 0 {
        &&& run.phase == Phase::Done
        &&& step matches Step::Fail(ParseError::ParsingError(m)) && m@ == no_config_message(request)
    } else {
        &&& run.phase == Phase::LookUp
        &&& step matches Step::LookUpConfig(k) && k@ == keys[0]
    }
}

/// The run after `answer`, and the step it asks for.
pub open spec fn advanced(before: RunModel, answer: Answer, after: RunModel, step: Step) -> bool {
    match answer {
        Answer::Keys(keys) => keys_known(after, step, before.request, string_views(keys@)),
        Answer::ConfigFound => {
            &&& after.request == before.request
            &&& after.keys == before.keys
            &&& after.found == before.found + 1
            &&& if after.found < before.keys.len() {
                &&& after.phase == Phase::LookUp
                &&& step matches Step::LookUpConfig(k) && k@ == before.keys[after.found as int]
            } else {
                &&& after.phase == Phase::AwaitParsers
                &&& step is RunParsers
            }
        },
        Answer::ConfigMissing(reason) => {
            &&& after == RunModel { phase: Phase::Done, ..before }
            &&& step matches Step::Fail(ParseError::ConfigError(m))
                && m@ == missing_config_message(before.keys[before.found as int], reason@)
        },
        Answer::Statements(counts) => {
            &&& after == RunModel { phase: Phase::Done, ..before }
            &&& match first_zero(counts@) {
                Some(i) => step matches Step::ReturnStatement(r) && r == i,
                None => step matches Step::Fail(ParseError::NoValidStatement(m))
                    && m@ == join_with(before.keys, ", "@),
            }
        },
        Answer::DebugText(text) => {
            &&& after == RunModel { phase: Phase::Done, ..before }
            &&& step == Step::ReturnDebug(text)
        },
        Answer::ParsersFailed(reason) => {
            &&& after == RunModel { phase: Phase::Done, ..before }
            &&& step matches Step::Fail(ParseError::ParsingError(m)) && m@ == reason@
        },
    }
}

/// Index of the first result without errors, given each result's error count.
pub fn first_error_free(error_counts: &Vec<usize>) -> (res: Option<usize>)
    ensures
        match res {
            Some(i) => first_zero(error_counts@) == Some(i as int),
            None => first_zero(error_counts@) is None,
        },
        match res {
            Some(i) => i < error_counts.len() && error_counts[i as int] == 0 && forall|j: int|
                0 <= j < i ==> error_counts[j] != 0,
            None => forall|j: int| 0 <= j < error_counts.len() ==> error_counts[j] != 0,
        },
{
    let mut i: usize = 0;
    while i < error_counts.len()
        invariant
            0 <= i <= error_counts.len(),
            forall|j: int| 0 <= j < i ==> error_counts[j] != 0,
        decreases error_counts.len() - i,
    {
        if error_counts[i] == 0 {
            proof {
                let c = error_counts@;
                assert(0 <= i < c.len() && c[i as int] == 0);
                let w = choose|w: int|
                    0 <= w < c.len() && c[w] == 0 && forall|j: int| 0 <= j < w ==> c[j] != 0;
                assert(0 <= w < c.len() && c[w] == 0 && forall|j: int| 0 <= j < w ==> c[j] != 0);
                if w < i {
                    assert(c[w] != 0);
                } else if w > i {
                    assert(c[i as int] != 0);
                }
            }
            return Some(i);
        }
        i = i + 1;
    }
    None
}

/// The error for a key whose configuration could not be had, for `reason`.
pub fn missing_config_error(key: &String, reason: &String) -> (e: ParseError)
    ensures
        e matches ParseError::ConfigError(m) && m@ == missing_config_message(key@, reason@),
{
    let mut m = "Config '".to_owned();
    m.append(key.as_str());
    m.append("': ");
    m.append(reason.as_str());
    ParseError::ConfigError(m)
}

impl ConfigRun {
    /// Whether `answer` is of the kind that the run waits for.
    pub fn accepts(&self, answer: &Answer) -> (b: bool)
        ensures
            b == self@.accepts(*answer),
    {
        match answer {
            Answer::Keys(_) => self.phase == Phase::AwaitKeys,
            Answer::ConfigFound | Answer::ConfigMissing(_) => self.phase == Phase::LookUp,
            Answer::Statements(_) => self.phase == Phase::AwaitParsers && self.request
                == Request::Statement,
            Answer::DebugText(_) => self.phase == Phase::AwaitParsers && self.request
                == Request::Debug,
            Answer::ParsersFailed(_) => self.phase == Phase::AwaitParsers,
        }
    }

    /// The run, once its keys are known, and its first step.
    fn with_keys(request: Request, keys: Vec<String>) -> (res: (ConfigRun, Step))
        ensures
            keys_known(res.0@, res.1, request, string_views(keys@)),
            res.0@.wf(),
    {
        if keys.len() == 0 {
            let m = match request {
                Request::Statement => "No applicable configurations found for this statement",
                Request::Debug => "No applicable configurations found",
            };
            let run = ConfigRun { request, keys, found: 0, phase: Phase::Done };
            (run, Step::Fail(ParseError::ParsingError(m.to_owned())))
        } else {
            let first = keys[0].clone();
            let run = ConfigRun { request, keys, found: 0, phase: Phase::LookUp };
            (run, Step::LookUpConfig(first))
        }
    }

    /// Starts a request: with the given keys, or, when none are given, by
    /// asking for the detected ones.
    pub fn start(request: Request, config_keys: Option<Vec<String>>) -> (res: (ConfigRun, Step))
        ensures
            res.0@.wf(),
            match config_keys {
                Some(keys) => keys_known(res.0@, res.1, request, string_views(keys@)),
                None => {
                    &&& res.0@.request == request
                    &&& res.0@.keys.len() == 0
                    &&& res.0@.phase == Phase::AwaitKeys
                    &&& res.1 is DetectKeys
                },
            },
    {
        match config_keys {
            Some(keys) => ConfigRun::with_keys(request, keys),
            None => {
                let run = ConfigRun {
                    request,
                    keys: Vec::new(),
                    found: 0,
                    phase: Phase::AwaitKeys,
                };
                assert(run@.keys =~= Seq::<Seq<char>>::empty());
                (run, Step::DetectKeys)
            },
        }
    }

    /// Takes the answer to the last step and says what to do next.
    pub fn advance(&mut self, answer: Answer) -> (step: Step)
        requires
            old(self)@.wf(),
            old(self)@.accepts(answer),
        ensures
            final(self)@.wf(),
            advanced(old(self)@, answer, final(self)@, step),
            old(self)@.phase != Phase::AwaitKeys ==> final(self)@.answers_left() < old(
                self,
            )@.answers_left(),
    {
        match answer {
            Answer::Keys(keys) => {
                let (run, step) = ConfigRun::with_keys(self.request, keys);
                *self = run;
                step
            },
            Answer::ConfigFound => {
                let n = self.keys.len();
                assert(self.found < n);
                self.found = self.found + 1;
                if self.found < self.keys.len() {
                    assert(self.keys@[self.found as int]@ == self@.keys[self.found as int]);
                    Step::LookUpConfig(self.keys[self.found].clone())
                } else {
                    self.phase = Phase::AwaitParsers;
                    Step::RunParsers
                }
            },
            Answer::ConfigMissing(reason) => {
                self.phase = Phase::Done;
                assert(self.keys@[self.found as int]@ == self@.keys[self.found as int]);
                Step::Fail(missing_config_error(&self.keys[self.found], &reason))
            },
            Answer::Statements(counts) => {
                self.phase = Phase::Done;
                match first_error_free(&counts) {
                    Some(i) => Step::ReturnStatement(i),
                    None => Step::Fail(ParseError::NoValidStatement(join_strings(&self.keys, ", "))),
                }
            },
            Answer::DebugText(text) => {
                self.phase = Phase::Done;
                Step::ReturnDebug(text)
            },
            Answer::ParsersFailed(reason) => {
                self.phase = Phase::Done;
                Step::Fail(ParseError::ParsingError(reason))
            },
        }
    }
}

proof fn lemma_first_zero_exists(counts: Seq<usize>, i: int)
    requires
        0 <= i < counts.len(),
        counts[i] == 0,
    ensures
        exists|w: int|
            0 <= w < counts.len() && counts[w] == 0 && forall|j: int| 0 <= j < w ==> counts[j] != 0,
    decreases i,
{
    if exists|j: int| 0 <= j < i && counts[j] == 0 {
        let j = choose|j: int| 0 <= j < i && counts[j] == 0;
        lemma_first_zero_exists(counts, j);
    } else {
        assert(forall|j: int| 0 <= j < i ==> counts[j] != 0);
    }
}

/// The result that a statement request returns is the first one without
/// errors; when every result has errors, there is none.
pub proof fn law_first_zero(counts: Seq<usize>)
    ensures
        match first_zero(counts) {
            Some(i) => 0 <= i < counts.len() && counts[i] == 0 && forall|j: int|
                0 <= j < i ==> counts[j] != 0,
            None => forall|j: int| 0 <= j < counts.len() ==> counts[j] != 0,
        },
{
    if exists|i: int| 0 <= i < counts.len() && counts[i] == 0 {
        let i = choose|i: int| 0 <= i < counts.len() && counts[i] == 0;
        lemma_first_zero_exists(counts, i);
    }
}

proof fn lemma_lookups_in_order(
    request: Request,
    keys: Seq<Seq<char>>,
    states: Seq<RunModel>,
    steps: Seq<Step>,
    i: int,
)
    requires
        keys.len() > 0,
        states.len() == keys.len() + 1,
        steps.len() == keys.len() + 1,
        keys_known(states[0], steps[0], request, keys),
        forall|j: int|
            1 <= j <= keys.len() ==> advanced(
                states[j - 1],
                Answer::ConfigFound,
                states[j],
                #[trigger] steps[j],
            ),
        0 <= i <= keys.len(),
    ensures
        states[i].keys == keys,
        states[i].found == i,
        i < keys.len() ==> (steps[i] matches Step::LookUpConfig(k) && k@ == keys[i]),
        i == keys.len() ==> steps[i] is RunParsers,
    decreases i,
{
    if i > 0 {
        lemma_lookups_in_order(request, keys, states, steps, i - 1);
        assert(advanced(states[i - 1], Answer::ConfigFound, states[i], steps[i]));
    }
}

/// Each key's configuration is looked up in the order of the keys, once, and
/// the parsers run once every one was found: a run that starts on keys and is
/// answered that each configuration was found asks for the `i`-th key at its
/// `i`-th step, and then for the parsers.
pub proof fn law_lookups_follow_keys(
    request: Request,
    keys: Seq<Seq<char>>,
    states: Seq<RunModel>,
    steps: Seq<Step>,
)
    requires
        keys.len() > 0,
        states.len() == keys.len() + 1,
        steps.len() == keys.len() + 1,
        keys_known(states[0], steps[0], request, keys),
        forall|j: int|
            1 <= j <= keys.len() ==> advanced(
                states[j - 1],
                Answer::ConfigFound,
                states[j],
                #[trigger] steps[j],
            ),
    ensures
        forall|i: int|
            0 <= i < keys.len() ==> (#[trigger] steps[i] matches Step::LookUpConfig(k) && k@
                == keys[i]),
        steps[keys.len() as int] is RunParsers,
        states[keys.len() as int].found == keys.len(),
{
    assert forall|i: int| 0 <= i < keys.len() implies (#[trigger] steps[i] matches Step::LookUpConfig(
        k,
    ) && k@ == keys[i]) by {
        lemma_lookups_in_order(request, keys, states, steps, i);
    }
    lemma_lookups_in_order(request, keys, states, steps, keys.len() as int);
}

/// A run that waits on a step accepts every outcome of that step, whatever its
/// request, keys or progress: any detected keys; a found or a missing
/// configuration, for any key and reason; the parsers' failure, and their
/// results (statement counts for a statement request, debug text for a debug
/// request). A finished run accepts nothing.
pub proof fn law_every_outcome_is_accepted(
    run: RunModel,
    keys: Vec<String>,
    reason: String,
    counts: Vec<usize>,
    text: String,
)
    ensures
        run.phase == Phase::AwaitKeys ==> run.accepts(Answer::Keys(keys)),
        run.phase == Phase::LookUp ==> run.accepts(Answer::ConfigFound) && run.accepts(
            Answer::ConfigMissing(reason),
        ),
        run.phase == Phase::AwaitParsers ==> run.accepts(Answer::ParsersFailed(reason)),
        run.phase == Phase::AwaitParsers && run.request == Request::Statement ==> run.accepts(
            Answer::Statements(counts),
        ),
        run.phase == Phase::AwaitParsers && run.request == Request::Debug ==> run.accepts(
            Answer::DebugText(text),
        ),
        run.phase == Phase::Done ==> !run.accepts(Answer::Keys(keys)) && !run.accepts(
            Answer::ConfigFound,
        ) && !run.accepts(Answer::ConfigMissing(reason)) && !run.accepts(
            Answer::Statements(counts),
        ) && !run.accepts(Answer::DebugText(text)) && !run.accepts(
            Answer::ParsersFailed(reason),
        ),
{
}

/// Whether a lookup answer is accepted depends on the phase alone: two runs
/// that differ in request, keys or progress accept it alike.
pub proof fn law_lookup_acceptance_ignores_request(a: RunModel, b: RunModel, reason: String)
    requires
        a.phase == b.phase,
    ensures
        a.accepts(Answer::ConfigMissing(reason)) == b.accepts(Answer::ConfigMissing(reason)),
        a.accepts(Answer::ConfigFound) == b.accepts(Answer::ConfigFound),
{
}

/// A statement request answered with the parsers' results returns the first
/// result without errors, and fails, listing its keys, exactly when every
/// result has errors (no result at all included).
pub proof fn law_statement_outcome(
    before: RunModel,
    counts: Vec<usize>,
    after: RunModel,
    step: Step,
)
    requires
        advanced(before, Answer::Statements(counts), after, step),
    ensures
        after.phase == Phase::Done,
        step is ReturnStatement || step is Fail,
        step matches Step::ReturnStatement(i) ==> i < counts@.len() && counts@[i as int] == 0
            && forall|j: int| 0 <= j < i ==> counts@[j] != 0,
        step is Fail <==> forall|j: int| 0 <= j < counts@.len() ==> counts@[j] != 0,
        step matches Step::Fail(e) ==> e is NoValidStatement,
{
    law_first_zero(counts@);
}

} // verus!
