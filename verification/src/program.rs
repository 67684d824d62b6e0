//! What the programs decide by themselves: their arguments, their tag line, and how plain output
//! is set apart.

use crate::helpers::Mergeable;
use vstd::prelude::*;

verus! {

/// Command-line arguments for Lemon; `P` is the type of paths
#[derive(Debug)]
pub struct LemonArgs<P> {
    /// Config file path (containing base values for all of these arguments)
    pub config: Option<P>,
    /// llama.cpp server base URL
    pub llama_url: Option<String>,
    /// Base URL of a SearXNG instance for the web_search tool
    pub searxng_url: Option<String>,
    /// Which model to use
    pub model: Option<String>,
    /// Path to a file containing the system prompt
    pub system: Option<P>,
    /// File to append log output to, because the terminal is taken by the UI
    pub log_file: Option<P>,
    /// Where to store the raw session log for later resuming
    pub session_logs: Option<P>,
    /// Raw session log to resume from
    pub resume: Option<P>,
}

impl<P> Mergeable for LemonArgs<P> {
    /// Each argument by itself.
    open spec fn merged(self, other: Self) -> Self {
        LemonArgs {
            config: self.config.merged(other.config),
            llama_url: self.llama_url.merged(other.llama_url),
            searxng_url: self.searxng_url.merged(other.searxng_url),
            model: self.model.merged(other.model),
            system: self.system.merged(other.system),
            log_file: self.log_file.merged(other.log_file),
            session_logs: self.session_logs.merged(other.session_logs),
            resume: self.resume.merged(other.resume),
        }
    }

    fn merge(&mut self, other: Self) {
        self.config.merge(other.config);
        self.llama_url.merge(other.llama_url);
        self.searxng_url.merge(other.searxng_url);
        self.model.merge(other.model);
        self.system.merge(other.system);
        self.log_file.merge(other.log_file);
        self.session_logs.merge(other.session_logs);
        self.resume.merge(other.resume);
    }

    fn merge_weak(&mut self, other: Self) {
        self.config.merge_weak(other.config);
        self.llama_url.merge_weak(other.llama_url);
        self.searxng_url.merge_weak(other.searxng_url);
        self.model.merge_weak(other.model);
        self.system.merge_weak(other.system);
        self.log_file.merge_weak(other.log_file);
        self.session_logs.merge_weak(other.session_logs);
        self.resume.merge_weak(other.resume);
    }
}

/// Command-line arguments for WorkBuddy; `P` is the type of paths
#[derive(Debug)]
pub struct WorkBuddyArgs<P> {
    /// Config file path (containing base values for all of these arguments)
    pub config: Option<P>,
    /// llama.cpp server base URL
    pub llama_url: Option<String>,
    /// Base URL of a SearXNG instance for the web_search tool
    pub searxng_url: Option<String>,
    /// Path to a file containing the system prompt
    pub system: Option<P>,
    /// Enable debug-level logging
    pub debug: bool,
    /// File to append log output to, because the terminal is taken by the UI
    pub log_file: Option<P>,
    /// Task file path
    pub tasks: Option<P>,
    /// Directory to store work logs in
    pub worklogs: Option<P>,
    /// Allow the LLM to create markdown files in this directory
    pub markdown_output: Option<P>,
    /// JSON knowledge file to explain keywords (e.g. projects) and such
    pub knowledge: Option<P>,
    /// Where to store the raw session log for later resuming
    pub session_logs: Option<P>,
    /// Raw session log to resume from
    pub resume: Option<P>,
}

impl<P> Mergeable for WorkBuddyArgs<P> {
    /// Each argument by itself.
    open spec fn merged(self, other: Self) -> Self {
        WorkBuddyArgs {
            config: self.config.merged(other.config),
            llama_url: self.llama_url.merged(other.llama_url),
            searxng_url: self.searxng_url.merged(other.searxng_url),
            system: self.system.merged(other.system),
            debug: self.debug.merged(other.debug),
            log_file: self.log_file.merged(other.log_file),
            tasks: self.tasks.merged(other.tasks),
            worklogs: self.worklogs.merged(other.worklogs),
            markdown_output: self.markdown_output.merged(other.markdown_output),
            knowledge: self.knowledge.merged(other.knowledge),
            session_logs: self.session_logs.merged(other.session_logs),
            resume: self.resume.merged(other.resume),
        }
    }

    fn merge(&mut self, other: Self) {
        self.config.merge(other.config);
        self.llama_url.merge(other.llama_url);
        self.searxng_url.merge(other.searxng_url);
        self.system.merge(other.system);
        self.debug.merge(other.debug);
        self.log_file.merge(other.log_file);
        self.tasks.merge(other.tasks);
        self.worklogs.merge(other.worklogs);
        self.markdown_output.merge(other.markdown_output);
        self.knowledge.merge(other.knowledge);
        self.session_logs.merge(other.session_logs);
        self.resume.merge(other.resume);
    }

    fn merge_weak(&mut self, other: Self) {
        self.config.merge_weak(other.config);
        self.llama_url.merge_weak(other.llama_url);
        self.searxng_url.merge_weak(other.searxng_url);
        self.system.merge_weak(other.system);
        self.debug.merge_weak(other.debug);
        self.log_file.merge_weak(other.log_file);
        self.tasks.merge_weak(other.tasks);
        self.worklogs.merge_weak(other.worklogs);
        self.markdown_output.merge_weak(other.markdown_output);
        self.knowledge.merge_weak(other.knowledge);
        self.session_logs.merge_weak(other.session_logs);
        self.resume.merge_weak(other.resume);
    }
}

/// The number of tag lines.
pub const TAGLINES: usize = 4;

/// The tag lines.
pub open spec fn tagline_text(i: int) -> Seq<char> {
    if i == 0 {
        "because someone has to care about your tickets, and it won’t be you"@
    } else if i == 1 {
        "turning existential dread into well-formatted Jira tickets since 2026"@
    } else if i == 2 {
        "proof of work for proof of employment"@
    } else {
        "comprehensive documentation for the comprehensively unmotivated"@
    }
}

/// `fastrand::usize` for a range from zero on: some number below `n`. Which one, is left open.
#[verifier::external_body]
fn random_below(n: usize) -> (r: usize)
    requires
        n > 0,
    ensures
        r < n,
{
    fastrand::usize(..n)
}

/// A tag line.
pub fn tagline_at(i: usize) -> (r: &'static str)
    requires
        i < TAGLINES,
    ensures
        r@ == tagline_text(i as int),
{
    if i == 0 {
        "because someone has to care about your tickets, and it won’t be you"
    } else if i == 1 {
        "turning existential dread into well-formatted Jira tickets since 2026"
    } else if i == 2 {
        "proof of work for proof of employment"
    } else {
        "comprehensive documentation for the comprehensively unmotivated"
    }
}

/// Return a random "witty" tag line for --help
pub fn tagline() -> (r: &'static str)
    ensures
        exists|i: int| 0 <= i < TAGLINES && r@ == #[trigger] tagline_text(i),
{
    let i: usize = random_below(TAGLINES);
    let line = tagline_at(i);
    assert(line@ == tagline_text(i as int));
    line
}

/// Tracks which mode we are in wrt the LLM output (to allow switching terminal colors).
#[derive(Clone, Copy, Debug, PartialEq, Eq, Structural)]
pub enum OutputMode {
    /// Default mode (CSI 0m)
    DefaultTerm,
    /// Proper LLM output
    Output,
    /// Reasoning content
    Thinking,
}

impl Default for OutputMode {
    fn default() -> (r: Self)
        ensures
            r == OutputMode::DefaultTerm,
    {
        OutputMode::DefaultTerm
    }
}

/// What is printed to leave a mode.
pub open spec fn leaving(mode: OutputMode) -> Seq<char> {
    if mode == OutputMode::DefaultTerm {
        seq![]
    } else {
        "\n\x1b[0m"@
    }
}

/// What is printed to enter a mode.
pub open spec fn entering(mode: OutputMode) -> Seq<char> {
    match mode {
        OutputMode::DefaultTerm => "\x1b[0m"@,
        OutputMode::Output => "\x1b[1m\n"@,
        OutputMode::Thinking => "\x1b[2;3mThinking:\n\n"@,
    }
}

impl OutputMode {
    /// Switch the currently active output mode, and return what is to be printed for that.
    ///
    /// Nothing is printed where the mode is active already.
    pub fn switch(&mut self, to: Self) -> (r: String)
        ensures
            *final(self) == to,
            r@ == if *old(self) == to {
                seq![]
            } else {
                leaving(*old(self)) + entering(to)
            },
    {
        let mut out = String::new();
        assert(out@ =~= seq![]);
        if *self == to {
            return out;
        }
        if *self != OutputMode::DefaultTerm {
            out.append("\n\x1b[0m");
        }
        match to {
            OutputMode::DefaultTerm => out.append("\x1b[0m"),
            OutputMode::Output => out.append("\x1b[1m\n"),
            OutputMode::Thinking => out.append("\x1b[2;3mThinking:\n\n"),
        }
        assert(out@ =~= leaving(*old(self)) + entering(to));
        *self = to;
        out
    }
}

/// Whether one of two optional values was chosen: the second where it is there, else the first.
pub open spec fn is_later<A>(first: Option<A>, second: Option<A>, chosen: Option<A>) -> bool {
    (second is Some ==> chosen == second) && (second is None ==> chosen == first)
}

/// Of two sets of arguments, each argument is taken from the one that is merged in where it is given
/// there, and else from the other.
pub proof fn given_arguments_take_precedence<P>(base: LemonArgs<P>, given: LemonArgs<P>)
    ensures
        ({
            let all = base.merged(given);
            &&& is_later(base.config, given.config, all.config)
            &&& is_later(base.llama_url, given.llama_url, all.llama_url)
            &&& is_later(base.searxng_url, given.searxng_url, all.searxng_url)
            &&& is_later(base.model, given.model, all.model)
            &&& is_later(base.system, given.system, all.system)
            &&& is_later(base.log_file, given.log_file, all.log_file)
            &&& is_later(base.session_logs, given.session_logs, all.session_logs)
            &&& is_later(base.resume, given.resume, all.resume)
        }),
{
}

/// The same holds of the arguments of the other program, where a flag is set if it is in either.
pub proof fn given_work_arguments_take_precedence<P>(base: WorkBuddyArgs<P>, given: WorkBuddyArgs<P>)
    ensures
        ({
            let all = base.merged(given);
            &&& is_later(base.config, given.config, all.config)
            &&& is_later(base.llama_url, given.llama_url, all.llama_url)
            &&& is_later(base.searxng_url, given.searxng_url, all.searxng_url)
            &&& is_later(base.system, given.system, all.system)
            &&& all.debug <==> base.debug || given.debug
            &&& is_later(base.log_file, given.log_file, all.log_file)
            &&& is_later(base.tasks, given.tasks, all.tasks)
            &&& is_later(base.worklogs, given.worklogs, all.worklogs)
            &&& is_later(base.markdown_output, given.markdown_output, all.markdown_output)
            &&& is_later(base.knowledge, given.knowledge, all.knowledge)
            &&& is_later(base.session_logs, given.session_logs, all.session_logs)
            &&& is_later(base.resume, given.resume, all.resume)
        }),
{
}

/// Every mode but the default one is left by ending the line and resetting the terminal; the default
/// one is left without a trace. Every mode is entered by an escape sequence of its own.
pub proof fn modes_are_set_apart(a: OutputMode, b: OutputMode)
    ensures
        leaving(a).len() == 0 <==> a == OutputMode::DefaultTerm,
        a != OutputMode::DefaultTerm ==> leaving(a) == seq!['\n'] + entering(
            OutputMode::DefaultTerm,
        ),
        entering(a) == entering(b) <==> a == b,
        entering(a).len() >= 4 && entering(a)[0] == '\x1b' && entering(a)[1] == '[',
        entering(a)[2] == match a {
            OutputMode::DefaultTerm => '0',
            OutputMode::Output => '1',
            OutputMode::Thinking => '2',
        },
{
    reveal_strlit("\n\x1b[0m");
    reveal_strlit("\x1b[0m");
    reveal_strlit("\x1b[1m\n");
    reveal_strlit("\x1b[2;3mThinking:\n\n");
    assert("\n\x1b[0m"@ =~= seq!['\n'] + "\x1b[0m"@);
    assert("\x1b[0m"@[2] == '0' && "\x1b[1m\n"@[2] == '1' && "\x1b[2;3mThinking:\n\n"@[2] == '2');
}

} // verus!
