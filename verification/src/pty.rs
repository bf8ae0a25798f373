//! Password authentication without putting the password on a command line.
//!
//! `ssh` is given a pseudo-terminal, which is watched for the password prompt;
//! the stored password is typed into it. A session whose streams carry data
//! keeps its own standard streams and has the pseudo-terminal only as its
//! controlling terminal; any other session runs inside the pseudo-terminal.

use vstd::prelude::*;
use vstd::string::*;
use vstd::utf8::{decode_utf8, encode_utf8, encode_utf8_decode_utf8};

use crate::place::{platform, Platform};

verus! {

/// What a session is for.
#[derive(Debug, Clone, Copy, PartialEq, Eq, Structural)]
pub enum Mode {
    /// An interactive remote shell. Keystrokes pass through, and the
    /// pseudo-terminal keeps the modes that `ssh` negotiates.
    Shell,
    /// A port forward: no session data in either direction.
    Tunnel,
    /// A one-shot remote command whose streams carry data that must arrive
    /// unaltered.
    Command,
}

/// How to run a session.
#[derive(Debug, Clone, Copy)]
pub struct Opts {
    pub mode: Mode,
    /// Copy this process's standard input into the session. Of no effect where
    /// `ssh` has that input itself.
    pub forward_stdin: bool,
}

/// The prompt that is waited for.
pub open spec fn prompt() -> Seq<u8> {
    seq![112u8, 97u8, 115u8, 115u8, 119u8, 111u8, 114u8, 100u8, 58u8]
}

/// A byte with an ASCII capital letter made small.
pub open spec fn small_byte(b: u8) -> u8 {
    if 65 <= b && b <= 90 {
        (b + 32) as u8
    } else {
        b
    }
}

/// Whether the prompt stands at position `at`, whatever the case of its letters.
pub open spec fn prompt_at(s: Seq<u8>, at: int) -> bool {
    &&& 0 <= at
    &&& at + prompt().len() <= s.len()
    &&& forall|k: int| 0 <= k < prompt().len() ==> small_byte(#[trigger] s[at + k]) == prompt()[k]
}

/// Where the first prompt at or behind `from` ends.
pub open spec fn prompt_end_from(s: Seq<u8>, from: int) -> Option<int>
    decreases s.len() - from,
{
    if from + prompt().len() > s.len() {
        None
    } else if prompt_at(s, from) {
        Some(from + prompt().len())
    } else {
        prompt_end_from(s, from + 1)
    }
}

/// Where the first prompt ends.
pub open spec fn prompt_end(s: Seq<u8>) -> Option<int> {
    prompt_end_from(s, 0)
}

fn small(b: u8) -> (r: u8)
    ensures
        r == small_byte(b),
{
    if 65 <= b && b <= 90 {
        b + 32
    } else {
        b
    }
}

fn holds_prompt(s: &[u8], at: usize) -> (r: bool)
    requires
        at + 9 <= s@.len(),
    ensures
        r == prompt_at(s@, at as int),
{
    let needle: [u8; 9] = [112u8, 97u8, 115u8, 115u8, 119u8, 111u8, 114u8, 100u8, 58u8];
    assert(needle@ =~= prompt());
    let mut k: usize = 0;
    while k < 9
        invariant
            k <= 9,
            at + 9 <= s.len(),
            needle@ == prompt(),
            forall|j: int| 0 <= j < k ==> small_byte(#[trigger] s@[at + j]) == prompt()[j],
        decreases 9 - k,
    {
        if small(s[at + k]) != needle[k] {
            assert(small_byte(s@[at + k]) != prompt()[k as int]);
            return false;
        }
        k = k + 1;
    }
    true
}

/// The offset just past the first password prompt, whatever the case of its
/// letters.
pub fn find_password_prompt(haystack: &[u8]) -> (r: Option<usize>)
    ensures
        match r {
            Some(end) => prompt_end(haystack@) == Some(end as int),
            None => prompt_end(haystack@) is None,
        },
        r matches Some(end) ==> end <= haystack@.len(),
{
    let mut i: usize = 0;
    while i < haystack.len() && haystack.len() - i >= 9
        invariant
            i <= haystack.len(),
            prompt_end(haystack@) == prompt_end_from(haystack@, i as int),
        decreases haystack.len() - i,
    {
        if holds_prompt(haystack, i) {
            return Some(i + 9);
        }
        i = i + 1;
    }
    None
}

proof fn lemma_prompt_end_from(s: Seq<u8>, from: int)
    requires
        0 <= from,
    ensures
        match prompt_end_from(s, from) {
            Some(end) => {
                &&& from <= end - 9
                &&& prompt_at(s, end - 9)
                &&& forall|i: int| from <= i < end - 9 ==> !#[trigger] prompt_at(s, i)
            },
            None => forall|i: int| from <= i ==> !#[trigger] prompt_at(s, i),
        },
    decreases s.len() - from,
{
    if from + 9 <= s.len() && !prompt_at(s, from) {
        lemma_prompt_end_from(s, from + 1);
    }
}

/// The place that `prompt_end` names is the end of the first prompt: there is a
/// prompt right before it and none starts earlier; and where it names none,
/// there is no prompt at all.
pub proof fn law_first_prompt_is_found(s: Seq<u8>)
    ensures
        match prompt_end(s) {
            Some(end) => {
                &&& prompt_at(s, end - prompt().len())
                &&& forall|i: int| i < end - prompt().len() ==> !#[trigger] prompt_at(s, i)
            },
            None => forall|i: int| !#[trigger] prompt_at(s, i),
        },
{
    lemma_prompt_end_from(s, 0);
}

/// The most bytes kept while the prompt is waited for, and how many of the
/// oldest are dropped when there are more.
pub const KEPT_BYTES: usize = 16384;

pub const DROPPED_BYTES: usize = 8192;

/// What is kept of the bytes seen so far.
pub open spec fn bounded(s: Seq<u8>) -> Seq<u8> {
    if s.len() > KEPT_BYTES {
        s.skip(DROPPED_BYTES as int)
    } else {
        s
    }
}

/// Watches what a child prints for the password prompt.
#[derive(Debug)]
pub struct PromptWatcher {
    /// The bytes kept so far, the latest last.
    pub kept: Vec<u8>,
}

impl View for PromptWatcher {
    type V = Seq<u8>;

    open spec fn view(&self) -> Seq<u8> {
        self.kept@
    }
}

impl PromptWatcher {
    /// A watcher that has seen nothing yet.
    pub fn new() -> (r: PromptWatcher)
        ensures
            r@ == Seq::<u8>::empty(),
    {
        PromptWatcher { kept: Vec::new() }
    }

    /// Takes in what was read. Once the prompt is complete it gives back the
    /// bytes behind it, which belong to the session.
    pub fn feed(&mut self, chunk: &[u8]) -> (r: Option<Vec<u8>>)
        ensures
            match prompt_end(old(self)@ + chunk@) {
                Some(end) => {
                    &&& r matches Some(rest) && rest@ == (old(self)@ + chunk@).skip(end)
                    &&& final(self)@ == old(self)@ + chunk@
                },
                None => r is None && final(self)@ == bounded(old(self)@ + chunk@),
            },
    {
        let ghost before = self.kept@;
        let mut i: usize = 0;
        while i < chunk.len()
            invariant
                i <= chunk.len(),
                self.kept@ == before + chunk@.take(i as int),
            decreases chunk.len() - i,
        {
            self.kept.push(chunk[i]);
            i = i + 1;
            assert(self.kept@ =~= before + chunk@.take(i as int));
        }
        assert(chunk@.take(chunk@.len() as int) =~= chunk@);
        match find_password_prompt(self.kept.as_slice()) {
            Some(end) => {
                let rest = vstd::slice::slice_subrange(
                    self.kept.as_slice(),
                    end,
                    self.kept.len(),
                );
                assert(rest@ =~= self.kept@.skip(end as int));
                Some(vstd::slice::slice_to_vec(rest))
            },
            None => {
                if self.kept.len() > KEPT_BYTES {
                    let tail = self.kept.split_off(DROPPED_BYTES);
                    assert(tail@ =~= (before + chunk@).skip(DROPPED_BYTES as int));
                    self.kept = tail;
                }
                None
            },
        }
    }
}

/// Several reads as one stretch of bytes.
pub open spec fn stream(chunks: Seq<Seq<u8>>) -> Seq<u8>
    decreases chunks.len(),
{
    if chunks.len() == 0 {
        Seq::empty()
    } else {
        stream(chunks.drop_last()) + chunks.last()
    }
}

/// What the session is told.
#[derive(Debug)]
pub enum Event {
    /// The child printed something on the pseudo-terminal.
    Data(Vec<u8>),
    /// The pseudo-terminal has ended, or reading from it failed.
    Closed,
    /// Nothing was printed for a while and the child still runs.
    Quiet,
    /// Nothing was printed for a while and the child is gone, or cannot be
    /// asked.
    Gone,
}

/// The contents of an `Event`.
pub enum EventView {
    Data(Seq<u8>),
    Closed,
    Quiet,
    Gone,
}

impl View for Event {
    type V = EventView;

    open spec fn view(&self) -> EventView {
        match self {
            Event::Data(chunk) => EventView::Data(chunk@),
            Event::Closed => EventView::Closed,
            Event::Quiet => EventView::Quiet,
            Event::Gone => EventView::Gone,
        }
    }
}

/// What the session wants done, in the order of the fields.
#[derive(Debug)]
pub struct Effects {
    /// Switch off the echo of the pseudo-terminal.
    pub silence_echo: bool,
    /// Type this into the pseudo-terminal.
    pub to_child: Vec<u8>,
    pub to_stdout: Vec<u8>,
    pub to_stderr: Vec<u8>,
    /// Read no more.
    pub ended: bool,
}

/// The contents of `Effects`.
#[verifier::ext_equal]
pub struct EffectsView {
    pub silence_echo: bool,
    pub to_child: Seq<u8>,
    pub to_stdout: Seq<u8>,
    pub to_stderr: Seq<u8>,
    pub ended: bool,
}

impl View for Effects {
    type V = EffectsView;

    open spec fn view(&self) -> EffectsView {
        EffectsView {
            silence_echo: self.silence_echo,
            to_child: self.to_child@,
            to_stdout: self.to_stdout@,
            to_stderr: self.to_stderr@,
            ended: self.ended,
        }
    }
}

/// Nothing to do.
pub open spec fn no_effects() -> EffectsView {
    EffectsView {
        silence_echo: false,
        to_child: Seq::empty(),
        to_stdout: Seq::empty(),
        to_stderr: Seq::empty(),
        ended: false,
    }
}

fn nothing() -> (r: Effects)
    ensures
        r@ == no_effects(),
{
    Effects {
        silence_echo: false,
        to_child: Vec::new(),
        to_stdout: Vec::new(),
        to_stderr: Vec::new(),
        ended: false,
    }
}

/// The bytes typed at the prompt: the password and the end of the line.
pub open spec fn typed(password: Seq<char>) -> Seq<u8> {
    encode_utf8(password).push(10u8)
}

fn typed_bytes(password: &str) -> (r: Vec<u8>)
    ensures
        r@ == typed(password@),
{
    let mut r = vstd::slice::slice_to_vec(password.as_bytes());
    r.push(10u8);
    r
}

/// How far a session inside a pseudo-terminal is.
pub enum InsidePhase {
    /// The prompt is waited for; these bytes are kept.
    Waiting(Seq<u8>),
    /// The password was typed; what comes is the session's output.
    Proxying,
}

/// What a session inside a pseudo-terminal does on an event: while the prompt
/// is waited for, output is held back, and shown as errors if the prompt never
/// comes; afterwards all of it is the session's.
pub open spec fn inside_step(phase: InsidePhase, event: EventView, password: Seq<char>) -> (
    InsidePhase,
    EffectsView,
) {
    match (phase, event) {
        (InsidePhase::Waiting(kept), EventView::Data(chunk)) => match prompt_end(kept + chunk) {
            Some(end) => (
                InsidePhase::Proxying,
                EffectsView {
                    to_child: typed(password),
                    to_stdout: (kept + chunk).skip(end),
                    ..no_effects()
                },
            ),
            None => (InsidePhase::Waiting(bounded(kept + chunk)), no_effects()),
        },
        (InsidePhase::Waiting(kept), EventView::Closed) => (
            phase,
            EffectsView { to_stderr: kept, ended: true, ..no_effects() },
        ),
        (InsidePhase::Proxying, EventView::Data(chunk)) => (
            phase,
            EffectsView { to_stdout: chunk, ..no_effects() },
        ),
        (InsidePhase::Proxying, EventView::Closed) => (
            phase,
            EffectsView { ended: true, ..no_effects() },
        ),
        (_, EventView::Quiet) | (_, EventView::Gone) => (phase, no_effects()),
    }
}

/// A session that runs inside a pseudo-terminal.
#[derive(Debug)]
pub struct InsideSession {
    pub watcher: PromptWatcher,
    /// Whether the password was typed.
    pub authed: bool,
    pub password: String,
}

impl InsideSession {
    pub open spec fn phase(&self) -> InsidePhase {
        if self.authed {
            InsidePhase::Proxying
        } else {
            InsidePhase::Waiting(self.watcher@)
        }
    }

    /// A session whose child has printed nothing yet.
    pub fn new(password: &str) -> (r: InsideSession)
        ensures
            r.phase() == InsidePhase::Waiting(Seq::empty()),
            r.password@ == password@,
    {
        InsideSession {
            watcher: PromptWatcher::new(),
            authed: false,
            password: password.to_owned(),
        }
    }

    /// Takes in an event and says what is to be done.
    pub fn step(&mut self, event: Event) -> (r: Effects)
        ensures
            (final(self).phase(), r@) == inside_step(old(self).phase(), event@, old(self).password@),
            final(self).password@ == old(self).password@,
    {
        let mut r = nothing();
        match event {
            Event::Data(chunk) => {
                if self.authed {
                    r.to_stdout = chunk;
                } else {
                    match self.watcher.feed(chunk.as_slice()) {
                        Some(rest) => {
                            r.to_child = typed_bytes(self.password.as_str());
                            r.to_stdout = rest;
                            self.authed = true;
                        },
                        None => {},
                    }
                }
            },
            Event::Closed => {
                if !self.authed {
                    r.to_stderr = vstd::slice::slice_to_vec(self.watcher.kept.as_slice());
                }
                r.ended = true;
            },
            Event::Quiet => {},
            Event::Gone => {},
        }
        r
    }
}

/// Bytes without the line ends that they start with.
pub open spec fn without_blanks(s: Seq<u8>) -> Seq<u8>
    decreases s.len(),
{
    if s.len() > 0 && (s[0] == 13 || s[0] == 10) {
        without_blanks(s.skip(1))
    } else {
        s
    }
}

fn skip_blanks(s: &[u8]) -> (r: Vec<u8>)
    ensures
        r@ == without_blanks(s@),
{
    let mut i: usize = 0;
    assert(s@.skip(0) =~= s@);
    while i < s.len() && (s[i] == 13 || s[i] == 10)
        invariant
            i <= s.len(),
            without_blanks(s@) == without_blanks(s@.skip(i as int)),
        decreases s.len() - i,
    {
        assert(s@.skip(i as int).skip(1) =~= s@.skip(i + 1));
        i = i + 1;
    }
    let rest = vstd::slice::slice_subrange(s, i, s.len());
    assert(rest@ =~= s@.skip(i as int));
    vstd::slice::slice_to_vec(rest)
}

/// How far a session with a controlling terminal is.
pub enum TerminalPhase {
    /// The prompt is waited for; these bytes are kept.
    Waiting(Seq<u8>),
    /// The password was typed, or there is no use in waiting; what the child
    /// says on its terminal is shown, but for the line ends it starts with.
    Draining { leading_blanks: bool },
}

/// What a session with a controlling terminal does on an event. The session's
/// own streams are the child's; only what the child says on its terminal passes
/// here.
pub open spec fn terminal_step(phase: TerminalPhase, event: EventView, password: Seq<char>) -> (
    TerminalPhase,
    EffectsView,
) {
    match (phase, event) {
        (TerminalPhase::Waiting(kept), EventView::Data(chunk)) => match prompt_end(kept + chunk) {
            Some(_) => (
                TerminalPhase::Draining { leading_blanks: true },
                EffectsView { silence_echo: true, to_child: typed(password), ..no_effects() },
            ),
            None => (TerminalPhase::Waiting(bounded(kept + chunk)), no_effects()),
        },
        (TerminalPhase::Waiting(_), EventView::Quiet) => (phase, no_effects()),
        (TerminalPhase::Waiting(_), _) => (
            TerminalPhase::Draining { leading_blanks: true },
            no_effects(),
        ),
        (TerminalPhase::Draining { leading_blanks }, EventView::Data(chunk)) => {
            let shown = if leading_blanks {
                without_blanks(chunk)
            } else {
                chunk
            };
            (
                TerminalPhase::Draining { leading_blanks: leading_blanks && shown.len() == 0 },
                EffectsView { to_stderr: shown, ..no_effects() },
            )
        },
        (TerminalPhase::Draining { .. }, EventView::Closed) => (
            phase,
            EffectsView { ended: true, ..no_effects() },
        ),
        (TerminalPhase::Draining { .. }, _) => (phase, no_effects()),
    }
}

/// A session that has the pseudo-terminal as its controlling terminal only.
#[derive(Debug)]
pub struct TerminalSession {
    pub watcher: PromptWatcher,
    /// Whether the prompt is waited for no longer.
    pub draining: bool,
    pub leading_blanks: bool,
    pub password: String,
}

impl TerminalSession {
    pub open spec fn phase(&self) -> TerminalPhase {
        if self.draining {
            TerminalPhase::Draining { leading_blanks: self.leading_blanks }
        } else {
            TerminalPhase::Waiting(self.watcher@)
        }
    }

    /// Line ends in front are still to come as long as nothing was drained.
    pub open spec fn wf(&self) -> bool {
        !self.draining ==> self.leading_blanks
    }

    /// A session whose child has said nothing yet.
    pub fn new(password: &str) -> (r: TerminalSession)
        ensures
            r.wf(),
            r.phase() == TerminalPhase::Waiting(Seq::empty()),
            r.password@ == password@,
    {
        TerminalSession {
            watcher: PromptWatcher::new(),
            draining: false,
            leading_blanks: true,
            password: password.to_owned(),
        }
    }

    /// Takes in an event and says what is to be done.
    pub fn step(&mut self, event: Event) -> (r: Effects)
        requires
            old(self).wf(),
        ensures
            final(self).wf(),
            (final(self).phase(), r@) == terminal_step(
                old(self).phase(),
                event@,
                old(self).password@,
            ),
            final(self).password@ == old(self).password@,
    {
        let mut r = nothing();
        match event {
            Event::Data(chunk) => {
                if self.draining {
                    if self.leading_blanks {
                        let shown = skip_blanks(chunk.as_slice());
                        self.leading_blanks = shown.len() == 0;
                        r.to_stderr = shown;
                    } else {
                        r.to_stderr = chunk;
                    }
                } else {
                    match self.watcher.feed(chunk.as_slice()) {
                        Some(_) => {
                            r.silence_echo = true;
                            r.to_child = typed_bytes(self.password.as_str());
                            self.draining = true;
                        },
                        None => {},
                    }
                }
            },
            Event::Closed => {
                if self.draining {
                    r.ended = true;
                } else {
                    self.draining = true;
                }
            },
            Event::Quiet => {},
            Event::Gone => {
                self.draining = true;
            },
        }
        r
    }
}

/// Which way a session is run.
#[derive(Debug)]
pub enum Session {
    /// With the child's own streams and a controlling terminal.
    Terminal(TerminalSession),
    /// Inside a pseudo-terminal.
    Inside {
        session: InsideSession,
        /// Whether the pseudo-terminal is to hand bytes on as they are. An
        /// interactive shell negotiates the modes itself.
        raw: bool,
        /// Whether keystrokes are the remote shell's.
        interactive: bool,
        forward_stdin: bool,
    },
}

/// Whether a session has the pseudo-terminal as its controlling terminal only.
pub open spec fn keeps_streams(platform: Platform, mode: Mode) -> bool {
    platform is Unix && mode is Command
}

/// Whether `session` is the beginning of a session of this kind.
pub open spec fn begins(
    session: Session,
    platform: Platform,
    password: Seq<char>,
    opts: Opts,
) -> bool {
    match session {
        Session::Terminal(t) => {
            &&& keeps_streams(platform, opts.mode)
            &&& t.wf()
            &&& t.phase() == TerminalPhase::Waiting(Seq::empty())
            &&& t.password@ == password
        },
        Session::Inside { session: s, raw, interactive, forward_stdin } => {
            &&& !keeps_streams(platform, opts.mode)
            &&& s.phase() == InsidePhase::Waiting(Seq::empty())
            &&& s.password@ == password
            &&& interactive == (opts.mode is Shell)
            &&& raw == !interactive
            &&& forward_stdin == opts.forward_stdin
        },
    }
}

/// Begins a session on a platform.
pub fn run_on(platform: Platform, password: &str, opts: Opts) -> (r: Session)
    ensures
        begins(r, platform, password@, opts),
{
    if platform == Platform::Unix && opts.mode == Mode::Command {
        return Session::Terminal(TerminalSession::new(password));
    }
    let interactive = opts.mode == Mode::Shell;
    Session::Inside {
        session: InsideSession::new(password),
        raw: !interactive,
        interactive,
        forward_stdin: opts.forward_stdin,
    }
}

/// Begins a session on the machine that the program runs on: a command keeps
/// its own streams where there are controlling terminals, and any other session
/// runs inside the pseudo-terminal.
pub fn run(password: &str, opts: Opts) -> (r: Session)
    ensures
        exists|platform: Platform| #[trigger] begins(r, platform, password@, opts),
        !(opts.mode is Command) ==> r is Inside,
{
    let p = platform();
    let r = run_on(p, password, opts);
    assert(begins(r, p, password@, opts));
    r
}

/// Whether the user's terminal is to be put in raw mode: only for an
/// interactive shell on a terminal.
pub fn raw_terminal(interactive: bool, stdin_is_tty: bool) -> (r: bool)
    ensures
        r == (interactive && stdin_is_tty),
{
    interactive && stdin_is_tty
}

/// The columns and rows of a new pseudo-terminal: those of the user's terminal
/// where the output goes to one and its size is known.
pub fn pty_size(stdout_is_tty: bool, measured: Option<(u16, u16)>) -> (r: (u16, u16))
    ensures
        r == (match measured {
            Some(size) if stdout_is_tty => size,
            _ => (80u16, 24u16),
        }),
{
    match measured {
        Some(size) => if stdout_is_tty {
            size
        } else {
            (80, 24)
        },
        None => (80, 24),
    }
}

/// The exit code to hand on for a child: its own, or 255 where it has none.
pub fn exit_code(code: Option<i32>) -> (r: i32)
    ensures
        r == (match code {
            Some(c) => c,
            None => 255,
        }),
{
    match code {
        Some(c) => c,
        None => 255,
    }
}

/// Reads as events.
pub open spec fn reads(chunks: Seq<Seq<u8>>) -> Seq<EventView> {
    Seq::new(chunks.len(), |i: int| EventView::Data(chunks[i]))
}

/// All that a session did over several events.
pub struct Done<P> {
    pub phase: P,
    pub to_child: Seq<u8>,
    pub to_stdout: Seq<u8>,
    pub to_stderr: Seq<u8>,
}

/// A session inside a pseudo-terminal from its beginning.
pub open spec fn inside_run(events: Seq<EventView>, password: Seq<char>) -> Done<InsidePhase>
    decreases events.len(),
{
    if events.len() == 0 {
        Done {
            phase: InsidePhase::Waiting(Seq::empty()),
            to_child: Seq::empty(),
            to_stdout: Seq::empty(),
            to_stderr: Seq::empty(),
        }
    } else {
        let before = inside_run(events.drop_last(), password);
        let (phase, e) = inside_step(before.phase, events.last(), password);
        Done {
            phase,
            to_child: before.to_child + e.to_child,
            to_stdout: before.to_stdout + e.to_stdout,
            to_stderr: before.to_stderr + e.to_stderr,
        }
    }
}

/// A session with a controlling terminal, from a phase on.
pub open spec fn terminal_run(
    start: TerminalPhase,
    events: Seq<EventView>,
    password: Seq<char>,
) -> Done<TerminalPhase>
    decreases events.len(),
{
    if events.len() == 0 {
        Done {
            phase: start,
            to_child: Seq::empty(),
            to_stdout: Seq::empty(),
            to_stderr: Seq::empty(),
        }
    } else {
        let before = terminal_run(start, events.drop_last(), password);
        let (phase, e) = terminal_step(before.phase, events.last(), password);
        Done {
            phase,
            to_child: before.to_child + e.to_child,
            to_stdout: before.to_stdout + e.to_stdout,
            to_stderr: before.to_stderr + e.to_stderr,
        }
    }
}

/// Whether the kept bytes suffice to find the first prompt of a stream.
spec fn covers(kept: Seq<u8>, seen: Seq<u8>) -> bool {
    &&& kept.is_suffix_of(seen)
    &&& kept.len() == seen.len() || kept.len() >= 9
    &&& seen.len() <= KEPT_BYTES ==> kept == seen
    &&& prompt_end(seen) is None
}

proof fn lemma_prompt_end_unique(s: Seq<u8>, end: int)
    requires
        prompt_at(s, end - 9),
        forall|i: int| 0 <= i < end - 9 ==> !#[trigger] prompt_at(s, i),
    ensures
        prompt_end(s) == Some(end),
{
    lemma_prompt_end_from(s, 0);
}

/// The first prompt of a stream stays the first when the stream goes on.
proof fn lemma_prompt_stays(seen: Seq<u8>, chunk: Seq<u8>)
    requires
        prompt_end(seen) is Some,
    ensures
        prompt_end(seen + chunk) == prompt_end(seen),
        0 <= prompt_end(seen)->0 <= seen.len(),
{
    let s = seen + chunk;
    let end = prompt_end(seen)->0;
    lemma_prompt_end_from(seen, 0);
    assert(prompt_at(s, end - 9)) by {
        assert forall|k: int| 0 <= k < 9 implies small_byte(#[trigger] s[end - 9 + k])
            == prompt()[k] by {
            assert(s[end - 9 + k] == seen[end - 9 + k]);
        }
    }
    assert forall|i: int| 0 <= i < end - 9 implies !#[trigger] prompt_at(s, i) by {
        if prompt_at(s, i) {
            assert forall|k: int| 0 <= k < 9 implies small_byte(#[trigger] seen[i + k])
                == prompt()[k] by {
                assert(s[i + k] == seen[i + k]);
            }
            assert(prompt_at(seen, i));
        }
    }
    lemma_prompt_end_unique(s, end);
}

proof fn lemma_kept_suffices(kept: Seq<u8>, seen: Seq<u8>, chunk: Seq<u8>)
    requires
        covers(kept, seen),
    ensures
        match prompt_end(seen + chunk) {
            Some(end) => {
                let d = seen.len() - kept.len();
                &&& prompt_end(kept + chunk) == Some(end - d)
                &&& 0 <= end - d <= (kept + chunk).len()
                &&& (kept + chunk).skip(end - d) == (seen + chunk).skip(end)
            },
            None => {
                &&& prompt_end(kept + chunk) is None
                &&& covers(bounded(kept + chunk), seen + chunk)
            },
        },
{
    let d = seen.len() - kept.len();
    let whole = seen + chunk;
    let part = kept + chunk;
    lemma_prompt_end_from(seen, 0);
    lemma_prompt_end_from(whole, 0);
    lemma_prompt_end_from(part, 0);
    assert(kept =~= seen.subrange(d, seen.len() as int));
    assert forall|j: int| 0 <= j < part.len() implies part[j] == #[trigger] whole[j + d] by {
        if j < kept.len() {
            assert(kept[j] == seen[j + d]);
        }
    }
    assert forall|i: int| prompt_at(whole, i) implies i >= d && #[trigger] prompt_at(part, i - d) by {
        if i + 9 <= seen.len() {
            assert forall|k: int| 0 <= k < 9 implies small_byte(#[trigger] seen[i + k])
                == prompt()[k] by {
                assert(seen[i + k] == whole[i + k]);
            }
            assert(prompt_at(seen, i));
        }
        assert forall|k: int| 0 <= k < 9 implies small_byte(#[trigger] part[i - d + k])
            == prompt()[k] by {
            assert(part[i - d + k] == whole[i - d + k + d]);
            assert(whole[i - d + k + d] == whole[i + k]);
        }
    }
    assert forall|j: int| prompt_at(part, j) implies #[trigger] prompt_at(whole, j + d) by {
        assert forall|k: int| 0 <= k < 9 implies small_byte(#[trigger] whole[j + d + k])
            == prompt()[k] by {
            assert(part[j + k] == whole[j + k + d]);
            assert(whole[j + k + d] == whole[j + d + k]);
        }
    }
    match prompt_end(whole) {
        Some(end) => {
            assert(prompt_at(part, end - 9 - d));
            assert forall|j: int| 0 <= j < end - d - 9 implies !#[trigger] prompt_at(part, j) by {
                if prompt_at(part, j) {
                    assert(prompt_at(whole, j + d));
                }
            }
            assert(end - d - 9 == end - 9 - d);
            lemma_prompt_end_unique(part, end - d);
            assert(part.skip(end - d) =~= whole.skip(end));
        },
        None => {
            if let Some(e) = prompt_end(part) {
                assert(prompt_at(whole, e - 9 + d));
            }
            let b = bounded(part);
            assert(b =~= whole.subrange(whole.len() - b.len(), whole.len() as int));
            if whole.len() <= KEPT_BYTES {
                assert(b =~= whole);
            }
        },
    }
}

proof fn lemma_inside_run(chunks: Seq<Seq<u8>>, password: Seq<char>)
    ensures
        ({
            let run = inside_run(reads(chunks), password);
            let s = stream(chunks);
            &&& run.to_stderr == Seq::<u8>::empty()
            &&& match prompt_end(s) {
                Some(end) => {
                    &&& run.phase is Proxying
                    &&& run.to_child == typed(password)
                    &&& 0 <= end <= s.len()
                    &&& run.to_stdout == s.skip(end)
                },
                None => {
                    &&& run.phase matches InsidePhase::Waiting(kept)
                    &&& covers(kept, s)
                    &&& run.to_child == Seq::<u8>::empty()
                    &&& run.to_stdout == Seq::<u8>::empty()
                },
            }
        }),
    decreases chunks.len(),
{
    let run = inside_run(reads(chunks), password);
    let s = stream(chunks);
    if chunks.len() == 0 {
        assert(Seq::<u8>::empty().is_suffix_of(s));
        lemma_prompt_end_from(s, 0);
    } else {
        let front = chunks.drop_last();
        let chunk = chunks.last();
        lemma_inside_run(front, password);
        assert(reads(chunks).drop_last() =~= reads(front));
        assert(reads(chunks).last() == EventView::Data(chunk));
        let before = inside_run(reads(front), password);
        let seen = stream(front);
        match prompt_end(seen) {
            Some(end) => {
                lemma_prompt_stays(seen, chunk);
                assert(seen.skip(end) + chunk =~= s.skip(end));
                assert(run.to_child =~= typed(password));
                assert(run.to_stderr =~= Seq::<u8>::empty());
            },
            None => {
                let kept = before.phase->Waiting_0;
                lemma_kept_suffices(kept, seen, chunk);
                assert(run.to_stderr =~= Seq::<u8>::empty());
                match prompt_end(s) {
                    Some(end) => {
                        assert(run.to_child =~= typed(password));
                        assert(run.to_stdout =~= s.skip(end));
                    },
                    None => {
                        assert(run.to_child =~= Seq::<u8>::empty());
                        assert(run.to_stdout =~= Seq::<u8>::empty());
                    },
                }
            },
        }
    }
}

/// However the child's output is cut into reads: the password is typed exactly
/// when the output so far holds a prompt, once, and the session's output is
/// exactly what follows the first prompt. Dropping old bytes never loses a
/// prompt.
pub proof fn law_output_follows_the_prompt(chunks: Seq<Seq<u8>>, password: Seq<char>)
    ensures
        ({
            let run = inside_run(reads(chunks), password);
            let s = stream(chunks);
            &&& run.to_stderr == Seq::<u8>::empty()
            &&& match prompt_end(s) {
                Some(end) => run.to_child == typed(password) && run.to_stdout == s.skip(end),
                None => run.to_child == Seq::<u8>::empty() && run.to_stdout == Seq::<u8>::empty(),
            }
        }),
{
    lemma_inside_run(chunks, password);
}

/// A child that ends without ever having asked for the password has its latest
/// output shown as errors: all of it, unless it is more than is kept.
pub proof fn law_output_without_prompt_is_shown(chunks: Seq<Seq<u8>>, password: Seq<char>)
    requires
        prompt_end(stream(chunks)) is None,
    ensures
        ({
            let run = inside_run(reads(chunks).push(EventView::Closed), password);
            let s = stream(chunks);
            &&& run.to_stderr.is_suffix_of(s)
            &&& s.len() <= KEPT_BYTES ==> run.to_stderr == s
            &&& run.to_child == Seq::<u8>::empty()
            &&& run.to_stdout == Seq::<u8>::empty()
        }),
{
    lemma_inside_run(chunks, password);
    let events = reads(chunks).push(EventView::Closed);
    assert(events.drop_last() =~= reads(chunks));
    let before = inside_run(reads(chunks), password);
    let run = inside_run(events, password);
    assert(run.to_stderr =~= before.phase->Waiting_0);
    assert(run.to_child =~= Seq::<u8>::empty());
    assert(run.to_stdout =~= Seq::<u8>::empty());
}

/// What the child says over several events.
pub open spec fn spoken(events: Seq<EventView>) -> Seq<u8>
    decreases events.len(),
{
    if events.len() == 0 {
        Seq::empty()
    } else {
        match events.last() {
            EventView::Data(chunk) => spoken(events.drop_last()) + chunk,
            _ => spoken(events.drop_last()),
        }
    }
}

/// Whether a child runs on over several events: it says something or is quiet.
pub open spec fn goes_on(events: Seq<EventView>) -> bool {
    forall|i: int|
        0 <= i < events.len() ==> (#[trigger] events[i] is Data || events[i] is Quiet)
}

proof fn lemma_terminal_run(events: Seq<EventView>, password: Seq<char>)
    requires
        goes_on(events),
    ensures
        ({
            let run = terminal_run(TerminalPhase::Waiting(Seq::empty()), events, password);
            let s = spoken(events);
            &&& run.to_stdout == Seq::<u8>::empty()
            &&& match prompt_end(s) {
                Some(_) => run.phase is Draining && run.to_child == typed(password),
                None => {
                    &&& run.phase matches TerminalPhase::Waiting(kept)
                    &&& covers(kept, s)
                    &&& run.to_child == Seq::<u8>::empty()
                    &&& run.to_stderr == Seq::<u8>::empty()
                },
            }
        }),
    decreases events.len(),
{
    let start = TerminalPhase::Waiting(Seq::empty());
    let run = terminal_run(start, events, password);
    let s = spoken(events);
    if events.len() == 0 {
        assert(Seq::<u8>::empty().is_suffix_of(s));
        lemma_prompt_end_from(s, 0);
    } else {
        let front = events.drop_last();
        assert forall|i: int| 0 <= i < front.len() implies (#[trigger] front[i] is Data
            || front[i] is Quiet) by {
            assert(front[i] == events[i]);
        }
        lemma_terminal_run(front, password);
        let before = terminal_run(start, front, password);
        let seen = spoken(front);
        assert(run.to_stdout =~= Seq::<u8>::empty());
        match events.last() {
            EventView::Data(chunk) => match prompt_end(seen) {
                Some(_) => {
                    lemma_prompt_stays(seen, chunk);
                    assert(run.to_child =~= typed(password));
                },
                None => {
                    lemma_kept_suffices(before.phase->Waiting_0, seen, chunk);
                    if prompt_end(s) is Some {
                        assert(run.to_child =~= typed(password));
                    } else {
                        assert(run.to_child =~= Seq::<u8>::empty());
                        assert(run.to_stderr =~= Seq::<u8>::empty());
                    }
                },
            },
            _ => {
                assert(events[events.len() - 1] is Quiet);
                assert(run.to_child =~= before.to_child);
                assert(run.to_stderr =~= before.to_stderr);
            },
        }
    }
}

/// However the child's words on its terminal are cut into reads, and however
/// long it is quiet between them: the password is typed exactly when they hold a
/// prompt so far, once, and none of them gets into the session's output.
pub proof fn law_terminal_answers_the_prompt(events: Seq<EventView>, password: Seq<char>)
    requires
        goes_on(events),
    ensures
        ({
            let run = terminal_run(TerminalPhase::Waiting(Seq::empty()), events, password);
            &&& run.to_stdout == Seq::<u8>::empty()
            &&& run.to_child == (if prompt_end(spoken(events)) is Some {
                typed(password)
            } else {
                Seq::<u8>::empty()
            })
        }),
{
    lemma_terminal_run(events, password);
}

proof fn lemma_without_blanks_concat(a: Seq<u8>, b: Seq<u8>)
    ensures
        without_blanks(a + b) == (if without_blanks(a).len() == 0 {
            without_blanks(b)
        } else {
            without_blanks(a) + b
        }),
    decreases a.len(),
{
    if a.len() == 0 {
        assert(a + b =~= b);
    } else if a[0] == 13 || a[0] == 10 {
        assert((a + b).skip(1) =~= a.skip(1) + b);
        lemma_without_blanks_concat(a.skip(1), b);
    }
}

/// What is read after the read that held the prompt is shown as it is, but for
/// the line ends that it starts with, however it is cut into reads.
pub proof fn law_terminal_shows_the_rest(chunks: Seq<Seq<u8>>, password: Seq<char>)
    ensures
        ({
            let run = terminal_run(
                TerminalPhase::Draining { leading_blanks: true },
                reads(chunks),
                password,
            );
            &&& run.to_stderr == without_blanks(stream(chunks))
            &&& run.to_stdout == Seq::<u8>::empty()
            &&& run.to_child == Seq::<u8>::empty()
            &&& run.phase == TerminalPhase::Draining {
                leading_blanks: without_blanks(stream(chunks)).len() == 0,
            }
        }),
    decreases chunks.len(),
{
    let start = TerminalPhase::Draining { leading_blanks: true };
    let run = terminal_run(start, reads(chunks), password);
    if chunks.len() > 0 {
        let front = chunks.drop_last();
        let chunk = chunks.last();
        law_terminal_shows_the_rest(front, password);
        assert(reads(chunks).drop_last() =~= reads(front));
        assert(reads(chunks).last() == EventView::Data(chunk));
        lemma_without_blanks_concat(stream(front), chunk);
        assert(run.to_stderr =~= without_blanks(stream(chunks)));
        assert(run.to_stdout =~= Seq::<u8>::empty());
        assert(run.to_child =~= Seq::<u8>::empty());
    }
}

/// Whatever happens to a session inside a pseudo-terminal, the password is
/// typed at most once, and nothing that is shown depends on it.
pub proof fn law_inside_password_goes_nowhere_else(
    events: Seq<EventView>,
    password: Seq<char>,
    other: Seq<char>,
)
    ensures
        ({
            let a = inside_run(events, password);
            let b = inside_run(events, other);
            &&& a.to_stdout == b.to_stdout
            &&& a.to_stderr == b.to_stderr
            &&& a.phase == b.phase
            &&& a.to_child == typed(password) || a.to_child == Seq::<u8>::empty()
            &&& a.phase is Waiting ==> a.to_child == Seq::<u8>::empty()
        }),
    decreases events.len(),
{
    if events.len() > 0 {
        law_inside_password_goes_nowhere_else(events.drop_last(), password, other);
        let before = inside_run(events.drop_last(), password);
        let a = inside_run(events, password);
        assert(a.to_child =~= before.to_child || a.to_child =~= typed(password));
    }
}

/// Whatever happens to a session with a controlling terminal, the password is
/// typed at most once, nothing that is shown depends on it, and nothing at all
/// gets into the session's output.
pub proof fn law_terminal_password_goes_nowhere_else(
    events: Seq<EventView>,
    password: Seq<char>,
    other: Seq<char>,
)
    ensures
        ({
            let start = TerminalPhase::Waiting(Seq::empty());
            let a = terminal_run(start, events, password);
            let b = terminal_run(start, events, other);
            &&& a.to_stdout == Seq::<u8>::empty()
            &&& a.to_stderr == b.to_stderr
            &&& a.phase == b.phase
            &&& a.to_child == typed(password) || a.to_child == Seq::<u8>::empty()
            &&& a.phase is Waiting ==> a.to_child == Seq::<u8>::empty()
        }),
    decreases events.len(),
{
    let start = TerminalPhase::Waiting(Seq::empty());
    if events.len() > 0 {
        law_terminal_password_goes_nowhere_else(events.drop_last(), password, other);
        let before = terminal_run(start, events.drop_last(), password);
        let a = terminal_run(start, events, password);
        assert(a.to_stdout =~= Seq::<u8>::empty());
        assert(a.to_child =~= before.to_child || a.to_child =~= typed(password));
    }
}

/// What is typed at the prompt is the whole password in UTF-8 and one line feed
/// behind it.
pub proof fn law_whole_password_is_typed(password: Seq<char>)
    ensures
        typed(password).len() == encode_utf8(password).len() + 1,
        typed(password).drop_last() == encode_utf8(password),
        typed(password).last() == 10,
        decode_utf8(typed(password).drop_last()) == password,
{
    assert(typed(password).drop_last() =~= encode_utf8(password));
    encode_utf8_decode_utf8(password);
}

/// Different passwords are typed differently.
pub proof fn law_typing_tells_passwords_apart(a: Seq<char>, b: Seq<char>)
    requires
        typed(a) == typed(b),
    ensures
        a == b,
{
    law_whole_password_is_typed(a);
    law_whole_password_is_typed(b);
}

/// The nine letters of the prompt, small and, but for the colon, as capitals.
proof fn lemma_prompt_letters(s: Seq<u8>, at: int)
    ensures
        prompt_at(s, at) <==> {
            &&& 0 <= at
            &&& at + 9 <= s.len()
            &&& s[at] == 112 || s[at] == 80
            &&& s[at + 1] == 97 || s[at + 1] == 65
            &&& s[at + 2] == 115 || s[at + 2] == 83
            &&& s[at + 3] == 115 || s[at + 3] == 83
            &&& s[at + 4] == 119 || s[at + 4] == 87
            &&& s[at + 5] == 111 || s[at + 5] == 79
            &&& s[at + 6] == 114 || s[at + 6] == 82
            &&& s[at + 7] == 100 || s[at + 7] == 68
            &&& s[at + 8] == 58
        },
{
    if prompt_at(s, at) {
        assert(small_byte(s[at + 0]) == prompt()[0]);
        assert(small_byte(s[at + 1]) == prompt()[1]);
        assert(small_byte(s[at + 2]) == prompt()[2]);
        assert(small_byte(s[at + 3]) == prompt()[3]);
        assert(small_byte(s[at + 4]) == prompt()[4]);
        assert(small_byte(s[at + 5]) == prompt()[5]);
        assert(small_byte(s[at + 6]) == prompt()[6]);
        assert(small_byte(s[at + 7]) == prompt()[7]);
        assert(small_byte(s[at + 8]) == prompt()[8]);
    } else if 0 <= at && at + 9 <= s.len() {
        let k = choose|k: int|
            0 <= k < prompt().len() && small_byte(#[trigger] s[at + k]) != prompt()[k];
        assert(0 <= k < 9);
        assert(k == 0 || k == 1 || k == 2 || k == 3 || k == 4 || k == 5 || k == 6 || k == 7 || k
            == 8);
    }
}

/// A place where the prompt is said to end has the letters of `password:` right in
/// front of it, each small or a capital.
pub proof fn law_prompt_is_spelled(s: Seq<u8>)
    ensures
        prompt_end(s) matches Some(end) ==> {
            &&& 9 <= end <= s.len()
            &&& s[end - 9] == 112 || s[end - 9] == 80
            &&& s[end - 8] == 97 || s[end - 8] == 65
            &&& s[end - 7] == 115 || s[end - 7] == 83
            &&& s[end - 6] == 115 || s[end - 6] == 83
            &&& s[end - 5] == 119 || s[end - 5] == 87
            &&& s[end - 4] == 111 || s[end - 4] == 79
            &&& s[end - 3] == 114 || s[end - 3] == 82
            &&& s[end - 2] == 100 || s[end - 2] == 68
            &&& s[end - 1] == 58
        },
{
    law_first_prompt_is_found(s);
    if let Some(end) = prompt_end(s) {
        lemma_prompt_letters(s, end - 9);
    }
}

/// Wherever `password:` is spelled, in small letters or capitals, a prompt is found
/// that ends there or earlier.
pub proof fn law_spelled_prompt_is_found(s: Seq<u8>, at: int)
    requires
        0 <= at,
        at + 9 <= s.len(),
        s[at] == 112 || s[at] == 80,
        s[at + 1] == 97 || s[at + 1] == 65,
        s[at + 2] == 115 || s[at + 2] == 83,
        s[at + 3] == 115 || s[at + 3] == 83,
        s[at + 4] == 119 || s[at + 4] == 87,
        s[at + 5] == 111 || s[at + 5] == 79,
        s[at + 6] == 114 || s[at + 6] == 82,
        s[at + 7] == 100 || s[at + 7] == 68,
        s[at + 8] == 58,
    ensures
        prompt_end(s) matches Some(end) && end <= at + 9,
{
    lemma_prompt_letters(s, at);
    law_first_prompt_is_found(s);
}

/// While the prompt is waited for, up to 16384 bytes are all kept, and of more the
/// first 8192 are dropped.
pub proof fn law_latest_bytes_are_kept(s: Seq<u8>)
    ensures
        s.len() <= 16384 ==> bounded(s) == s,
        s.len() > 16384 ==> bounded(s).len() == s.len() - 8192 && forall|i: int|
            8192 <= i < s.len() ==> #[trigger] s[i] == bounded(s)[i - 8192],
{
}

/// A session inside a pseudo-terminal that sees the prompt for the first time types
/// the whole password and a line feed, shows what follows the prompt and ends not
/// yet; without a prompt it types and shows nothing.
pub proof fn law_inside_waits_for_the_prompt(kept: Seq<u8>, chunk: Seq<u8>, password: Seq<char>)
    ensures
        ({
            let (next, e) = inside_step(
                InsidePhase::Waiting(kept),
                EventView::Data(chunk),
                password,
            );
            &&& !e.ended && !e.silence_echo && e.to_stderr.len() == 0
            &&& match prompt_end(kept + chunk) {
                Some(end) => {
                    &&& e.to_child == encode_utf8(password).push(10)
                    &&& e.to_stdout == (kept + chunk).skip(end)
                    &&& next is Proxying
                },
                None => {
                    &&& e.to_child.len() == 0
                    &&& e.to_stdout.len() == 0
                    &&& next is Waiting
                },
            }
        }),
{
}

/// Once the password is typed, a session inside a pseudo-terminal shows what the
/// child prints as it is, types nothing more and stays so; and whatever it did, it
/// ends exactly when the pseudo-terminal does, with what it held back shown as
/// errors where there was no prompt.
pub proof fn law_inside_hands_output_on(
    phase: InsidePhase,
    event: EventView,
    chunk: Seq<u8>,
    password: Seq<char>,
)
    ensures
        ({
            let (next, e) = inside_step(
                InsidePhase::Proxying,
                EventView::Data(chunk),
                password,
            );
            &&& next is Proxying
            &&& e.to_stdout == chunk
            &&& e.to_child.len() == 0 && e.to_stderr.len() == 0
        }),
        inside_step(phase, event, password).1.ended <==> event is Closed,
        !inside_step(phase, event, password).1.silence_echo,
        ({
            let (next, e) = inside_step(phase, EventView::Closed, password);
            &&& next == phase
            &&& e.to_child.len() == 0 && e.to_stdout.len() == 0
            &&& match phase {
                InsidePhase::Waiting(kept) => e.to_stderr == kept,
                InsidePhase::Proxying => e.to_stderr.len() == 0,
            }
        }),
        event is Quiet || event is Gone ==> {
            let (next, e) = inside_step(phase, event, password);
            next == phase && e.to_child.len() == 0 && e.to_stdout.len() == 0 && e.to_stderr.len()
                == 0
        },
{
}

/// A session with a controlling terminal that sees the prompt switches the echo off
/// and types the whole password and a line feed, and shows nothing; a quiet child
/// is waited for, and one that is gone, or whose terminal has ended, no longer.
pub proof fn law_terminal_waits_for_the_prompt(
    kept: Seq<u8>,
    event: EventView,
    password: Seq<char>,
)
    ensures
        ({
            let (next, e) = terminal_step(TerminalPhase::Waiting(kept), event, password);
            &&& !e.ended && e.to_stdout.len() == 0 && e.to_stderr.len() == 0
            &&& e.silence_echo <==> e.to_child.len() > 0
            &&& match event {
                EventView::Data(chunk) => if prompt_end(kept + chunk) is Some {
                    &&& next == TerminalPhase::Draining { leading_blanks: true }
                    &&& e.to_child == encode_utf8(password).push(10)
                } else {
                    next is Waiting && e.to_child.len() == 0
                },
                EventView::Quiet => next == TerminalPhase::Waiting(kept) && e.to_child.len() == 0,
                _ => next == TerminalPhase::Draining { leading_blanks: true } && e.to_child.len()
                    == 0,
            }
        }),
{
}

/// Once a session with a controlling terminal waits for no prompt, it never types
/// again, never touches the session's output, and ends exactly when the terminal
/// does. What it shows is the end of what was read, all of it behind the first
/// byte that is no line end.
pub proof fn law_terminal_drains(
    leading_blanks: bool,
    event: EventView,
    password: Seq<char>,
)
    ensures
        ({
            let (next, e) = terminal_step(
                TerminalPhase::Draining { leading_blanks },
                event,
                password,
            );
            &&& next is Draining
            &&& e.to_child.len() == 0 && e.to_stdout.len() == 0 && !e.silence_echo
            &&& e.ended <==> event is Closed
            &&& match event {
                EventView::Data(chunk) => {
                    &&& e.to_stderr.is_suffix_of(chunk)
                    &&& !leading_blanks ==> e.to_stderr == chunk
                    &&& leading_blanks && e.to_stderr.len() > 0 ==> e.to_stderr[0] != 13
                        && e.to_stderr[0] != 10
                    &&& forall|i: int|
                        0 <= i < chunk.len() - e.to_stderr.len() ==> #[trigger] chunk[i] == 13
                            || chunk[i] == 10
                },
                _ => e.to_stderr.len() == 0,
            }
        }),
{
    if let EventView::Data(chunk) = event {
        lemma_without_blanks_is_the_end(chunk);
    }
}

proof fn lemma_without_blanks_is_the_end(s: Seq<u8>)
    ensures
        without_blanks(s).is_suffix_of(s),
        without_blanks(s).len() > 0 ==> without_blanks(s)[0] != 13 && without_blanks(s)[0] != 10,
        forall|i: int|
            0 <= i < s.len() - without_blanks(s).len() ==> #[trigger] s[i] == 13 || s[i] == 10,
    decreases s.len(),
{
    if s.len() > 0 && (s[0] == 13 || s[0] == 10) {
        let t = s.skip(1);
        lemma_without_blanks_is_the_end(t);
        let w = without_blanks(t);
        assert(w =~= s.subrange(s.len() - w.len(), s.len() as int)) by {
            assert(w =~= t.subrange(t.len() - w.len(), t.len() as int));
        }
        assert forall|i: int| 0 <= i < s.len() - w.len() implies #[trigger] s[i] == 13 || s[i]
            == 10 by {
            if i > 0 {
                assert(t[i - 1] == s[i]);
            }
        }
    } else {
        assert(s.subrange(0, s.len() as int) =~= s);
    }
}

/// A session begins without having seen anything and with the password as it is
/// stored. It keeps its own streams exactly where it is a command on Unix; any
/// other runs inside the pseudo-terminal, which is raw but for a shell, and is
/// interactive only for a shell.
pub proof fn law_sessions_begin_as_asked(
    session: Session,
    platform: Platform,
    password: Seq<char>,
    opts: Opts,
)
    requires
        begins(session, platform, password, opts),
    ensures
        session is Terminal <==> platform == Platform::Unix && opts.mode == Mode::Command,
        match session {
            Session::Terminal(t) => {
                &&& t.password@ == password
                &&& t.watcher.kept@.len() == 0
                &&& !t.draining && t.leading_blanks
            },
            Session::Inside { session: s, raw, interactive, forward_stdin } => {
                &&& s.password@ == password
                &&& s.watcher.kept@.len() == 0
                &&& !s.authed
                &&& interactive <==> opts.mode == Mode::Shell
                &&& raw <==> opts.mode != Mode::Shell
                &&& forward_stdin == opts.forward_stdin
            },
        },
{
}

/// What happens to a session and what it wants done go by what they hold.
pub proof fn law_events_and_effects_are_what_they_hold(event: Event, effects: Effects)
    ensures
        match event {
            Event::Data(chunk) => event@ == EventView::Data(chunk@),
            Event::Closed => event@ is Closed,
            Event::Quiet => event@ is Quiet,
            Event::Gone => event@ is Gone,
        },
        effects@.silence_echo == effects.silence_echo,
        effects@.to_child == effects.to_child@,
        effects@.to_stdout == effects.to_stdout@,
        effects@.to_stderr == effects.to_stderr@,
        effects@.ended == effects.ended,
{
}

/// A session waits exactly as long as it has not typed the password, or given up
/// waiting, with the bytes that its watcher keeps.
pub proof fn law_phases_are_what_sessions_hold(inside: InsideSession, terminal: TerminalSession)
    ensures
        inside.phase() == (if inside.authed {
            InsidePhase::Proxying
        } else {
            InsidePhase::Waiting(inside.watcher.kept@)
        }),
        terminal.phase() == (if terminal.draining {
            TerminalPhase::Draining { leading_blanks: terminal.leading_blanks }
        } else {
            TerminalPhase::Waiting(terminal.watcher.kept@)
        }),
{
}

} // verus!
