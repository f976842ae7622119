//! The watcher of `.git/HEAD`: which file events matter, what `HEAD` says, and when a burst of
//! events amounts to a change of branch.

use crate::{branch, text};
use vstd::prelude::*;

verus! {

// ── What HEAD says ───────────────────────────────────────────────────────────────────────
/// The state of `.git/HEAD`.
#[derive(Debug, PartialEq, Eq)]
pub enum HeadState {
    /// HEAD points to a named branch, such as `main` or `feature/login`.
    Branch(String),
    /// HEAD is detached at a commit.
    Detached(String),
}

/// The state of `.git/HEAD` in characters.
pub enum HeadView {
    Branch(Seq<char>),
    Detached(Seq<char>),
}

impl View for HeadState {
    type V = HeadView;

    open spec fn view(&self) -> HeadView {
        match self {
            HeadState::Branch(name) => HeadView::Branch(name@),
            HeadState::Detached(sha) => HeadView::Detached(sha@),
        }
    }
}

/// Why the contents of `.git/HEAD` are no state. Each carries the contents without the white
/// space around them.
#[derive(Debug, PartialEq, Eq)]
pub enum HeadError {
    /// There is nothing in the file.
    Empty,
    /// The reference names nothing.
    EmptyRef(String),
    /// Neither a reference nor a commit.
    Unrecognized(String),
}

/// Why the contents of `.git/HEAD` are no state, in characters.
pub enum ErrorView {
    Empty,
    EmptyRef(Seq<char>),
    Unrecognized(Seq<char>),
}

impl View for HeadError {
    type V = ErrorView;

    open spec fn view(&self) -> ErrorView {
        match self {
            HeadError::Empty => ErrorView::Empty,
            HeadError::EmptyRef(s) => ErrorView::EmptyRef(s@),
            HeadError::Unrecognized(s) => ErrorView::Unrecognized(s@),
        }
    }
}

/// Whether a character is a hexadecimal digit.
pub open spec fn hex_digit(c: char) -> bool {
    ||| '0' <= c <= '9'
    ||| 'a' <= c <= 'f'
    ||| 'A' <= c <= 'F'
}

/// Whether a text is a commit: 40 hexadecimal digits (SHA-1) or 64 (SHA-256), and nothing else.
pub open spec fn commit(s: Seq<char>) -> bool {
    (s.len() == 40 || s.len() == 64) && forall|i: int| 0 <= i < s.len() ==> hex_digit(#[trigger] s[i])
}

/// The name of a reference: what follows `refs/heads/`, or all of it where it is no branch.
pub open spec fn reference_name(target: Seq<char>) -> Seq<char> {
    match text::stripped(target, "refs/heads/"@) {
        Some(name) => name,
        None => target,
    }
}

/// The state that the contents of `.git/HEAD` say.
pub open spec fn head_of(content: Seq<char>) -> Option<HeadView> {
    let t = text::trimmed(content);
    match text::stripped(t, "ref: "@) {
        Some(target) => if reference_name(target).len() == 0 {
            None
        } else {
            Some(HeadView::Branch(reference_name(target)))
        },
        None => if commit(t) {
            Some(HeadView::Detached(t))
        } else {
            None
        },
    }
}

/// The error that the contents of `.git/HEAD` are refused with, where they say no state.
pub open spec fn head_error(content: Seq<char>) -> ErrorView {
    let t = text::trimmed(content);
    if t.len() == 0 {
        ErrorView::Empty
    } else if text::stripped(t, "ref: "@) is Some {
        ErrorView::EmptyRef(t)
    } else {
        ErrorView::Unrecognized(t)
    }
}

/// Whether a character is a hexadecimal digit.
fn is_hex_digit(c: char) -> (r: bool)
    ensures
        r == hex_digit(c),
{
    ('0' <= c && c <= '9') || ('a' <= c && c <= 'f') || ('A' <= c && c <= 'F')
}

/// Whether a text is a commit.
fn is_commit(s: &str) -> (r: bool)
    ensures
        r == commit(s@),
{
    let v = text::chars_of(s);
    if v.len() != 40 && v.len() != 64 {
        return false;
    }
    let mut i: usize = 0;
    while i < v.len()
        invariant
            i <= v@.len(),
            v@ == s@,
            forall|j: int| 0 <= j < i ==> hex_digit(#[trigger] v@[j]),
        decreases v@.len() - i,
    {
        if !is_hex_digit(v[i]) {
            assert(!hex_digit(s@[i as int]));
            return false;
        }
        i = i + 1;
    }
    true
}

/// Reads the contents of `.git/HEAD`.
///
/// `ref: refs/heads/main` is the branch `main`, and 40 or 64 hexadecimal digits are a
/// detached commit. White space around them does not count. A reference that is not under
/// `refs/heads/` is kept in full.
pub fn parse_head(content: &str) -> (r: Result<HeadState, HeadError>)
    ensures
        match r {
            Ok(state) => head_of(content@) == Some(state@),
            Err(e) => head_of(content@) is None && e@ == head_error(content@),
        },
{
    let trimmed = text::trim(content);
    proof {
        reveal_strlit("ref: ");
    }
    if trimmed.as_str().is_empty() {
        return Err(HeadError::Empty);
    }
    match text::strip_prefix(trimmed.as_str(), "ref: ") {
        Some(target) => {
            let name = match text::strip_prefix(target.as_str(), "refs/heads/") {
                Some(name) => name,
                None => target,
            };
            if name.as_str().is_empty() {
                Err(HeadError::EmptyRef(trimmed))
            } else {
                Ok(HeadState::Branch(name))
            }
        },
        None => if is_commit(trimmed.as_str()) {
            Ok(HeadState::Detached(trimmed))
        } else {
            Err(HeadError::Unrecognized(trimmed))
        },
    }
}

/// How many bytes of a commit are shown.
pub open spec fn shown_bytes(sha: Seq<char>) -> int {
    let n = vstd::utf8::encode_utf8(sha).len();
    if n < 8 {
        n as int
    } else {
        8
    }
}

/// Whether a state can be shown: a commit must not have a character across its eighth byte.
pub open spec fn can_be_shown(state: HeadView) -> bool {
    state matches HeadView::Detached(sha) ==> vstd::utf8::is_char_boundary(
        vstd::utf8::encode_utf8(sha),
        shown_bytes(sha),
    )
}

/// A state for people to read: the branch, or the first eight bytes of the commit.
pub open spec fn head_text(state: HeadView) -> Seq<char> {
    match state {
        HeadView::Branch(name) => "branch:"@ + name,
        HeadView::Detached(sha) => "detached:"@ + vstd::utf8::decode_utf8(
            vstd::utf8::encode_utf8(sha).take(shown_bytes(sha)),
        ),
    }
}

impl HeadState {
    /// The state for people to read.
    pub fn display(&self) -> (r: String)
        requires
            can_be_shown(self@),
        ensures
            r@ == head_text(self@),
    {
        match self {
            HeadState::Branch(name) => {
                let mut s = "branch:".to_owned();
                s.append(name.as_str());
                s
            },
            HeadState::Detached(sha) => {
                let len: usize = sha.as_str().as_bytes().len();
                let shown: usize = if len < 8 {
                    len
                } else {
                    8
                };
                let mut s = "detached:".to_owned();
                s.append(text::byte_prefix(sha.as_str(), shown).as_str());
                s
            },
        }
    }

    /// Whether the two are the same state.
    pub fn same(&self, other: &HeadState) -> (r: bool)
        ensures
            r == (self@ == other@),
    {
        match (self, other) {
            (HeadState::Branch(a), HeadState::Branch(b)) => text::same_text(a.as_str(), b.as_str()),
            (HeadState::Detached(a), HeadState::Detached(b)) => text::same_text(
                a.as_str(),
                b.as_str(),
            ),
            _ => false,
        }
    }
}

/// Every state that is read from `.git/HEAD` can be shown, and of a commit the first eight
/// digits are.
pub proof fn law_head_can_be_shown(content: Seq<char>)
    requires
        head_of(content) is Some,
    ensures
        can_be_shown(head_of(content)->0),
        head_of(content)->0 matches HeadView::Detached(sha) ==> head_text(head_of(content)->0)
            == "detached:"@ + sha.take(8),
{
    if let HeadView::Detached(sha) = head_of(content)->0 {
        assert(vstd::utf8::is_ascii_chars(sha)) by {
            assert forall|i: int| 0 <= i < sha.len() implies '\0' <= #[trigger] sha[i] <= '\u{7f}' by {
                assert(hex_digit(sha[i]));
            }
        }
        text::lemma_ascii_prefix(sha, 8);
    }
}

/// Where `.git/HEAD` names a branch, the watcher and the proxy agree on it.
pub proof fn law_watcher_and_proxy_agree(content: Seq<char>, name: Seq<char>)
    requires
        text::stripped(text::trimmed(content), "ref: refs/heads/"@) == Some(name),
        name.len() > 0,
    ensures
        head_of(content) == Some(HeadView::Branch(name)),
        branch::branch_of_head(content) == name,
{
    reveal_strlit("ref: ");
    reveal_strlit("refs/heads/");
    reveal_strlit("ref: refs/heads/");
    let t = text::trimmed(content);
    let whole = "ref: refs/heads/"@;
    let first = "ref: "@;
    let second = "refs/heads/"@;
    assert(whole =~= first + second);
    assert(t.take(5) =~= t.take(16).take(5));
    assert(t.take(5) =~= first);
    let target = t.skip(5);
    assert(target.take(11) =~= t.take(16).skip(5));
    assert(target.take(11) =~= second);
    assert(target.skip(11) =~= t.skip(16));
}

// ── Which events matter ──────────────────────────────────────────────────────────────────
/// A file event: the paths that it is about.
#[derive(Debug)]
pub struct FileEvent {
    pub paths: Vec<String>,
}

/// The last of some path components that is neither empty nor the current directory.
pub open spec fn last_component(pieces: Seq<Seq<char>>) -> Option<Seq<char>>
    decreases pieces.len(),
{
    if pieces.len() == 0 {
        None
    } else if pieces.last().len() == 0 || pieces.last() == "."@ {
        last_component(pieces.drop_last())
    } else {
        Some(pieces.last())
    }
}

/// The file name of a path: its last component, unless that is the parent directory.
pub open spec fn file_name(path: Seq<char>) -> Option<Seq<char>> {
    match last_component(text::split(path, '/')) {
        Some(name) => if name == ".."@ {
            None
        } else {
            Some(name)
        },
        None => None,
    }
}

/// Whether a path leads to `HEAD` or to the lock file next to it.
pub open spec fn head_path(path: Seq<char>) -> bool {
    file_name(path) == Some("HEAD"@) || file_name(path) == Some("HEAD.lock"@)
}

/// Whether a path leads to `HEAD` or to the lock file next to it.
fn is_head_path(path: &str) -> (r: bool)
    ensures
        r == head_path(path@),
{
    let pieces = text::split_text(path, '/');
    let ghost all = text::texts(pieces@);
    let mut i: usize = pieces.len();
    assert(all.take(i as int) =~= all);
    while i > 0
        invariant
            i <= pieces@.len(),
            all == text::texts(pieces@),
            last_component(all.take(i as int)) == last_component(all),
            all == text::split(path@, '/'),
        decreases i,
    {
        assert(all.take(i as int).drop_last() =~= all.take(i - 1));
        let piece = pieces[i - 1].as_str();
        assert(all.take(i as int).last() == piece@);
        if !piece.is_empty() && !text::same_text(piece, ".") {
            proof {
                reveal_strlit("HEAD");
                reveal_strlit("HEAD.lock");
                reveal_strlit("..");
            }
            return text::same_text(piece, "HEAD") || text::same_text(piece, "HEAD.lock");
        }
        i = i - 1;
    }
    assert(all.take(0).len() == 0);
    false
}

/// Whether a file event is about `HEAD` or the lock file next to it. Everything else in `.git`
/// is noise.
pub fn event_touches_head(event: &FileEvent) -> (r: bool)
    ensures
        r == exists|i: int| 0 <= i < event.paths@.len() && head_path(#[trigger] event.paths@[i]@),
{
    let mut i: usize = 0;
    while i < event.paths.len()
        invariant
            i <= event.paths@.len(),
            forall|j: int| 0 <= j < i ==> !head_path(#[trigger] event.paths@[j]@),
        decreases event.paths@.len() - i,
    {
        if is_head_path(event.paths[i].as_str()) {
            assert(head_path(event.paths@[i as int]@));
            return true;
        }
        i = i + 1;
    }
    false
}

// ── From events to changes ───────────────────────────────────────────────────────────────
/// How long after the first event of a burst more events are waited for, in milliseconds.
pub const DEBOUNCE_MS: u64 = 50;

/// What the watcher is doing.
#[derive(Debug, Clone, Copy, PartialEq, Eq, Structural)]
pub enum WatchPhase {
    /// Waiting for the first event of a burst.
    Idle,
    /// Waiting for more events of the burst.
    Draining,
    /// Waiting for the contents of `.git/HEAD`.
    Reading,
    /// Nothing more: the source of events is closed.
    Stopped,
}

/// The watcher: the last state of `.git/HEAD` that it read, and what it is doing.
#[derive(Debug)]
pub struct Watcher {
    pub current: HeadState,
    pub phase: WatchPhase,
}

/// The watcher in characters.
pub struct WatchView {
    pub current: HeadView,
    pub phase: WatchPhase,
}

impl View for Watcher {
    type V = WatchView;

    open spec fn view(&self) -> WatchView {
        WatchView { current: self.current@, phase: self.phase }
    }
}

/// What can happen to the watcher.
#[derive(Debug)]
pub enum WatchEvent {
    /// A file event about `HEAD` came.
    Touched,
    /// The time to wait for more events of the burst is over.
    WindowClosed,
    /// No more events will come.
    SourceClosed,
    /// `.git/HEAD` was read. `None` stands for a file that could not be read.
    HeadRead(Option<String>),
}

/// What can happen to the watcher, in characters.
pub enum EventView {
    Touched,
    WindowClosed,
    SourceClosed,
    HeadRead(Option<Seq<char>>),
}

impl View for WatchEvent {
    type V = EventView;

    open spec fn view(&self) -> EventView {
        match self {
            WatchEvent::Touched => EventView::Touched,
            WatchEvent::WindowClosed => EventView::WindowClosed,
            WatchEvent::SourceClosed => EventView::SourceClosed,
            WatchEvent::HeadRead(Some(content)) => EventView::HeadRead(Some(content@)),
            WatchEvent::HeadRead(None) => EventView::HeadRead(None),
        }
    }
}

/// What the watcher wants done.
#[derive(Debug)]
pub enum WatchAction {
    /// Wait for the next event, without a limit.
    AwaitEvent,
    /// Wait for more events until the window closes.
    AwaitMore,
    /// Read `.git/HEAD`.
    ReadHead,
    /// Report the change of branch, then wait for the next event.
    Report { from: HeadState, to: HeadState },
    /// Nothing changed: wait for the next event.
    Unchanged,
    /// `.git/HEAD` says nothing that can be used, for this reason, or could not be read: wait
    /// for the next event.
    BadHead(Option<HeadError>),
    /// Stop.
    Stop,
}

/// What the watcher wants done, in characters.
pub enum ActionView {
    AwaitEvent,
    AwaitMore,
    ReadHead,
    Report { from: HeadView, to: HeadView },
    Unchanged,
    BadHead(Option<ErrorView>),
    Stop,
}

impl View for WatchAction {
    type V = ActionView;

    open spec fn view(&self) -> ActionView {
        match self {
            WatchAction::AwaitEvent => ActionView::AwaitEvent,
            WatchAction::AwaitMore => ActionView::AwaitMore,
            WatchAction::ReadHead => ActionView::ReadHead,
            WatchAction::Report { from, to } => ActionView::Report { from: from@, to: to@ },
            WatchAction::Unchanged => ActionView::Unchanged,
            WatchAction::BadHead(Some(e)) => ActionView::BadHead(Some(e@)),
            WatchAction::BadHead(None) => ActionView::BadHead(None),
            WatchAction::Stop => ActionView::Stop,
        }
    }
}

/// What the watcher does next, and what it wants done. An event that its phase does not wait
/// for changes nothing.
pub open spec fn watch_step(w: WatchView, event: EventView) -> (WatchView, ActionView) {
    let idle = WatchView { phase: WatchPhase::Idle, ..w };
    let draining = WatchView { phase: WatchPhase::Draining, ..w };
    let reading = WatchView { phase: WatchPhase::Reading, ..w };
    let stopped = WatchView { phase: WatchPhase::Stopped, ..w };
    match w.phase {
        WatchPhase::Idle => match event {
            EventView::Touched => (draining, ActionView::AwaitMore),
            EventView::SourceClosed => (stopped, ActionView::Stop),
            _ => (idle, ActionView::AwaitEvent),
        },
        WatchPhase::Draining => match event {
            EventView::WindowClosed => (reading, ActionView::ReadHead),
            EventView::SourceClosed => (stopped, ActionView::Stop),
            _ => (draining, ActionView::AwaitMore),
        },
        WatchPhase::Reading => match event {
            EventView::HeadRead(Some(content)) => match head_of(content) {
                Some(state) => if state == w.current {
                    (idle, ActionView::Unchanged)
                } else {
                    (
                        WatchView { current: state, phase: WatchPhase::Idle },
                        ActionView::Report { from: w.current, to: state },
                    )
                },
                None => (idle, ActionView::BadHead(Some(head_error(content)))),
            },
            EventView::HeadRead(None) => (idle, ActionView::BadHead(None)),
            _ => (reading, ActionView::ReadHead),
        },
        WatchPhase::Stopped => (stopped, ActionView::Stop),
    }
}

/// How much longer to wait for more events of a burst, in nanoseconds, once so many
/// nanoseconds have passed since the first. `None` once the window is closed.
pub open spec fn window_left(elapsed_nanos: u64) -> Option<u64> {
    if elapsed_nanos < DEBOUNCE_MS * 1_000_000 {
        Some((DEBOUNCE_MS * 1_000_000 - elapsed_nanos) as u64)
    } else {
        None
    }
}

/// How much longer to wait for more events of a burst.
pub fn remaining_window(elapsed_nanos: u64) -> (r: Option<u64>)
    ensures
        r == window_left(elapsed_nanos),
{
    let window: u64 = DEBOUNCE_MS * 1_000_000;
    if elapsed_nanos < window {
        Some(window - elapsed_nanos)
    } else {
        None
    }
}

impl Watcher {
    /// A watcher that starts from the contents of `.git/HEAD`.
    pub fn new(content: &str) -> (r: Result<Watcher, HeadError>)
        ensures
            match r {
                Ok(w) => head_of(content@) == Some(w@.current) && w@.phase == WatchPhase::Idle,
                Err(e) => head_of(content@) is None && e@ == head_error(content@),
            },
    {
        match parse_head(content) {
            Ok(current) => Ok(Watcher { current, phase: WatchPhase::Idle }),
            Err(e) => Err(e),
        }
    }

    /// Handles what happened, and says what to do.
    pub fn step(&mut self, event: WatchEvent) -> (r: WatchAction)
        ensures
            (final(self)@, r@) == watch_step(old(self)@, event@),
    {
        match self.phase {
            WatchPhase::Idle => match event {
                WatchEvent::Touched => {
                    self.phase = WatchPhase::Draining;
                    WatchAction::AwaitMore
                },
                WatchEvent::SourceClosed => {
                    self.phase = WatchPhase::Stopped;
                    WatchAction::Stop
                },
                _ => WatchAction::AwaitEvent,
            },
            WatchPhase::Draining => match event {
                WatchEvent::WindowClosed => {
                    self.phase = WatchPhase::Reading;
                    WatchAction::ReadHead
                },
                WatchEvent::SourceClosed => {
                    self.phase = WatchPhase::Stopped;
                    WatchAction::Stop
                },
                _ => WatchAction::AwaitMore,
            },
            WatchPhase::Reading => match event {
                WatchEvent::HeadRead(read) => {
                    self.phase = WatchPhase::Idle;
                    match read {
                        Some(content) => self.head_read(content.as_str()),
                        None => WatchAction::BadHead(None),
                    }
                },
                _ => WatchAction::ReadHead,
            },
            WatchPhase::Stopped => WatchAction::Stop,
        }
    }

    /// Holds the contents of `.git/HEAD` against the last state.
    fn head_read(&mut self, content: &str) -> (r: WatchAction)
        ensures
            final(self)@.phase == old(self)@.phase,
            match head_of(content@) {
                Some(state) => {
                    &&& final(self)@.current == state
                    &&& r@ == if state == old(self)@.current {
                        ActionView::Unchanged
                    } else {
                        ActionView::Report { from: old(self)@.current, to: state }
                    }
                },
                None => final(self)@.current == old(self)@.current && r@ == ActionView::BadHead(
                    Some(head_error(content@)),
                ),
            },
    {
        match parse_head(content) {
            Ok(state) => {
                if state.same(&self.current) {
                    WatchAction::Unchanged
                } else {
                    let to = state.clone();
                    let mut from = state;
                    std::mem::swap(&mut self.current, &mut from);
                    WatchAction::Report { from, to }
                }
            },
            Err(e) => WatchAction::BadHead(Some(e)),
        }
    }
}

impl Clone for HeadState {
    fn clone(&self) -> (r: HeadState)
        ensures
            r@ == self@,
    {
        match self {
            HeadState::Branch(name) => HeadState::Branch(name.clone()),
            HeadState::Detached(sha) => HeadState::Detached(sha.clone()),
        }
    }
}

// ── What the watcher promises ────────────────────────────────────────────────────────────
/// The watcher after some events, and what it wanted done at each of them.
pub open spec fn watched(w: WatchView, events: Seq<EventView>) -> (WatchView, Seq<ActionView>)
    decreases events.len(),
{
    if events.len() == 0 {
        (w, Seq::empty())
    } else {
        let (before, actions) = watched(w, events.drop_last());
        let (after, action) = watch_step(before, events.last());
        (after, actions.push(action))
    }
}

/// A burst of events reads `.git/HEAD` once: whatever their number, nothing is asked for but
/// more events until the window closes, and the file then.
pub proof fn law_burst_is_read_once(w: WatchView, n: nat)
    requires
        w.phase == WatchPhase::Idle,
        n > 0,
    ensures
        ({
            let burst = Seq::new(n, |i: int| EventView::Touched);
            let (after, actions) = watched(w, burst.push(EventView::WindowClosed));
            &&& after == WatchView { phase: WatchPhase::Reading, ..w }
            &&& actions == Seq::new(n, |i: int| ActionView::AwaitMore).push(ActionView::ReadHead)
        }),
{
    let burst = Seq::new(n, |i: int| EventView::Touched);
    lemma_burst_drains(w, n);
    assert(burst.push(EventView::WindowClosed).drop_last() =~= burst);
}

proof fn lemma_burst_drains(w: WatchView, n: nat)
    requires
        w.phase == WatchPhase::Idle,
        n > 0,
    ensures
        watched(w, Seq::new(n, |i: int| EventView::Touched)) == (
            WatchView { phase: WatchPhase::Draining, ..w },
            Seq::new(n, |i: int| ActionView::AwaitMore),
        ),
    decreases n,
{
    let m = (n - 1) as nat;
    let burst = Seq::new(n, |i: int| EventView::Touched);
    let front = Seq::new(m, |i: int| EventView::Touched);
    let waits = Seq::new(m, |i: int| ActionView::AwaitMore);
    let draining = WatchView { phase: WatchPhase::Draining, ..w };
    assert(burst.drop_last() =~= front);
    assert(burst.last() == EventView::Touched);
    let (before, actions) = watched(w, front);
    if m > 0 {
        lemma_burst_drains(w, m);
        assert(before == draining);
    } else {
        assert(front =~= Seq::empty());
        assert(before == w);
    }
    assert(actions =~= waits);
    assert(watch_step(before, EventView::Touched) == (draining, ActionView::AwaitMore));
    assert(watched(w, burst) == (draining, actions.push(ActionView::AwaitMore)));
    assert(waits.push(ActionView::AwaitMore) =~= Seq::new(n, |i: int| ActionView::AwaitMore));
}

/// The changes among some actions, seen from a state: each starts from the state that the one
/// before led to, and leads to another one. The result is the state that the last one led to.
pub open spec fn followed(start: HeadView, actions: Seq<ActionView>) -> Option<HeadView>
    decreases actions.len(),
{
    if actions.len() == 0 {
        Some(start)
    } else {
        match followed(start, actions.drop_last()) {
            Some(state) => match actions.last() {
                ActionView::Report { from, to } => if from == state && to != from {
                    Some(to)
                } else {
                    None
                },
                _ => Some(state),
            },
            None => None,
        }
    }
}

/// Whatever happens, the changes that are reported form one chain from the first state to the
/// last: none is reported that did not happen, none twice, and none is left out.
pub proof fn law_changes_form_a_chain(w: WatchView, events: Seq<EventView>)
    ensures
        followed(w.current, watched(w, events).1) == Some(watched(w, events).0.current),
    decreases events.len(),
{
    if events.len() > 0 {
        law_changes_form_a_chain(w, events.drop_last());
        let (before, actions) = watched(w, events.drop_last());
        let (after, action) = watch_step(before, events.last());
        assert(actions.push(action).drop_last() =~= actions);
    }
}

/// A change is reported only when `.git/HEAD` was read and says another state than before.
pub proof fn law_only_changes_are_reported(w: WatchView, event: EventView)
    ensures
        watch_step(w, event).1 is Report <==> {
            &&& w.phase == WatchPhase::Reading
            &&& event matches EventView::HeadRead(Some(content))
            &&& head_of(content) matches Some(state)
            &&& state != w.current
        },
{
}

/// Contents of `.git/HEAD` that cannot be read or used leave the state as it was, the reason is
/// told, and the watcher goes on.
pub proof fn law_bad_head_is_survived(w: WatchView, read: Option<Seq<char>>)
    requires
        w.phase == WatchPhase::Reading,
        read matches Some(content) ==> head_of(content) is None,
    ensures
        watch_step(w, EventView::HeadRead(read)) == (
            WatchView { phase: WatchPhase::Idle, ..w },
            ActionView::BadHead(
                match read {
                    Some(content) => Some(head_error(content)),
                    None => None,
                },
            ),
        ),
{
}

/// `.git/HEAD` says a branch if and only if it is a reference that names something: under
/// `refs/heads/` the branch is what follows, and any other reference is kept in full.
pub proof fn law_reference_is_a_branch(content: Seq<char>, name: Seq<char>)
    ensures
        head_of(content) == Some(HeadView::Branch(name)) <==> {
            let t = text::trimmed(content);
            &&& name.len() > 0
            &&& t == "ref: "@ + ("refs/heads/"@ + name) || (t == "ref: "@ + name && forall|
                rest: Seq<char>,
            |
                name != #[trigger] ("refs/heads/"@ + rest))
        },
{
    let t = text::trimmed(content);
    text::law_stripped(t, "ref: "@, "refs/heads/"@ + name);
    text::law_stripped(t, "ref: "@, name);
    text::law_stripped("refs/heads/"@ + name, "refs/heads/"@, name);
    if let Some(target) = text::stripped(t, "ref: "@) {
        text::law_stripped(t, "ref: "@, target);
        text::law_stripped(target, "refs/heads/"@, name);
        if let Some(rest) = text::stripped(target, "refs/heads/"@) {
            text::law_stripped(target, "refs/heads/"@, rest);
        } else {
            assert forall|rest: Seq<char>| target != #[trigger] ("refs/heads/"@ + rest) by {
                text::law_stripped(target, "refs/heads/"@, rest);
            }
        }
    }
}

/// `.git/HEAD` says a commit if and only if it is 40 or 64 hexadecimal digits, and the commit is
/// all of them.
pub proof fn law_digits_are_a_commit(content: Seq<char>, sha: Seq<char>)
    ensures
        head_of(content) == Some(HeadView::Detached(sha)) <==> {
            &&& text::trimmed(content) == sha
            &&& sha.len() == 40 || sha.len() == 64
            &&& forall|i: int|
                0 <= i < sha.len() ==> "0123456789abcdefABCDEF"@.contains(#[trigger] sha[i])
        },
{
    let t = text::trimmed(content);
    assert forall|c: char| #[trigger] hex_digit(c) <==> "0123456789abcdefABCDEF"@.contains(c) by {
        lemma_hex_digits(c);
    }
    if let Some(target) = text::stripped(t, "ref: "@) {
        text::law_stripped(t, "ref: "@, target);
        reveal_strlit("ref: ");
        assert(t[0] == 'r');
        assert(!hex_digit(t[0]));
    }
    if commit(t) {
        assert forall|i: int| 0 <= i < t.len() implies "0123456789abcdefABCDEF"@.contains(
            #[trigger] t[i],
        ) by {
            assert(hex_digit(t[i]));
        }
    }
    if forall|i: int| 0 <= i < t.len() ==> "0123456789abcdefABCDEF"@.contains(#[trigger] t[i]) {
        assert forall|i: int| 0 <= i < t.len() implies hex_digit(#[trigger] t[i]) by {
            assert("0123456789abcdefABCDEF"@.contains(t[i]));
        }
    }
}

proof fn lemma_hex_digits(c: char)
    ensures
        hex_digit(c) <==> "0123456789abcdefABCDEF"@.contains(c),
{
    reveal_strlit("0123456789abcdefABCDEF");
    let all = "0123456789abcdefABCDEF"@;
    assert(all.len() == 22);
    if '0' <= c <= '9' {
        assert(all[c as int - '0' as int] == c);
    } else if 'a' <= c <= 'f' {
        assert(all[10 + c as int - 'a' as int] == c);
    } else if 'A' <= c <= 'F' {
        assert(all[16 + c as int - 'A' as int] == c);
    }
}

/// Why contents say no state: they are empty, or a reference that names nothing, or something
/// else, and the reason carries them without the white space around.
pub proof fn law_refusal_tells_why(content: Seq<char>)
    ensures
        ({
            let t = text::trimmed(content);
            &&& head_error(content) is Empty <==> t.len() == 0
            &&& head_error(content) is EmptyRef <==> exists|rest: Seq<char>|
                t == #[trigger] ("ref: "@ + rest)
            &&& head_error(content) matches ErrorView::EmptyRef(s) ==> s == t
            &&& head_error(content) matches ErrorView::Unrecognized(s) ==> s == t
        }),
{
    reveal_strlit("ref: ");
    let t = text::trimmed(content);
    if let Some(rest) = text::stripped(t, "ref: "@) {
        text::law_stripped(t, "ref: "@, rest);
    }
    if exists|rest: Seq<char>| t == #[trigger] ("ref: "@ + rest) {
        let rest = choose|rest: Seq<char>| t == #[trigger] ("ref: "@ + rest);
        text::law_stripped(t, "ref: "@, rest);
        assert(t.len() >= 5);
    }
}

/// A branch is shown by its name, and a commit by its first eight bytes, or all of them where
/// there are fewer.
pub proof fn law_head_text(name: Seq<char>, shown: Seq<char>, hidden: Seq<char>)
    requires
        hidden.len() > 0 ==> vstd::utf8::encode_utf8(shown).len() == 8,
        vstd::utf8::encode_utf8(shown).len() <= 8,
    ensures
        head_text(HeadView::Branch(name)) == "branch:"@ + name,
        head_text(HeadView::Detached(shown + hidden)) == "detached:"@ + shown,
        can_be_shown(HeadView::Branch(name)),
        can_be_shown(HeadView::Detached(shown + hidden)),
{
    text::lemma_first_bytes(shown, hidden);
}

proof fn lemma_last_component(a: Seq<Seq<char>>, name: Seq<char>)
    ensures
        last_component(a + seq![name]) == if name.len() == 0 || name == "."@ {
            last_component(a)
        } else {
            Some(name)
        },
{
    assert((a + seq![name]).drop_last() =~= a);
}

/// An event is about `HEAD` by the last component of its path, whatever the directory: `HEAD`
/// and `HEAD.lock` are, and any other name is not. Slashes at the end and components for the
/// current directory do not count.
pub proof fn law_last_component_decides(dir: Seq<char>, name: Seq<char>)
    requires
        forall|i: int| 0 <= i < name.len() ==> name[i] != '/',
    ensures
        head_path(dir + seq!['/'] + name) == if name.len() == 0 || name == "."@ {
            head_path(dir)
        } else {
            name == "HEAD"@ || name == "HEAD.lock"@
        },
        head_path(name) <==> name == "HEAD"@ || name == "HEAD.lock"@,
{
    reveal_strlit("HEAD");
    reveal_strlit("HEAD.lock");
    reveal_strlit(".");
    reveal_strlit("..");
    assert("HEAD"@.len() == 4 && "HEAD.lock"@.len() == 9);
    text::law_split_at_separator(dir, name, '/');
    text::law_split_without_separator(name, '/');
    lemma_last_component(text::split(dir, '/'), name);
    lemma_last_component(Seq::empty(), name);
    assert(Seq::<Seq<char>>::empty() + seq![name] =~= seq![name]);
}

/// `HEAD` and the lock file next to it are noticed in every directory, however deep.
pub proof fn law_head_is_noticed_everywhere(dir: Seq<char>)
    ensures
        head_path(dir + "/HEAD"@),
        head_path(dir + "/HEAD.lock"@),
{
    reveal_strlit("HEAD");
    reveal_strlit("HEAD.lock");
    reveal_strlit("/HEAD");
    reveal_strlit("/HEAD.lock");
    reveal_strlit(".");
    assert(dir + "/HEAD"@ =~= dir + seq!['/'] + "HEAD"@);
    assert(dir + "/HEAD.lock"@ =~= dir + seq!['/'] + "HEAD.lock"@);
    assert("HEAD"@.len() == 4 && "HEAD.lock"@.len() == 9);
    law_last_component_decides(dir, "HEAD"@);
    law_last_component_decides(dir, "HEAD.lock"@);
}

/// The window of a burst is 50 milliseconds from its first event: what has passed and what is
/// left make that up, and nothing is left once it has passed.
pub proof fn law_window_is_50_milliseconds(elapsed_nanos: u64)
    ensures
        match window_left(elapsed_nanos) {
            Some(left) => left > 0 && elapsed_nanos + left == 50_000_000,
            None => elapsed_nanos >= 50_000_000,
        },
{
}

/// What is read of `.git/HEAD` becomes the current state. It is reported if and only if it is
/// another one than before, from the one before to the one that was read.
pub proof fn law_head_that_was_read_is_current(w: WatchView, content: Seq<char>, state: HeadView)
    requires
        w.phase == WatchPhase::Reading,
        head_of(content) == Some(state),
    ensures
        ({
            let (after, action) = watch_step(w, EventView::HeadRead(Some(content)));
            &&& after.current == state
            &&& after.phase == WatchPhase::Idle
            &&& state != w.current ==> action == ActionView::Report { from: w.current, to: state }
            &&& state == w.current ==> action is Unchanged
        }),
{
}

/// Nothing but reading `.git/HEAD` changes the state, and nothing but the end of the events stops
/// the watcher, for good.
pub proof fn law_watcher_waits(w: WatchView, event: EventView)
    ensures
        ({
            let (after, action) = watch_step(w, event);
            let listens = w.phase == WatchPhase::Idle || w.phase == WatchPhase::Draining;
            &&& !(w.phase == WatchPhase::Reading && event is HeadRead) ==> after.current
                == w.current
            &&& listens && event is SourceClosed <==> after.phase == WatchPhase::Stopped && w.phase
                != WatchPhase::Stopped
            &&& after.phase == WatchPhase::Stopped <==> action is Stop
            &&& w.phase == WatchPhase::Stopped ==> after.phase == WatchPhase::Stopped
            // A burst begins with an event, and lasts until its window closes.
            &&& after.phase == WatchPhase::Draining <==> {
                ||| w.phase == WatchPhase::Idle && event is Touched
                ||| w.phase == WatchPhase::Draining && !(event is WindowClosed || event
                    is SourceClosed)
            }
            &&& after.phase == WatchPhase::Draining <==> action is AwaitMore
            // The file is read when the window closes, and asked for until it was read.
            &&& after.phase == WatchPhase::Reading <==> {
                ||| w.phase == WatchPhase::Draining && event is WindowClosed
                ||| w.phase == WatchPhase::Reading && !(event is HeadRead)
            }
            &&& after.phase == WatchPhase::Reading <==> action is ReadHead
            &&& w.phase == WatchPhase::Idle && after.phase == WatchPhase::Idle ==> action
                is AwaitEvent
        }),
{
}

/// A checkout is noticed: after any number of events about `HEAD`, the end of the window and the
/// reading of the file, the change from the state before to the one in the file is reported, once,
/// and the watcher waits for the next.
pub proof fn law_checkout_is_reported_once(
    w: WatchView,
    n: nat,
    content: Seq<char>,
    state: HeadView,
)
    requires
        w.phase == WatchPhase::Idle,
        n > 0,
        head_of(content) == Some(state),
        state != w.current,
    ensures
        ({
            let events = Seq::new(n, |i: int| EventView::Touched).push(
                EventView::WindowClosed,
            ).push(EventView::HeadRead(Some(content)));
            let (after, actions) = watched(w, events);
            &&& after == WatchView { current: state, phase: WatchPhase::Idle }
            &&& actions.len() == n + 2
            &&& forall|i: int| 0 <= i < n ==> actions[i] is AwaitMore
            &&& actions[n as int] is ReadHead
            &&& actions[n as int + 1] == ActionView::Report { from: w.current, to: state }
        }),
{
    let burst = Seq::new(n, |i: int| EventView::Touched).push(EventView::WindowClosed);
    law_burst_is_read_once(w, n);
    assert(burst.push(EventView::HeadRead(Some(content))).drop_last() =~= burst);
}

/// The views of the states, the errors and the actions of the watcher keep what they hold.
pub proof fn law_watcher_views(name: String, from: HeadState, to: HeadState, e: HeadError)
    ensures
        HeadState::Branch(name)@ == HeadView::Branch(name@),
        HeadState::Detached(name)@ == HeadView::Detached(name@),
        HeadError::Empty@ == ErrorView::Empty,
        HeadError::EmptyRef(name)@ == ErrorView::EmptyRef(name@),
        HeadError::Unrecognized(name)@ == ErrorView::Unrecognized(name@),
        (WatchAction::Report { from, to })@ == (ActionView::Report { from: from@, to: to@ }),
        WatchAction::BadHead(Some(e))@ == ActionView::BadHead(Some(e@)),
        WatchAction::BadHead(None)@ == ActionView::BadHead(None),
        WatchAction::AwaitEvent@ is AwaitEvent,
        WatchAction::AwaitMore@ is AwaitMore,
        WatchAction::ReadHead@ is ReadHead,
        WatchAction::Unchanged@ is Unchanged,
        WatchAction::Stop@ is Stop,
        WatchEvent::HeadRead(Some(name))@ == EventView::HeadRead(Some(name@)),
        WatchEvent::HeadRead(None)@ == EventView::HeadRead(None),
        WatchEvent::Touched@ is Touched,
        WatchEvent::WindowClosed@ is WindowClosed,
        WatchEvent::SourceClosed@ is SourceClosed,
{
}

} // verus!
