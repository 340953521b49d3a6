//! The session endpoint: one per client connection.  It registers with
//! the directory, supervises the client's heartbeat, and runs the inbound
//! text command protocol (`/list`, `/name <value>`, `/patient <json>`,
//! anything else echoed as an unknown-command notice).
//!
//! Everything the endpoint decides is a function of its state and the
//! inbound event; the transport only carries the resulting action out.

use vstd::prelude::*;
use vstd::string::*;

use crate::directory::{DirectoryV, spec_disconnect};
use crate::text::{is_space, spec_is_space, str_eq};

verus! {

/// How often a liveness probe is sent to the client, in milliseconds.
pub const HEARTBEAT_INTERVAL_MS: u64 = 60000;

/// How long a silent client is tolerated before its session is
/// terminated, in milliseconds.
pub const CLIENT_TIMEOUT_MS: u64 = 120000;

/// The phases of a session's life.  Terminal states are reached by
/// explicit disconnect, heartbeat timeout or transport error; there is no
/// re-entry.
#[derive(PartialEq, Eq, Structural, Clone, Copy, Debug)]
pub enum Phase {
    Connecting,
    Registered,
    Identified,
    Closing,
    Closed,
}

/// What the heartbeat supervisor does on one tick.
#[derive(PartialEq, Eq, Structural, Clone, Copy, Debug)]
pub enum HbAction {
    Ping,
    Disconnect,
}

/// A parsed inbound text frame.
pub enum Command {
    List,
    Name(String),
    NameMissing,
    Patient(String),
    PatientMissing,
    Unknown(String),
}

/// Mathematical form of a `Command`.
pub enum CommandV {
    List,
    Name(Seq<char>),
    NameMissing,
    Patient(Seq<char>),
    PatientMissing,
    Unknown(Seq<char>),
}

impl View for Command {
    type V = CommandV;

    open spec fn view(&self) -> CommandV {
        match self {
            Command::List => CommandV::List,
            Command::Name(v) => CommandV::Name(v@),
            Command::NameMissing => CommandV::NameMissing,
            Command::Patient(v) => CommandV::Patient(v@),
            Command::PatientMissing => CommandV::PatientMissing,
            Command::Unknown(v) => CommandV::Unknown(v@),
        }
    }
}

/// The input with its leading whitespace removed.
pub open spec fn spec_trim_start(s: Seq<char>) -> Seq<char>
    decreases s.len(),
{
    if s.len() > 0 && spec_is_space(s[0]) {
        spec_trim_start(s.drop_first())
    } else {
        s
    }
}

/// The input with its trailing whitespace removed.
pub open spec fn spec_trim_end(s: Seq<char>) -> Seq<char>
    decreases s.len(),
{
    if s.len() > 0 && spec_is_space(s.last()) {
        spec_trim_end(s.drop_last())
    } else {
        s
    }
}

/// The input with whitespace removed from both edges.
pub open spec fn spec_trim(s: Seq<char>) -> Seq<char> {
    spec_trim_end(spec_trim_start(s))
}

/// The first space at or after `i`, or the input's length when there is
/// none.
pub open spec fn spec_find_space(t: Seq<char>, i: int) -> int
    recommends
        0 <= i <= t.len(),
    decreases t.len() - i,
{
    if i < 0 || i >= t.len() {
        t.len() as int
    } else if t[i] == ' ' {
        i
    } else {
        spec_find_space(t, i + 1)
    }
}

/// The command a trimmed-and-parsed inbound frame means.  The command
/// word runs to the first space; the argument is everything after it.
pub open spec fn spec_parse(s: Seq<char>) -> CommandV {
    let t = spec_trim(s);
    if t.len() == 0 || t[0] != '/' {
        CommandV::Unknown(t)
    } else {
        let k = spec_find_space(t, 0);
        let head = t.take(k);
        if head == "/list"@ {
            CommandV::List
        } else if head == "/name"@ {
            if k < t.len() {
                CommandV::Name(t.skip(k + 1))
            } else {
                CommandV::NameMissing
            }
        } else if head == "/patient"@ {
            if k < t.len() {
                CommandV::Patient(t.skip(k + 1))
            } else {
                CommandV::PatientMissing
            }
        } else {
            CommandV::Unknown(t)
        }
    }
}

/// Leading whitespace is exactly what trimming from the start removes.
proof fn lemma_trim_start_skip(s: Seq<char>, lo: int)
    requires
        0 <= lo <= s.len(),
        forall|j: int| 0 <= j < lo ==> spec_is_space(s[j]),
        lo < s.len() ==> !spec_is_space(s[lo]),
    ensures
        spec_trim_start(s) == s.skip(lo),
    decreases lo,
{
    if lo == 0 {
        assert(s.skip(0) =~= s);
    } else {
        assert(s.skip(lo) =~= s.drop_first().skip(lo - 1));
        lemma_trim_start_skip(s.drop_first(), lo - 1);
    }
}

/// Trailing whitespace is exactly what trimming from the end removes.
proof fn lemma_trim_end_take(t: Seq<char>, hi: int)
    requires
        0 <= hi <= t.len(),
        forall|j: int| hi <= j < t.len() ==> spec_is_space(t[j]),
        hi > 0 ==> !spec_is_space(t[hi - 1]),
    ensures
        spec_trim_end(t) == t.take(hi),
    decreases t.len() - hi,
{
    if hi == t.len() {
        assert(t.take(hi) =~= t);
    } else {
        assert(t.drop_last() =~= t.take(t.len() - 1));
        assert(t.take(t.len() - 1).take(hi) =~= t.take(hi));
        lemma_trim_end_take(t.drop_last(), hi);
    }
}

/// A scan that passed no space up to `k` found the first space.
proof fn lemma_find_space(t: Seq<char>, i: int, k: int)
    requires
        0 <= i <= k <= t.len(),
        forall|j: int| i <= j < k ==> t[j] != ' ',
        k < t.len() ==> t[k] == ' ',
    ensures
        spec_find_space(t, i) == k,
    decreases k - i,
{
    if i < k {
        lemma_find_space(t, i + 1, k);
    }
}

/// Strip whitespace from both edges of an inbound frame.
pub fn trim_str(s: &str) -> (t: String)
    ensures
        t@ == spec_trim(s@),
{
    let n = s.unicode_len();
    let mut lo: usize = 0;
    while lo < n && is_space(s.get_char(lo))
        invariant
            n == s@.len(),
            lo <= n,
            forall|j: int| 0 <= j < lo ==> spec_is_space(s@[j]),
        decreases n - lo,
    {
        lo = lo + 1;
    }
    proof {
        lemma_trim_start_skip(s@, lo as int);
    }
    if lo == n {
        proof {
            assert(s@.skip(n as int) =~= Seq::<char>::empty());
        }
        return String::new();
    }
    let mut hi: usize = n;
    while hi > lo && is_space(s.get_char(hi - 1))
        invariant
            n == s@.len(),
            lo <= hi <= n,
            lo < n,
            !spec_is_space(s@[lo as int]),
            forall|j: int| hi <= j < n ==> spec_is_space(s@[j]),
        decreases hi,
    {
        hi = hi - 1;
    }
    let sub = s.substring_char(lo, hi);
    proof {
        let t = s@.skip(lo as int);
        assert forall|j: int| hi - lo <= j < t.len() implies spec_is_space(t[j]) by {
            assert(t[j] == s@[lo + j]);
        }
        if hi > lo {
            assert(t[hi - lo - 1] == s@[hi - 1]);
        } else {
            assert(t[0] == s@[lo as int]);
            assert(!spec_is_space(t[0]));
        }
        lemma_trim_end_take(t, hi - lo);
        assert(sub@ =~= t.take(hi - lo));
    }
    String::from_str(sub)
}

/// Parse one inbound text frame into its command.
pub fn parse_command(text: &str) -> (c: Command)
    ensures
        c@ == spec_parse(text@),
{
    let t = trim_str(text);
    let n = t.as_str().unicode_len();
    if n == 0 {
        return Command::Unknown(t);
    }
    if t.as_str().get_char(0) != '/' {
        return Command::Unknown(t);
    }
    let mut k: usize = 0;
    while k < n && t.as_str().get_char(k) != ' '
        invariant
            n == t@.len(),
            k <= n,
            forall|j: int| 0 <= j < k ==> t@[j] != ' ',
        decreases n - k,
    {
        k = k + 1;
    }
    proof {
        lemma_find_space(t@, 0, k as int);
    }
    let head = t.as_str().substring_char(0, k);
    proof {
        assert(head@ =~= t@.take(k as int));
    }
    if str_eq(head, "/list") {
        return Command::List;
    }
    if str_eq(head, "/name") {
        if k < n {
            let arg = t.as_str().substring_char(k + 1, n);
            proof {
                assert(arg@ =~= t@.skip(k + 1));
            }
            return Command::Name(String::from_str(arg));
        }
        return Command::NameMissing;
    }
    if str_eq(head, "/patient") {
        if k < n {
            let arg = t.as_str().substring_char(k + 1, n);
            proof {
                assert(arg@ =~= t@.skip(k + 1));
            }
            return Command::Patient(String::from_str(arg));
        }
        return Command::PatientMissing;
    }
    Command::Unknown(t)
}

/// The view of an optional identity.
pub open spec fn opt_view(o: Option<String>) -> Option<Seq<char>> {
    match o {
        Option::Some(s) => Option::Some(s@),
        Option::None => Option::None,
    }
}

/// A copy of an optional identity.
fn clone_opt(o: &Option<String>) -> (r: Option<String>)
    ensures
        opt_view(r) == opt_view(*o),
{
    match o {
        Option::Some(s) => Option::Some(s.clone()),
        Option::None => Option::None,
    }
}

/// What the endpoint asks its surroundings to do after one inbound frame.
pub enum SessionAction {
    /// Ask the directory for the identity snapshot and forward each name.
    QueryList,
    /// Tell the directory this session now serves `identity`.
    Announce { session: u64, identity: String },
    /// Write an error notice back to the client; no state changed.
    Notice(String),
    /// Hand the payload on for injection, stamped with the session's
    /// bound identity as the requester.
    ForwardPayload { body: String, requester: Option<String> },
}

/// Mathematical form of a `SessionAction`.
pub enum SessionActionV {
    QueryList,
    Announce { session: u64, identity: Seq<char> },
    Notice(Seq<char>),
    ForwardPayload { body: Seq<char>, requester: Option<Seq<char>> },
}

impl View for SessionAction {
    type V = SessionActionV;

    open spec fn view(&self) -> SessionActionV {
        match self {
            SessionAction::QueryList => SessionActionV::QueryList,
            SessionAction::Announce { session, identity } => SessionActionV::Announce {
                session: *session,
                identity: identity@,
            },
            SessionAction::Notice(s) => SessionActionV::Notice(s@),
            SessionAction::ForwardPayload { body, requester } => SessionActionV::ForwardPayload {
                body: body@,
                requester: opt_view(*requester),
            },
        }
    }
}

/// One session endpoint: its directory-assigned id, the instant the
/// client was last heard (milliseconds), its bound identity, its phase.
pub struct SessionEndpoint {
    pub id: u64,
    pub last_seen: u64,
    pub identity: Option<String>,
    pub phase: Phase,
}

/// Mathematical form of a `SessionEndpoint`.
pub struct SessionV {
    pub id: u64,
    pub last_seen: u64,
    pub identity: Option<Seq<char>>,
    pub phase: Phase,
}

impl View for SessionEndpoint {
    type V = SessionV;

    open spec fn view(&self) -> SessionV {
        SessionV {
            id: self.id,
            last_seen: self.last_seen,
            identity: opt_view(self.identity),
            phase: self.phase,
        }
    }
}

/// The lower-case hexadecimal digit for `v` (0 to 15).
pub open spec fn spec_hex_digit(v: int) -> char {
    if v == 0 {
        '0'
    } else if v == 1 {
        '1'
    } else if v == 2 {
        '2'
    } else if v == 3 {
        '3'
    } else if v == 4 {
        '4'
    } else if v == 5 {
        '5'
    } else if v == 6 {
        '6'
    } else if v == 7 {
        '7'
    } else if v == 8 {
        '8'
    } else if v == 9 {
        '9'
    } else if v == 10 {
        'a'
    } else if v == 11 {
        'b'
    } else if v == 12 {
        'c'
    } else if v == 13 {
        'd'
    } else if v == 14 {
        'e'
    } else {
        'f'
    }
}

/// How one character appears inside the quoted echo of an offending
/// frame: quotes and backslashes escaped, the common control characters
/// by letter, the other ASCII control characters numerically, anything
/// else verbatim.
pub open spec fn spec_escape_char(c: char) -> Seq<char> {
    if c == '"' {
        seq!['\\', '"']
    } else if c == '\\' {
        seq!['\\', '\\']
    } else if c == '\n' {
        seq!['\\', 'n']
    } else if c == '\r' {
        seq!['\\', 'r']
    } else if c == '\t' {
        seq!['\\', 't']
    } else if (c as u32) < 0x20 || c as u32 == 0x7f {
        seq!['\\', 'u', '{'] + (if (c as u32) < 0x10 {
            seq![spec_hex_digit(c as int)]
        } else {
            seq![spec_hex_digit(c as int / 16), spec_hex_digit(c as int % 16)]
        }) + seq!['}']
    } else {
        seq![c]
    }
}

/// The text escaped character by character.
pub open spec fn spec_escape(s: Seq<char>) -> Seq<char>
    decreases s.len(),
{
    if s.len() == 0 {
        Seq::<char>::empty()
    } else {
        spec_escape(s.drop_last()) + spec_escape_char(s.last())
    }
}

/// The text as the unknown-command notice quotes it: wrapped in double
/// quotes, escaped as `spec_escape_char` says.
pub open spec fn spec_quote(s: Seq<char>) -> Seq<char> {
    seq!['"'] + spec_escape(s) + seq!['"']
}

/// The lower-case hexadecimal digit for `v` (0 to 15), as a slice.
fn hex_digit_str(v: u32) -> (r: &'static str)
    requires
        v < 16,
    ensures
        r@ == seq![spec_hex_digit(v as int)],
{
    if v == 0 {
        proof {
            reveal_strlit("0");
            assert(("0")@ =~= seq!['0']);
        }
        "0"
    } else if v == 1 {
        proof {
            reveal_strlit("1");
            assert(("1")@ =~= seq!['1']);
        }
        "1"
    } else if v == 2 {
        proof {
            reveal_strlit("2");
            assert(("2")@ =~= seq!['2']);
        }
        "2"
    } else if v == 3 {
        proof {
            reveal_strlit("3");
            assert(("3")@ =~= seq!['3']);
        }
        "3"
    } else if v == 4 {
        proof {
            reveal_strlit("4");
            assert(("4")@ =~= seq!['4']);
        }
        "4"
    } else if v == 5 {
        proof {
            reveal_strlit("5");
            assert(("5")@ =~= seq!['5']);
        }
        "5"
    } else if v == 6 {
        proof {
            reveal_strlit("6");
            assert(("6")@ =~= seq!['6']);
        }
        "6"
    } else if v == 7 {
        proof {
            reveal_strlit("7");
            assert(("7")@ =~= seq!['7']);
        }
        "7"
    } else if v == 8 {
        proof {
            reveal_strlit("8");
            assert(("8")@ =~= seq!['8']);
        }
        "8"
    } else if v == 9 {
        proof {
            reveal_strlit("9");
            assert(("9")@ =~= seq!['9']);
        }
        "9"
    } else if v == 10 {
        proof {
            reveal_strlit("a");
            assert(("a")@ =~= seq!['a']);
        }
        "a"
    } else if v == 11 {
        proof {
            reveal_strlit("b");
            assert(("b")@ =~= seq!['b']);
        }
        "b"
    } else if v == 12 {
        proof {
            reveal_strlit("c");
            assert(("c")@ =~= seq!['c']);
        }
        "c"
    } else if v == 13 {
        proof {
            reveal_strlit("d");
            assert(("d")@ =~= seq!['d']);
        }
        "d"
    } else if v == 14 {
        proof {
            reveal_strlit("e");
            assert(("e")@ =~= seq!['e']);
        }
        "e"
    } else {
        proof {
            reveal_strlit("f");
            assert(("f")@ =~= seq!['f']);
        }
        "f"
    }
}

/// Quote a message for the unknown-command notice.
pub fn debug_quote(m: &str) -> (r: String)
    ensures
        r@ == spec_quote(m@),
{
    let n = m.unicode_len();
    let mut out = String::new();
    out.append("\"");
    proof {
        reveal_strlit("\"");
        assert(("\"")@ =~= seq!['"']);
        assert(out@ =~= seq!['"'] + spec_escape(m@.take(0)));
    }
    let mut i: usize = 0;
    while i < n
        invariant
            n == m@.len(),
            i <= n,
            out@ == seq!['"'] + spec_escape(m@.take(i as int)),
        decreases n - i,
    {
        let ghost prev = out@;
        let c = m.get_char(i);
        if c == '"' {
            out.append("\\\"");
            proof {
                reveal_strlit("\\\"");
                assert(("\\\"")@ =~= spec_escape_char(c));
            }
        } else if c == '\\' {
            out.append("\\\\");
            proof {
                reveal_strlit("\\\\");
                assert(("\\\\")@ =~= spec_escape_char(c));
            }
        } else if c == '\n' {
            out.append("\\n");
            proof {
                reveal_strlit("\\n");
                assert(("\\n")@ =~= spec_escape_char(c));
            }
        } else if c == '\r' {
            out.append("\\r");
            proof {
                reveal_strlit("\\r");
                assert(("\\r")@ =~= spec_escape_char(c));
            }
        } else if c == '\t' {
            out.append("\\t");
            proof {
                reveal_strlit("\\t");
                assert(("\\t")@ =~= spec_escape_char(c));
            }
        } else if (c as u32) < 0x20 || c as u32 == 0x7f {
            let v = c as u32;
            out.append("\\u{");
            if v < 16 {
                out.append(hex_digit_str(v));
            } else {
                out.append(hex_digit_str(v / 16));
                out.append(hex_digit_str(v % 16));
            }
            out.append("}");
            proof {
                reveal_strlit("\\u{");
                reveal_strlit("}");
                assert(("\\u{")@ =~= seq!['\\', 'u', '{']);
                assert(("}")@ =~= seq!['}']);
                assert(out@ =~= prev + spec_escape_char(c));
            }
        } else {
            let piece = m.substring_char(i, i + 1);
            out.append(piece);
            proof {
                assert(piece@ =~= seq![c]);
                assert(seq![c] =~= spec_escape_char(c));
            }
        }
        proof {
            assert(m@.take(i + 1).drop_last() =~= m@.take(i as int));
            assert(m@.take(i + 1).last() == c);
            assert(out@ =~= seq!['"'] + spec_escape(m@.take(i + 1)));
        }
        i = i + 1;
    }
    out.append("\"");
    proof {
        assert(m@.take(n as int) =~= m@);
        assert(out@ =~= spec_quote(m@));
    }
    out
}

/// The client has been silent longer than the configured timeout.
pub open spec fn spec_hb_expired(last_seen: u64, now: u64) -> bool {
    now > last_seen && now - last_seen > CLIENT_TIMEOUT_MS
}

/// One heartbeat tick: an expired session is closed and disconnected,
/// the only involuntary termination besides transport errors; otherwise a
/// liveness probe is sent.
pub open spec fn spec_hb(s: SessionV, now: u64) -> (SessionV, HbAction) {
    if spec_hb_expired(s.last_seen, now) {
        (SessionV { phase: Phase::Closing, ..s }, HbAction::Disconnect)
    } else {
        (s, HbAction::Ping)
    }
}

/// One inbound frame: the next state and the endpoint's reaction.
/// `/name` without an argument leaves the session exactly as it was and
/// only produces a client-visible notice; so does an unrecognized frame.
pub open spec fn spec_handle(s: SessionV, c: CommandV) -> (SessionV, SessionActionV) {
    match c {
        CommandV::List => (s, SessionActionV::QueryList),
        CommandV::Name(v) => (
            SessionV {
                identity: Option::Some(v),
                phase: if s.phase == Phase::Registered || s.phase == Phase::Identified {
                    Phase::Identified
                } else {
                    s.phase
                },
                ..s
            },
            SessionActionV::Announce { session: s.id, identity: v },
        ),
        CommandV::NameMissing => (s, SessionActionV::Notice("!!! name is required"@)),
        CommandV::Patient(b) => (
            s,
            SessionActionV::ForwardPayload { body: b, requester: s.identity },
        ),
        CommandV::PatientMissing => (s, SessionActionV::Notice("!!! name is required"@)),
        CommandV::Unknown(m) => (
            s,
            SessionActionV::Notice("!!! unknown command: "@ + spec_quote(m)),
        ),
    }
}

impl SessionEndpoint {
    /// A fresh endpoint for a just-accepted connection, not yet
    /// registered with the directory.
    pub fn new(now: u64) -> (s: SessionEndpoint)
        ensures
            s@ == (SessionV {
                id: 0,
                last_seen: now,
                identity: Option::None,
                phase: Phase::Connecting,
            }),
    {
        SessionEndpoint { id: 0, last_seen: now, identity: Option::None, phase: Phase::Connecting }
    }

    /// Registration succeeded: store the directory-assigned session id.
    pub fn on_registered(&mut self, id: u64)
        ensures
            final(self)@ == (SessionV { id, phase: Phase::Registered, ..old(self)@ }),
    {
        self.id = id;
        self.phase = Phase::Registered;
    }

    /// Registration failed: the connection is closed.
    pub fn on_register_failed(&mut self)
        ensures
            final(self)@ == (SessionV { phase: Phase::Closing, ..old(self)@ }),
    {
        self.phase = Phase::Closing;
    }

    /// A liveness signal (ping or pong) from the client.
    pub fn touch(&mut self, now: u64)
        ensures
            final(self)@ == (SessionV { last_seen: now, ..old(self)@ }),
    {
        self.last_seen = now;
    }

    /// The client disconnected or the transport failed: close, and tell
    /// the caller which session id to disconnect at the directory.
    pub fn on_close(&mut self) -> (id: u64)
        ensures
            final(self)@ == (SessionV { phase: Phase::Closing, ..old(self)@ }),
            id == old(self).id,
    {
        self.phase = Phase::Closing;
        self.id
    }

    /// One heartbeat tick at instant `now`.
    pub fn hb_tick(&mut self, now: u64) -> (act: HbAction)
        ensures
            final(self)@ == spec_hb(old(self)@, now).0,
            act == spec_hb(old(self)@, now).1,
    {
        if now > self.last_seen && now - self.last_seen > CLIENT_TIMEOUT_MS {
            self.phase = Phase::Closing;
            HbAction::Disconnect
        } else {
            HbAction::Ping
        }
    }

    /// One inbound text frame.
    pub fn handle_text(&mut self, text: &str) -> (act: SessionAction)
        ensures
            final(self)@ == spec_handle(old(self)@, spec_parse(text@)).0,
            act@ == spec_handle(old(self)@, spec_parse(text@)).1,
    {
        let c = parse_command(text);
        match c {
            Command::List => SessionAction::QueryList,
            Command::Name(v) => {
                let announce = SessionAction::Announce {
                    session: self.id,
                    identity: v.clone(),
                };
                if self.phase == Phase::Registered || self.phase == Phase::Identified {
                    self.phase = Phase::Identified;
                }
                self.identity = Option::Some(v);
                announce
            },
            Command::NameMissing => SessionAction::Notice(String::from_str("!!! name is required")),
            Command::Patient(b) => SessionAction::ForwardPayload {
                body: b,
                requester: clone_opt(&self.identity),
            },
            Command::PatientMissing => SessionAction::Notice(
                String::from_str("!!! name is required"),
            ),
            Command::Unknown(m) => SessionAction::Notice(
                String::from_str("!!! unknown command: ").concat(debug_quote(m.as_str()).as_str()),
            ),
        }
    }
}

/// One frame of the duplex connection, as the transport hands it in.
pub enum Frame {
    Ping,
    Pong,
    Text(String),
    Binary,
    Close,
    Continuation,
}

/// Mathematical form of a `Frame`.
pub enum FrameV {
    Ping,
    Pong,
    Text(Seq<char>),
    Binary,
    Close,
    Continuation,
}

impl View for Frame {
    type V = FrameV;

    open spec fn view(&self) -> FrameV {
        match self {
            Frame::Ping => FrameV::Ping,
            Frame::Pong => FrameV::Pong,
            Frame::Text(t) => FrameV::Text(t@),
            Frame::Binary => FrameV::Binary,
            Frame::Close => FrameV::Close,
            Frame::Continuation => FrameV::Continuation,
        }
    }
}

/// The endpoint's reaction to one frame.
pub enum Reaction {
    /// Answer the client's liveness probe.
    Pong,
    /// Carry out a protocol action.
    Act(SessionAction),
    /// Nothing to do.
    Ignore,
    /// Terminate: the caller sends `Disconnect` for this session.
    Stop,
}

/// Mathematical form of a `Reaction`.
pub enum ReactionV {
    Pong,
    Act(SessionActionV),
    Ignore,
    Stop,
}

impl View for Reaction {
    type V = ReactionV;

    open spec fn view(&self) -> ReactionV {
        match self {
            Reaction::Pong => ReactionV::Pong,
            Reaction::Act(a) => ReactionV::Act(a@),
            Reaction::Ignore => ReactionV::Ignore,
            Reaction::Stop => ReactionV::Stop,
        }
    }
}

/// One transport frame: liveness probes reset the heartbeat clock, text
/// runs the command protocol, a close or an unfinished frame terminates
/// the session, and binary frames are ignored.
pub open spec fn spec_on_frame(s: SessionV, f: FrameV, now: u64) -> (SessionV, ReactionV) {
    match f {
        FrameV::Ping => (SessionV { last_seen: now, ..s }, ReactionV::Pong),
        FrameV::Pong => (SessionV { last_seen: now, ..s }, ReactionV::Ignore),
        FrameV::Text(t) => {
            let (s2, act) = spec_handle(s, spec_parse(t));
            (s2, ReactionV::Act(act))
        },
        FrameV::Binary => (s, ReactionV::Ignore),
        FrameV::Close => (SessionV { phase: Phase::Closing, ..s }, ReactionV::Stop),
        FrameV::Continuation => (SessionV { phase: Phase::Closing, ..s }, ReactionV::Stop),
    }
}

impl SessionEndpoint {
    /// Handle one frame from the connection at instant `now`.
    pub fn on_frame(&mut self, f: Frame, now: u64) -> (r: Reaction)
        ensures
            final(self)@ == spec_on_frame(old(self)@, f@, now).0,
            r@ == spec_on_frame(old(self)@, f@, now).1,
    {
        match f {
            Frame::Ping => {
                self.last_seen = now;
                Reaction::Pong
            },
            Frame::Pong => {
                self.last_seen = now;
                Reaction::Ignore
            },
            Frame::Text(t) => Reaction::Act(self.handle_text(t.as_str())),
            Frame::Binary => Reaction::Ignore,
            Frame::Close => {
                self.phase = Phase::Closing;
                Reaction::Stop
            },
            Frame::Continuation => {
                self.phase = Phase::Closing;
                Reaction::Stop
            },
        }
    }
}

/// The heartbeat law: when no liveness signal arrived for longer than the
/// timeout, the tick closes the session and asks for its disconnect, and
/// the directory's disconnect step leaves no presence entry served by the
/// session: its identity, if any, is offline and the worker is torn down.
pub proof fn lemma_heartbeat_teardown(s: SessionV, d: DirectoryV, now: u64)
    requires
        spec_hb_expired(s.last_seen, now),
    ensures
        spec_hb(s, now).1 == HbAction::Disconnect,
        spec_hb(s, now).0.phase == Phase::Closing,
        forall|i: int|
            0 <= i < spec_disconnect(d, s.id).presence.len()
                ==> (#[trigger] spec_disconnect(d, s.id).presence[i]).session != s.id,
{
    crate::directory::lemma_disconnect_clears_session(d, s.id);
}

} // verus!
