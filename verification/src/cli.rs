//! The client's decisions: which cargo commands run remotely, where in the
//! workspace it was called from, where its token is kept, how it reacts to
//! the daemon's messages and to the authorization server's answers.
use vstd::prelude::*;
use crate::paths::{components, join_path, path_components, Comp, PathComponent};
use crate::protocol::Message;
use crate::rustc_args::{opt_view, strings_view};
use crate::text::{chars_equal, chars_of, join, owned, push_chars, same_text, slice_chars, string_of};

verus! {

/// The cargo commands that are run on the build server.
pub open spec fn remote_commands() -> Seq<Seq<char>> {
    seq!["build"@, "run"@, "test"@, "bench"@, "check"@, "clippy"@, "doc"@]
}

/// Whether a cargo command line runs remotely: its command is one of
/// [`remote_commands`]; everything else goes to the local cargo.
pub fn should_go_remote(args: &[String]) -> (r: bool)
    ensures
        r == (args@.len() > 0 && remote_commands().contains(args@[0]@)),
{
    if args.len() == 0 {
        return false;
    }
    let c = args[0].as_str();
    let r = same_text(c, "build") || same_text(c, "run") || same_text(c, "test") || same_text(c, "bench")
        || same_text(c, "check") || same_text(c, "clippy") || same_text(c, "doc");
    proof {
        let rc = remote_commands();
        if c@ == "build"@ { assert(rc[0] == c@); }
        if c@ == "run"@ { assert(rc[1] == c@); }
        if c@ == "test"@ { assert(rc[2] == c@); }
        if c@ == "bench"@ { assert(rc[3] == c@); }
        if c@ == "check"@ { assert(rc[4] == c@); }
        if c@ == "clippy"@ { assert(rc[5] == c@); }
        if c@ == "doc"@ { assert(rc[6] == c@); }
    }
    r
}

/// Exactly the cargo commands that build or check code go to the build
/// server: a command line runs remotely when its command is `build`, `run`,
/// `test`, `bench`, `check`, `clippy` or `doc` (what [`should_go_remote`]
/// returns), and locally otherwise (`fmt`, `new`, an empty command line...).
pub proof fn law_remote_exactly_build_commands(args: Seq<Seq<char>>)
    ensures
        (args.len() > 0 && remote_commands().contains(args[0])) <==> (args.len() > 0 && (args[0] == "build"@
            || args[0] == "run"@ || args[0] == "test"@ || args[0] == "bench"@ || args[0] == "check"@
            || args[0] == "clippy"@ || args[0] == "doc"@)),
{
    let rc = remote_commands();
    if args.len() > 0 {
        let c = args[0];
        if c == "build"@ { assert(rc[0] == c); }
        if c == "run"@ { assert(rc[1] == c); }
        if c == "test"@ { assert(rc[2] == c); }
        if c == "bench"@ { assert(rc[3] == c); }
        if c == "check"@ { assert(rc[4] == c); }
        if c == "clippy"@ { assert(rc[5] == c); }
        if c == "doc"@ { assert(rc[6] == c); }
        if rc.contains(c) {
            let k = choose|k: int| 0 <= k < rc.len() && rc[k] == c;
            assert(k == 0 || k == 1 || k == 2 || k == 3 || k == 4 || k == 5 || k == 6);
        }
    }
}

/// The text of a component.
pub open spec fn comp_text(c: Comp) -> Seq<char> {
    match c {
        Comp::Root => Seq::<char>::empty(),
        Comp::Cur => "."@,
        Comp::Parent => ".."@,
        Comp::Normal(n) => n,
    }
}

/// A path written from its components.
pub open spec fn render(cs: Seq<Comp>) -> Seq<char> {
    if cs.len() > 0 && cs[0] == Comp::Root {
        "/"@ + join(cs.drop_first().map_values(|c: Comp| comp_text(c)), "/"@)
    } else {
        join(cs.map_values(|c: Comp| comp_text(c)), "/"@)
    }
}

/// Where `called_from` lies below `project_root` (component-wise, as
/// `Path::strip_prefix`), written as a relative path; `None` when it is not
/// below the root or is the root itself.
pub open spec fn subdir_of(project_root: Seq<char>, called_from: Seq<char>) -> Option<Seq<char>> {
    let r = components(project_root);
    let c = components(called_from);
    if r.len() < c.len() && c.take(r.len() as int) == r {
        Some(render(c.skip(r.len() as int)))
    } else {
        None
    }
}

fn same_component(a: &PathComponent, b: &PathComponent) -> (r: bool)
    ensures
        r == (a@ == b@),
{
    match (a, b) {
        (PathComponent::Root, PathComponent::Root) => true,
        (PathComponent::Cur, PathComponent::Cur) => true,
        (PathComponent::Parent, PathComponent::Parent) => true,
        (PathComponent::Normal(x), PathComponent::Normal(y)) => chars_equal(x.as_slice(), y.as_slice()),
        _ => false,
    }
}

fn component_text(c: &PathComponent) -> (r: Vec<char>)
    ensures
        r@ == comp_text(c@),
{
    match c {
        PathComponent::Root => Vec::new(),
        PathComponent::Cur => chars_of("."),
        PathComponent::Parent => chars_of(".."),
        PathComponent::Normal(n) => slice_chars(n.as_slice(), 0, n.len()),
    }
}

/// The text of components `from..` of `cs`, joined by `/`.
fn join_components(cs: &Vec<PathComponent>, from: usize) -> (r: Vec<char>)
    requires
        from <= cs@.len(),
    ensures
        r@ == join(cs@.map_values(|c: PathComponent| c@).skip(from as int).map_values(|c: Comp| comp_text(c)), "/"@),
{
    let ghost ts = cs@.map_values(|c: PathComponent| c@).skip(from as int).map_values(|c: Comp| comp_text(c));
    let slash = chars_of("/");
    let mut out: Vec<char> = Vec::new();
    let mut i: usize = from;
    assert(ts.take(0) =~= Seq::<Seq<char>>::empty());
    while i < cs.len()
        invariant
            from <= i <= cs@.len(),
            ts == cs@.map_values(|c: PathComponent| c@).skip(from as int).map_values(|c: Comp| comp_text(c)),
            ts.len() == cs@.len() - from,
            slash@ == "/"@,
            out@ == join(ts.take(i - from), "/"@),
        decreases cs.len() - i,
    {
        let t = component_text(&cs[i]);
        assert(ts[i - from] == t@);
        assert(ts.take(i - from + 1).drop_last() =~= ts.take(i - from));
        assert(ts.take(i - from + 1).last() == t@);
        if i > from {
            push_chars(&mut out, slash.as_slice());
        } else {
            assert(ts.take(1) =~= seq![t@]);
        }
        push_chars(&mut out, t.as_slice());
        i = i + 1;
    }
    assert(ts.take(cs@.len() - from) =~= ts);
    out
}

/// The subdirectory of the project that the client was called from
/// ([`subdir_of`]), e.g. `c/d` for `a/b` and `a/b/c/d`.
pub fn relative_subdir(project_root: &str, called_from: &str) -> (r: Option<String>)
    ensures
        opt_view(r) == subdir_of(project_root@, called_from@),
{
    let rc = path_components(chars_of(project_root).as_slice());
    let cc = path_components(chars_of(called_from).as_slice());
    let ghost rv = rc@.map_values(|c: PathComponent| c@);
    let ghost cv = cc@.map_values(|c: PathComponent| c@);
    if rc.len() >= cc.len() {
        return None;
    }
    let mut i: usize = 0;
    while i < rc.len()
        invariant
            0 <= i <= rc@.len(),
            rc@.len() < cc@.len(),
            rv == rc@.map_values(|c: PathComponent| c@),
            cv == cc@.map_values(|c: PathComponent| c@),
            forall|j: int| 0 <= j < i ==> cv[j] == rv[j],
            rv == components(project_root@),
            cv == components(called_from@),
        decreases rc.len() - i,
    {
        assert(cv[i as int] == cc@[i as int]@);
        assert(rv[i as int] == rc@[i as int]@);
        if !same_component(&rc[i], &cc[i]) {
            assert(cv.take(rv.len() as int)[i as int] != rv[i as int]);
            assert(cv.take(rv.len() as int) != rv);
            return None;
        }
        i = i + 1;
    }
    assert(cv.take(rv.len() as int) =~= rv);
    let n = rc.len();
    let root_first = match &cc[n] {
        PathComponent::Root => true,
        _ => false,
    };
    assert(cv.skip(n as int)[0] == cc@[n as int]@);
    if root_first {
        let mut out = chars_of("/");
        let rest = join_components(&cc, n + 1);
        push_chars(&mut out, rest.as_slice());
        assert(cv.skip(n as int).drop_first() =~= cv.skip(n + 1));
        Some(string_of(out.as_slice()))
    } else {
        let rest = join_components(&cc, n);
        Some(string_of(rest.as_slice()))
    }
}

/// Where the client keeps its token: `$XDG_CONFIG_HOME/abrasive/token`, or
/// `$HOME/.config/abrasive/token`; none without either variable.
pub open spec fn token_location(xdg: Option<Seq<char>>, home: Option<Seq<char>>) -> Option<Seq<char>> {
    let base = match xdg {
        Some(x) => Some(x),
        None => match home {
            Some(h) => Some(crate::paths::path_join(h, ".config"@)),
            None => None,
        },
    };
    match base {
        Some(b) => Some(crate::paths::path_join(crate::paths::path_join(b, "abrasive"@), "token"@)),
        None => None,
    }
}

/// The token file's path ([`token_location`]) from the values of
/// `XDG_CONFIG_HOME` and `HOME`.
pub fn token_path(xdg: Option<&str>, home: Option<&str>) -> (r: Option<String>)
    ensures
        opt_view(r) == token_location(
            match xdg {
                Some(x) => Some(x@),
                None => None,
            },
            match home {
                Some(h) => Some(h@),
                None => None,
            },
        ),
{
    let base = match xdg {
        Some(x) => chars_of(x),
        None => match home {
            Some(h) => join_path(chars_of(h).as_slice(), chars_of(".config").as_slice()),
            None => return None,
        },
    };
    let a = join_path(base.as_slice(), chars_of("abrasive").as_slice());
    let t = join_path(a.as_slice(), chars_of("token").as_slice());
    Some(string_of(t.as_slice()))
}

/// Whether a character is white space (`char::is_whitespace`).
pub open spec fn is_white(c: char) -> bool {
    ||| ('\t' <= c && c <= '\r')
    ||| c == ' '
    ||| c == '\u{85}'
    ||| c == '\u{a0}'
    ||| c == '\u{1680}'
    ||| ('\u{2000}' <= c && c <= '\u{200a}')
    ||| c == '\u{2028}'
    ||| c == '\u{2029}'
    ||| c == '\u{202f}'
    ||| c == '\u{205f}'
    ||| c == '\u{3000}'
}

fn white(c: char) -> (r: bool)
    ensures
        r == is_white(c),
{
    ('\t' <= c && c <= '\r') || c == ' ' || c == '\u{85}' || c == '\u{a0}' || c == '\u{1680}' || ('\u{2000}' <= c
        && c <= '\u{200a}') || c == '\u{2028}' || c == '\u{2029}' || c == '\u{202f}' || c == '\u{205f}' || c
        == '\u{3000}'
}

/// `s` without white space at either end (`str::trim`): the part from the
/// first to the last character that is not white space.
pub open spec fn trimmed(s: Seq<char>, lo: int, hi: int) -> bool {
    &&& 0 <= lo <= hi <= s.len()
    &&& forall|i: int| 0 <= i < lo ==> is_white(#[trigger] s[i])
    &&& forall|i: int| hi <= i < s.len() ==> is_white(#[trigger] s[i])
    &&& lo < hi ==> !is_white(s[lo]) && !is_white(s[hi - 1])
}

/// The token in the text of the token file: the text trimmed, unless that
/// leaves nothing.
pub fn cached_token(raw: &str) -> (r: Option<String>)
    ensures
        match r {
            None => forall|i: int| 0 <= i < raw@.len() ==> is_white(#[trigger] raw@[i]),
            Some(t) => exists|lo: int, hi: int| trimmed(raw@, lo, hi) && lo < hi && t@ == raw@.subrange(lo, hi),
        },
{
    let c = chars_of(raw);
    let mut lo: usize = 0;
    while lo < c.len() && white(c[lo])
        invariant
            0 <= lo <= c.len(),
            c@ == raw@,
            forall|i: int| 0 <= i < lo ==> is_white(#[trigger] c@[i]),
        decreases c.len() - lo,
    {
        lo = lo + 1;
    }
    if lo == c.len() {
        return None;
    }
    let mut hi: usize = c.len();
    while hi > lo && white(c[hi - 1])
        invariant
            lo < c.len(),
            lo <= hi <= c.len(),
            c@ == raw@,
            !is_white(c@[lo as int]),
            forall|i: int| hi <= i < c.len() ==> is_white(#[trigger] c@[i]),
        decreases hi,
    {
        hi = hi - 1;
    }
    let t = slice_chars(c.as_slice(), lo, hi);
    assert(trimmed(raw@, lo as int, hi as int));
    Some(string_of(t.as_slice()))
}

/// What can go wrong in the client.
#[derive(Debug, Clone, PartialEq, Eq)]
pub enum CliError {
    /// The build server could not be reached.
    Connect(String),
    /// Reading or writing the connection failed.
    Io(String),
    /// The server sent something that is not a message.
    Protocol(String),
    /// The server closed the connection before the build finished.
    Disconnected,
    /// Authorization failed.
    Auth(String),
}

impl CliError {
    /// The process exit code for an error: failure.
    pub fn exit_code(&self) -> (r: u8)
        ensures
            r == 1,
    {
        1
    }

    /// The error's message.
    pub fn message(&self) -> (r: String)
        ensures
            r@ == match self {
                CliError::Connect(e) => "failed to connect to build server: "@ + e@,
                CliError::Io(e) => "build server IO error: "@ + e@,
                CliError::Protocol(e) => "invalid response from build server: "@ + e@,
                CliError::Disconnected => "server closed connection before build finished"@,
                CliError::Auth(e) => "authentication failed: "@ + e@,
            },
    {
        let (prefix, detail) = match self {
            CliError::Connect(e) => ("failed to connect to build server: ", e.as_str()),
            CliError::Io(e) => ("build server IO error: ", e.as_str()),
            CliError::Protocol(e) => ("invalid response from build server: ", e.as_str()),
            CliError::Disconnected => ("server closed connection before build finished", ""),
            CliError::Auth(e) => ("authentication failed: ", e.as_str()),
        };
        let mut s = chars_of(prefix);
        push_chars(&mut s, chars_of(detail).as_slice());
        proof {
            if self is Disconnected {
                reveal_strlit("");
                assert(s@ =~= "server closed connection before build finished"@);
            }
        }
        string_of(s.as_slice())
    }
}

/// The server's answer to the manifest must list the files it needs.
pub fn expect_need_files(msg: Message) -> (r: Result<Vec<String>, CliError>)
    ensures
        match msg {
            Message::NeedFiles(paths) => r matches Ok(p) && strings_view(p@) == strings_view(paths@),
            _ => r == Err::<Vec<String>, CliError>(CliError::Disconnected),
        },
{
    match msg {
        Message::NeedFiles(paths) => Ok(paths),
        _ => Err(CliError::Disconnected),
    }
}

/// After the files, the server must acknowledge the sync.
pub fn expect_sync_ack(msg: &Message) -> (r: Result<(), CliError>)
    ensures
        (r is Ok) == (msg is SyncAck),
        r is Err ==> r == Err::<(), CliError>(CliError::Disconnected),
{
    match msg {
        Message::SyncAck => Ok(()),
        _ => Err(CliError::Disconnected),
    }
}

/// What the client does with a message while a build runs.
#[derive(Debug, Clone, PartialEq, Eq)]
pub enum BuildEvent {
    /// Show build output.
    Output(Vec<u8>),
    /// The build is over, with this exit code.
    Finished(u8),
    /// Anything else is ignored.
    Ignored,
}

/// The client's reaction to a message while a build runs.
pub fn build_event(msg: Message) -> (r: BuildEvent)
    ensures
        match msg {
            Message::BuildOutput(d) => r == BuildEvent::Output(d),
            Message::BuildFinished { exit_code } => r == BuildEvent::Finished(exit_code),
            _ => r == BuildEvent::Ignored,
        },
{
    match msg {
        Message::BuildOutput(d) => BuildEvent::Output(d),
        Message::BuildFinished { exit_code } => BuildEvent::Finished(exit_code),
        _ => BuildEvent::Ignored,
    }
}

/// The seconds to wait between polls at first: what the server asks, and
/// at least one.
pub fn first_poll_interval(requested: u64) -> (r: u64)
    ensures
        r == if requested < 1 { 1 } else { requested },
{
    if requested < 1 {
        1
    } else {
        requested
    }
}

/// The fields of the authorization server's answer to a token poll that
/// the client reads (each present when it is a JSON string).
#[derive(Debug, Clone, PartialEq, Eq)]
pub struct TokenPoll {
    pub access_token: Option<String>,
    pub error: Option<String>,
}

/// What to do after one poll of the device flow.
#[derive(Debug, Clone, PartialEq, Eq)]
pub enum PollStep {
    /// The user authorized the client: here is the token.
    Authorized(String),
    /// Not yet: poll again after this many seconds.
    Wait(u64),
    /// The flow failed.
    Failed(CliError),
}

/// The step after a poll answer, waiting `interval` seconds between polls;
/// `response` is the answer's JSON text (for the message of an answer that
/// has neither a token nor an error).
pub fn poll_step(answer: &TokenPoll, interval: u64, response: &str) -> (r: PollStep)
    requires
        interval + 5 <= u64::MAX,
    ensures
        match answer.access_token {
            Some(t) => r matches PollStep::Authorized(x) && x@ == t@,
            None => match answer.error {
                None => r matches PollStep::Failed(CliError::Auth(m)) && m@ == "unexpected token response: "@ + response@,
                Some(e) => if e@ == "authorization_pending"@ {
                    r == PollStep::Wait(interval)
                } else if e@ == "slow_down"@ {
                    r == PollStep::Wait((interval + 5) as u64)
                } else if e@ == "expired_token"@ {
                    r matches PollStep::Failed(CliError::Auth(m)) && m@ == "device code expired before authorization; run again"@
                } else if e@ == "access_denied"@ {
                    r matches PollStep::Failed(CliError::Auth(m)) && m@ == "authorization denied"@
                } else {
                    r matches PollStep::Failed(CliError::Auth(m)) && m@ == "github error: "@ + e@
                },
            },
        },
{
    match &answer.access_token {
        Some(t) => return PollStep::Authorized(string_of(chars_of(t.as_str()).as_slice())),
        None => {},
    }
    match &answer.error {
        None => {
            let mut m = chars_of("unexpected token response: ");
            push_chars(&mut m, chars_of(response).as_slice());
            PollStep::Failed(CliError::Auth(string_of(m.as_slice())))
        },
        Some(e) => {
            let e = e.as_str();
            if same_text(e, "authorization_pending") {
                PollStep::Wait(interval)
            } else if same_text(e, "slow_down") {
                PollStep::Wait(interval + 5)
            } else if same_text(e, "expired_token") {
                PollStep::Failed(CliError::Auth(owned("device code expired before authorization; run again")))
            } else if same_text(e, "access_denied") {
                PollStep::Failed(CliError::Auth(owned("authorization denied")))
            } else {
                let mut m = chars_of("github error: ");
                push_chars(&mut m, chars_of(e).as_slice());
                PollStep::Failed(CliError::Auth(string_of(m.as_slice())))
            }
        },
    }
}

} // verus!
