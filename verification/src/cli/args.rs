//! The command line: a command word followed by `--flag value` pairs, and
//! the command each word runs with the options it requires.

use vstd::prelude::*;

use crate::order::views;
use crate::text::{owned, push_str, str_eq};

verus! {

/// The parsed command line.
#[derive(Debug, PartialEq, Eq)]
pub struct Args {
    /// The command word.
    pub command: String,
    /// `--repo`: the repository root.
    pub repo: Option<String>,
    /// `--store`: the store database path.
    pub store: Option<String>,
    /// `--key`: the artifact key.
    pub key: Option<String>,
    /// `--kind`: the artifact or query kind.
    pub kind: Option<String>,
    /// `--value`: the published value.
    pub value: Option<String>,
    /// `--subject`: the query subject.
    pub subject: Option<String>,
    /// `--mode`: the tool mode (`baseline` or reuse).
    pub mode: Option<String>,
    /// `--dep`: note dependencies, in order (repeatable).
    pub deps: Vec<String>,
}

/// What [`Args`] records.
pub struct ArgsModel {
    pub command: Seq<char>,
    pub repo: Option<Seq<char>>,
    pub store: Option<Seq<char>>,
    pub key: Option<Seq<char>>,
    pub kind: Option<Seq<char>>,
    pub value: Option<Seq<char>>,
    pub subject: Option<Seq<char>>,
    pub mode: Option<Seq<char>>,
    pub deps: Seq<Seq<char>>,
}

/// The view of an optional string.
pub open spec fn opt_view(o: Option<String>) -> Option<Seq<char>> {
    match o {
        Some(s) => Some(s@),
        None => None,
    }
}

impl View for Args {
    type V = ArgsModel;

    open spec fn view(&self) -> ArgsModel {
        ArgsModel {
            command: self.command@,
            repo: opt_view(self.repo),
            store: opt_view(self.store),
            key: opt_view(self.key),
            kind: opt_view(self.kind),
            value: opt_view(self.value),
            subject: opt_view(self.subject),
            mode: opt_view(self.mode),
            deps: views(self.deps@),
        }
    }
}

/// A flag the command line knows.
pub open spec fn is_flag(f: Seq<char>) -> bool {
    f == "--repo"@ || f == "--store"@ || f == "--key"@ || f == "--kind"@ || f == "--value"@ || f == "--subject"@
        || f == "--mode"@ || f == "--dep"@
}

/// The options after one known flag with its value: a later value of a
/// flag replaces an earlier one, `--dep` values accumulate.
pub open spec fn with_flag(a: ArgsModel, f: Seq<char>, v: Seq<char>) -> ArgsModel {
    ArgsModel {
        command: a.command,
        repo: if f == "--repo"@ { Some(v) } else { a.repo },
        store: if f == "--store"@ { Some(v) } else { a.store },
        key: if f == "--key"@ { Some(v) } else { a.key },
        kind: if f == "--kind"@ { Some(v) } else { a.kind },
        value: if f == "--value"@ { Some(v) } else { a.value },
        subject: if f == "--subject"@ { Some(v) } else { a.subject },
        mode: if f == "--mode"@ { Some(v) } else { a.mode },
        deps: if f == "--dep"@ { a.deps.push(v) } else { a.deps },
    }
}

/// The options the words `w` add to `a`, or the first error.
pub open spec fn parse_flags(w: Seq<Seq<char>>, a: ArgsModel) -> Result<ArgsModel, Seq<char>>
    decreases w.len(),
{
    if w.len() == 0 {
        Ok(a)
    } else if !is_flag(w[0]) {
        Err("unknown flag "@ + w[0])
    } else if w.len() < 2 {
        Err("missing value for "@ + w[0])
    } else {
        parse_flags(w.subrange(2, w.len() as int), with_flag(a, w[0], w[1]))
    }
}

/// The command line of the words after the program name.
pub open spec fn parse_spec(w: Seq<Seq<char>>) -> Result<ArgsModel, Seq<char>> {
    if w.len() == 0 {
        Err("usage: trellis <command> [options]"@)
    } else {
        parse_flags(
            w.subrange(1, w.len() as int),
            ArgsModel {
                command: w[0],
                repo: None,
                store: None,
                key: None,
                kind: None,
                value: None,
                subject: None,
                mode: None,
                deps: Seq::empty(),
            },
        )
    }
}

fn set_flag(a: &mut Args, f: &str, v: &str)
    requires
        is_flag(f@),
    ensures
        final(a)@ == with_flag(old(a)@, f@, v@),
{
    if str_eq(f, "--repo") {
        a.repo = Some(owned(v));
    }
    if str_eq(f, "--store") {
        a.store = Some(owned(v));
    }
    if str_eq(f, "--key") {
        a.key = Some(owned(v));
    }
    if str_eq(f, "--kind") {
        a.kind = Some(owned(v));
    }
    if str_eq(f, "--value") {
        a.value = Some(owned(v));
    }
    if str_eq(f, "--subject") {
        a.subject = Some(owned(v));
    }
    if str_eq(f, "--mode") {
        a.mode = Some(owned(v));
    }
    if str_eq(f, "--dep") {
        let ghost pre = a.deps@;
        let d = owned(v);
        a.deps.push(d);
        proof {
            crate::order::lemma_views_push(pre, d);
        }
    }
}

fn known_flag(f: &str) -> (r: bool)
    ensures
        r == is_flag(f@),
{
    str_eq(f, "--repo") || str_eq(f, "--store") || str_eq(f, "--key") || str_eq(f, "--kind") || str_eq(f, "--value")
        || str_eq(f, "--subject") || str_eq(f, "--mode") || str_eq(f, "--dep")
}

/// Parse the words after the program name: the command word, then
/// `--flag value` pairs.
///
/// # Errors
/// The usage line without a command; `unknown flag <f>`; `missing value
/// for <f>` when a flag ends the line.
pub fn parse_args(words: &[String]) -> (r: Result<Args, String>)
    ensures
        match parse_spec(views(words@)) {
            Ok(m) => r matches Ok(a) && a@ == m,
            Err(e) => r matches Err(m) && m@ == e,
        },
{
    let ghost w = views(words@);
    if words.len() == 0 {
        return Err(owned("usage: trellis <command> [options]"));
    }
    let mut args = Args {
        command: owned(words[0].as_str()),
        repo: None,
        store: None,
        key: None,
        kind: None,
        value: None,
        subject: None,
        mode: None,
        deps: Vec::new(),
    };
    proof {
        assert(views(args.deps@) =~= Seq::<Seq<char>>::empty());
    }
    let mut i: usize = 1;
    while i < words.len()
        invariant
            1 <= i <= words@.len(),
            w == views(words@),
            parse_spec(w) == parse_flags(w.subrange(i as int, w.len() as int), args@),
        decreases words.len() - i,
    {
        let ghost rest = w.subrange(i as int, w.len() as int);
        proof {
            assert(rest[0] == words@[i as int]@);
        }
        let f = words[i].as_str();
        if !known_flag(f) {
            let mut e = owned("unknown flag ");
            push_str(&mut e, f);
            return Err(e);
        }
        if i + 1 >= words.len() {
            let mut e = owned("missing value for ");
            push_str(&mut e, f);
            return Err(e);
        }
        proof {
            assert(rest[1] == words@[i + 1]@);
            assert(rest.subrange(2, rest.len() as int) =~= w.subrange(i + 2, w.len() as int));
        }
        set_flag(&mut args, f, words[i + 1].as_str());
        i = i + 2;
    }
    proof {
        assert(w.subrange(i as int, w.len() as int).len() == 0);
    }
    Ok(args)
}

/// A command with the options it runs with.
#[derive(Debug, PartialEq, Eq)]
pub enum Command {
    /// Index the tree and create the store.
    Init { repo: String, store: String },
    /// Reconcile, reevaluate, report artifact standings.
    Status { repo: String, store: String },
    /// Publish an agent-derived artifact under a key.
    Publish { repo: String, store: String, key: String, kind: String, value: String, deps: Vec<String> },
    /// Retrieve the value under a key when it is still valid.
    Retrieve { repo: String, store: String, key: String },
    /// Answer a query fresh.
    Query { repo: String, kind: String, subject: String },
    /// Run a deterministic tool query, reusing a stored answer when valid.
    Tool { repo: String, store: String, mode: String, kind: String, subject: String },
}

/// The message for a required option that is missing.
pub open spec fn missing(what: Seq<char>) -> Seq<char> {
    "missing required option "@ + what
}

/// The first required option at or after position `i` that is missing.
pub open spec fn first_missing(opts: Seq<(Option<Seq<char>>, Seq<char>)>, i: nat) -> Option<Seq<char>>
    decreases opts.len() - i,
{
    if i >= opts.len() {
        None
    } else if opts[i as int].0 is None {
        Some(missing(opts[i as int].1))
    } else {
        first_missing(opts, i + 1)
    }
}

/// The options a command word requires, in the order they are checked.
pub open spec fn required_options(a: ArgsModel) -> Seq<(Option<Seq<char>>, Seq<char>)> {
    if a.command == "init"@ || a.command == "status"@ {
        seq![(a.repo, "--repo"@), (a.store, "--store"@)]
    } else if a.command == "publish"@ {
        seq![(a.repo, "--repo"@), (a.store, "--store"@), (a.key, "--key"@), (a.kind, "--kind"@), (a.value, "--value"@)]
    } else if a.command == "retrieve"@ {
        seq![(a.repo, "--repo"@), (a.store, "--store"@), (a.key, "--key"@)]
    } else if a.command == "query"@ {
        seq![(a.repo, "--repo"@), (a.kind, "--kind"@), (a.subject, "--subject"@)]
    } else {
        seq![(a.repo, "--repo"@), (a.mode, "--mode"@), (a.kind, "--kind"@), (a.subject, "--subject"@)]
    }
}

/// The command word names a command.
pub open spec fn known_command(c: Seq<char>) -> bool {
    c == "init"@ || c == "status"@ || c == "publish"@ || c == "retrieve"@ || c == "query"@ || c == "tool"@
}

/// The value of a present option.
pub open spec fn got(o: Option<Seq<char>>) -> Seq<char> {
    match o {
        Some(v) => v,
        None => Seq::empty(),
    }
}

/// The command a parsed line runs.
pub open spec fn command_matches(a: ArgsModel, c: Command) -> bool {
    match c {
        Command::Init { repo, store } => a.command == "init"@ && repo@ == got(a.repo) && store@ == got(a.store),
        Command::Status { repo, store } => a.command == "status"@ && repo@ == got(a.repo) && store@ == got(a.store),
        Command::Publish { repo, store, key, kind, value, deps } => a.command == "publish"@ && repo@ == got(a.repo)
            && store@ == got(a.store) && key@ == got(a.key) && kind@ == got(a.kind) && value@ == got(a.value)
            && views(deps@) == a.deps,
        Command::Retrieve { repo, store, key } => a.command == "retrieve"@ && repo@ == got(a.repo) && store@ == got(
            a.store,
        ) && key@ == got(a.key),
        Command::Query { repo, kind, subject } => a.command == "query"@ && repo@ == got(a.repo) && kind@ == got(a.kind)
            && subject@ == got(a.subject),
        Command::Tool { repo, store, mode, kind, subject } => a.command == "tool"@ && repo@ == got(a.repo) && store@
            == (match a.store {
            Some(s) => s,
            None => "/dev/null"@,
        }) && mode@ == got(a.mode) && kind@ == got(a.kind) && subject@ == got(a.subject),
    }
}

fn require(v: Option<String>, what: &str) -> (r: Result<String, String>)
    ensures
        match v {
            Some(s) => r matches Ok(x) && x@ == s@,
            None => r matches Err(e) && e@ == missing(what@),
        },
{
    match v {
        Some(s) => Ok(s),
        None => {
            let mut e = owned("missing required option ");
            push_str(&mut e, what);
            Err(e)
        },
    }
}

/// The command a parsed line runs, with the options it requires (the
/// tool's store defaults to `/dev/null`).
///
/// # Errors
/// `missing required option <flag>` for the first missing option;
/// `unknown command <word>`.
pub fn plan_command(args: Args) -> (r: Result<Command, String>)
    ensures
        !known_command(args@.command) ==> (r matches Err(e) && e@ == "unknown command "@ + args@.command),
        known_command(args@.command) ==> match first_missing(required_options(args@), 0) {
            Some(m) => r matches Err(e) && e@ == m,
            None => r matches Ok(c) && command_matches(args@, c),
        },
{
    let ghost a = args@;
    proof {
        reveal_with_fuel(first_missing, 6);
    }
    let c = args.command;
    if str_eq(c.as_str(), "init") || str_eq(c.as_str(), "status") {
        let repo = match require(args.repo, "--repo") {
            Ok(x) => x,
            Err(e) => return Err(e),
        };
        let store = match require(args.store, "--store") {
            Ok(x) => x,
            Err(e) => return Err(e),
        };
        if str_eq(c.as_str(), "init") {
            Ok(Command::Init { repo, store })
        } else {
            Ok(Command::Status { repo, store })
        }
    } else if str_eq(c.as_str(), "publish") {
        let repo = match require(args.repo, "--repo") {
            Ok(x) => x,
            Err(e) => return Err(e),
        };
        let store = match require(args.store, "--store") {
            Ok(x) => x,
            Err(e) => return Err(e),
        };
        let key = match require(args.key, "--key") {
            Ok(x) => x,
            Err(e) => return Err(e),
        };
        let kind = match require(args.kind, "--kind") {
            Ok(x) => x,
            Err(e) => return Err(e),
        };
        let value = match require(args.value, "--value") {
            Ok(x) => x,
            Err(e) => return Err(e),
        };
        Ok(Command::Publish { repo, store, key, kind, value, deps: args.deps })
    } else if str_eq(c.as_str(), "retrieve") {
        let repo = match require(args.repo, "--repo") {
            Ok(x) => x,
            Err(e) => return Err(e),
        };
        let store = match require(args.store, "--store") {
            Ok(x) => x,
            Err(e) => return Err(e),
        };
        let key = match require(args.key, "--key") {
            Ok(x) => x,
            Err(e) => return Err(e),
        };
        Ok(Command::Retrieve { repo, store, key })
    } else if str_eq(c.as_str(), "query") {
        let repo = match require(args.repo, "--repo") {
            Ok(x) => x,
            Err(e) => return Err(e),
        };
        let kind = match require(args.kind, "--kind") {
            Ok(x) => x,
            Err(e) => return Err(e),
        };
        let subject = match require(args.subject, "--subject") {
            Ok(x) => x,
            Err(e) => return Err(e),
        };
        Ok(Command::Query { repo, kind, subject })
    } else if str_eq(c.as_str(), "tool") {
        let repo = match require(args.repo, "--repo") {
            Ok(x) => x,
            Err(e) => return Err(e),
        };
        let store = match args.store {
            Some(s) => s,
            None => owned("/dev/null"),
        };
        let mode = match require(args.mode, "--mode") {
            Ok(x) => x,
            Err(e) => return Err(e),
        };
        let kind = match require(args.kind, "--kind") {
            Ok(x) => x,
            Err(e) => return Err(e),
        };
        let subject = match require(args.subject, "--subject") {
            Ok(x) => x,
            Err(e) => return Err(e),
        };
        Ok(Command::Tool { repo, store, mode, kind, subject })
    } else {
        let mut e = owned("unknown command ");
        push_str(&mut e, c.as_str());
        Err(e)
    }
}

} // verus!
