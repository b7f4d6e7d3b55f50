//! What the stub was asked to do, read from its command line.
//!
//! Every other argument is ignored on purpose: the same invocation that
//! drives `llama-server` has to drive this. A value is only consumed for a
//! flag this stub knows, so a bare flag it does not know costs nothing and a
//! valued one has its value skipped as an unknown flag in turn.

use vstd::prelude::*;

use crate::text::{parse_unsigned, push_str, unsigned_value, views};

verus! {

/// How a reply is paced, when the stub streams one.
#[derive(Debug, Clone, PartialEq, Eq)]
pub struct Pacing {
    /// How long before the first byte, in milliseconds.
    pub first_byte_after_ms: u64,
    /// How many events a stream carries.
    pub events: usize,
    /// How long between events, in milliseconds.
    pub gap_ms: u64,
    /// After how many events the stub dies mid-stream, if it does.
    pub die_after: Option<usize>,
    /// A file written when the caller hangs up, if one is named.
    pub hangup_marker: Option<String>,
}

/// What the stub was asked to do.
#[derive(Debug, Clone, PartialEq, Eq)]
pub struct Options {
    /// The interface to bind.
    pub host: String,
    /// The port to bind.
    pub port: u16,
    /// How long it answers "loading" before it is ready, in milliseconds.
    pub ready_after_ms: u64,
    /// When it exits on its own, in milliseconds, if it does.
    pub exit_after_ms: Option<u64>,
    /// The status it exits with.
    pub exit_code: u8,
    /// Which entry this stub was started as, taken from `--alias`.
    pub alias: String,
    /// How a streamed reply is paced.
    pub pacing: Pacing,
    /// A marker file: on the run that finds it absent, the stub exits before
    /// binding at all; on a later run that finds it present, it behaves
    /// normally.
    pub never_bind_marker: Option<String>,
    /// The same failure, on every run rather than only the first.
    pub never_bind: bool,
}

/// A [`Pacing`], with its text as characters.
pub struct PacingView {
    pub first_byte_after_ms: u64,
    pub events: usize,
    pub gap_ms: u64,
    pub die_after: Option<usize>,
    pub hangup_marker: Option<Seq<char>>,
}

/// [`Options`], with their text as characters.
pub struct OptionsView {
    pub host: Seq<char>,
    pub port: u16,
    pub ready_after_ms: u64,
    pub exit_after_ms: Option<u64>,
    pub exit_code: u8,
    pub alias: Seq<char>,
    pub pacing: PacingView,
    pub never_bind_marker: Option<Seq<char>>,
    pub never_bind: bool,
}

/// The text of an optional string.
pub open spec fn opt_view(s: Option<String>) -> Option<Seq<char>> {
    match s {
        Some(t) => Some(t@),
        None => None,
    }
}

impl View for Pacing {
    type V = PacingView;

    open spec fn view(&self) -> PacingView {
        PacingView {
            first_byte_after_ms: self.first_byte_after_ms,
            events: self.events,
            gap_ms: self.gap_ms,
            die_after: self.die_after,
            hangup_marker: opt_view(self.hangup_marker),
        }
    }
}

impl View for Options {
    type V = OptionsView;

    open spec fn view(&self) -> OptionsView {
        OptionsView {
            host: self.host@,
            port: self.port,
            ready_after_ms: self.ready_after_ms,
            exit_after_ms: self.exit_after_ms,
            exit_code: self.exit_code,
            alias: self.alias@,
            pacing: self.pacing@,
            never_bind_marker: opt_view(self.never_bind_marker),
            never_bind: self.never_bind,
        }
    }
}

/// What the stub does when nothing is asked: bind loopback on a port the
/// system picks, be ready at once, and stream three events.
pub open spec fn defaults() -> OptionsView {
    OptionsView {
        host: "127.0.0.1"@,
        port: 0,
        ready_after_ms: 0,
        exit_after_ms: None,
        exit_code: 0,
        alias: Seq::empty(),
        pacing: PacingView { first_byte_after_ms: 0, events: 3, gap_ms: 0, die_after: None, hangup_marker: None },
        never_bind_marker: None,
        never_bind: false,
    }
}

/// Whether a flag takes a value.
pub open spec fn takes_value(flag: Seq<char>) -> bool {
    ||| flag == "--host"@
    ||| flag == "--port"@
    ||| flag == "--ready-after"@
    ||| flag == "--exit-after"@
    ||| flag == "--exit-code"@
    ||| flag == "--alias"@
    ||| flag == "--first-byte-after"@
    ||| flag == "--stream-events"@
    ||| flag == "--stream-gap"@
    ||| flag == "--die-after-events"@
    ||| flag == "--hangup-marker"@
    ||| flag == "--never-bind-marker"@
}

/// What a flag is told when its value is not a number.
pub open spec fn not_a_number(flag: Seq<char>, value: Seq<char>) -> Seq<char> {
    flag + " takes a number, not '"@ + value + "'"@
}

/// What a flag is told when it has no value.
pub open spec fn needs_a_value(flag: Seq<char>) -> Seq<char> {
    flag + " needs a value"@
}

/// A number for a flag, read as `str::parse` does for a type whose largest
/// value is `max`.
pub open spec fn number_for(flag: Seq<char>, value: Seq<char>, max: nat) -> Result<nat, Seq<char>> {
    match unsigned_value(value, max) {
        Some(v) => Ok(v),
        None => Err(not_a_number(flag, value)),
    }
}

/// The options once one known flag has taken its value.
pub open spec fn with_value(flag: Seq<char>, v: Seq<char>, o: OptionsView) -> Result<OptionsView, Seq<char>> {
    if flag == "--host"@ {
        Ok(OptionsView { host: v, ..o })
    } else if flag == "--alias"@ {
        Ok(OptionsView { alias: v, ..o })
    } else if flag == "--hangup-marker"@ {
        Ok(OptionsView { pacing: PacingView { hangup_marker: Some(v), ..o.pacing }, ..o })
    } else if flag == "--never-bind-marker"@ {
        Ok(OptionsView { never_bind_marker: Some(v), ..o })
    } else if flag == "--port"@ {
        match number_for(flag, v, u16::MAX as nat) { Ok(n) => Ok(OptionsView { port: n as u16, ..o }), Err(e) => Err(e) }
    } else if flag == "--exit-code"@ {
        match number_for(flag, v, u8::MAX as nat) { Ok(n) => Ok(OptionsView { exit_code: n as u8, ..o }), Err(e) => Err(e) }
    } else if flag == "--ready-after"@ {
        match number_for(flag, v, u64::MAX as nat) { Ok(n) => Ok(OptionsView { ready_after_ms: n as u64, ..o }), Err(e) => Err(e) }
    } else if flag == "--exit-after"@ {
        match number_for(flag, v, u64::MAX as nat) { Ok(n) => Ok(OptionsView { exit_after_ms: Some(n as u64), ..o }), Err(e) => Err(e) }
    } else if flag == "--first-byte-after"@ {
        match number_for(flag, v, u64::MAX as nat) {
            Ok(n) => Ok(OptionsView { pacing: PacingView { first_byte_after_ms: n as u64, ..o.pacing }, ..o }),
            Err(e) => Err(e),
        }
    } else if flag == "--stream-gap"@ {
        match number_for(flag, v, u64::MAX as nat) {
            Ok(n) => Ok(OptionsView { pacing: PacingView { gap_ms: n as u64, ..o.pacing }, ..o }),
            Err(e) => Err(e),
        }
    } else if flag == "--stream-events"@ {
        match number_for(flag, v, usize::MAX as nat) {
            Ok(n) => Ok(OptionsView { pacing: PacingView { events: n as usize, ..o.pacing }, ..o }),
            Err(e) => Err(e),
        }
    } else {
        match number_for(flag, v, usize::MAX as nat) {
            Ok(n) => Ok(OptionsView { pacing: PacingView { die_after: Some(n as usize), ..o.pacing }, ..o }),
            Err(e) => Err(e),
        }
    }
}

/// The options the arguments from `i` on leave, starting from `o`.
pub open spec fn read_from(args: Seq<Seq<char>>, i: int, o: OptionsView) -> Result<OptionsView, Seq<char>>
    decreases args.len() - i,
{
    if i < 0 || i >= args.len() {
        Ok(o)
    } else if args[i] == "--never-bind"@ {
        read_from(args, i + 1, OptionsView { never_bind: true, ..o })
    } else if takes_value(args[i]) {
        if i + 1 >= args.len() {
            Err(needs_a_value(args[i]))
        } else {
            match with_value(args[i], args[i + 1], o) {
                Ok(next) => read_from(args, i + 2, next),
                Err(e) => Err(e),
            }
        }
    } else {
        read_from(args, i + 1, o)
    }
}

fn is(a: &str, b: &str) -> (same: bool)
    ensures
        same == (a@ == b@),
{
    crate::text::same_text(a, b)
}

fn number(flag: &str, value: &str, max: u64) -> (n: Result<u64, String>)
    ensures
        match number_for(flag@, value@, max as nat) {
            Ok(v) => n is Ok && n->Ok_0 == v,
            Err(e) => n is Err && n->Err_0@ == e,
        },
{
    match parse_unsigned(value, max) {
        Some(v) => Ok(v),
        None => {
            let mut message = String::new();
            push_str(&mut message, flag);
            push_str(&mut message, " takes a number, not '");
            push_str(&mut message, value);
            push_str(&mut message, "'");
            Err(message)
        },
    }
}

fn apply(flag: &str, value: String, o: Options) -> (next: Result<Options, String>)
    requires
        takes_value(flag@),
    ensures
        match with_value(flag@, value@, o@) {
            Ok(n) => next is Ok && next->Ok_0@ == n,
            Err(e) => next is Err && next->Err_0@ == e,
        },
{
    let mut o = o;
    if is(flag, "--host") {
        o.host = value;
    } else if is(flag, "--alias") {
        o.alias = value;
    } else if is(flag, "--hangup-marker") {
        o.pacing.hangup_marker = Some(value);
    } else if is(flag, "--never-bind-marker") {
        o.never_bind_marker = Some(value);
    } else if is(flag, "--port") {
        o.port = number(flag, value.as_str(), 0xFFFF)? as u16;
    } else if is(flag, "--exit-code") {
        o.exit_code = number(flag, value.as_str(), 0xFF)? as u8;
    } else if is(flag, "--ready-after") {
        o.ready_after_ms = number(flag, value.as_str(), u64::MAX)?;
    } else if is(flag, "--exit-after") {
        o.exit_after_ms = Some(number(flag, value.as_str(), u64::MAX)?);
    } else if is(flag, "--first-byte-after") {
        o.pacing.first_byte_after_ms = number(flag, value.as_str(), u64::MAX)?;
    } else if is(flag, "--stream-gap") {
        o.pacing.gap_ms = number(flag, value.as_str(), u64::MAX)?;
    } else if is(flag, "--stream-events") {
        o.pacing.events = number(flag, value.as_str(), usize::MAX as u64)? as usize;
    } else {
        o.pacing.die_after = Some(number(flag, value.as_str(), usize::MAX as u64)? as usize);
    }
    Ok(o)
}

/// Reads the known arguments and steps over the rest.
pub fn parse(args: &Vec<String>) -> (parsed: Result<Options, String>)
    ensures
        match read_from(views(args@), 0, defaults()) {
            Ok(o) => parsed is Ok && parsed->Ok_0@ == o,
            Err(e) => parsed is Err && parsed->Err_0@ == e,
        },
{
    let mut host = String::new();
    push_str(&mut host, "127.0.0.1");
    let alias = String::new();
    let mut o = Options {
        host,
        port: 0,
        ready_after_ms: 0,
        exit_after_ms: None,
        exit_code: 0,
        alias,
        pacing: Pacing { first_byte_after_ms: 0, events: 3, gap_ms: 0, die_after: None, hangup_marker: None },
        never_bind_marker: None,
        never_bind: false,
    };
    assert(o@ =~= defaults());
    let mut i: usize = 0;
    while i < args.len()
        invariant
            i <= args@.len(),
            read_from(views(args@), 0, defaults()) == read_from(views(args@), i as int, o@),
        decreases args@.len() - i,
    {
        let flag = args[i].as_str();
        if is(flag, "--never-bind") {
            o.never_bind = true;
            i = i + 1;
        } else if is(flag, "--host") || is(flag, "--port") || is(flag, "--ready-after") || is(flag, "--exit-after")
            || is(flag, "--exit-code") || is(flag, "--alias") || is(flag, "--first-byte-after")
            || is(flag, "--stream-events") || is(flag, "--stream-gap") || is(flag, "--die-after-events")
            || is(flag, "--hangup-marker") || is(flag, "--never-bind-marker") {
            if i + 1 >= args.len() {
                let mut message = String::new();
                push_str(&mut message, flag);
                push_str(&mut message, " needs a value");
                return Err(message);
            }
            let value = args[i + 1].clone();
            o = apply(flag, value, o)?;
            i = i + 2;
        } else {
            i = i + 1;
        }
    }
    Ok(o)
}

} // verus!
