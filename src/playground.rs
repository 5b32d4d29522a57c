use vstd::prelude::*;
use vstd::string::*;
use crate::context::Context;
use crate::flow::Flow;
use crate::registry::CommandRegistry;
use crate::text::{
    has_prefix, lemma_skip_ws_bounds, lemma_split_on_len, split_at_char, split_on, starts_with, trim,
    trim_str, lemma_token_end_bounds, same_text, skip_spaces, skip_ws, slice,
    token_end, token_end_from,
};

verus! {

/// The build mode the playground compiles with.
#[derive(Clone, Copy, Debug, PartialEq, Eq, Structural)]
pub enum Mode {
    Debug,
    Release,
}

impl Mode {
    pub fn as_str(&self) -> (r: &'static str)
        ensures
            r@ == (match *self {
                Mode::Debug => "debug"@,
                Mode::Release => "release"@,
            }),
    {
        match *self {
            Mode::Debug => "debug",
            Mode::Release => "release",
        }
    }
}

/// The kind of crate the playground builds.
#[derive(Clone, Copy, Debug, PartialEq, Eq, Structural)]
pub enum CrateType {
    Bin,
}

/// The toolchain release channel the playground compiles with.
#[derive(Clone, Copy, Debug, PartialEq, Eq, Structural)]
pub enum Channel {
    Stable,
    Beta,
    Nightly,
}

impl Channel {
    pub fn as_str(&self) -> (r: &'static str)
        ensures
            r@ == (match *self {
                Channel::Stable => "stable"@,
                Channel::Beta => "beta"@,
                Channel::Nightly => "nightly"@,
            }),
    {
        match *self {
            Channel::Stable => "stable",
            Channel::Beta => "beta",
            Channel::Nightly => "nightly",
        }
    }
}

/// A request to compile and run code on the playground.
pub struct Request {
    code: String,
    channel: Channel,
    mode: Mode,
    crate_type: CrateType,
}

impl Request {
    pub closed spec fn spec_code(&self) -> Seq<char> {
        self.code@
    }

    pub closed spec fn spec_channel(&self) -> Channel {
        self.channel
    }

    pub closed spec fn spec_mode(&self) -> Mode {
        self.mode
    }

    /// A request for `code` on the stable channel, in debug mode, as a binary.
    pub fn new(code: &str) -> (r: Request)
        ensures
            r.spec_code() == code@,
            r.spec_channel() == Channel::Stable,
            r.spec_mode() == Mode::Debug,
    {
        Request {
            code: String::from_str(code),
            channel: Channel::Stable,
            mode: Mode::Debug,
            crate_type: CrateType::Bin,
        }
    }

    pub fn set_channel(&mut self, channel: Channel)
        ensures
            final(self).spec_channel() == channel,
            final(self).spec_code() == old(self).spec_code(),
            final(self).spec_mode() == old(self).spec_mode(),
    {
        self.channel = channel;
    }

    pub fn set_mode(&mut self, mode: Mode)
        ensures
            final(self).spec_mode() == mode,
            final(self).spec_code() == old(self).spec_code(),
            final(self).spec_channel() == old(self).spec_channel(),
    {
        self.mode = mode;
    }

    pub fn code(&self) -> (r: &str)
        ensures
            r@ == self.spec_code(),
    {
        self.code.as_str()
    }

    pub fn channel(&self) -> (r: Channel)
        ensures
            r == self.spec_channel(),
    {
        self.channel
    }

    pub fn mode(&self) -> (r: Mode)
        ensures
            r == self.spec_mode(),
    {
        self.mode
    }

    pub fn crate_type(&self) -> (r: CrateType)
        ensures
            r == CrateType::Bin,
    {
        match self.crate_type {
            CrateType::Bin => CrateType::Bin,
        }
    }
}

/// What the playground answered to a request.
pub struct Response {
    pub success: bool,
    pub stdout: String,
    pub stderr: String,
}

/// The version of a channel's compiler.
pub struct Version {
    pub version: String,
    pub hash: String,
    pub date: String,
}

/// The crates available on the playground.
pub struct Crates {
    pub crates: Vec<Crate>,
}

/// One crate available on the playground.
pub struct Crate {
    pub name: String,
    pub version: String,
    pub id: String,
}

/// The settings that the leading flags of a message choose.
#[derive(Clone, Copy, Debug, PartialEq, Eq, Structural)]
pub struct Flags {
    pub channel: Channel,
    pub mode: Mode,
    pub show_version: bool,
    pub bare: bool,
}

pub open spec fn default_flags() -> Flags {
    Flags { channel: Channel::Stable, mode: Mode::Debug, show_version: false, bare: false }
}

pub open spec fn is_help_token(t: Seq<char>) -> bool {
    t == "help"@ || t == "h"@ || t == "-h"@ || t == "-help"@ || t == "--help"@ || t == "--h"@
}

pub open spec fn is_setting_token(t: Seq<char>) -> bool {
    t == "--stable"@ || t == "--beta"@ || t == "--nightly"@ || t == "--version"@ || t
        == "VERSION"@ || t == "--bare"@ || t == "--mini"@ || t == "--debug"@ || t == "--release"@
}

/// The settings after the flag token `t`.
pub open spec fn apply_flag(f: Flags, t: Seq<char>) -> Flags {
    if t == "--stable"@ {
        Flags { channel: Channel::Stable, ..f }
    } else if t == "--beta"@ {
        Flags { channel: Channel::Beta, ..f }
    } else if t == "--nightly"@ {
        Flags { channel: Channel::Nightly, ..f }
    } else if t == "--version"@ || t == "VERSION"@ {
        Flags { show_version: true, ..f }
    } else if t == "--bare"@ || t == "--mini"@ {
        Flags { bare: true, ..f }
    } else if t == "--debug"@ {
        Flags { mode: Mode::Debug, ..f }
    } else if t == "--release"@ {
        Flags { mode: Mode::Release, ..f }
    } else {
        f
    }
}

/// The flag loop from index `i` of `s` with settings `f`: whether a help token
/// stopped it, the settings it ends with, and where the rest of the body starts.
pub open spec fn scan_flags(s: Seq<char>, i: int, f: Flags) -> (bool, Flags, int)
    decreases s.len() - i,
{
    let j = skip_ws(s, i);
    let e = token_end(s, j);
    let t = s.subrange(j, e);
    if 0 <= i <= j < e <= s.len() {
        if is_help_token(t) {
            (true, f, j)
        } else if is_setting_token(t) {
            scan_flags(s, e, apply_flag(f, t))
        } else {
            (false, f, j)
        }
    } else {
        (false, f, j)
    }
}

/// The outcome of the flag loop on a message body.
pub struct FlagParse {
    /// A help token was met: the handler shows help and stops.
    pub help: bool,
    pub flags: Flags,
    /// The body from the first token that is no setting flag on.
    pub rest: String,
}

fn is_help(t: &str) -> (r: bool)
    ensures
        r == is_help_token(t@),
{
    same_text(t, "help") || same_text(t, "h") || same_text(t, "-h") || same_text(t, "-help")
        || same_text(t, "--help") || same_text(t, "--h")
}

fn apply_setting(f: Flags, t: &str) -> (r: Option<Flags>)
    ensures
        is_setting_token(t@) ==> r == Some(apply_flag(f, t@)),
        !is_setting_token(t@) ==> r is None,
{
    if same_text(t, "--stable") {
        Some(Flags { channel: Channel::Stable, ..f })
    } else if same_text(t, "--beta") {
        Some(Flags { channel: Channel::Beta, ..f })
    } else if same_text(t, "--nightly") {
        Some(Flags { channel: Channel::Nightly, ..f })
    } else if same_text(t, "--version") || same_text(t, "VERSION") {
        Some(Flags { show_version: true, ..f })
    } else if same_text(t, "--bare") || same_text(t, "--mini") {
        Some(Flags { bare: true, ..f })
    } else if same_text(t, "--debug") {
        Some(Flags { mode: Mode::Debug, ..f })
    } else if same_text(t, "--release") {
        Some(Flags { mode: Mode::Release, ..f })
    } else {
        None
    }
}

/// Runs the flag loop over `body`.
pub fn parse_flags(body: &str) -> (r: FlagParse)
    ensures
        ({
            let (help, flags, start) = scan_flags(body@, 0, default_flags());
            &&& r.help == help
            &&& r.flags == flags
            &&& 0 <= start <= body@.len()
            &&& r.rest@ == body@.subrange(start, body@.len() as int)
        }),
{
    let n = body.unicode_len();
    let mut f = Flags {
        channel: Channel::Stable,
        mode: Mode::Debug,
        show_version: false,
        bare: false,
    };
    let mut i: usize = 0;
    loop
        invariant
            n == body@.len(),
            i <= n,
            scan_flags(body@, i as int, f) == scan_flags(body@, 0, default_flags()),
        decreases n - i,
    {
        let j = skip_spaces(body, i);
        proof {
            lemma_skip_ws_bounds(body@, i as int);
        }
        if j == n {
            proof {
                lemma_token_end_bounds(body@, j as int);
            }
            return FlagParse { help: false, flags: f, rest: slice(body, j, n) };
        }
        let e = token_end_from(body, j);
        proof {
            lemma_token_end_bounds(body@, j as int);
        }
        let t = slice(body, j, e);
        if is_help(t.as_str()) {
            return FlagParse { help: true, flags: f, rest: slice(body, j, n) };
        }
        match apply_setting(f, t.as_str()) {
            Some(g) => {
                f = g;
                i = e;
            },
            None => {
                return FlagParse { help: false, flags: f, rest: slice(body, j, n) };
            },
        }
    }
}

/// The pattern of the crate attributes (`#![...]`) that lead a snippet.
pub const CRATE_ATTRS: &'static str = "^(\\s*#!\\[.*?\\])*";

/// The text of the wrapper before the crate attributes.
pub const WRAP_HEAD: &'static str = "#![allow(dead_code, unused_variables)]\n";

/// The text of the wrapper between the crate attributes and the code.
pub const WRAP_OPEN: &'static str = "\nfn main() {\n    println!(\"{:?}\", {\n        ";

/// The text of the wrapper after the code.
pub const WRAP_CLOSE: &'static str = "\n    });\n}\n";

/// What the leftmost match of `pattern` in `text` is: the text before the match
/// and the match itself; `None` where there is none or `pattern` is no regex.
pub uninterp spec fn regex_find(pattern: Seq<char>, text: Seq<char>) -> Option<(Seq<char>, Seq<char>)>;

pub open spec fn found_view(o: Option<(String, String)>) -> Option<(Seq<char>, Seq<char>)> {
    match o {
        Some(p) => Some((p.0@, p.1@)),
        None => None,
    }
}

/// Relies on `regex::Regex::new` and `regex::Regex::find`: the leftmost match of
/// `pattern` in `text`, with the text before it.
#[verifier::external_body]
fn find_first(pattern: &str, text: &str) -> (r: Option<(String, String)>)
    ensures
        found_view(r) == regex_find(pattern@, text@),
{
    match regex::Regex::new(pattern) {
        Ok(re) => re.find(text).map(|m| (text[..m.start()].to_string(), m.as_str().to_string())),
        Err(_) => None,
    }
}

/// The crate attributes that lead `code` and the code after them, given the leftmost
/// match of the attribute pattern; only a match at the very start counts.
pub open spec fn split_attrs(code: Seq<char>, found: Option<(Seq<char>, Seq<char>)>) -> (Seq<char>, Seq<char>) {
    match found {
        Some(p) => if p.0.len() == 0 && starts_with(code, p.1) {
            (p.1, code.subrange(p.1.len() as int, code.len() as int))
        } else {
            (Seq::empty(), code)
        },
        None => (Seq::empty(), code),
    }
}

/// `code` inside the wrapper, with `attrs` hoisted to the top.
pub open spec fn wrap_code(attrs: Seq<char>, code: Seq<char>) -> Seq<char> {
    WRAP_HEAD@ + attrs + WRAP_OPEN@ + code + WRAP_CLOSE@
}

/// The program sent for `code`: as it is when `bare`, else inside the wrapper.
pub open spec fn program_for(bare: bool, code: Seq<char>, found: Option<(Seq<char>, Seq<char>)>) -> Seq<char> {
    if bare {
        code
    } else {
        wrap_code(split_attrs(code, found).0, split_attrs(code, found).1)
    }
}

/// Builds the program for `code`, given the leftmost match `found` of the attribute pattern in it.
pub fn build_program(bare: bool, code: &str, found: Option<(String, String)>) -> (r: String)
    ensures
        r@ == program_for(bare, code@, found_view(found)),
{
    if bare {
        return String::from_str(code);
    }
    let (attrs, body) = match found {
        Some(p) => {
            if p.0.unicode_len() == 0 && has_prefix(code, p.1.as_str()) {
                let rest = slice(code, p.1.unicode_len(), code.unicode_len());
                (p.1, rest)
            } else {
                (String::new(), String::from_str(code))
            }
        },
        None => (String::new(), String::from_str(code)),
    };
    let r = String::from_str(WRAP_HEAD).concat(attrs.as_str()).concat(WRAP_OPEN).concat(
        body.as_str(),
    ).concat(WRAP_CLOSE);
    r
}

/// What the playground handler does with a context.
pub enum Step {
    /// The message is not for the bot: let the next handler look at it.
    Pass,
    /// Show the help text.
    Help,
    /// Report the compiler version of a channel.
    ShowVersion(Channel),
    /// Run a program.
    Execute(Request),
}

impl Step {
    /// `Continue` for `Pass`; every other step handles the message.
    pub fn flow(&self) -> (r: Flow)
        ensures
            r == (if *self is Pass {
                Flow::Continue
            } else {
                Flow::Break
            }),
    {
        match self {
            Step::Pass => Flow::Continue,
            _ => Flow::Break,
        }
    }
}

/// Decides what the playground handler does with `ctx`.
pub fn playground_handler(ctx: &Context) -> (r: Step)
    ensures
        !ctx.spec_addressed() ==> r is Pass,
        ctx.spec_addressed() ==> ({
            let b = ctx.spec_body();
            let (help, f, start) = scan_flags(b, 0, default_flags());
            let code = b.subrange(start, b.len() as int);
            if help {
                r is Help
            } else if f.show_version {
                r == Step::ShowVersion(f.channel)
            } else {
                &&& r is Execute
                &&& r->Execute_0.spec_channel() == f.channel
                &&& r->Execute_0.spec_mode() == f.mode
                &&& r->Execute_0.spec_code() == program_for(
                    f.bare,
                    code,
                    regex_find(CRATE_ATTRS@, code),
                )
            }
        }),
{
    if !ctx.is_directly_addressed() {
        return Step::Pass;
    }
    let parsed = parse_flags(ctx.body());
    if parsed.help {
        return Step::Help;
    }
    let f = parsed.flags;
    if f.show_version {
        return Step::ShowVersion(f.channel);
    }
    let program = if f.bare {
        build_program(true, parsed.rest.as_str(), None)
    } else {
        let found = find_first(CRATE_ATTRS, parsed.rest.as_str());
        build_program(false, parsed.rest.as_str(), found)
    };
    let mut request = Request::new(program.as_str());
    request.set_channel(f.channel);
    request.set_mode(f.mode);
    Step::Execute(request)
}

/// The first `n` characters of `s`, or all of them.
pub open spec fn prefix_up_to(s: Seq<char>, n: int) -> Seq<char> {
    if s.len() <= n {
        s
    } else {
        s.subrange(0, n)
    }
}

/// `"{version} ({hash} {date})"` with the hash cut to nine characters.
pub open spec fn version_text(v: Seq<char>, hash: Seq<char>, date: Seq<char>) -> Seq<char> {
    v + " ("@ + prefix_up_to(hash, 9) + " "@ + date + ")"@
}

/// The one-line report of a compiler version.
pub fn version_line(v: &Version) -> (r: String)
    ensures
        r@ == version_text(v.version@, v.hash@, v.date@),
{
    let n = v.hash.unicode_len();
    let h = if n <= 9 {
        v.hash.clone()
    } else {
        slice(v.hash.as_str(), 0, 9)
    };
    String::from_str(v.version.as_str()).concat(" (").concat(h.as_str()).concat(" ").concat(
        v.date.as_str(),
    ).concat(")")
}

/// A line without the carriage return that ended it.
pub open spec fn strip_cr(l: Seq<char>) -> Seq<char> {
    if l.len() > 0 && l.last() == '\r' {
        l.drop_last()
    } else {
        l
    }
}

/// The lines of `s`: split at `\n` (with a `\r` before it dropped), where a final
/// line ending does not start another line.
pub open spec fn lines_of(s: Seq<char>) -> Seq<Seq<char>> {
    let p = split_on(s, '\n');
    let ended = p.drop_last().map_values(|l: Seq<char>| strip_cr(l));
    if p.last().len() == 0 {
        ended
    } else {
        ended.push(p.last())
    }
}

/// A line that only reports build progress.
pub open spec fn is_chatter(l: Seq<char>) -> bool {
    let t = trim(l);
    starts_with(t, "Compiling"@) || starts_with(t, "Finished"@) || starts_with(t, "Running"@)
}

/// The lines that are not build progress, in order.
pub open spec fn drop_chatter(ls: Seq<Seq<char>>) -> Seq<Seq<char>>
    decreases ls.len(),
{
    if ls.len() == 0 {
        Seq::empty()
    } else {
        let pre = drop_chatter(ls.drop_last());
        if is_chatter(ls.last()) {
            pre
        } else {
            pre.push(ls.last())
        }
    }
}

/// The first `n` lines, or all of them.
pub open spec fn first_lines(ls: Seq<Seq<char>>, n: int) -> Seq<Seq<char>> {
    if ls.len() <= n {
        ls
    } else {
        ls.subrange(0, n)
    }
}

/// How many lines of output a reply shows: two on success, one on failure.
pub open spec fn line_cap(success: bool) -> int {
    if success {
        2
    } else {
        1
    }
}

/// The lines a reply to a run shows.
pub open spec fn shown_lines(success: bool, stdout: Seq<char>, stderr: Seq<char>) -> Seq<Seq<char>> {
    if success {
        first_lines(lines_of(stdout), 2)
    } else {
        first_lines(drop_chatter(lines_of(stderr)), 1)
    }
}

/// Whether the reply to a run links to the full output: the output it shows
/// from had more lines than the cap, before any were filtered out.
pub open spec fn needs_paste(success: bool, stdout: Seq<char>, stderr: Seq<char>) -> bool {
    lines_of(if success {
        stdout
    } else {
        stderr
    }).len() > line_cap(success)
}

fn strip_line_end(l: &str) -> (r: String)
    ensures
        r@ == strip_cr(l@),
{
    let n = l.unicode_len();
    if n > 0 && l.get_char(n - 1) == '\r' {
        let r = slice(l, 0, n - 1);
        assert(r@ =~= l@.drop_last());
        r
    } else {
        String::from_str(l)
    }
}

/// The lines of `s`.
pub fn lines(s: &str) -> (r: Vec<String>)
    ensures
        r@.map_values(|l: String| l@) == lines_of(s@),
{
    let pieces = split_at_char(s, '\n');
    let ghost p = split_on(s@, '\n');
    proof {
        lemma_split_on_len(s@, '\n');
    }
    let last = pieces.len() - 1;
    let mut out: Vec<String> = Vec::new();
    let mut k: usize = 0;
    while k < last
        invariant
            pieces@.map_values(|w: String| w@) == p,
            pieces@.len() == p.len(),
            last == p.len() - 1,
            k <= last,
            out@.map_values(|l: String| l@) =~= p.drop_last().map_values(
                |l: Seq<char>| strip_cr(l),
            ).subrange(0, k as int),
        decreases last - k,
    {
        assert(p[k as int] == pieces@[k as int]@);
        let ghost q = p.drop_last().map_values(|l: Seq<char>| strip_cr(l));
        let ghost before = out@.map_values(|l: String| l@);
        out.push(strip_line_end(pieces[k].as_str()));
        assert(q[k as int] == strip_cr(p[k as int]));
        assert(out@.map_values(|l: String| l@) =~= before.push(q[k as int]));
        assert(q.subrange(0, k + 1) =~= q.subrange(0, k as int).push(q[k as int]));
        k = k + 1;
    }
    let ghost q = p.drop_last().map_values(|l: Seq<char>| strip_cr(l));
    assert(q.subrange(0, last as int) =~= q);
    assert(p.last() == pieces@[last as int]@);
    if pieces[last].unicode_len() > 0 {
        let ghost before = out@.map_values(|l: String| l@);
        out.push(pieces[last].clone());
        assert(out@.map_values(|l: String| l@) =~= before.push(p.last()));
    }
    out
}

/// Whether `l` only reports build progress.
pub fn is_build_chatter(l: &str) -> (r: bool)
    ensures
        r == is_chatter(l@),
{
    let t = trim_str(l);
    has_prefix(t.as_str(), "Compiling") || has_prefix(t.as_str(), "Finished") || has_prefix(
        t.as_str(),
        "Running",
    )
}

/// The lines a reply shows, and whether it links to the full output.
pub struct ExecutionReport {
    pub lines: Vec<String>,
    pub paste: bool,
}

/// What the reply to the playground's answer `resp` holds.
pub fn execution_report(resp: &Response) -> (r: ExecutionReport)
    ensures
        r.lines@.map_values(|l: String| l@) == shown_lines(resp.success, resp.stdout@, resp.stderr@),
        r.paste == needs_paste(resp.success, resp.stdout@, resp.stderr@),
{
    let output = if resp.success {
        &resp.stdout
    } else {
        &resp.stderr
    };
    let cap: usize = if resp.success {
        2
    } else {
        1
    };
    let all = lines(output.as_str());
    let ghost all_v = lines_of(output@);
    let mut candidates: Vec<String> = Vec::new();
    let mut k: usize = 0;
    while k < all.len()
        invariant
            all@.map_values(|l: String| l@) == all_v,
            all@.len() == all_v.len(),
            k <= all@.len(),
            candidates@.map_values(|l: String| l@) == (if resp.success {
                all_v.subrange(0, k as int)
            } else {
                drop_chatter(all_v.subrange(0, k as int))
            }),
        decreases all@.len() - k,
    {
        let ghost before = candidates@.map_values(|l: String| l@);
        assert(all_v.subrange(0, k + 1).drop_last() =~= all_v.subrange(0, k as int));
        assert(all_v[k as int] == all@[k as int]@);
        if resp.success || !is_build_chatter(all[k].as_str()) {
            candidates.push(all[k].clone());
            assert(candidates@.map_values(|l: String| l@) =~= before.push(all_v[k as int]));
        }
        k = k + 1;
        assert(all_v.subrange(0, k as int) =~= all_v.subrange(0, k - 1).push(all_v[k - 1]));
    }
    assert(all_v.subrange(0, all@.len() as int) =~= all_v);
    let ghost cand_v = candidates@.map_values(|l: String| l@);
    let mut shown: Vec<String> = Vec::new();
    let mut t: usize = 0;
    while t < candidates.len() && t < cap
        invariant
            candidates@.map_values(|l: String| l@) == cand_v,
            t <= candidates@.len(),
            t <= cap,
            shown@.map_values(|l: String| l@) =~= cand_v.subrange(0, t as int),
        decreases cap - t,
    {
        let ghost before = shown@.map_values(|l: String| l@);
        assert(cand_v[t as int] == candidates@[t as int]@);
        shown.push(candidates[t].clone());
        assert(shown@.map_values(|l: String| l@) =~= before.push(cand_v[t as int]));
        assert(cand_v.subrange(0, t + 1) =~= cand_v.subrange(0, t as int).push(cand_v[t as int]));
        t = t + 1;
    }
    assert(cand_v.len() <= cap ==> cand_v.subrange(0, t as int) =~= cand_v);
    ExecutionReport { lines: shown, paste: all.len() > cap }
}

/// The text before the code in a paste of a run.
pub const PASTE_HEAD: &'static str = "// code\n";

/// The text between the code and the standard output in a paste.
pub const PASTE_STDOUT: &'static str = "\n\n/* stdout\n";

/// The text between the standard output and the standard error in a paste.
pub const PASTE_STDERR: &'static str = "\n*/\n\n/* stderr\n";

/// The text after the standard error in a paste.
pub const PASTE_TAIL: &'static str = "\n*/\n";

pub open spec fn paste_body(code: Seq<char>, stdout: Seq<char>, stderr: Seq<char>) -> Seq<char> {
    PASTE_HEAD@ + code + PASTE_STDOUT@ + stdout + PASTE_STDERR@ + stderr + PASTE_TAIL@
}

/// The text pasted for a run: its code, standard output and standard error.
pub fn paste_text(request: &Request, resp: &Response) -> (r: String)
    ensures
        r@ == paste_body(request.spec_code(), resp.stdout@, resp.stderr@),
{
    String::from_str(PASTE_HEAD).concat(request.code()).concat(PASTE_STDOUT).concat(
        resp.stdout.as_str(),
    ).concat(PASTE_STDERR).concat(resp.stderr.as_str()).concat(PASTE_TAIL)
}

/// The reply that links to a paste of the full output.
pub fn full_output_line(url: &str) -> (r: String)
    ensures
        r@ == "~~~ Full output: "@ + url@,
{
    String::from_str("~~~ Full output: ").concat(url)
}

/// The playground module of the bot.
pub struct Playground;

impl Playground {
    /// Registers the playground handler, known to the caller as `handler`, as a
    /// fallback handler.
    pub fn init(commands: &mut CommandRegistry, handler: usize)
        ensures
            final(commands).spec_prefix() == old(commands).spec_prefix(),
            final(commands).spec_named() == old(commands).spec_named(),
            final(commands).spec_fallback() == old(commands).spec_fallback().push(handler),
    {
        commands.add_fallback_handler(handler);
    }
}

} // verus!
