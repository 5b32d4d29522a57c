use vstd::prelude::*;
use vstd::string::*;
use crate::text::{
    has_prefix, is_ws, lemma_skip_ws_at, lemma_split_on_len, skip_ws, trim_back, skip_spaces, slice, split_at_char, split_on, starts_with,
    trim, trim_start, trim_start_str, trim_str,
};

verus! {

/// The parts of an incoming chat message that the dispatcher reads, as the chat
/// client reports them.
pub struct Message {
    /// The text of a private or channel message; `None` for any other command.
    pub body: Option<String>,
    /// The full prefix of the sender (`nick!user@host`).
    pub source: Option<String>,
    /// The sender's nickname.
    pub source_nickname: Option<String>,
    /// Where a reply to this message goes: the channel, or the sender.
    pub response_target: Option<String>,
    /// Whether `response_target` names a channel.
    pub target_is_channel: bool,
}

/// How a reply is delivered.
#[derive(Clone, Copy, Debug, PartialEq, Eq, Structural)]
pub enum ReplyKind {
    /// A notice to a channel.
    Notice,
    /// A private message.
    Privmsg,
}

/// One outbound message for the chat client to send.
pub struct Reply {
    pub kind: ReplyKind,
    pub target: String,
    pub text: String,
}

/// The control byte that frames a CTCP message.
pub const CTCP_MARK: char = '\u{1}';

/// The delimiter around a command embedded in a message.
pub const INLINE_MARK: char = '`';

pub open spec fn is_ctcp_framed(b: Seq<char>) -> bool {
    b.len() >= 2 && b[0] == CTCP_MARK && b.last() == CTCP_MARK
}

/// The body with its CTCP framing taken off.
pub open spec fn unframe(b: Seq<char>) -> Seq<char> {
    if is_ctcp_framed(b) {
        b.subrange(1, b.len() - 1)
    } else {
        b
    }
}

/// The body after addressing detection, and whether the message was meant for the bot.
pub open spec fn address(body: Seq<char>, nick: Seq<char>, is_channel: bool) -> (Seq<char>, bool) {
    if starts_with(body, nick) {
        let rest = trim_start(body.subrange(nick.len() as int, body.len() as int));
        if rest.len() > 0 && (rest[0] == ':' || rest[0] == ',') {
            (trim_start(rest.drop_first()), true)
        } else {
            (body, false)
        }
    } else {
        (body, !is_channel)
    }
}

/// The bodies of the commands embedded between pairs of backticks.
pub open spec fn inline_bodies(b: Seq<char>) -> Seq<Seq<char>> {
    let pieces = split_on(b, INLINE_MARK);
    Seq::new(((pieces.len() - 1) / 2) as nat, |k: int| trim(pieces[2 * k + 1]))
}

/// What a context is derived from the message and the bot's nickname.
pub open spec fn context_body(m_body: Seq<char>, nick: Seq<char>, is_channel: bool) -> Seq<char> {
    address(unframe(trim(m_body)), nick, is_channel).0
}

pub open spec fn context_addressed(m_body: Seq<char>, nick: Seq<char>, is_channel: bool) -> bool {
    address(unframe(trim(m_body)), nick, is_channel).1
}

/// What one incoming message means to the handlers.
pub struct Context {
    body: String,
    is_directly_addressed: bool,
    is_ctcp: bool,
    reply_kind: ReplyKind,
    source: String,
    source_nickname: String,
    target: String,
    current_nickname: String,
}

impl Context {
    pub closed spec fn spec_body(&self) -> Seq<char> {
        self.body@
    }

    pub closed spec fn spec_addressed(&self) -> bool {
        self.is_directly_addressed
    }

    pub closed spec fn spec_ctcp(&self) -> bool {
        self.is_ctcp
    }

    pub closed spec fn spec_reply_kind(&self) -> ReplyKind {
        self.reply_kind
    }

    pub closed spec fn spec_source(&self) -> Seq<char> {
        self.source@
    }

    pub closed spec fn spec_source_nickname(&self) -> Seq<char> {
        self.source_nickname@
    }

    pub closed spec fn spec_target(&self) -> Seq<char> {
        self.target@
    }

    pub closed spec fn spec_current_nickname(&self) -> Seq<char> {
        self.current_nickname@
    }

    /// Derives the context of `message`, as seen by a bot called `current_nickname`.
    pub fn new(message: &Message, current_nickname: &str) -> (r: Option<Context>)
        ensures
            r.is_some() <==> (message.body.is_some() && message.source_nickname.is_some()
                && message.source.is_some() && message.response_target.is_some()),
            r.is_some() ==> {
                let c = r.unwrap();
                let b = message.body.unwrap()@;
                let chan = message.target_is_channel;
                &&& c.spec_body() == context_body(b, current_nickname@, chan)
                &&& c.spec_addressed() == context_addressed(b, current_nickname@, chan)
                &&& c.spec_ctcp() == is_ctcp_framed(trim(b))
                &&& c.spec_reply_kind() == (if chan {
                    ReplyKind::Notice
                } else {
                    ReplyKind::Privmsg
                })
                &&& c.spec_source() == message.source.unwrap()@
                &&& c.spec_source_nickname() == message.source_nickname.unwrap()@
                &&& c.spec_target() == message.response_target.unwrap()@
                &&& c.spec_current_nickname() == current_nickname@
            },
    {
        let raw = match &message.body {
            Some(b) => b,
            None => return None,
        };
        let source_nickname = match &message.source_nickname {
            Some(s) => s.clone(),
            None => return None,
        };
        let source = match &message.source {
            Some(s) => s.clone(),
            None => return None,
        };
        let target = match &message.response_target {
            Some(t) => t.clone(),
            None => return None,
        };
        let trimmed = trim_str(raw.as_str());
        let n = trimmed.unicode_len();
        let is_ctcp = n >= 2 && trimmed.get_char(0) == CTCP_MARK && trimmed.get_char(n - 1)
            == CTCP_MARK;
        let body = if is_ctcp {
            slice(trimmed.as_str(), 1, n - 1)
        } else {
            trimmed
        };
        let chan = message.target_is_channel;
        let (body, is_directly_addressed) = Self::address_body(body, current_nickname, chan);
        let reply_kind = if chan {
            ReplyKind::Notice
        } else {
            ReplyKind::Privmsg
        };
        Some(Context {
            body,
            is_directly_addressed,
            is_ctcp,
            reply_kind,
            source,
            source_nickname,
            target,
            current_nickname: String::from_str(current_nickname),
        })
    }

    fn address_body(body: String, nick: &str, is_channel: bool) -> (r: (String, bool))
        ensures
            (r.0@, r.1) == address(body@, nick@, is_channel),
    {
        if has_prefix(body.as_str(), nick) {
            let rest = slice(body.as_str(), nick.unicode_len(), body.unicode_len());
            let rest = trim_start_str(rest.as_str());
            let m = rest.unicode_len();
            if m > 0 && (rest.get_char(0) == ':' || rest.get_char(0) == ',') {
                let after = slice(rest.as_str(), 1, m);
                assert(after@ =~= rest@.drop_first());
                (trim_start_str(after.as_str()), true)
            } else {
                (body, false)
            }
        } else {
            (body, !is_channel)
        }
    }

    /// This context with another body.
    fn with_body(&self, body: String) -> (r: Context)
        ensures
            r.spec_body() == body@,
            r.spec_addressed() == self.spec_addressed(),
            r.spec_ctcp() == self.spec_ctcp(),
            r.spec_reply_kind() == self.spec_reply_kind(),
            r.spec_source() == self.spec_source(),
            r.spec_source_nickname() == self.spec_source_nickname(),
            r.spec_target() == self.spec_target(),
            r.spec_current_nickname() == self.spec_current_nickname(),
    {
        Context {
            body,
            is_directly_addressed: self.is_directly_addressed,
            is_ctcp: self.is_ctcp,
            reply_kind: self.reply_kind,
            source: self.source.clone(),
            source_nickname: self.source_nickname.clone(),
            target: self.target.clone(),
            current_nickname: self.current_nickname.clone(),
        }
    }

    /// The contexts of the commands embedded in the body between pairs of backticks,
    /// in order; each keeps every other field of this context.
    pub fn inline_contexts(&self) -> (r: Vec<Context>)
        ensures
            r@.len() == inline_bodies(self.spec_body()).len(),
            forall|k: int|
                0 <= k < r@.len() ==> {
                    let c = #[trigger] r@[k];
                    &&& c.spec_body() == inline_bodies(self.spec_body())[k]
                    &&& c.spec_addressed() == self.spec_addressed()
                    &&& c.spec_ctcp() == self.spec_ctcp()
                    &&& c.spec_reply_kind() == self.spec_reply_kind()
                    &&& c.spec_source() == self.spec_source()
                    &&& c.spec_source_nickname() == self.spec_source_nickname()
                    &&& c.spec_target() == self.spec_target()
                    &&& c.spec_current_nickname() == self.spec_current_nickname()
                },
    {
        let pieces = split_at_char(self.body.as_str(), INLINE_MARK);
        let ghost ps = split_on(self.body@, INLINE_MARK);
        proof {
            lemma_split_on_len(self.body@, INLINE_MARK);
        }
        let count = (pieces.len() - 1) / 2;
        let mut out: Vec<Context> = Vec::new();
        let mut k: usize = 0;
        while k < count
            invariant
                pieces@.map_values(|w: String| w@) == ps,
                ps == split_on(self.body@, INLINE_MARK),
                pieces@.len() == ps.len(),
                ps.len() >= 1,
                count == (ps.len() - 1) / 2,
                k <= count,
                out@.len() == k,
                forall|t: int|
                    0 <= t < k ==> {
                        let c = #[trigger] out@[t];
                        &&& c.spec_body() == inline_bodies(self.spec_body())[t]
                        &&& c.spec_addressed() == self.spec_addressed()
                        &&& c.spec_ctcp() == self.spec_ctcp()
                        &&& c.spec_reply_kind() == self.spec_reply_kind()
                        &&& c.spec_source() == self.spec_source()
                        &&& c.spec_source_nickname() == self.spec_source_nickname()
                        &&& c.spec_target() == self.spec_target()
                        &&& c.spec_current_nickname() == self.spec_current_nickname()
                    },
            decreases count - k,
        {
            assert(2 * k + 1 < pieces.len()) by (nonlinear_arith)
                requires
                    k < count,
                    count == (pieces.len() - 1) / 2,
                    pieces.len() >= 1,
            ;
            assert(ps[2 * k + 1] == pieces@[2 * k + 1]@);
            let b = trim_str(pieces[2 * k + 1].as_str());
            let c = self.with_body(b);
            out.push(c);
            k = k + 1;
        }
        out
    }

    pub fn body(&self) -> (r: &str)
        ensures
            r@ == self.spec_body(),
    {
        self.body.as_str()
    }

    /// Whether the message was aimed directly at the bot, either by a private
    /// message or by a channel message that starts with the bot's name and `,` or `:`.
    pub fn is_directly_addressed(&self) -> (r: bool)
        ensures
            r == self.spec_addressed(),
    {
        self.is_directly_addressed
    }

    pub fn is_ctcp(&self) -> (r: bool)
        ensures
            r == self.spec_ctcp(),
    {
        self.is_ctcp
    }

    /// The message that answers this context with `message`.
    pub fn reply(&self, message: &str) -> (r: Reply)
        ensures
            r.kind == self.spec_reply_kind(),
            r.target@ == self.spec_target(),
            r.text@ == message@,
    {
        Reply { kind: self.reply_kind, target: self.target.clone(), text: String::from_str(message) }
    }

    pub fn source(&self) -> (r: &str)
        ensures
            r@ == self.spec_source(),
    {
        self.source.as_str()
    }

    pub fn source_nickname(&self) -> (r: &str)
        ensures
            r@ == self.spec_source_nickname(),
    {
        self.source_nickname.as_str()
    }

    pub fn target(&self) -> (r: &str)
        ensures
            r@ == self.spec_target(),
    {
        self.target.as_str()
    }

    pub fn current_nickname(&self) -> (r: &str)
        ensures
            r@ == self.spec_current_nickname(),
    {
        self.current_nickname.as_str()
    }
}

/// A body framed by the CTCP control byte is seen as CTCP, and its text is the
/// body itself, unless that body starts with the bot's nickname.
pub proof fn lemma_ctcp_round_trip(b: Seq<char>, nick: Seq<char>, is_channel: bool)
    requires
        !starts_with(b, nick),
    ensures
        ({
            let framed = seq![CTCP_MARK] + b + seq![CTCP_MARK];
            &&& is_ctcp_framed(trim(framed))
            &&& context_body(framed, nick, is_channel) == b
            &&& context_addressed(framed, nick, is_channel) == !is_channel
        }),
{
    let framed = seq![CTCP_MARK] + b + seq![CTCP_MARK];
    let n = framed.len() as int;
    assert(!is_ws(framed[0]));
    assert(!is_ws(framed[n - 1]));
    assert(skip_ws(framed, 0) == 0);
    assert(trim_back(framed, n) == n);
    assert(trim(framed) =~= framed);
    assert(framed.subrange(1, n - 1) =~= b);
}

/// A channel message `"<nick>: foo"` is addressed to the bot, and its body is `foo`.
pub proof fn lemma_addressed_with_separator(nick: Seq<char>, foo: Seq<char>)
    requires
        foo.len() == 0 || !is_ws(foo[0]),
    ensures
        address(nick + seq![':', ' '] + foo, nick, true) == (foo, true),
{
    let body = nick + seq![':', ' '] + foo;
    let n = nick.len() as int;
    assert(body.subrange(0, n) =~= nick);
    let rest = body.subrange(n, body.len() as int);
    assert(rest =~= seq![':', ' '] + foo);
    assert(!is_ws(rest[0]));
    assert(skip_ws(rest, 0) == 0);
    assert(trim_start(rest) =~= rest);
    let after = rest.drop_first();
    assert(after =~= seq![' '] + foo);
    assert(is_ws(after[0]));
    lemma_skip_ws_at(after, 0, 1);
    assert(trim_start(after) =~= foo);
}

/// A channel message `"<nick>foo"` whose remainder does not begin with `:` or `,`
/// is not addressed to the bot, and its body keeps the nickname.
pub proof fn lemma_not_addressed_without_separator(nick: Seq<char>, foo: Seq<char>)
    requires
        trim_start(foo).len() == 0 || (trim_start(foo)[0] != ':' && trim_start(foo)[0] != ','),
    ensures
        address(nick + foo, nick, true) == (nick + foo, false),
{
    let body = nick + foo;
    let n = nick.len() as int;
    assert(body.subrange(0, n) =~= nick);
    assert(body.subrange(n, body.len() as int) =~= foo);
}

/// A private message that does not start with the bot's nickname is addressed to the bot.
pub proof fn lemma_private_is_addressed(b: Seq<char>, nick: Seq<char>)
    requires
        !starts_with(b, nick),
    ensures
        address(b, nick, false) == (b, true),
{
}

} // verus!
