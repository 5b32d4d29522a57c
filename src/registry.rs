use vstd::prelude::*;
use vstd::string::*;
use crate::command::{parse_spec, Command};
use crate::context::{context_addressed, context_body, inline_bodies, Context, Message};
use crate::flow::Flow;
use crate::text::same_text;

verus! {

/// How many of the commands embedded in a message are run at most.
pub const MAX_INLINE: usize = 3;

/// The handler registered last under `name`, if any.
pub open spec fn find_handler(entries: Seq<(Seq<char>, usize)>, name: Seq<char>) -> Option<usize>
    decreases entries.len(),
{
    if entries.len() == 0 {
        None
    } else if entries.last().0 == name {
        Some(entries.last().1)
    } else {
        find_handler(entries.drop_last(), name)
    }
}

/// The named handler that a body calls, with the arguments it gets.
pub open spec fn named_for(
    prefix: Seq<char>,
    entries: Seq<(Seq<char>, usize)>,
    body: Seq<char>,
) -> Option<(usize, Seq<Seq<char>>)> {
    match parse_spec(prefix, body) {
        Some(cmd) => match find_handler(entries, cmd.0) {
            Some(h) => Some((h, cmd.1)),
            None => None,
        },
        None => None,
    }
}

/// One handler invocation: whether it is a named one, the handler, the index of
/// the context it gets, and the arguments.
pub type CallView = (bool, usize, usize, Seq<Seq<char>>);

/// The named calls of the inline phase over the contexts with these bodies, in order.
pub open spec fn inline_plan(
    prefix: Seq<char>,
    entries: Seq<(Seq<char>, usize)>,
    bodies: Seq<Seq<char>>,
) -> Seq<CallView>
    decreases bodies.len(),
{
    if bodies.len() == 0 {
        Seq::empty()
    } else {
        let pre = inline_plan(prefix, entries, bodies.drop_last());
        match named_for(prefix, entries, bodies.last()) {
            Some(p) => pre.push((true, p.0, (bodies.len() - 1) as usize, p.1)),
            None => pre,
        }
    }
}

/// The registered handlers of the bot: named ones, looked up by command name, and
/// fallback ones, run in order.
pub struct CommandRegistry {
    command_prefix: String,
    named: Vec<(String, usize)>,
    fallback: Vec<usize>,
}

/// One handler invocation that the dispatcher asks for.
pub enum Call {
    /// Run the named handler `handler` on context `context` with `args`.
    Named { handler: usize, context: usize, args: Vec<String> },
    /// Run the fallback handler `handler` on the message's own context.
    Fallback { handler: usize },
}

pub open spec fn view_call(c: Call) -> CallView {
    match c {
        Call::Named { handler, context, args } => (
            true,
            handler,
            context,
            args@.map_values(|a: String| a@),
        ),
        Call::Fallback { handler } => (false, handler, 0, Seq::empty()),
    }
}

pub open spec fn call_views(calls: Seq<Call>) -> Seq<CallView> {
    calls.map_values(|c: Call| view_call(c))
}

impl CommandRegistry {
    pub closed spec fn spec_prefix(&self) -> Seq<char> {
        self.command_prefix@
    }

    pub closed spec fn spec_named(&self) -> Seq<(Seq<char>, usize)> {
        self.named@.map_values(|e: (String, usize)| (e.0@, e.1))
    }

    pub closed spec fn spec_fallback(&self) -> Seq<usize> {
        self.fallback@
    }

    pub open spec fn handler_for(&self, name: Seq<char>) -> Option<usize> {
        find_handler(self.spec_named(), name)
    }

    /// An empty registry for commands that start with `command_prefix`.
    pub fn new(command_prefix: &str) -> (r: CommandRegistry)
        ensures
            r.spec_prefix() == command_prefix@,
            forall|n: Seq<char>| r.handler_for(n) is None,
            r.spec_fallback() == Seq::<usize>::empty(),
    {
        let r = CommandRegistry {
            command_prefix: String::from_str(command_prefix),
            named: Vec::new(),
            fallback: Vec::new(),
        };
        assert(r.spec_named() =~= Seq::<(Seq<char>, usize)>::empty());
        r
    }

    /// Registers `handler` under `name`, in place of any handler that had it.
    pub fn set_named_handler(&mut self, name: &str, handler: usize)
        ensures
            final(self).spec_prefix() == old(self).spec_prefix(),
            final(self).spec_fallback() == old(self).spec_fallback(),
            forall|n: Seq<char>|
                #[trigger] final(self).handler_for(n) == if n == name@ {
                    Some(handler)
                } else {
                    old(self).handler_for(n)
                },
    {
        let ghost before = self.spec_named();
        self.named.push((String::from_str(name), handler));
        assert(self.spec_named() =~= before.push((name@, handler)));
        assert(self.spec_named().drop_last() =~= before);
    }

    /// Appends `handler` to the fallback handlers.
    pub fn add_fallback_handler(&mut self, handler: usize)
        ensures
            final(self).spec_prefix() == old(self).spec_prefix(),
            final(self).spec_named() == old(self).spec_named(),
            final(self).spec_fallback() == old(self).spec_fallback().push(handler),
    {
        self.fallback.push(handler);
    }

    /// This registry, shared read-only from now on.
    pub fn into_arc(self) -> (r: std::sync::Arc<CommandRegistry>)
        ensures
            *r == self,
    {
        std::sync::Arc::new(self)
    }

    pub fn command_prefix(&self) -> (r: &str)
        ensures
            r@ == self.spec_prefix(),
    {
        self.command_prefix.as_str()
    }

    /// The handler registered under `name`.
    pub fn handler(&self, name: &str) -> (r: Option<usize>)
        ensures
            r == self.handler_for(name@),
    {
        let mut k = self.named.len();
        assert(self.spec_named().subrange(0, k as int) =~= self.spec_named());
        while k > 0
            invariant
                k <= self.named@.len(),
                find_handler(self.spec_named().subrange(0, k as int), name@) == self.handler_for(
                    name@,
                ),
            decreases k,
        {
            let ghost es = self.spec_named().subrange(0, k as int);
            assert(es.last() == (self.named@[k - 1].0@, self.named@[k - 1].1));
            if same_text(self.named[k - 1].0.as_str(), name) {
                return Some(self.named[k - 1].1);
            }
            assert(es.drop_last() =~= self.spec_named().subrange(0, k - 1));
            k = k - 1;
        }
        None
    }

    /// The named call that `ctx`, the context with index `idx`, makes.
    fn named_call(&self, ctx: &Context, idx: usize) -> (r: Option<Call>)
        ensures
            match named_for(self.spec_prefix(), self.spec_named(), ctx.spec_body()) {
                Some(p) => r is Some && view_call(r.unwrap()) == (true, p.0, idx, p.1),
                None => r is None,
            },
    {
        match Command::parse(self.command_prefix.as_str(), ctx.body()) {
            Some(cmd) => match self.handler(cmd.name()) {
                Some(h) => {
                    let mut args: Vec<String> = Vec::new();
                    let a = cmd.args();
                    let mut k: usize = 0;
                    while k < a.len()
                        invariant
                            k <= a@.len(),
                            args@.map_values(|s: String| s@) =~= a@.map_values(
                                |s: String| s@,
                            ).subrange(0, k as int),
                        decreases a@.len() - k,
                    {
                        let ghost before = args@.map_values(|s: String| s@);
                        args.push(a[k].clone());
                        assert(args@.map_values(|s: String| s@) =~= before.push(a@[k as int]@));
                        k = k + 1;
                    }
                    assert(a@.map_values(|s: String| s@).subrange(0, a@.len() as int)
                        =~= a@.map_values(|s: String| s@));
                    Some(Call::Named { handler: h, context: idx, args })
                },
                None => None,
            },
            None => None,
        }
    }
}

/// Where a dispatch stands: how many calls each phase has, how many were handed
/// out, whether one is awaiting its result, whether an inline call broke, and
/// whether the dispatch is over.
pub struct DispatchView {
    pub n_primary: nat,
    pub n_inline: nat,
    pub n_calls: nat,
    pub pos: nat,
    pub awaiting: bool,
    pub inline_break: bool,
    pub done: bool,
}

pub open spec fn start_view(n_primary: nat, n_inline: nat, n_calls: nat) -> DispatchView {
    DispatchView {
        n_primary,
        n_inline,
        n_calls,
        pos: 0,
        awaiting: false,
        inline_break: false,
        done: false,
    }
}

/// Whether another call is due.
pub open spec fn has_next(v: DispatchView) -> bool {
    !v.done && !v.awaiting && v.pos < v.n_calls
}

pub open spec fn after_next(v: DispatchView) -> DispatchView {
    if has_next(v) {
        DispatchView { pos: v.pos + 1, awaiting: true, ..v }
    } else {
        DispatchView { done: true, ..v }
    }
}

/// The state after the call handed out last answered `flow`.
pub open spec fn after_report(v: DispatchView, flow: Flow) -> DispatchView {
    let i = v.pos - 1;
    if i < v.n_primary {
        DispatchView { awaiting: false, done: flow == Flow::Break, ..v }
    } else if i < v.n_primary + v.n_inline {
        let b = v.inline_break || flow == Flow::Break;
        DispatchView {
            awaiting: false,
            inline_break: b,
            done: v.pos == v.n_primary + v.n_inline && b,
            ..v
        }
    } else {
        DispatchView { awaiting: false, done: flow == Flow::Break, ..v }
    }
}

/// The indices of the calls made when the handlers answer `flows`, in order.
pub open spec fn run(v: DispatchView, flows: Seq<Flow>) -> Seq<nat>
    decreases flows.len(),
{
    if has_next(v) && flows.len() > 0 {
        seq![v.pos] + run(after_report(after_next(v), flows[0]), flows.drop_first())
    } else {
        Seq::empty()
    }
}

/// The handler calls that one message leads to, handed out one at a time; the
/// caller runs each and reports the `Flow` it returned.
pub struct Dispatch {
    contexts: Vec<Context>,
    calls: Vec<Call>,
    n_primary: usize,
    n_inline: usize,
    pos: usize,
    awaiting: bool,
    inline_break: bool,
    done: bool,
}

impl Dispatch {
    pub closed spec fn view(&self) -> DispatchView {
        DispatchView {
            n_primary: self.n_primary as nat,
            n_inline: self.n_inline as nat,
            n_calls: self.calls@.len(),
            pos: self.pos as nat,
            awaiting: self.awaiting,
            inline_break: self.inline_break,
            done: self.done,
        }
    }

    pub closed spec fn spec_contexts(&self) -> Seq<Context> {
        self.contexts@
    }

    pub closed spec fn spec_calls(&self) -> Seq<CallView> {
        call_views(self.calls@)
    }

    pub closed spec fn wf(&self) -> bool {
        &&& self.pos <= self.calls@.len()
        &&& self.n_primary + self.n_inline <= self.calls@.len()
        &&& self.awaiting ==> self.pos >= 1
    }

    /// The next call to run, by index, or `None` when the dispatch is over.
    pub fn next_call(&mut self) -> (r: Option<usize>)
        requires
            old(self).wf(),
            !old(self).view().awaiting,
        ensures
            final(self).wf(),
            final(self).view() == after_next(old(self).view()),
            final(self).spec_calls() == old(self).spec_calls(),
            final(self).spec_contexts() == old(self).spec_contexts(),
            has_next(old(self).view()) ==> r == Some(old(self).view().pos as usize),
            !has_next(old(self).view()) ==> r is None,
    {
        if !self.done && self.pos < self.calls.len() {
            let i = self.pos;
            self.pos = self.pos + 1;
            self.awaiting = true;
            Some(i)
        } else {
            self.done = true;
            None
        }
    }

    /// Records what the call handed out last returned.
    pub fn report(&mut self, flow: Flow)
        requires
            old(self).wf(),
            old(self).view().awaiting,
        ensures
            final(self).wf(),
            final(self).view() == after_report(old(self).view(), flow),
            final(self).spec_calls() == old(self).spec_calls(),
            final(self).spec_contexts() == old(self).spec_contexts(),
    {
        let i = self.pos - 1;
        self.awaiting = false;
        if i < self.n_primary {
            self.done = flow == Flow::Break;
        } else if i - self.n_primary < self.n_inline {
            self.inline_break = self.inline_break || flow == Flow::Break;
            self.done = self.pos - self.n_primary == self.n_inline && self.inline_break;
        } else {
            self.done = flow == Flow::Break;
        }
    }

    /// Whether the dispatch is over.
    pub fn is_done(&self) -> (r: bool)
        ensures
            r == self.view().done,
    {
        self.done
    }

    pub fn call(&self, i: usize) -> (r: &Call)
        requires
            i < self.spec_calls().len(),
        ensures
            view_call(*r) == self.spec_calls()[i as int],
    {
        &self.calls[i]
    }

    pub fn context(&self, i: usize) -> (r: &Context)
        requires
            i < self.spec_contexts().len(),
        ensures
            *r == self.spec_contexts()[i as int],
    {
        &self.contexts[i]
    }

    pub fn len_contexts(&self) -> (r: usize)
        ensures
            r == self.spec_contexts().len(),
    {
        self.contexts.len()
    }
}

pub open spec fn min_nat(a: nat, b: nat) -> nat {
    if a <= b {
        a
    } else {
        b
    }
}

impl CommandRegistry {
    /// The dispatch `r` of a message whose primary context is `ctx`.
    pub open spec fn planned(&self, ctx: Context, r: Dispatch) -> bool {
        &&& r.wf()
        &&& {
                let inl = inline_bodies(ctx.spec_body());
                let cs = r.spec_contexts();
                let bodies = cs.map_values(|c: Context| c.spec_body());
                let plan = inline_plan(self.spec_prefix(), self.spec_named(), bodies);
                let primary = named_for(self.spec_prefix(), self.spec_named(), ctx.spec_body());
                let np: nat = if primary is Some {
                    1
                } else {
                    0
                };
                let fb = self.spec_fallback();
                &&& cs.len() == 1 + min_nat(MAX_INLINE as nat, inl.len())
                &&& cs[0] == ctx
                &&& forall|k: int|
                    1 <= k < cs.len() ==> (#[trigger] cs[k]).spec_body() == inl[k - 1]
                        && cs[k].spec_addressed() == ctx.spec_addressed() && cs[k].spec_target()
                        == ctx.spec_target()
                &&& r.view() == start_view(np, plan.len(), np + plan.len() + fb.len())
                &&& r.spec_calls().len() == np + plan.len() + fb.len()
                &&& primary is Some ==> r.spec_calls()[0] == (
                    true,
                    primary.unwrap().0,
                    0usize,
                    primary.unwrap().1,
                )
                &&& forall|t: int| 0 <= t < plan.len() ==> r.spec_calls()[np + t] == plan[t]
                &&& forall|t: int|
                    0 <= t < fb.len() ==> r.spec_calls()[np + plan.len() + t] == (
                        false,
                        fb[t],
                        0usize,
                        Seq::<Seq<char>>::empty(),
                    )
            }
    }

    /// The calls that a message with primary context `ctx` leads to: the named
    /// handler of its command; then the named handlers of the commands in `ctx`
    /// and in the first three contexts embedded in it; then the fallback handlers.
    pub fn handle_context(&self, ctx: Context) -> (r: Dispatch)
        ensures
            self.planned(ctx, r),
    {
        let mut contexts = ctx.inline_contexts();
        if contexts.len() > MAX_INLINE {
            contexts.truncate(MAX_INLINE);
        }
        contexts.insert(0, ctx);
        let ghost cs = contexts@;
        let ghost bodies = cs.map_values(|c: Context| c.spec_body());
        let mut calls: Vec<Call> = Vec::new();
        let mut n_primary: usize = 0;
        match self.named_call(&contexts[0], 0) {
            Some(c) => {
                calls.push(c);
                n_primary = 1;
            },
            None => {},
        }
        let ghost head = call_views(calls@);
        assert(bodies.subrange(0, 0) =~= Seq::<Seq<char>>::empty());
        assert(call_views(calls@) =~= head + inline_plan(
            self.spec_prefix(),
            self.spec_named(),
            bodies.subrange(0, 0),
        ));
        let mut k: usize = 0;
        while k < contexts.len()
            invariant
                contexts@ == cs,
                bodies == cs.map_values(|c: Context| c.spec_body()),
                k <= cs.len(),
                cs.len() <= 4,
                head.len() == n_primary,
                call_views(calls@) == head + inline_plan(
                    self.spec_prefix(),
                    self.spec_named(),
                    bodies.subrange(0, k as int),
                ),
                inline_plan(self.spec_prefix(), self.spec_named(), bodies.subrange(0, k as int)).len() <= k,
            decreases cs.len() - k,
        {
            let ghost sub = bodies.subrange(0, k + 1);
            assert(sub.drop_last() =~= bodies.subrange(0, k as int));
            assert(sub.last() == contexts@[k as int].spec_body());
            let ghost before = call_views(calls@);
            match self.named_call(&contexts[k], k) {
                Some(c) => {
                    calls.push(c);
                    assert(call_views(calls@) =~= before.push(
                        view_call(c),
                    ));
                },
                None => {},
            }
            k = k + 1;
        }
        assert(bodies.subrange(0, cs.len() as int) =~= bodies);
        let ghost plan = inline_plan(self.spec_prefix(), self.spec_named(), bodies);
        let n_inline = calls.len() - n_primary;
        let mut t: usize = 0;
        while t < self.fallback.len()
            invariant
                t <= self.fallback@.len(),
                calls@.len() == n_primary + n_inline + t,
                n_primary + n_inline <= 8,
                forall|u: int| 0 <= u < n_primary + n_inline ==>
                    #[trigger] call_views(calls@)[u] == (head + plan)[u],
                forall|u: int| 0 <= u < t ==>
                    #[trigger] call_views(calls@)[n_primary + n_inline + u] == (
                        false,
                        self.fallback@[u],
                        0usize,
                        Seq::<Seq<char>>::empty(),
                    ),
            decreases self.fallback@.len() - t,
        {
            let ghost before = call_views(calls@);
            calls.push(Call::Fallback { handler: self.fallback[t] });
            assert(call_views(calls@) =~= before.push(
                (false, self.fallback@[t as int], 0usize, Seq::<Seq<char>>::empty()),
            ));
            t = t + 1;
        }
        Dispatch {
            contexts,
            calls,
            n_primary,
            n_inline,
            pos: 0,
            awaiting: false,
            inline_break: false,
            done: false,
        }
    }
}

impl CommandRegistry {
    /// The calls that `message` leads to, for a bot called `current_nickname`;
    /// none where the message yields no context.
    pub fn handle_message(&self, message: &Message, current_nickname: &str) -> (r: Dispatch)
        ensures
            r.wf(),
            r.spec_contexts().len() == 0 <==> !(message.body.is_some()
                && message.source_nickname.is_some() && message.source.is_some()
                && message.response_target.is_some()),
            r.spec_contexts().len() == 0 ==> r.spec_calls().len() == 0,
            r.spec_contexts().len() > 0 ==> {
                let c = r.spec_contexts()[0];
                let b = message.body.unwrap()@;
                &&& self.planned(c, r)
                &&& c.spec_body() == context_body(b, current_nickname@, message.target_is_channel)
                &&& c.spec_addressed() == context_addressed(
                    b,
                    current_nickname@,
                    message.target_is_channel,
                )
                &&& c.spec_target() == message.response_target.unwrap()@
            },
    {
        match Context::new(message, current_nickname) {
            Some(ctx) => self.handle_context(ctx),
            None => Dispatch {
                contexts: Vec::new(),
                calls: Vec::new(),
                n_primary: 0,
                n_inline: 0,
                pos: 0,
                awaiting: false,
                inline_break: false,
                done: true,
            },
        }
    }
}

/// When the primary named handler returns `Break`, it is the only call made.
pub proof fn lemma_primary_break_stops(n_inline: nat, n_calls: nat, flows: Seq<Flow>)
    requires
        1 + n_inline <= n_calls,
        flows.len() >= 1,
        flows[0] == Flow::Break,
    ensures
        run(start_view(1, n_inline, n_calls), flows) == seq![0nat],
{
    let v = start_view(1, n_inline, n_calls);
    let w = after_report(after_next(v), flows[0]);
    assert(w.done);
    assert(run(w, flows.drop_first()) =~= Seq::<nat>::empty());
    assert(run(v, flows) =~= seq![0nat]);
}

proof fn lemma_inline_phase_bounded(v: DispatchView, flows: Seq<Flow>, k: int)
    requires
        !v.awaiting,
        v.n_primary <= v.pos <= v.n_primary + v.n_inline,
        v.n_primary + v.n_inline <= v.n_calls,
        v.inline_break && v.pos == v.n_primary + v.n_inline ==> v.done,
        v.inline_break || (0 <= k < flows.len() && v.pos + k < v.n_primary + v.n_inline
            && flows[k] == Flow::Break),
    ensures
        forall|t: int| 0 <= t < run(v, flows).len() ==> run(v, flows)[t] < v.n_primary + v.n_inline,
    decreases flows.len(),
{
    if has_next(v) && flows.len() > 0 {
        let w = after_report(after_next(v), flows[0]);
        lemma_inline_phase_bounded(w, flows.drop_first(), k - 1);
        let rest = run(w, flows.drop_first());
        assert(run(v, flows) == seq![v.pos] + rest);
        assert forall|t: int| 0 <= t < run(v, flows).len() implies run(v, flows)[t] < v.n_primary
            + v.n_inline by {
            if t > 0 {
                assert(run(v, flows)[t] == rest[t - 1]);
            }
        }
    }
}

/// When an inline call returns `Break`, no fallback handler runs, even where the
/// primary named handler (if there is one) returned `Continue`.
pub proof fn lemma_inline_break_skips_fallback(
    n_primary: nat,
    n_inline: nat,
    n_calls: nat,
    flows: Seq<Flow>,
    k: int,
)
    requires
        n_primary <= 1,
        n_primary + n_inline <= n_calls,
        n_primary <= k < n_primary + n_inline,
        k < flows.len(),
        flows[k] == Flow::Break,
        n_primary == 1 ==> flows[0] == Flow::Continue,
    ensures
        forall|t: int|
            0 <= t < run(start_view(n_primary, n_inline, n_calls), flows).len() ==> run(
                start_view(n_primary, n_inline, n_calls),
                flows,
            )[t] < n_primary + n_inline,
{
    let v = start_view(n_primary, n_inline, n_calls);
    if n_primary == 0 {
        lemma_inline_phase_bounded(v, flows, k);
    } else {
        let w = after_report(after_next(v), flows[0]);
        lemma_inline_phase_bounded(w, flows.drop_first(), k - 1);
        let rest = run(w, flows.drop_first());
        assert(run(v, flows) == seq![0nat] + rest);
        assert forall|t: int| 0 <= t < run(v, flows).len() implies run(v, flows)[t] < n_primary
            + n_inline by {
            if t > 0 {
                assert(run(v, flows)[t] == rest[t - 1]);
            }
        }
    }
}

/// A message with more embedded commands than the cap has only the first three
/// of them dispatched, after its own context.
pub proof fn lemma_inline_cap(reg: CommandRegistry, ctx: Context, r: Dispatch)
    requires
        reg.planned(ctx, r),
        inline_bodies(ctx.spec_body()).len() >= MAX_INLINE,
    ensures
        r.spec_contexts().len() == 1 + MAX_INLINE,
{
}

} // verus!
