use vstd::prelude::*;
use vstd::string::*;
use crate::text::{has_prefix, is_ws, lemma_skip_ws_at, lemma_token_end_at, skip_ws, slice, split_words, starts_with, token_end, words, words_from};

verus! {

/// A command name with its arguments, parsed out of a message body.
pub struct Command {
    name: String,
    args: Vec<String>,
}

/// What parsing `body` against `prefix` gives: `None` unless `body` starts with
/// `prefix` and some word follows it; else the first word and the rest.
pub open spec fn parse_spec(prefix: Seq<char>, body: Seq<char>) -> Option<(Seq<char>, Seq<Seq<char>>)> {
    if !starts_with(body, prefix) {
        None
    } else {
        let ws = words(body.subrange(prefix.len() as int, body.len() as int));
        if ws.len() == 0 {
            None
        } else {
            Some((ws[0], ws.drop_first()))
        }
    }
}

/// A non-empty run of characters none of which is whitespace.
pub open spec fn is_word(w: Seq<char>) -> bool {
    w.len() > 0 && forall|k: int| 0 <= k < w.len() ==> !is_ws(#[trigger] w[k])
}

impl Command {
    pub closed spec fn spec_name(&self) -> Seq<char> {
        self.name@
    }

    pub closed spec fn spec_args(&self) -> Seq<Seq<char>> {
        self.args@.map_values(|a: String| a@)
    }

    /// Splits `body` into a command name and its arguments, if it starts with `prefix`.
    pub fn parse(prefix: &str, body: &str) -> (r: Option<Command>)
        ensures
            match parse_spec(prefix@, body@) {
                None => r.is_none(),
                Some((n, a)) => r.is_some() && r.unwrap().spec_name() == n
                    && r.unwrap().spec_args() == a,
            },
    {
        if !has_prefix(body, prefix) {
            return None;
        }
        let rest = slice(body, prefix.unicode_len(), body.unicode_len());
        let mut ws = split_words(rest.as_str());
        if ws.len() == 0 {
            return None;
        }
        let ghost all = ws@.map_values(|w: String| w@);
        let name = ws.remove(0);
        assert(ws@.map_values(|w: String| w@) =~= all.drop_first());
        Some(Command { name, args: ws })
    }

    pub fn name(&self) -> (r: &str)
        ensures
            r@ == self.spec_name(),
    {
        self.name.as_str()
    }

    pub fn args(&self) -> (r: &[String])
        ensures
            r@.map_values(|a: String| a@) == self.spec_args(),
    {
        self.args.as_slice()
    }
}

/// A body that does not start with the prefix is no command.
pub proof fn lemma_parse_needs_prefix(prefix: Seq<char>, body: Seq<char>)
    requires
        !starts_with(body, prefix),
    ensures
        parse_spec(prefix, body) is None,
{
}

proof fn lemma_words_step(s: Seq<char>, i: int, e: int)
    requires
        0 <= i < e <= s.len(),
        is_word(s.subrange(i, e)),
        e == s.len() || is_ws(s[e]),
    ensures
        words_from(s, i) == seq![s.subrange(i, e)] + words_from(s, e),
{
    assert(!is_ws(s.subrange(i, e)[0]));
    lemma_skip_ws_at(s, i, i);
    assert forall|k: int| i <= k < e implies !is_ws(s[k]) by {
        assert(s[k] == s.subrange(i, e)[k - i]);
    }
    lemma_token_end_at(s, i, e);
}

/// A prefix, a name and two arguments, each word separated by one space,
/// parse to that name and those two arguments.
pub proof fn lemma_parse_two_args(
    prefix: Seq<char>,
    name: Seq<char>,
    a1: Seq<char>,
    a2: Seq<char>,
)
    requires
        is_word(name),
        is_word(a1),
        is_word(a2),
    ensures
        parse_spec(prefix, prefix + name + seq![' '] + a1 + seq![' '] + a2) == Some(
            (name, seq![a1, a2]),
        ),
{
    let body = prefix + name + seq![' '] + a1 + seq![' '] + a2;
    assert(body.subrange(0, prefix.len() as int) =~= prefix);
    let r = body.subrange(prefix.len() as int, body.len() as int);
    let l0 = name.len() as int;
    let l1 = a1.len() as int;
    let l2 = a2.len() as int;
    assert(r =~= name + seq![' '] + a1 + seq![' '] + a2);
    assert(r.len() == l0 + l1 + l2 + 2);
    assert(r.subrange(0, l0) =~= name);
    assert(r.subrange(l0 + 1, l0 + 1 + l1) =~= a1);
    assert(r.subrange(l0 + 2 + l1, r.len() as int) =~= a2);
    assert(is_ws(r[l0]));
    assert(is_ws(r[l0 + 1 + l1]));
    lemma_words_step(r, 0, l0);
    assert(!is_ws(r[l0 + 1])) by {
        assert(r[l0 + 1] == a1[0]);
    }
    lemma_skip_ws_at(r, l0, l0 + 1);
    lemma_words_step(r, l0 + 1, l0 + 1 + l1);
    assert(words_from(r, l0) == words_from(r, l0 + 1));
    assert(!is_ws(r[l0 + 2 + l1])) by {
        assert(r[l0 + 2 + l1] == a2[0]);
    }
    lemma_skip_ws_at(r, l0 + 1 + l1, l0 + 2 + l1);
    lemma_words_step(r, l0 + 2 + l1, r.len() as int);
    assert(words_from(r, l0 + 1 + l1) == words_from(r, l0 + 2 + l1));
    assert(words_from(r, r.len() as int) =~= Seq::<Seq<char>>::empty());
    let ws = words(r);
    assert(ws =~= seq![name, a1, a2]);
    assert(ws.drop_first() =~= seq![a1, a2]);
}

} // verus!
