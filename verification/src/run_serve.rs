//! The request line of the resident dispatch server: a command address
//! followed by `key=value` pairs, and the split of that address into
//! context, aggregate and verb.

use vstd::prelude::*;
use crate::ir::{AggregateModel, Domain};
use crate::text::{eq, chars_of, find_char, find_char_exec, find_seq, find_str, rfind_char, rfind_char_exec, slice, string_of, tail, views, words, words_exec};

verus! {

/// One `key=value` token split at its first `=`; a token without `=` is
/// no pair.
pub open spec fn request_pair(tok: Seq<char>) -> Option<(Seq<char>, Seq<char>)> {
    match find_char(tok, '=') {
        Some(eq) => Some((tok.subrange(0, eq), tok.subrange(eq + 1, tok.len() as int))),
        None => None,
    }
}

/// The pairs of the tokens that carry one, in order.
pub open spec fn request_pairs(toks: Seq<Seq<char>>) -> Seq<(Seq<char>, Seq<char>)>
    decreases toks.len(),
{
    if toks.len() == 0 {
        Seq::empty()
    } else {
        request_pairs(toks.drop_last()) + match request_pair(toks.last()) {
            Some(p) => seq![p],
            None => Seq::empty(),
        }
    }
}

/// The command of a request: its first whitespace-delimited token, or
/// nothing.
pub open spec fn request_command(req: Seq<char>) -> Seq<char> {
    let toks = words(req);
    if toks.len() == 0 { Seq::empty() } else { toks[0] }
}

/// The pairs of a request: those of every token after the command.
pub open spec fn request_args(req: Seq<char>) -> Seq<(Seq<char>, Seq<char>)> {
    let toks = words(req);
    if toks.len() == 0 { Seq::empty() } else { request_pairs(toks.subrange(1, toks.len() as int)) }
}

pub open spec fn pairs_view(v: Seq<(String, String)>) -> Seq<(Seq<char>, Seq<char>)> {
    v.map_values(|p: (String, String)| (p.0@, p.1@))
}

/// Splits a request line into its command and its `key=value` pairs.
/// Pairs split at the first `=`, so a value may itself carry `=`; tokens
/// without `=` are skipped.
pub fn parse_request(req: &str) -> (r: (String, Vec<(String, String)>))
    ensures
        r.0@ == request_command(req@),
        pairs_view(r.1@) == request_args(req@),
{
    let chars = chars_of(req);
    let toks = words_exec(&chars);
    let ghost tv = views(toks@);
    if toks.len() == 0 {
        let v: Vec<(String, String)> = Vec::new();
        assert(pairs_view(v@) =~= Seq::<(Seq<char>, Seq<char>)>::empty());
        return (String::new(), v);
    }
    let command = string_of(&toks[0]);
    let mut pairs: Vec<(String, String)> = Vec::new();
    let mut i: usize = 1;
    assert(tv.subrange(1, 1) =~= Seq::<Seq<char>>::empty());
    assert(pairs_view(pairs@) =~= request_pairs(tv.subrange(1, 1)));
    while i < toks.len()
        invariant
            1 <= i <= toks.len(),
            tv == views(toks@),
            pairs_view(pairs@) == request_pairs(tv.subrange(1, i as int)),
        decreases toks.len() - i,
    {
        let tok = &toks[i];
        assert(tv.subrange(1, i + 1).drop_last() =~= tv.subrange(1, i as int));
        assert(tv.subrange(1, i + 1).last() == tok@);
        match find_char_exec(tok, '=') {
            Some(eq) => {
                let k = slice(tok, 0, eq);
                let v = tail(tok, eq + 1);
                let ghost before = pairs_view(pairs@);
                pairs.push((string_of(&k), string_of(&v)));
                assert(pairs_view(pairs@) =~= before.push((k@, v@)));
            },
            None => {},
        }
        i = i + 1;
    }
    (command, pairs)
}

/// The split of an address `Domain::Aggregate.Verb`: the last `.` parts
/// off the verb, then the first `::` parts the context from the
/// aggregate. Without a `.` the whole address is the verb.
pub open spec fn fqn_parts(cmd: Seq<char>) -> (Option<Seq<char>>, Seq<char>, Seq<char>) {
    match rfind_char(cmd, '.') {
        None => (None, Seq::empty(), cmd),
        Some(d) => {
            let head = cmd.subrange(0, d);
            let verb = cmd.subrange(d + 1, cmd.len() as int);
            match find_seq(head, "::"@) {
                Some(j) => (Some(head.subrange(0, j)), head.subrange(j + 2, head.len() as int), verb),
                None => (None, head, verb),
            }
        },
    }
}

/// Splits an address into `(context, aggregate, bare verb)`:
/// `D::A.V` gives `(Some(D), A, V)`, `A.V` gives `(None, A, V)` and `V`
/// gives `(None, "", V)`.
pub fn split_fqn(command: &str) -> (r: (Option<String>, String, String))
    ensures
        ({
            let (c, a, v) = fqn_parts(command@);
            &&& r.0 matches Some(x) ==> c == Some(x@)
            &&& r.0 is None ==> c is None
            &&& r.1@ == a
            &&& r.2@ == v
        }),
{
    proof { reveal_strlit("::"); }
    let cmd = chars_of(command);
    match rfind_char_exec(&cmd, '.') {
        None => (None, String::new(), string_of(&cmd)),
        Some(d) => {
            let head = slice(&cmd, 0, d);
            let verb = tail(&cmd, d + 1);
            match find_str(&head, "::") {
                Some(j) => {
                    let ctx = slice(&head, 0, j);
                    let agg = tail(&head, j + 2);
                    (Some(string_of(&ctx)), string_of(&agg), string_of(&verb))
                },
                None => (None, string_of(&head), string_of(&verb)),
            }
        },
    }
}


// ---------------------------------------------------------------------
// Routing a request
// ---------------------------------------------------------------------

/// How the server answers a request line.
pub enum RequestRoute {
    /// No command: refused with `empty_command_reply`.
    Empty,
    /// A query of the domain (matched by its bare verb), to resolve.
    Query { context: Option<String>, aggregate: String, verb: String, attrs: Vec<(String, String)> },
    /// A command, to dispatch under its full address.
    Command { command: String, attrs: Vec<(String, String)> },
}

/// Some aggregate declares a query with this name.
pub open spec fn names_query(aggs: Seq<AggregateModel>, verb: Seq<char>) -> bool {
    exists|a: int, q: int| 0 <= a < aggs.len() && 0 <= q < aggs[a].queries.len() && #[trigger] aggs[a].queries[q].name == verb
}

/// The reply to a request without a command.
pub fn empty_command_reply() -> (r: String)
    ensures
        r@ == "\u{1e}ERROR {\"error\":\"empty command\",\"ok\":false}"@,
{
    "\u{1e}ERROR {\"error\":\"empty command\",\"ok\":false}".to_owned()
}

/// Whether some aggregate of the domain declares a query named `verb`.
fn is_query(domain: &Domain, verb: &Vec<char>) -> (b: bool)
    ensures
        b == names_query(domain@.aggregates, verb@),
{
    let ghost aggs = domain@.aggregates;
    let mut a: usize = 0;
    while a < domain.aggregates.len()
        invariant
            a <= domain.aggregates.len(),
            aggs == domain@.aggregates,
            aggs.len() == domain.aggregates@.len(),
            forall|x: int, q: int|
                0 <= x < a && 0 <= q < aggs[x].queries.len() ==> #[trigger] aggs[x].queries[q].name != verb@,
        decreases domain.aggregates.len() - a,
    {
        let agg = &domain.aggregates[a];
        assert(aggs[a as int] == agg@);
        let mut q: usize = 0;
        while q < agg.queries.len()
            invariant
                q <= agg.queries.len(),
                aggs == domain@.aggregates,
                a < aggs.len(),
                aggs[a as int] == agg@,
                agg@.queries.len() == agg.queries@.len(),
                forall|k: int| 0 <= k < q ==> #[trigger] agg@.queries[k].name != verb@,
            decreases agg.queries.len() - q,
        {
            assert(agg@.queries[q as int] == agg.queries@[q as int]@);
            if eq(&chars_of(agg.queries[q].name.as_str()), verb) {
                assert(aggs[a as int].queries[q as int].name == verb@);
                return true;
            }
            q = q + 1;
        }
        a = a + 1;
    }
    false
}

/// Routes a request line against the domain: an empty command is
/// refused; an address whose bare verb names a query of the domain is a
/// query; anything else is a command.
pub fn route_request(domain: &Domain, req: &str) -> (r: RequestRoute)
    ensures
        match r {
            RequestRoute::Empty => request_command(req@).len() == 0,
            RequestRoute::Query { context, aggregate, verb, attrs } => {
                let (c, a, v) = fqn_parts(request_command(req@));
                &&& request_command(req@).len() > 0
                &&& names_query(domain@.aggregates, v)
                &&& (match context {
                    Some(x) => c == Some(x@),
                    None => c is None,
                })
                &&& aggregate@ == a
                &&& verb@ == v
                &&& pairs_view(attrs@) == request_args(req@)
            },
            RequestRoute::Command { command, attrs } => {
                &&& request_command(req@).len() > 0
                &&& !names_query(domain@.aggregates, fqn_parts(request_command(req@)).2)
                &&& command@ == request_command(req@)
                &&& pairs_view(attrs@) == request_args(req@)
            },
        },
{
    let (command, attrs) = parse_request(req);
    if command.as_str().is_empty() {
        return RequestRoute::Empty;
    }
    let (context, aggregate, verb) = split_fqn(command.as_str());
    if is_query(domain, &chars_of(verb.as_str())) {
        RequestRoute::Query { context, aggregate, verb, attrs }
    } else {
        RequestRoute::Command { command, attrs }
    }
}

} // verus!
