//! The command interface's pure core: free text in, a closed command
//! variant out, and a handler that applies one command to the query store
//! and reports what happened.  Formatting the report into chat text and all
//! wire traffic stay outside.

use vstd::prelude::*;
use crate::dates::{is_digit, digit_val};

verus! {

/// Token-separating whitespace.
pub open spec fn is_space(c: char) -> bool {
    c == ' ' || c == '\t' || c == '\n' || c == '\r'
}

/// Where the token starting at `i` ends: at the next whitespace or at the
/// end of the text.
pub open spec fn token_end(s: Seq<char>, i: int) -> int
    decreases s.len() - i,
{
    if i < 0 || i >= s.len() {
        i
    } else if is_space(s[i]) {
        i
    } else {
        token_end(s, i + 1)
    }
}

proof fn lemma_token_end(s: Seq<char>, i: int)
    requires
        0 <= i <= s.len(),
    ensures
        i <= token_end(s, i) <= s.len(),
        forall|k: int| i <= k < token_end(s, i) ==> !is_space(s[k]),
        token_end(s, i) == s.len() || is_space(s[token_end(s, i)]),
    decreases s.len() - i,
{
    if i < s.len() && !is_space(s[i]) {
        lemma_token_end(s, i + 1);
    }
}

/// A stretch of non-space characters ending at a space or at the end is
/// exactly what `token_end` finds.
proof fn lemma_token_end_unique(s: Seq<char>, i: int, j: int)
    requires
        0 <= i <= j <= s.len(),
        forall|k: int| i <= k < j ==> !is_space(s[k]),
        j == s.len() || is_space(s[j]),
    ensures
        token_end(s, i) == j,
    decreases j - i,
{
    if i < j {
        lemma_token_end_unique(s, i + 1, j);
    }
}

/// The whitespace-separated tokens of the text, from position `i` on.
pub open spec fn tokens_from(s: Seq<char>, i: int) -> Seq<Seq<char>>
    decreases s.len() - i,
    via tokens_from_dec
{
    if i < 0 || i >= s.len() {
        Seq::empty()
    } else if is_space(s[i]) {
        tokens_from(s, i + 1)
    } else {
        seq![s.subrange(i, token_end(s, i))] + tokens_from(s, token_end(s, i))
    }
}

#[via_fn]
proof fn tokens_from_dec(s: Seq<char>, i: int) {
    if 0 <= i && i < s.len() && !is_space(s[i]) {
        lemma_token_end(s, i + 1);
    }
}

/// The views of a vector of strings.
pub open spec fn strviews(ts: Seq<String>) -> Seq<Seq<char>> {
    ts.map_values(|t: String| t@)
}

/// Checks one character for token-separating whitespace.
fn is_space_at(s: &str, i: usize) -> (r: bool)
    requires
        i < s@.len(),
    ensures
        r == is_space(s@[i as int]),
{
    let c = s.get_char(i);
    c == ' ' || c == '\t' || c == '\n' || c == '\r'
}

/// Splits the text into its whitespace-separated tokens.
#[verifier::loop_isolation(true)]
pub fn tokenize(s: &str) -> (r: Vec<String>)
    ensures
        strviews(r@) == tokens_from(s@, 0),
{
    let slen = s.unicode_len();
    let mut r: Vec<String> = Vec::new();
    let mut i: usize = 0;
    proof {
        assert(strviews(r@) + tokens_from(s@, 0) =~= tokens_from(s@, 0));
    }
    while i < slen
        invariant
            i <= slen,
            slen == s@.len(),
            strviews(r@) + tokens_from(s@, i as int) == tokens_from(s@, 0),
        decreases slen - i,
    {
        if is_space_at(s, i) {
            proof {
                assert(tokens_from(s@, i as int) == tokens_from(s@, i as int + 1));
            }
            i += 1;
        } else {
            let mut j: usize = i + 1;
            loop
                invariant_except_break
                    i < j <= slen,
                    slen == s@.len(),
                    forall|k: int| i <= k < j ==> !is_space(s@[k]),
                ensures
                    i < j <= slen,
                    forall|k: int| i <= k < j ==> !is_space(s@[k]),
                    j == slen || is_space(s@[j as int]),
                decreases slen - j,
            {
                if j == slen {
                    break;
                }
                if is_space_at(s, j) {
                    break;
                }
                j += 1;
            }
            proof {
                lemma_token_end_unique(s@, i as int, j as int);
            }
            let ghost r0 = r@;
            r.push(crate::text::substring_string(s, i, j));
            proof {
                assert(strviews(r@) =~= strviews(r0).push(r@.last()@));
                assert(strviews(r@) + tokens_from(s@, j as int) =~= strviews(r0)
                    + tokens_from(s@, i as int));
            }
            i = j;
        }
    }
    proof {
        assert(tokens_from(s@, i as int) =~= Seq::<Seq<char>>::empty());
        assert(strviews(r@) =~= tokens_from(s@, 0));
    }
    r
}

/// Every character is a decimal digit.
pub open spec fn all_digits(t: Seq<char>) -> bool {
    forall|k: int| 0 <= k < t.len() ==> is_digit(#[trigger] t[k])
}

/// The number a digit string denotes.
pub open spec fn dec_val(t: Seq<char>) -> int
    decreases t.len(),
{
    if t.len() == 0 {
        0
    } else {
        dec_val(t.drop_last()) * 10 + digit_val(t.last())
    }
}

proof fn lemma_dec_val_nonneg(t: Seq<char>)
    requires
        all_digits(t),
    ensures
        dec_val(t) >= 0,
    decreases t.len(),
{
    if t.len() > 0 {
        assert(all_digits(t.drop_last()));
        lemma_dec_val_nonneg(t.drop_last());
    }
}

/// A digit string denotes at least what any of its prefixes denotes.
proof fn lemma_dec_val_prefix(t: Seq<char>, i: int)
    requires
        all_digits(t),
        0 <= i <= t.len(),
    ensures
        dec_val(t.subrange(0, i)) <= dec_val(t),
    decreases t.len() - i,
{
    if i == t.len() {
        assert(t.subrange(0, i) =~= t);
    } else {
        lemma_dec_val_prefix(t, i + 1);
        let p = t.subrange(0, i + 1);
        assert(p.drop_last() =~= t.subrange(0, i));
        assert(all_digits(t.subrange(0, i)));
        lemma_dec_val_nonneg(t.subrange(0, i));
        assert(dec_val(p) == dec_val(t.subrange(0, i)) * 10 + digit_val(t[i]));
    }
}

/// Parses a decimal token; `None` on anything that is not a number fitting
/// an id: an empty token, a non-digit character, or a value past `u64::MAX`.
pub fn parse_u64(t: &str) -> (r: Option<u64>)
    ensures
        r is Some <==> t@.len() > 0 && all_digits(t@) && dec_val(t@) <= u64::MAX as int,
        r matches Some(v) ==> v as int == dec_val(t@),
{
    let n = t.unicode_len();
    if n == 0 {
        return None;
    }
    let mut v: u64 = 0;
    let mut i: usize = 0;
    proof {
        assert(t@.subrange(0, 0) =~= Seq::<char>::empty());
    }
    while i < n
        invariant
            i <= n,
            n == t@.len(),
            forall|k: int| 0 <= k < i ==> is_digit(#[trigger] t@[k]),
            v as int == dec_val(t@.subrange(0, i as int)),
        decreases n - i,
    {
        let c = t.get_char(i);
        let cv = c as u32;
        if !(48 <= cv && cv <= 57) {
            return None;
        }
        let d = (cv - 48) as u64;
        let w = (v as u128) * 10 + (d as u128);
        proof {
            assert(t@.subrange(0, i as int + 1).drop_last() =~= t@.subrange(0, i as int));
            assert(dec_val(t@.subrange(0, i as int + 1)) == v as int * 10 + d as int);
        }
        if w > u64::MAX as u128 {
            proof {
                if all_digits(t@) && dec_val(t@) <= u64::MAX as int {
                    lemma_dec_val_prefix(t@, i as int + 1);
                }
            }
            return None;
        }
        v = w as u64;
        i += 1;
    }
    proof {
        assert(t@.subrange(0, n as int) =~= t@);
    }
    Some(v)
}

/// The arguments joined with `+`, the form the search endpoint takes
/// multi-word keywords in.
pub open spec fn join_plus(ts: Seq<Seq<char>>) -> Seq<char>
    decreases ts.len(),
{
    if ts.len() == 0 {
        Seq::empty()
    } else if ts.len() == 1 {
        ts[0]
    } else {
        join_plus(ts.drop_last()) + "+"@ + ts.last()
    }
}

/// Joins the tokens after the command word with `+`.
fn join_plus_exec(tokens: &Vec<String>) -> (r: String)
    requires
        tokens@.len() >= 1,
    ensures
        r@ == join_plus(strviews(tokens@).drop_first()),
{
    let ghost args = strviews(tokens@).drop_first();
    let mut acc = String::new();
    let mut i: usize = 1;
    proof {
        assert(args.subrange(0, 0) =~= Seq::<Seq<char>>::empty());
        assert(acc@ =~= join_plus(args.subrange(0, 0)));
    }
    while i < tokens.len()
        invariant
            1 <= i <= tokens@.len(),
            args == strviews(tokens@).drop_first(),
            args.len() == tokens@.len() - 1,
            acc@ == join_plus(args.subrange(0, i as int - 1)),
        decreases tokens@.len() - i,
    {
        if i > 1 {
            acc.append("+");
        }
        acc.append(tokens[i].as_str());
        proof {
            let sub1 = args.subrange(0, i as int);
            assert(sub1.drop_last() =~= args.subrange(0, i as int - 1));
            assert(sub1.last() == tokens@[i as int]@);
            if i == 1 {
                assert(join_plus(sub1) == args[0]);
            }
        }
        i += 1;
    }
    proof {
        assert(args.subrange(0, args.len() as int) =~= args);
    }
    acc
}

/// One chat command, the closed set the interface understands.
#[derive(Debug)]
pub enum Command {
    /// Show the usage help.
    Help,
    /// Register the sender as a subscriber.
    Start,
    /// Add one query; the words after the command joined with `+`.
    Add(String),
    /// List the sender's queries.
    List,
    /// Remove the queries with these ids, one by one.
    Remove(Vec<u64>),
    /// Drop all of the sender's queries.
    Clear,
    /// Unsubscribe the sender entirely.
    Stop,
    /// Anything else.
    Unknown,
}

/// The mathematical value of a [`Command`].
pub enum CommandView {
    Help,
    Start,
    Add(Seq<char>),
    List,
    Remove(Seq<int>),
    Clear,
    Stop,
    Unknown,
}

impl View for Command {
    type V = CommandView;

    open spec fn view(&self) -> CommandView {
        match self {
            Command::Help => CommandView::Help,
            Command::Start => CommandView::Start,
            Command::Add(t) => CommandView::Add(t@),
            Command::List => CommandView::List,
            Command::Remove(ids) => CommandView::Remove(
                ids@.map_values(|x: u64| x as int),
            ),
            Command::Clear => CommandView::Clear,
            Command::Stop => CommandView::Stop,
            Command::Unknown => CommandView::Unknown,
        }
    }
}

/// Every removal argument is a decimal id that fits.
pub open spec fn valid_ids(args: Seq<Seq<char>>) -> bool {
    forall|k: int|
        0 <= k < args.len() ==> (#[trigger] args[k]).len() > 0 && all_digits(args[k])
            && dec_val(args[k]) <= u64::MAX as int
}

/// The ids the removal arguments denote.
pub open spec fn ids_of(args: Seq<Seq<char>>) -> Seq<int> {
    args.map_values(|a: Seq<char>| dec_val(a))
}

/// What a text parses to: the first token selects the command, the rest
/// are its arguments.  Empty text, an unknown command word, and removal
/// arguments that are not ids all parse to `Unknown` — the parser itself
/// never fails.
pub open spec fn spec_parse_command(s: Seq<char>) -> CommandView {
    let ts = tokens_from(s, 0);
    if ts.len() == 0 {
        CommandView::Unknown
    } else if ts[0] == "/help"@ {
        CommandView::Help
    } else if ts[0] == "/start"@ {
        CommandView::Start
    } else if ts[0] == "/add"@ {
        CommandView::Add(join_plus(ts.drop_first()))
    } else if ts[0] == "/list"@ {
        CommandView::List
    } else if ts[0] == "/remove"@ {
        if valid_ids(ts.drop_first()) {
            CommandView::Remove(ids_of(ts.drop_first()))
        } else {
            CommandView::Unknown
        }
    } else if ts[0] == "/clear"@ {
        CommandView::Clear
    } else if ts[0] == "/stop"@ {
        CommandView::Stop
    } else {
        CommandView::Unknown
    }
}

/// Parses one inbound message into a command.
pub fn parse_command(text: &str) -> (c: Command)
    ensures
        c@ == spec_parse_command(text@),
{
    let tokens = tokenize(text);
    let ghost ts = tokens_from(text@, 0);
    if tokens.len() == 0 {
        return Command::Unknown;
    }
    let head = tokens[0].as_str();
    proof {
        assert(head@ == ts[0]);
    }
    if crate::text::str_eq(head, "/help") {
        Command::Help
    } else if crate::text::str_eq(head, "/start") {
        Command::Start
    } else if crate::text::str_eq(head, "/add") {
        let joined = join_plus_exec(&tokens);
        proof {
            assert(strviews(tokens@).drop_first() =~= ts.drop_first());
        }
        Command::Add(joined)
    } else if crate::text::str_eq(head, "/list") {
        Command::List
    } else if crate::text::str_eq(head, "/remove") {
        let ghost args = ts.drop_first();
        let mut ids: Vec<u64> = Vec::new();
        let mut i: usize = 1;
        while i < tokens.len()
            invariant
                1 <= i <= tokens@.len(),
                ts == strviews(tokens@),
                args == ts.drop_first(),
                forall|k: int|
                    0 <= k < i - 1 ==> (#[trigger] args[k]).len() > 0 && all_digits(args[k])
                        && dec_val(args[k]) <= u64::MAX as int,
                ids@.map_values(|x: u64| x as int) == ids_of(args.subrange(0, i as int - 1)),
            decreases tokens@.len() - i,
        {
            match parse_u64(tokens[i].as_str()) {
                None => {
                    proof {
                        assert(args[i as int - 1] == tokens@[i as int]@);
                        assert(!valid_ids(args));
                    }
                    return Command::Unknown;
                },
                Some(v) => {
                    let ghost ids0 = ids@;
                    ids.push(v);
                    proof {
                        assert(ids@.map_values(|x: u64| x as int) =~= ids0.map_values(
                            |x: u64| x as int,
                        ).push(v as int));
                        assert(ids@.map_values(|x: u64| x as int) =~= ids_of(
                            args.subrange(0, i as int),
                        ));
                    }
                },
            }
            i += 1;
        }
        proof {
            assert(args.subrange(0, args.len() as int) =~= args);
            assert(valid_ids(args));
        }
        Command::Remove(ids)
    } else if crate::text::str_eq(head, "/clear") {
        Command::Clear
    } else if crate::text::str_eq(head, "/stop") {
        Command::Stop
    } else {
        Command::Unknown
    }
}

/// What one removal attempt did: the id asked for, and the query it took
/// out, or nothing for an unknown id.
#[derive(Debug)]
pub struct RemoveOutcome {
    pub id: u64,
    pub removed: Option<crate::store::Query>,
}

/// The removed-query views of a list of outcomes.
pub open spec fn removed_views(
    outs: Seq<RemoveOutcome>,
) -> Seq<Option<crate::store::QueryView>> {
    outs.map_values(
        |o: RemoveOutcome|
            match o.removed {
                Some(q) => Some(q@),
                None => None,
            },
    )
}

/// What the handler answers; turning this into chat text happens outside.
#[derive(Debug)]
pub enum Reply {
    /// The usage help.
    Help,
    /// The account was created.
    Welcome,
    /// The sender already has an account.
    AlreadyRegistered,
    /// The command needs an account first.
    NeedAccount,
    /// A `Stop` from a sender without an account.
    NoAccount,
    /// The query was stored under this id.
    QueryAdded { id: u64, text: String },
    /// An empty query text was rejected.
    EmptyQueryRejected,
    /// The sender already watches this text.
    DuplicateQuery { text: String },
    /// The sender's current queries.
    Queries { queries: Vec<crate::store::Query> },
    /// One entry per id the removal named.
    Removals { outcomes: Vec<RemoveOutcome> },
    /// All queries were dropped.
    Cleared,
    /// The account and its queries were removed.
    Unsubscribed,
    /// The command was not understood.
    UnknownCommand,
}

/// Applies one parsed command to the store and says what happened.  Every
/// mutation goes through the store's own operations, so the reply and the
/// new store state follow exactly from the command and the old state.
pub fn apply_command(
    store: &mut crate::store::QueryStore,
    subscriber_id: i64,
    display_name: &str,
    cmd: Command,
) -> (r: Reply)
    requires
        old(store).wf(),
    ensures
        final(store).wf(),
        ({
            let s = old(store)@;
            let sid = subscriber_id as int;
            match cmd@ {
                CommandView::Help => final(store)@ == s && r == Reply::Help,
                CommandView::Start => if crate::store::has_sub(s, sid) {
                    final(store)@ == s && r == Reply::AlreadyRegistered
                } else {
                    final(store)@ == crate::store::spec_add_subscriber(s, sid, display_name@)
                        && r == Reply::Welcome
                },
                CommandView::Add(t) => match crate::store::spec_add_query_err(s, sid, t) {
                    Some(crate::store::StoreError::StaleReference) => final(store)@ == s && r
                        == Reply::NeedAccount,
                    Some(crate::store::StoreError::EmptyQueryText) => final(store)@ == s && r
                        == Reply::EmptyQueryRejected,
                    Some(crate::store::StoreError::DuplicateQuery) => final(store)@ == s && (r
                        matches Reply::DuplicateQuery { text } && text@ == t),
                    None => final(store)@ == crate::store::spec_add_query_ok(s, sid, t) && (r
                        matches Reply::QueryAdded { id, text } && id as int
                        == crate::store::spec_new_query_id(
                        s[crate::store::sub_at(s, sid)].queries,
                    ) && text@ == t),
                },
                CommandView::List => if crate::store::has_sub(s, sid) {
                    final(store)@ == s && (r matches Reply::Queries { queries }
                        && crate::store::qviews(queries@) == s[crate::store::sub_at(
                        s,
                        sid,
                    )].queries)
                } else {
                    final(store)@ == s && r == Reply::NeedAccount
                },
                CommandView::Remove(ids) => if crate::store::has_sub(s, sid) {
                    final(store)@ == crate::store::spec_remove_many(s, sid, ids).0 && (r
                        matches Reply::Removals { outcomes } && outcomes@.len() == ids.len()
                        && removed_views(outcomes@) == crate::store::spec_remove_many(
                        s,
                        sid,
                        ids,
                    ).1 && (forall|k: int|
                        0 <= k < ids.len() ==> (#[trigger] outcomes@[k]).id as int == ids[k]))
                } else {
                    final(store)@ == s && r == Reply::NeedAccount
                },
                CommandView::Clear => {
                    &&& final(store)@ == crate::store::spec_clear_queries(s, sid)
                    &&& r == if crate::store::has_sub(s, sid) {
                        Reply::Cleared
                    } else {
                        Reply::NeedAccount
                    }
                },
                CommandView::Stop => {
                    &&& final(store)@ == crate::store::spec_remove_subscriber(s, sid)
                    &&& r == if crate::store::has_sub(s, sid) {
                        Reply::Unsubscribed
                    } else {
                        Reply::NoAccount
                    }
                },
                CommandView::Unknown => final(store)@ == s && r == Reply::UnknownCommand,
            }
        }),
{
    let ghost s0 = store@;
    let ghost sid_ = subscriber_id as int;
    match cmd {
        Command::Help => Reply::Help,
        Command::Start => {
            if store.add_subscriber(subscriber_id, display_name) {
                Reply::Welcome
            } else {
                Reply::AlreadyRegistered
            }
        },
        Command::Add(text) => {
            match store.add_query(subscriber_id, text.as_str()) {
                Err(crate::store::StoreError::StaleReference) => Reply::NeedAccount,
                Err(crate::store::StoreError::EmptyQueryText) => Reply::EmptyQueryRejected,
                Err(crate::store::StoreError::DuplicateQuery) => Reply::DuplicateQuery { text },
                Ok(id) => Reply::QueryAdded { id, text },
            }
        },
        Command::List => {
            match store.queries_snapshot(subscriber_id) {
                Some(queries) => Reply::Queries { queries },
                None => Reply::NeedAccount,
            }
        },
        Command::Remove(ids) => {
            if store.queries_snapshot(subscriber_id).is_none() {
                return Reply::NeedAccount;
            }
            let ghost idsv = ids@.map_values(|x: u64| x as int);
            let ghost full = crate::store::spec_remove_many(s0, sid_, idsv);
            let mut outcomes: Vec<RemoveOutcome> = Vec::new();
            let mut k: usize = 0;
            proof {
                assert(idsv.subrange(0, idsv.len() as int) =~= idsv);
                assert(removed_views(outcomes@) =~= Seq::<
                    Option<crate::store::QueryView>,
                >::empty());
            }
            while k < ids.len()
                invariant
                    k <= ids@.len(),
                    idsv == ids@.map_values(|x: u64| x as int),
                    full == crate::store::spec_remove_many(s0, sid_, idsv),
                    store.wf(),
                    full.0 == crate::store::spec_remove_many(
                        store@,
                        sid_,
                        idsv.subrange(k as int, idsv.len() as int),
                    ).0,
                    full.1 == removed_views(outcomes@) + crate::store::spec_remove_many(
                        store@,
                        sid_,
                        idsv.subrange(k as int, idsv.len() as int),
                    ).1,
                    outcomes@.len() == k,
                    forall|j: int|
                        0 <= j < k ==> (#[trigger] outcomes@[j]).id as int == idsv[j],
                decreases ids@.len() - k,
            {
                let ghost mid = store@;
                let ghost rest = idsv.subrange(k as int, idsv.len() as int);
                let id = ids[k];
                let removed = store.remove_query(subscriber_id, id);
                let ghost outs0 = outcomes@;
                outcomes.push(RemoveOutcome { id, removed });
                proof {
                    assert(rest[0] == idsv[k as int]);
                    assert(rest.drop_first() =~= idsv.subrange(
                        k as int + 1,
                        idsv.len() as int,
                    ));
                    assert(match removed {
                        Some(q) => crate::store::spec_removed_query(mid, sid_, id as int)
                            == Some(q@),
                        None => crate::store::spec_removed_query(mid, sid_, id as int)
                            is None,
                    });
                    assert(removed_views(outcomes@) =~= removed_views(outs0).push(
                        match outcomes@.last().removed {
                            Some(q) => Some(q@),
                            None => None,
                        },
                    ));
                    assert(full.1 =~= removed_views(outcomes@)
                        + crate::store::spec_remove_many(
                        store@,
                        sid_,
                        idsv.subrange(k as int + 1, idsv.len() as int),
                    ).1);
                }
                k += 1;
            }
            proof {
                assert(idsv.subrange(k as int, idsv.len() as int).len() == 0);
                assert(full.0 == store@);
                assert(full.1 =~= removed_views(outcomes@));
            }
            Reply::Removals { outcomes }
        },
        Command::Clear => {
            if store.clear_queries(subscriber_id) {
                Reply::Cleared
            } else {
                Reply::NeedAccount
            }
        },
        Command::Stop => {
            if store.remove_subscriber(subscriber_id) {
                Reply::Unsubscribed
            } else {
                Reply::NoAccount
            }
        },
        Command::Unknown => Reply::UnknownCommand,
    }
}

} // verus!
