//! Answering a guild's dynamic commands: a response may hold several
//! alternatives separated by `%or`, one of which is picked at random, and
//! each channel gets at most one dynamic answer per cooldown period.
use crate::models::DynamicCommand;
use crate::random::{drawn_since, extends, DrawLog};
use crate::text::{
    lemma_join_split,
    lemma_split_first_is_prefix,
    pieces_view,
    split_chars,
    split_on,
    str_chars,
    string_from_chars,
};
use std::collections::HashMap;
use vstd::prelude::*;

verus! {

broadcast use vstd::std_specs::hash::group_hash_axioms;

/// The text that separates the alternatives of a response.
pub open spec fn alternative_separator() -> Seq<char> {
    seq!['%', 'o', 'r']
}

/// The alternatives of `response`: the pieces between its `%or`s.
pub open spec fn alternatives(response: Seq<char>) -> Seq<Seq<char>> {
    split_on(response, alternative_separator())
}

/// The alternatives of `response`, in order.
pub fn response_options(response: &str) -> (r: Vec<String>)
    ensures
        r@.len() == alternatives(response@).len(),
        forall|i: int| 0 <= i < r@.len() ==> #[trigger] r@[i]@ == alternatives(response@)[i],
{
    let chars = str_chars(response);
    let sep = vec!['%', 'o', 'r'];
    assert(sep@ =~= alternative_separator());
    let pieces = split_chars(&chars, &sep);
    let mut out: Vec<String> = Vec::new();
    let mut i: usize = 0;
    while i < pieces.len()
        invariant
            i <= pieces.len(),
            pieces_view(pieces@) == alternatives(response@),
            out@.len() == i,
            forall|j: int| 0 <= j < i ==> #[trigger] out@[j]@ == alternatives(response@)[j],
        decreases pieces.len() - i,
    {
        let s = string_from_chars(pieces[i].as_slice());
        out.push(s);
        i = i + 1;
    }
    out
}

/// A response with no `%or` has itself as its one alternative.
pub proof fn lemma_single_alternative(response: Seq<char>)
    requires
        alternatives(response).len() == 1,
    ensures
        alternatives(response)[0] == response,
{
    lemma_join_split(response, alternative_separator());
}

/// The alternatives of a response, put back together with `%or` between them,
/// give the response: splitting loses nothing.
pub proof fn lemma_alternatives_rejoin(response: Seq<char>)
    ensures
        crate::text::join_with(alternatives(response), alternative_separator()) == response,
{
    lemma_join_split(response, alternative_separator());
}

/// No alternative holds `%or` itself.
pub proof fn lemma_alternatives_hold_no_separator(response: Seq<char>, k: int)
    requires
        0 <= k < alternatives(response).len(),
    ensures
        !crate::text::contains_seq(alternatives(response)[k], alternative_separator()),
{
    crate::text::lemma_split_pieces_free_of_sep(response, alternative_separator(), k);
}

/// `text` is one of the alternatives of `response`.
pub open spec fn is_alternative_of(text: Seq<char>, response: Seq<char>) -> bool {
    exists|i: int| 0 <= i < alternatives(response).len() && alternatives(response)[i] == text
}

/// `text` is what picking from `response` gives when the draws taken for the
/// pick are `drawn`: with one alternative, the response itself and no draw;
/// otherwise one draw from `0..n`, for the `n` alternatives, and the
/// alternative at the index drawn.
pub open spec fn picked_by(
    text: Seq<char>,
    response: Seq<char>,
    drawn: Seq<(usize, usize, usize)>,
) -> bool {
    let alts = alternatives(response);
    if alts.len() == 1 {
        drawn.len() == 0 && text == response
    } else {
        &&& drawn.len() == 1
        &&& drawn[0].0 == 0
        &&& drawn[0].1 == alts.len()
        &&& drawn[0].2 < alts.len()
        &&& text == alts[drawn[0].2 as int]
    }
}

/// The text to answer with: the response itself when it has one
/// alternative, otherwise the alternative at an index drawn from `log` over
/// all of them.
pub fn pick_response(response: &str, log: &mut DrawLog) -> (r: String)
    ensures
        extends(old(log).history(), final(log).history()),
        picked_by(r@, response@, drawn_since(old(log).history(), final(log).history())),
        is_alternative_of(r@, response@),
{
    let ghost h0 = log.history();
    let options = response_options(response);
    proof {
        lemma_split_first_is_prefix(response@, alternative_separator());
    }
    if options.len() > 1 {
        let i = log.draw(0, options.len());
        proof {
            let h = log.history();
            assert(h.take(h0.len() as int) =~= h0);
            assert(drawn_since(h0, h) =~= seq![(0usize, options.len(), i)]);
            assert(alternatives(response@)[i as int] == options@[i as int]@);
        }
        copy_string(&options[i])
    } else {
        proof {
            lemma_single_alternative(response@);
            assert(alternatives(response@)[0] == options@[0]@);
            assert(log.history().take(h0.len() as int) =~= h0);
            assert(drawn_since(h0, log.history()).len() == 0);
        }
        copy_string(&options[0])
    }
}

/// An owned copy of `s`.
fn copy_string(s: &String) -> (r: String)
    ensures
        r@ == s@,
{
    s.clone()
}

/// Nanoseconds that a channel waits between two dynamic answers.
pub const CHANNEL_COOLDOWN_NANOS: u64 = 3_000_000_000;

/// A request for a dynamic answer in `channel` at time `now` (nanoseconds on
/// a monotonic clock) comes too soon: the channel's last answer was at or
/// before `now`, less than the cooldown ago.
pub open spec fn throttled(last: Map<u64, u64>, channel: u64, now: u64) -> bool {
    &&& last.contains_key(channel)
    &&& last[channel] <= now
    &&& now - last[channel] < CHANNEL_COOLDOWN_NANOS
}

/// The times of the last answers after a request: an answered request
/// records its time, a refused one changes nothing.
pub open spec fn after_request(last: Map<u64, u64>, channel: u64, now: u64) -> Map<u64, u64> {
    if throttled(last, channel, now) {
        last
    } else {
        last.insert(channel, now)
    }
}

/// The time of the last dynamic answer in each channel.
pub struct ChannelRateLimit {
    last_answer: HashMap<u64, u64>,
}

impl View for ChannelRateLimit {
    type V = Map<u64, u64>;

    closed spec fn view(&self) -> Map<u64, u64> {
        self.last_answer@
    }
}

impl ChannelRateLimit {
    /// No channel has had an answer yet.
    pub fn new() -> (r: ChannelRateLimit)
        ensures
            r@ == Map::<u64, u64>::empty(),
    {
        ChannelRateLimit { last_answer: HashMap::new() }
    }

    /// Whether a dynamic answer may be given in `channel` at time `now`; when
    /// it may, the time is recorded.
    pub fn allow(&mut self, channel: u64, now: u64) -> (allowed: bool)
        ensures
            allowed == !throttled(old(self)@, channel, now),
            final(self)@ == after_request(old(self)@, channel, now),
    {
        match self.last_answer.get(&channel) {
            Some(prev) => {
                let prev = *prev;
                if prev <= now && now - prev < CHANNEL_COOLDOWN_NANOS {
                    return false;
                }
            },
            None => {},
        }
        self.last_answer.insert(channel, now);
        true
    }
}

/// Right after an answer in a channel, every request there within the
/// cooldown is refused.
pub proof fn lemma_answer_starts_cooldown(last: Map<u64, u64>, channel: u64, t: u64, later: u64)
    requires
        !throttled(last, channel, t),
        t <= later,
        later - t < CHANNEL_COOLDOWN_NANOS,
    ensures
        throttled(after_request(last, channel, t), channel, later),
{
}

/// A request in one channel does not change whether requests in another
/// channel are refused.
pub proof fn lemma_channels_independent(
    last: Map<u64, u64>,
    channel: u64,
    t: u64,
    other: u64,
    later: u64,
)
    requires
        other != channel,
    ensures
        throttled(after_request(last, channel, t), other, later) == throttled(last, other, later),
{
}

/// A request that comes a full cooldown after the channel's last answer (or
/// in a channel that never had one) is answered.
pub proof fn lemma_after_cooldown_answered(last: Map<u64, u64>, channel: u64, now: u64)
    requires
        last.contains_key(channel) ==> now >= last[channel] + CHANNEL_COOLDOWN_NANOS,
    ensures
        !throttled(last, channel, now),
        after_request(last, channel, now) == last.insert(channel, now),
{
}

/// The times of the last answers after the requests `reqs`, each a channel
/// and a time, handled in order from `last`.
pub open spec fn state_after(last: Map<u64, u64>, reqs: Seq<(u64, u64)>) -> Map<u64, u64>
    decreases reqs.len(),
{
    if reqs.len() == 0 {
        last
    } else {
        after_request(state_after(last, reqs.drop_last()), reqs.last().0, reqs.last().1)
    }
}

/// The `k`-th of the requests `reqs`, handled in order from `last`, is answered.
pub open spec fn answered(last: Map<u64, u64>, reqs: Seq<(u64, u64)>, k: int) -> bool {
    !throttled(state_after(last, reqs.take(k)), reqs[k].0, reqs[k].1)
}

/// The requests of `reqs` made in `channel`, in order.
pub open spec fn requests_in(reqs: Seq<(u64, u64)>, channel: u64) -> Seq<(u64, u64)>
    decreases reqs.len(),
{
    if reqs.len() == 0 {
        reqs
    } else if reqs.last().0 == channel {
        requests_in(reqs.drop_last(), channel).push(reqs.last())
    } else {
        requests_in(reqs.drop_last(), channel)
    }
}

/// `a` and `b` hold the same last answer for `channel`.
pub open spec fn agree_on(a: Map<u64, u64>, b: Map<u64, u64>, channel: u64) -> bool {
    &&& a.contains_key(channel) == b.contains_key(channel)
    &&& a.contains_key(channel) ==> a[channel] == b[channel]
}

proof fn lemma_state_agrees_with_channel(last: Map<u64, u64>, reqs: Seq<(u64, u64)>, channel: u64)
    ensures
        agree_on(state_after(last, reqs), state_after(last, requests_in(reqs, channel)), channel),
    decreases reqs.len(),
{
    if reqs.len() > 0 {
        let prev = reqs.drop_last();
        let r = reqs.last();
        lemma_state_agrees_with_channel(last, prev, channel);
        if r.0 == channel {
            let f = requests_in(prev, channel).push(r);
            assert(f.drop_last() =~= requests_in(prev, channel));
            assert(f.last() == r);
        }
    }
}

/// Requests in other channels never change whether a request in `channel` is
/// refused: from any state `last`, it is refused after all of `reqs` exactly
/// when it is refused after the requests of `reqs` in `channel` alone.
pub proof fn lemma_other_channels_never_refuse(
    last: Map<u64, u64>,
    reqs: Seq<(u64, u64)>,
    channel: u64,
    now: u64,
)
    ensures
        throttled(state_after(last, reqs), channel, now) == throttled(
            state_after(last, requests_in(reqs, channel)),
            channel,
            now,
        ),
{
    lemma_state_agrees_with_channel(last, reqs, channel);
}

/// The `k`-th request is answered exactly when it would be after the earlier
/// requests in its own channel alone, from any state `last`.
pub proof fn lemma_answer_depends_on_own_channel(last: Map<u64, u64>, reqs: Seq<(u64, u64)>, k: int)
    requires
        0 <= k < reqs.len(),
    ensures
        answered(last, reqs, k) == !throttled(
            state_after(last, requests_in(reqs.take(k), reqs[k].0)),
            reqs[k].0,
            reqs[k].1,
        ),
{
    lemma_other_channels_never_refuse(last, reqs.take(k), reqs[k].0, reqs[k].1);
}

/// Handling the first `k + 1` requests is handling the first `k`, then the
/// `k`-th.
proof fn lemma_state_step(last: Map<u64, u64>, reqs: Seq<(u64, u64)>, k: int)
    requires
        0 <= k < reqs.len(),
    ensures
        state_after(last, reqs.take(k + 1)) == after_request(
            state_after(last, reqs.take(k)),
            reqs[k].0,
            reqs[k].1,
        ),
{
    assert(reqs.take(k + 1).drop_last() =~= reqs.take(k));
    assert(reqs.take(k + 1).last() == reqs[k]);
}

/// With times that never go back, after an answered request the channel's
/// recorded time lies between that request's time and the time of the last
/// request handled, whatever the state the requests started from.
proof fn lemma_answer_recorded(last: Map<u64, u64>, reqs: Seq<(u64, u64)>, i: int, k: int)
    requires
        0 <= i < k <= reqs.len(),
        forall|a: int, b: int| 0 <= a <= b < reqs.len() ==> reqs[a].1 <= reqs[b].1,
        answered(last, reqs, i),
    ensures
        state_after(last, reqs.take(k)).contains_key(reqs[i].0),
        reqs[i].1 <= state_after(last, reqs.take(k))[reqs[i].0],
        state_after(last, reqs.take(k))[reqs[i].0] <= reqs[k - 1].1,
    decreases k,
{
    lemma_state_step(last, reqs, k - 1);
    if k > i + 1 {
        lemma_answer_recorded(last, reqs, i, k - 1);
        assert(reqs[i].1 <= reqs[k - 1].1);
        assert(reqs[k - 2].1 <= reqs[k - 1].1);
    }
}

/// With times that never go back, two answered requests in the same channel
/// are at least a cooldown apart, whatever the state the requests started
/// from.
pub proof fn lemma_answers_spaced_by_cooldown(
    last: Map<u64, u64>,
    reqs: Seq<(u64, u64)>,
    i: int,
    j: int,
)
    requires
        forall|a: int, b: int| 0 <= a <= b < reqs.len() ==> reqs[a].1 <= reqs[b].1,
        0 <= i < j < reqs.len(),
        reqs[i].0 == reqs[j].0,
        answered(last, reqs, i),
        answered(last, reqs, j),
    ensures
        reqs[j].1 - reqs[i].1 >= CHANNEL_COOLDOWN_NANOS,
{
    lemma_answer_recorded(last, reqs, i, j);
    assert(reqs[j - 1].1 <= reqs[j].1);
}

/// What the bot sends for a dynamic command.
pub struct DynamicReply {
    pub content: String,
    pub attachment_urls: Option<Vec<String>>,
}

/// Answers a dynamic command typed in `channel` at time `now`: nothing when
/// the channel is cooling down (and nothing drawn), otherwise the alternative
/// of the response that the draws from `log` pick, with the command's
/// attachments.
pub fn answer_dynamic_command(
    limits: &mut ChannelRateLimit,
    channel: u64,
    now: u64,
    command: DynamicCommand,
    log: &mut DrawLog,
) -> (r: Option<DynamicReply>)
    ensures
        r is Some <==> !throttled(old(limits)@, channel, now),
        final(limits)@ == after_request(old(limits)@, channel, now),
        extends(old(log).history(), final(log).history()),
        r is None ==> final(log).history() == old(log).history(),
        r matches Some(reply) ==> {
            &&& picked_by(
                reply.content@,
                command.response@,
                drawn_since(old(log).history(), final(log).history()),
            )
            &&& is_alternative_of(reply.content@, command.response@)
            &&& reply.attachment_urls == command.attachment_urls
        },
{
    if !limits.allow(channel, now) {
        assert(log.history().take(log.history().len() as int) =~= log.history());
        return None;
    }
    let content = pick_response(command.response.as_str(), log);
    Some(DynamicReply { content, attachment_urls: command.attachment_urls })
}

} // verus!
