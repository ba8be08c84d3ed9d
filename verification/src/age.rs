//! Account ages: the `age` and `oldest` commands list users from the oldest
//! account to the newest, with the time each account was made.
use crate::messages::{concat, decimal_string, user_mention, user_mention_text};
use crate::numbers::decimal;
use serenity::model::id::UserId;
use vstd::prelude::*;

verus! {

/// Discord's epoch, in milliseconds since the Unix epoch.
pub const DISCORD_EPOCH_MILLIS: u64 = 1_420_070_400_000;

/// The most users that the age commands list.
pub const MAX_LISTED_USERS: usize = 50;

/// When the account `id` was made, in milliseconds since the Unix epoch: the
/// id's bits above the lowest 22, counted from Discord's epoch.
pub open spec fn created_millis(id: u64) -> int {
    (id / 4_194_304) as int + DISCORD_EPOCH_MILLIS
}

/// When the account `id` was made, in whole seconds since the Unix epoch.
pub open spec fn created_secs(id: u64) -> int {
    created_millis(id) / 1000
}

/// serenity's `UserId::created_at`, compared: the crate builds each
/// `Timestamp` from `(id >> 22) + DISCORD_EPOCH` milliseconds, and timestamps
/// compare as instants.
#[verifier::external_body]
fn created_no_later(a: u64, b: u64) -> (r: bool)
    ensures
        r == (created_millis(a) <= created_millis(b)),
{
    UserId(a).created_at() <= UserId(b).created_at()
}

/// serenity's `UserId::created_at().unix_timestamp()`: the whole seconds of
/// `(id >> 22) + DISCORD_EPOCH` milliseconds.
#[verifier::external_body]
fn created_unix_secs(id: u64) -> (r: i64)
    ensures
        r == created_secs(id),
{
    UserId(id).created_at().unix_timestamp()
}

/// Where `x` goes in `s` so that it comes after every account made no later
/// than it at the end of `s`: just after the last element, going backwards,
/// that was made no later than `x`.
pub open spec fn insertion_point(s: Seq<u64>, x: u64) -> int
    decreases s.len(),
{
    if s.len() == 0 {
        0
    } else if created_millis(s.last()) <= created_millis(x) {
        s.len() as int
    } else {
        insertion_point(s.drop_last(), x)
    }
}

/// `ids` ordered from the oldest account to the newest; accounts made at the
/// same instant keep their order (each id goes in after the ones before it).
pub open spec fn by_creation(ids: Seq<u64>) -> Seq<u64>
    decreases ids.len(),
{
    if ids.len() == 0 {
        ids
    } else {
        let t = by_creation(ids.drop_last());
        t.insert(insertion_point(t, ids.last()), ids.last())
    }
}

/// `ids` are in order of creation, oldest first.
pub open spec fn creation_ordered(ids: Seq<u64>) -> bool {
    forall|i: int, j: int| 0 <= i <= j < ids.len() ==> created_millis(ids[i]) <= created_millis(ids[j])
}

/// The insertion point sits after the elements made no later than `x` at the
/// end of `s`, and before those made after it.
proof fn lemma_insertion_point(s: Seq<u64>, x: u64)
    ensures
        0 <= insertion_point(s, x) <= s.len(),
        insertion_point(s, x) > 0 ==> created_millis(s[insertion_point(s, x) - 1]) <= created_millis(x),
        forall|k: int|
            insertion_point(s, x) <= k < s.len() ==> created_millis(x) < created_millis(#[trigger] s[k]),
    decreases s.len(),
{
    if s.len() > 0 && created_millis(s.last()) > created_millis(x) {
        lemma_insertion_point(s.drop_last(), x);
        assert forall|k: int|
            insertion_point(s, x) <= k < s.len() implies created_millis(x) < created_millis(
                #[trigger] s[k],
            ) by {
            if k < s.len() - 1 {
                assert(s[k] == s.drop_last()[k]);
            }
        }
    }
}

/// Ordering by creation gives the same ids, in order of creation.
pub proof fn lemma_by_creation_sorts(ids: Seq<u64>)
    ensures
        creation_ordered(by_creation(ids)),
        by_creation(ids).to_multiset() == ids.to_multiset(),
        by_creation(ids).len() == ids.len(),
    decreases ids.len(),
{
    broadcast use vstd::seq_lib::group_to_multiset_ensures;

    if ids.len() > 0 {
        let t = by_creation(ids.drop_last());
        let x = ids.last();
        lemma_by_creation_sorts(ids.drop_last());
        lemma_insertion_point(t, x);
        let p = insertion_point(t, x);
        let r = t.insert(p, x);
        assert(r.len() == t.len() + 1);
        assert forall|i: int, j: int| 0 <= i <= j < r.len() implies created_millis(r[i]) <= created_millis(
            r[j],
        ) by {
            if i < p {
                assert(r[i] == t[i]);
                if j < p {
                    assert(r[j] == t[j]);
                } else if j == p {
                    assert(created_millis(t[i]) <= created_millis(t[p - 1]));
                } else {
                    assert(r[j] == t[j - 1]);
                }
            } else if i == p {
                if j > p {
                    assert(r[j] == t[j - 1]);
                }
            } else {
                assert(r[i] == t[i - 1]);
                assert(r[j] == t[j - 1]);
            }
        }
        assert(ids =~= ids.drop_last().push(x));
    }
}

/// Puts `x` into the ordered list `out`, after the ids made no later than it.
fn insert_by_creation(out: &mut Vec<u64>, x: u64)
    ensures
        final(out)@ == old(out)@.insert(insertion_point(old(out)@, x), x),
{
    let mut p = out.len();
    proof {
        assert(out@.take(p as int) =~= out@);
    }
    while p > 0 && !created_no_later(out[p - 1], x)
        invariant
            p <= out.len(),
            insertion_point(out@, x) == insertion_point(out@.take(p as int), x),
        decreases p,
    {
        proof {
            assert(out@.take(p as int).drop_last() =~= out@.take(p - 1));
        }
        p = p - 1;
    }
    proof {
        if p > 0 {
            assert(out@.take(p as int).last() == out@[p - 1]);
        }
    }
    out.insert(p, x);
}

/// `ids` from the oldest account to the newest.
pub fn sort_by_creation(ids: Vec<u64>) -> (r: Vec<u64>)
    ensures
        r@ == by_creation(ids@),
{
    let mut out: Vec<u64> = Vec::new();
    let mut i: usize = 0;
    while i < ids.len()
        invariant
            i <= ids.len(),
            out@ == by_creation(ids@.take(i as int)),
        decreases ids.len() - i,
    {
        proof {
            let t = ids@.take(i + 1);
            assert(t.drop_last() =~= ids@.take(i as int));
            assert(t.last() == ids@[i as int]);
        }
        insert_by_creation(&mut out, ids[i]);
        i = i + 1;
    }
    assert(ids@.take(i as int) =~= ids@);
    out
}

/// The line for one account: its mention and when it was made, as a Discord
/// timestamp tag.
pub open spec fn age_line(id: u64) -> Seq<char> {
    user_mention_text(id) + " created at "@ + "<t:"@ + decimal(created_secs(id) as nat) + ":f>"@
        + seq!['\n']
}

/// The lines for the accounts `ids`, in order.
pub open spec fn age_lines(ids: Seq<u64>) -> Seq<char>
    decreases ids.len(),
{
    if ids.len() == 0 {
        seq![]
    } else {
        age_lines(ids.drop_last()) + age_line(ids.last())
    }
}

/// The line of a single account is its mention, then its own creation time
/// in seconds, in Discord's full date format.
pub proof fn lemma_single_account_line(id: u64)
    ensures
        age_lines(seq![id]) == user_mention_text(id) + " created at <t:"@ + decimal(
            created_secs(id) as nat,
        ) + ":f>\n"@,
{
    reveal_strlit(" created at <t:");
    reveal_strlit(" created at ");
    reveal_strlit("<t:");
    reveal_strlit(":f>\n");
    reveal_strlit(":f>");
    assert(seq![id].drop_last() =~= Seq::<u64>::empty());
    assert(" created at "@ + "<t:"@ =~= " created at <t:"@);
    assert(":f>"@ + seq!['\n'] =~= ":f>\n"@);
    assert(age_lines(seq![id].drop_last()) == Seq::<char>::empty());
    assert(seq![id].last() == id);
    assert(age_lines(seq![id]) =~= age_line(id));
    assert(age_lines(seq![id]) =~= user_mention_text(id) + " created at <t:"@ + decimal(
        created_secs(id) as nat,
    ) + ":f>\n"@);
}

/// The lines of two lists one after the other are the lines of the first
/// list, then those of the second: each account gets its own line, in order,
/// whatever stands around it.
pub proof fn lemma_age_lines_concat(a: Seq<u64>, b: Seq<u64>)
    ensures
        age_lines(a + b) == age_lines(a) + age_lines(b),
    decreases b.len(),
{
    if b.len() == 0 {
        assert(a + b =~= a);
        assert(age_lines(a) + age_lines(b) =~= age_lines(a));
    } else {
        lemma_age_lines_concat(a, b.drop_last());
        assert((a + b).drop_last() =~= a + b.drop_last());
        assert((a + b).last() == b.last());
        assert(age_lines(a + b) =~= age_lines(a) + age_lines(b));
    }
}

/// The `k`-th account's line carries that account's own mention and creation
/// time, between the lines of the accounts before it and those after it.
pub proof fn lemma_each_line_is_its_own(ids: Seq<u64>, k: int)
    requires
        0 <= k < ids.len(),
    ensures
        age_lines(ids) == age_lines(ids.take(k)) + (user_mention_text(ids[k]) + " created at <t:"@
            + decimal(created_secs(ids[k]) as nat) + ":f>\n"@) + age_lines(ids.skip(k + 1)),
{
    assert(ids =~= ids.take(k) + (seq![ids[k]] + ids.skip(k + 1)));
    lemma_age_lines_concat(ids.take(k), seq![ids[k]] + ids.skip(k + 1));
    lemma_age_lines_concat(seq![ids[k]], ids.skip(k + 1));
    lemma_single_account_line(ids[k]);
}

/// The message that lists the accounts `ids`.
pub open spec fn age_report_text(ids: Seq<u64>) -> Seq<char> {
    "User ages:"@ + seq!['\n'] + age_lines(ids)
}

/// The message that lists the accounts `ids`, in the order given.
pub fn age_report(ids: &Vec<u64>) -> (r: String)
    ensures
        r@ == age_report_text(ids@),
{
    proof {
        reveal_strlit("\n");
    }
    let mut out = String::from_str("User ages:");
    out.append("\n");
    let mut i: usize = 0;
    while i < ids.len()
        invariant
            i <= ids.len(),
            out@ == "User ages:"@ + seq!['\n'] + age_lines(ids@.take(i as int)),
        decreases ids.len() - i,
    {
        let id = ids[i];
        let mention = user_mention(id);
        let secs = created_unix_secs(id);
        assert(secs > 0);
        let secs_text = decimal_string(secs as u64);
        let line = concat(mention.as_str(), " created at ");
        let line = concat(line.as_str(), "<t:");
        let line = concat(line.as_str(), secs_text.as_str());
        let line = concat(line.as_str(), ":f>");
        out.append(line.as_str());
        out.append("\n");
        proof {
            reveal_strlit("\n");
            let t = ids@.take(i + 1);
            assert(t.drop_last() =~= ids@.take(i as int));
            assert(t.last() == id);
            assert(out@ =~= "User ages:"@ + seq!['\n'] + age_lines(t));
        }
        i = i + 1;
    }
    assert(ids@.take(i as int) =~= ids@);
    out
}

/// The reply of `age`: the accounts from the oldest to the newest; nothing
/// for no account or more than fifty.
pub fn age_reply(user_ids: Vec<u64>) -> (r: Option<String>)
    ensures
        r is None <==> (user_ids@.len() == 0 || user_ids@.len() > MAX_LISTED_USERS),
        r matches Some(s) ==> s@ == age_report_text(by_creation(user_ids@)),
{
    if user_ids.len() == 0 || user_ids.len() > MAX_LISTED_USERS {
        return None;
    }
    let sorted = sort_by_creation(user_ids);
    Some(age_report(&sorted))
}

/// The reply of `oldest`: the `count` oldest of the accounts (all of them
/// when there are fewer), from the oldest; nothing for no account.
pub fn oldest_reply(user_ids: Vec<u64>, count: u32) -> (r: Option<String>)
    ensures
        r is None <==> user_ids@.len() == 0,
        r matches Some(s) ==> s@ == age_report_text(
            by_creation(user_ids@).take(
                if count as int <= user_ids@.len() {
                    count as int
                } else {
                    user_ids@.len() as int
                },
            ),
        ),
{
    if user_ids.len() == 0 {
        return None;
    }
    let ghost all = user_ids@;
    let sorted = sort_by_creation(user_ids);
    proof {
        lemma_by_creation_sorts(all);
    }
    let keep: usize = if (count as usize) <= sorted.len() {
        count as usize
    } else {
        sorted.len()
    };
    let mut kept: Vec<u64> = Vec::new();
    let mut i: usize = 0;
    while i < keep
        invariant
            keep <= sorted.len(),
            i <= keep,
            kept@ == sorted@.take(i as int),
        decreases keep - i,
    {
        kept.push(sorted[i]);
        i = i + 1;
        assert(kept@ =~= sorted@.take(i as int));
    }
    Some(age_report(&kept))
}

/// The accounts made at the instant `millis`.
pub open spec fn made_at(millis: int) -> spec_fn(u64) -> bool {
    |id: u64| created_millis(id) == millis
}

/// Keeping only what no element satisfies leaves nothing.
proof fn lemma_filter_none(s: Seq<u64>, pred: spec_fn(u64) -> bool)
    requires
        forall|i: int| 0 <= i < s.len() ==> !pred(#[trigger] s[i]),
    ensures
        s.filter(pred) == Seq::<u64>::empty(),
    decreases s.len(),
{
    reveal(Seq::filter);
    if s.len() > 0 {
        lemma_filter_none(s.drop_last(), pred);
        assert(!pred(s[s.len() - 1]));
    }
}

/// Ordering by creation is stable: the accounts made at any one instant come
/// out in the order they came in.
pub proof fn lemma_by_creation_stable(ids: Seq<u64>, millis: int)
    ensures
        by_creation(ids).filter(made_at(millis)) == ids.filter(made_at(millis)),
    decreases ids.len(),
{
    broadcast use Seq::filter_distributes_over_add, Seq::lemma_filter_push;

    if ids.len() > 0 {
        let f = made_at(millis);
        let t = by_creation(ids.drop_last());
        let x = ids.last();
        lemma_by_creation_stable(ids.drop_last(), millis);
        lemma_insertion_point(t, x);
        let p = insertion_point(t, x);
        let head = t.subrange(0, p);
        let tail = t.subrange(p, t.len() as int);
        assert(t =~= head + tail);
        assert(t.insert(p, x) == head.push(x) + tail);
        assert(ids =~= ids.drop_last().push(x));
        assert(t.filter(f) == head.filter(f) + tail.filter(f));
        if f(x) {
            assert forall|i: int| 0 <= i < tail.len() implies !f(#[trigger] tail[i]) by {
                assert(tail[i] == t[p + i]);
            }
            lemma_filter_none(tail, f);
            assert(tail.filter(f) == Seq::<u64>::empty());
            assert((head.push(x) + tail).filter(f) == head.filter(f).push(x) + tail.filter(f));
            assert(head.filter(f).push(x) + Seq::<u64>::empty() =~= head.filter(f).push(x));
            assert(head.filter(f) + Seq::<u64>::empty() =~= head.filter(f));
        } else {
            assert((head.push(x) + tail).filter(f) == head.filter(f) + tail.filter(f));
        }
    }
}

} // verus!
