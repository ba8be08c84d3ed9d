//! The table of dynamic commands as a sequence of rows, and what the
//! management commands do to it when they follow the steps of `commands`:
//! a lookup by guild and name, then at most one write.
use crate::commands::{add_next, copied_row, remove_next, AddStep, RemoveStep, StoreEvent};
use crate::models::CommandRow;
use vstd::prelude::*;

verus! {

/// The guild and the name of a row: what the commands look it up by.
pub open spec fn key_of(row: CommandRow) -> (Seq<char>, Seq<char>) {
    (row.guild_id, row.command)
}

/// Some row has the key `key`.
pub open spec fn has_key(rows: Seq<CommandRow>, key: (Seq<char>, Seq<char>)) -> bool {
    exists|i: int| 0 <= i < rows.len() && key_of(#[trigger] rows[i]) == key
}

/// No two rows have the same guild and name.
pub open spec fn keys_unique(rows: Seq<CommandRow>) -> bool {
    forall|i: int, j: int|
        0 <= i < rows.len() && 0 <= j < rows.len() && i != j ==> key_of(#[trigger] rows[i])
            != key_of(#[trigger] rows[j])
}

/// No two rows have the same id.
pub open spec fn ids_unique(rows: Seq<CommandRow>) -> bool {
    forall|i: int, j: int|
        0 <= i < rows.len() && 0 <= j < rows.len() && i != j ==> (#[trigger] rows[i]).id != (
        #[trigger] rows[j]).id
}

/// The rows without those of key `key` (a delete by guild and name).
pub open spec fn without_key(rows: Seq<CommandRow>, key: (Seq<char>, Seq<char>)) -> Seq<CommandRow>
    decreases rows.len(),
{
    if rows.len() == 0 {
        rows
    } else if key_of(rows.last()) == key {
        without_key(rows.drop_last(), key)
    } else {
        without_key(rows.drop_last(), key).push(rows.last())
    }
}

/// The rows with the row of id `id` renamed to `name` (an update by id).
pub open spec fn renamed_by_id(rows: Seq<CommandRow>, id: Seq<char>, name: Seq<char>) -> Seq<
    CommandRow,
> {
    rows.map_values(|r: CommandRow| if r.id == id { CommandRow { command: name, ..r } } else { r })
}

/// The table after `command add` of `cmd`, whose insert succeeds when
/// `write_ok`.
pub open spec fn after_add(rows: Seq<CommandRow>, cmd: CommandRow, write_ok: bool) -> Seq<
    CommandRow,
> {
    match add_next(StoreEvent::Looked(has_key(rows, key_of(cmd)))) {
        AddStep::Insert => if write_ok {
            rows.push(cmd)
        } else {
            rows
        },
        AddStep::Answer(_) => rows,
    }
}

/// The table after `command remove` of the key `key`, whose delete succeeds
/// when `write_ok`.
pub open spec fn after_remove(
    rows: Seq<CommandRow>,
    key: (Seq<char>, Seq<char>),
    write_ok: bool,
) -> Seq<CommandRow> {
    match remove_next(StoreEvent::Looked(has_key(rows, key))) {
        RemoveStep::Delete => if write_ok {
            without_key(rows, key)
        } else {
            rows
        },
        RemoveStep::Answer(_) => rows,
    }
}

/// The table after `command rename` of the key `key` to `name`: the row
/// found under the key is renamed by its id; nothing changes when there is
/// none.
pub open spec fn after_rename(
    rows: Seq<CommandRow>,
    key: (Seq<char>, Seq<char>),
    name: Seq<char>,
) -> Seq<CommandRow> {
    if has_key(rows, key) {
        let i = choose|i: int| 0 <= i < rows.len() && key_of(#[trigger] rows[i]) == key;
        renamed_by_id(rows, rows[i].id, name)
    } else {
        rows
    }
}

/// The table after `copy-commands-from` copied the rows `origin` into the
/// guild `guild`, the `k`-th under the id `ids[k]`: a name the guild already
/// has is skipped, any other is inserted.
pub open spec fn after_copy(
    rows: Seq<CommandRow>,
    origin: Seq<CommandRow>,
    guild: Seq<char>,
    ids: Seq<Seq<char>>,
) -> Seq<CommandRow>
    decreases origin.len(),
{
    if origin.len() == 0 {
        rows
    } else {
        let before = after_copy(rows, origin.drop_last(), guild, ids);
        if has_key(before, (guild, origin.last().command)) {
            before
        } else {
            before.push(copied_row(origin.last(), ids[origin.len() - 1], guild))
        }
    }
}

/// The names of `origin` that a copy into `guild` skips, given the table
/// before the copy.
pub open spec fn copy_skipped(
    rows: Seq<CommandRow>,
    origin: Seq<CommandRow>,
    guild: Seq<char>,
    ids: Seq<Seq<char>>,
) -> Seq<Seq<char>>
    decreases origin.len(),
{
    if origin.len() == 0 {
        seq![]
    } else {
        let before = after_copy(rows, origin.drop_last(), guild, ids);
        let skipped = copy_skipped(rows, origin.drop_last(), guild, ids);
        if has_key(before, (guild, origin.last().command)) {
            skipped.push(origin.last().command)
        } else {
            skipped
        }
    }
}

/// `command add` keeps the guild and name of every row unique, whatever the
/// outcome: a name that is taken is never inserted again.
pub proof fn lemma_add_keeps_keys_unique(rows: Seq<CommandRow>, cmd: CommandRow, write_ok: bool)
    requires
        keys_unique(rows),
    ensures
        keys_unique(after_add(rows, cmd, write_ok)),
        has_key(rows, key_of(cmd)) ==> after_add(rows, cmd, write_ok) == rows,
{
    let out = after_add(rows, cmd, write_ok);
    if !has_key(rows, key_of(cmd)) && write_ok {
        assert forall|i: int, j: int|
            0 <= i < out.len() && 0 <= j < out.len() && i != j implies key_of(#[trigger] out[i])
            != key_of(#[trigger] out[j]) by {
            if i == rows.len() as int {
                assert(key_of(rows[j]) != key_of(cmd));
            } else if j == rows.len() as int {
                assert(key_of(rows[i]) != key_of(cmd));
            } else {
                assert(out[i] == rows[i] && out[j] == rows[j]);
            }
        }
    }
}

/// Deleting a key that no row has leaves the rows as they are.
proof fn lemma_without_absent_key(rows: Seq<CommandRow>, key: (Seq<char>, Seq<char>))
    requires
        !has_key(rows, key),
    ensures
        without_key(rows, key) == rows,
    decreases rows.len(),
{
    if rows.len() > 0 {
        let prev = rows.drop_last();
        assert(!has_key(prev, key)) by {
            if has_key(prev, key) {
                let i = choose|i: int| 0 <= i < prev.len() && key_of(#[trigger] prev[i]) == key;
                assert(rows[i] == prev[i]);
            }
        }
        assert(key_of(rows[rows.len() - 1]) != key);
        lemma_without_absent_key(prev, key);
        assert(prev.push(rows.last()) =~= rows);
    }
}

/// Adding a command under a free name and then removing it, both writes
/// succeeding, gives back the table as it was.
pub proof fn lemma_add_then_remove_restores(rows: Seq<CommandRow>, cmd: CommandRow)
    requires
        !has_key(rows, key_of(cmd)),
    ensures
        after_remove(after_add(rows, cmd, true), key_of(cmd), true) == rows,
{
    let added = rows.push(cmd);
    assert(after_add(rows, cmd, true) == added);
    assert(has_key(added, key_of(cmd))) by {
        assert(added[rows.len() as int] == cmd);
    }
    assert(added.drop_last() =~= rows);
    lemma_without_absent_key(rows, key_of(cmd));
}

/// Renaming the row of key `key` to `name`, when ids are unique, changes that
/// row's name and nothing else.
proof fn lemma_rename_one(
    rows: Seq<CommandRow>,
    key: (Seq<char>, Seq<char>),
    name: Seq<char>,
) -> (i: int)
    requires
        ids_unique(rows),
        has_key(rows, key),
    ensures
        0 <= i < rows.len(),
        key_of(rows[i]) == key,
        after_rename(rows, key, name) == rows.update(i, CommandRow { command: name, ..rows[i] }),
{
    let i = choose|i: int| 0 <= i < rows.len() && key_of(#[trigger] rows[i]) == key;
    let out = after_rename(rows, key, name);
    assert forall|j: int| 0 <= j < rows.len() && j != i implies rows[j].id != rows[i].id by {}
    assert(out =~= rows.update(i, CommandRow { command: name, ..rows[i] }));
    i
}

/// Renaming a command to a free name and back, in a table where guild and
/// name, and ids, are unique, gives back the table as it was.
pub proof fn lemma_rename_there_and_back(
    rows: Seq<CommandRow>,
    guild: Seq<char>,
    a: Seq<char>,
    b: Seq<char>,
)
    requires
        keys_unique(rows),
        ids_unique(rows),
        has_key(rows, (guild, a)),
        !has_key(rows, (guild, b)),
    ensures
        after_rename(after_rename(rows, (guild, a), b), (guild, b), a) == rows,
{
    let i = lemma_rename_one(rows, (guild, a), b);
    let mid = after_rename(rows, (guild, a), b);
    assert(mid.len() == rows.len());
    assert forall|p: int, q: int|
        0 <= p < mid.len() && 0 <= q < mid.len() && p != q implies (#[trigger] mid[p]).id != (
        #[trigger] mid[q]).id by {
        assert(mid[p].id == rows[p].id && mid[q].id == rows[q].id);
    }
    assert(key_of(mid[i]) == (guild, b));
    assert(has_key(mid, (guild, b)));
    let j = lemma_rename_one(mid, (guild, b), a);
    if j != i {
        assert(mid[j] == rows[j]);
        assert(key_of(rows[j]) == (guild, b));
    }
    assert(j == i);
    assert(after_rename(mid, (guild, b), a) =~= rows);
}

/// A name that a table has stays there after a copy.
proof fn lemma_copy_keeps_keys(
    rows: Seq<CommandRow>,
    origin: Seq<CommandRow>,
    guild: Seq<char>,
    ids: Seq<Seq<char>>,
    key: (Seq<char>, Seq<char>),
)
    requires
        has_key(rows, key),
    ensures
        has_key(after_copy(rows, origin, guild, ids), key),
    decreases origin.len(),
{
    if origin.len() > 0 {
        let before = after_copy(rows, origin.drop_last(), guild, ids);
        lemma_copy_keeps_keys(rows, origin.drop_last(), guild, ids, key);
        let w = choose|i: int| 0 <= i < before.len() && key_of(#[trigger] before[i]) == key;
        let out = after_copy(rows, origin, guild, ids);
        assert(out[w] == before[w]);
    }
}

/// After a copy, the guild has every name of the origin.
proof fn lemma_copy_covers_origin(
    rows: Seq<CommandRow>,
    origin: Seq<CommandRow>,
    guild: Seq<char>,
    ids: Seq<Seq<char>>,
    k: int,
)
    requires
        0 <= k < origin.len(),
    ensures
        has_key(after_copy(rows, origin, guild, ids), (guild, origin[k].command)),
    decreases origin.len(),
{
    let prev = origin.drop_last();
    let before = after_copy(rows, prev, guild, ids);
    let out = after_copy(rows, origin, guild, ids);
    if k < origin.len() - 1 {
        lemma_copy_covers_origin(rows, prev, guild, ids, k);
        assert(prev[k] == origin[k]);
        let w = choose|i: int|
            0 <= i < before.len() && key_of(#[trigger] before[i]) == (guild, origin[k].command);
        assert(out[w] == before[w]);
    } else if !has_key(before, (guild, origin.last().command)) {
        let n = before.len() as int;
        assert(out[n] == copied_row(origin.last(), ids[origin.len() - 1], guild));
        assert(key_of(out[n]) == (guild, origin[k].command));
    }
}

/// A copy into a guild that already has every name of the origin changes
/// nothing and skips every name.
proof fn lemma_copy_onto_covered(
    rows: Seq<CommandRow>,
    origin: Seq<CommandRow>,
    guild: Seq<char>,
    ids: Seq<Seq<char>>,
)
    requires
        forall|k: int| 0 <= k < origin.len() ==> has_key(rows, (guild, #[trigger] origin[k].command)),
    ensures
        after_copy(rows, origin, guild, ids) == rows,
        copy_skipped(rows, origin, guild, ids) == origin.map_values(|o: CommandRow| o.command),
    decreases origin.len(),
{
    if origin.len() > 0 {
        let prev = origin.drop_last();
        assert forall|k: int| 0 <= k < prev.len() implies has_key(
            rows,
            (guild, #[trigger] prev[k].command),
        ) by {
            assert(prev[k] == origin[k]);
        }
        lemma_copy_onto_covered(rows, prev, guild, ids);
        assert(has_key(rows, (guild, origin[origin.len() - 1].command)));
        assert(prev.map_values(|o: CommandRow| o.command).push(origin.last().command)
            =~= origin.map_values(|o: CommandRow| o.command));
    }
}

/// Copying the same commands into a guild a second time, right after the
/// first, changes nothing and lists every name as already there, whatever
/// ids the second copy would have used.
pub proof fn lemma_copy_twice_changes_nothing(
    rows: Seq<CommandRow>,
    origin: Seq<CommandRow>,
    guild: Seq<char>,
    ids: Seq<Seq<char>>,
    more_ids: Seq<Seq<char>>,
)
    ensures
        after_copy(after_copy(rows, origin, guild, ids), origin, guild, more_ids) == after_copy(
            rows,
            origin,
            guild,
            ids,
        ),
        copy_skipped(after_copy(rows, origin, guild, ids), origin, guild, more_ids)
            == origin.map_values(|o: CommandRow| o.command),
{
    let once = after_copy(rows, origin, guild, ids);
    assert forall|k: int| 0 <= k < origin.len() implies has_key(
        once,
        (guild, #[trigger] origin[k].command),
    ) by {
        lemma_copy_covers_origin(rows, origin, guild, ids, k);
    }
    lemma_copy_onto_covered(once, origin, guild, more_ids);
}

} // verus!
