//! What reading, storing and forgetting passwords promise of a store that keeps what it is given:
//! one whose every answer is what a table of the passwords written so far says.
use vstd::prelude::*;

use crate::credentials::{forget_calls, forget_outcome, load_calls, load_outcome, load_shape, PasswordError,
    LEGACY_SERVICE_NAME, SERVICE_NAME};
use crate::keychain::{CredentialError, StoreCall};

verus! {

/// A table of stored passwords, keyed by service and account.
pub type PasswordTable = Map<(Seq<char>, Seq<char>), Seq<char>>;

/// Whether `call`'s answer is the one a store holding `table` gives: a read finds what the table
/// holds, a successful removal says whether there was one. Writes and removals may fail.
pub open spec fn answers_from(table: PasswordTable, call: StoreCall) -> bool {
    match call {
        StoreCall::ReadPassword(service, account, answer) => if table.contains_key((service, account)) {
            answer is Ok && answer->Ok_0 is Some && answer->Ok_0->Some_0@ == table[(service, account)]
        } else {
            answer == Ok::<Option<String>, CredentialError>(None)
        },
        StoreCall::WritePassword(_, _, _, _) => true,
        StoreCall::Remove(service, account, answer) => answer is Ok ==> answer->Ok_0 == table.contains_key(
            (service, account),
        ),
        _ => false,
    }
}

/// The table after `call`: a successful write puts the text in, a successful removal takes the
/// entry out, anything else leaves the table as it was.
pub open spec fn table_after(table: PasswordTable, call: StoreCall) -> PasswordTable {
    match call {
        StoreCall::WritePassword(service, account, value, answer) => if answer is Ok {
            table.insert((service, account), value)
        } else {
            table
        },
        StoreCall::Remove(service, account, answer) => if answer is Ok {
            table.remove((service, account))
        } else {
            table
        },
        _ => table,
    }
}

/// The table after `calls`, when every answer among them is the one a store holding the table
/// gives at that point; `None` when some answer is not.
pub open spec fn replay(table: PasswordTable, calls: Seq<StoreCall>) -> Option<PasswordTable>
    decreases calls.len(),
{
    if calls.len() == 0 {
        Some(table)
    } else {
        match replay(table, calls.drop_last()) {
            Some(before) => if answers_from(before, calls.last()) {
                Some(table_after(before, calls.last()))
            } else {
                None
            },
            None => None,
        }
    }
}

proof fn lemma_replay_push(table: PasswordTable, calls: Seq<StoreCall>, call: StoreCall)
    ensures
        replay(table, calls.push(call)) == match replay(table, calls) {
            Some(before) => if answers_from(before, call) {
                Some(table_after(before, call))
            } else {
                None
            },
            None => None,
        },
{
    assert(calls.push(call).drop_last() =~= calls);
}

proof fn lemma_replay_append(table: PasswordTable, first: Seq<StoreCall>, rest: Seq<StoreCall>)
    ensures
        replay(table, first + rest) == match replay(table, first) {
            Some(middle) => replay(middle, rest),
            None => None,
        },
    decreases rest.len(),
{
    if rest.len() == 0 {
        assert(first + rest =~= first);
    } else {
        lemma_replay_append(table, first, rest.drop_last());
        assert((first + rest).drop_last() =~= first + rest.drop_last());
        assert((first + rest).last() == rest.last());
        if let Some(middle) = replay(table, first) {
            lemma_replay_push(middle, rest.drop_last(), rest.last());
            assert(rest.drop_last().push(rest.last()) =~= rest);
        }
    }
}

proof fn lemma_replay_one(table: PasswordTable, call: StoreCall)
    ensures
        replay(table, seq![call]) == if answers_from(table, call) {
            Some(table_after(table, call))
        } else {
            None::<PasswordTable>
        },
{
    lemma_replay_push(table, Seq::empty(), call);
    assert(Seq::<StoreCall>::empty().push(call) =~= seq![call]);
}

proof fn lemma_replay_none(table: PasswordTable)
    ensures
        replay(table, Seq::empty()) == Some(table),
{
}

/// Replaying the calls of a read, in their four parts.
proof fn lemma_replay_load(
    table: PasswordTable,
    id: Seq<char>,
    current: Result<Option<String>, CredentialError>,
    legacy: Option<Result<Option<String>, CredentialError>>,
    copied: Option<Result<(), CredentialError>>,
    gone: Option<Result<bool, CredentialError>>,
)
    requires
        load_shape(current, legacy, copied, gone),
    ensures
        ({
            let first = StoreCall::ReadPassword(SERVICE_NAME@, id, current);
            let t1 = table_after(table, first);
            replay(table, load_calls(id, current, legacy, copied, gone)) == if !answers_from(table, first) {
                None
            } else {
                match legacy {
                    None => Some(t1),
                    Some(a) => {
                        let second = StoreCall::ReadPassword(LEGACY_SERVICE_NAME@, id, a);
                        let t2 = table_after(t1, second);
                        if !answers_from(t1, second) {
                            None
                        } else {
                            match copied {
                                None => Some(t2),
                                Some(w) => {
                                    let third = StoreCall::WritePassword(SERVICE_NAME@, id, a->Ok_0->Some_0@, w);
                                    let t3 = table_after(t2, third);
                                    match gone {
                                        None => Some(t3),
                                        Some(d) => {
                                            let fourth = StoreCall::Remove(LEGACY_SERVICE_NAME@, id, d);
                                            if answers_from(t3, fourth) {
                                                Some(table_after(t3, fourth))
                                            } else {
                                                None
                                            }
                                        },
                                    }
                                },
                            }
                        }
                    },
                }
            }
        }),
{
    let first = StoreCall::ReadPassword(SERVICE_NAME@, id, current);
    let p1: Seq<StoreCall> = seq![first];
    let p2: Seq<StoreCall> = match legacy {
        Some(answer) => seq![StoreCall::ReadPassword(LEGACY_SERVICE_NAME@, id, answer)],
        None => Seq::empty(),
    };
    let p3: Seq<StoreCall> = match copied {
        Some(answer) => seq![StoreCall::WritePassword(SERVICE_NAME@, id, legacy->Some_0->Ok_0->Some_0@, answer)],
        None => Seq::empty(),
    };
    let p4: Seq<StoreCall> = match gone {
        Some(answer) => seq![StoreCall::Remove(LEGACY_SERVICE_NAME@, id, answer)],
        None => Seq::empty(),
    };
    assert(load_calls(id, current, legacy, copied, gone) == p1 + p2 + p3 + p4);
    lemma_replay_append(table, p1 + p2 + p3, p4);
    lemma_replay_append(table, p1 + p2, p3);
    lemma_replay_append(table, p1, p2);
    lemma_replay_one(table, first);
    let t1 = table_after(table, first);
    if let Some(a) = legacy {
        lemma_replay_one(t1, StoreCall::ReadPassword(LEGACY_SERVICE_NAME@, id, a));
        let t2 = table_after(t1, StoreCall::ReadPassword(LEGACY_SERVICE_NAME@, id, a));
        if let Some(w) = copied {
            lemma_replay_one(t2, StoreCall::WritePassword(SERVICE_NAME@, id, a->Ok_0->Some_0@, w));
            let t3 = table_after(t2, StoreCall::WritePassword(SERVICE_NAME@, id, a->Ok_0->Some_0@, w));
            if let Some(d) = gone {
                lemma_replay_one(t3, StoreCall::Remove(LEGACY_SERVICE_NAME@, id, d));
            } else {
                lemma_replay_none(t3);
            }
        } else {
            lemma_replay_none(t2);
            assert(gone is None);
            lemma_replay_none(t2);
        }
    } else {
        lemma_replay_none(t1);
    }
}

/// A password stored under this app's name reads back: after a write under this app's name that
/// succeeded, a read of a store that keeps what it is given finds that password, and asks
/// nothing of the old name.
pub proof fn a_stored_password_reads_back(
    table: PasswordTable,
    id: Seq<char>,
    password: Seq<char>,
    current: Result<Option<String>, CredentialError>,
    legacy: Option<Result<Option<String>, CredentialError>>,
    copied: Option<Result<(), CredentialError>>,
    gone: Option<Result<bool, CredentialError>>,
)
    requires
        load_shape(current, legacy, copied, gone),
        replay(
            table,
            seq![StoreCall::WritePassword(SERVICE_NAME@, id, password, Ok(()))] + load_calls(id, current, legacy, copied, gone),
        ) is Some,
    ensures
        load_outcome(current, legacy, copied) is Ok,
        load_outcome(current, legacy, copied)->Ok_0@ == password,
        legacy is None,
{
    let write = StoreCall::WritePassword(SERVICE_NAME@, id, password, Ok(()));
    lemma_replay_append(table, seq![write], load_calls(id, current, legacy, copied, gone));
    lemma_replay_one(table, write);
    let t = table.insert((SERVICE_NAME@, id), password);
    lemma_replay_load(t, id, current, legacy, copied, gone);
    assert(t.contains_key((SERVICE_NAME@, id)));
}

/// A password found only under the old name is brought across: the read gives it, and, where the
/// store keeps what it is given, it then stands under this app's name and no longer under the old
/// one. When the copy cannot be written, the read still gives the password and the old name keeps
/// it.
pub proof fn a_password_under_the_old_name_is_brought_across(
    table: PasswordTable,
    id: Seq<char>,
    current: Result<Option<String>, CredentialError>,
    legacy: Option<Result<Option<String>, CredentialError>>,
    copied: Option<Result<(), CredentialError>>,
    gone: Option<Result<bool, CredentialError>>,
)
    requires
        load_shape(current, legacy, copied, gone),
        !table.contains_key((SERVICE_NAME@, id)),
        table.contains_key((LEGACY_SERVICE_NAME@, id)),
        replay(table, load_calls(id, current, legacy, copied, gone)) is Some,
    ensures
        ({
            let after = replay(table, load_calls(id, current, legacy, copied, gone))->Some_0;
            &&& copied is Some
            &&& (copied->Some_0 is Ok ==> load_outcome(current, legacy, copied) is Ok
                && load_outcome(current, legacy, copied)->Ok_0@ == table[(LEGACY_SERVICE_NAME@, id)]
                && after.contains_key((SERVICE_NAME@, id)) && after[(SERVICE_NAME@, id)] == table[(LEGACY_SERVICE_NAME@, id)]
                && (gone->Some_0 is Ok ==> !after.contains_key((LEGACY_SERVICE_NAME@, id))))
            &&& (copied->Some_0 is Err ==> (load_outcome(current, legacy, copied) matches Err(PasswordError::Write(_)))
                && after.contains_key((LEGACY_SERVICE_NAME@, id))
                && after[(LEGACY_SERVICE_NAME@, id)] == table[(LEGACY_SERVICE_NAME@, id)])
        }),
{
    lemma_replay_load(table, id, current, legacy, copied, gone);
    reveal_strlit("com.multiplex.password");
    reveal_strlit("com.termirust.password");
    assert(SERVICE_NAME@ != LEGACY_SERVICE_NAME@) by {
        assert(SERVICE_NAME@[4] != LEGACY_SERVICE_NAME@[4]);
    }
}

/// A password is not found only when neither name holds one: a read of a store that keeps what it
/// is given reports `NotFound` exactly then, and then writes and removes nothing.
pub proof fn a_password_under_neither_name_is_not_found(
    table: PasswordTable,
    id: Seq<char>,
    current: Result<Option<String>, CredentialError>,
    legacy: Option<Result<Option<String>, CredentialError>>,
    copied: Option<Result<(), CredentialError>>,
    gone: Option<Result<bool, CredentialError>>,
)
    requires
        load_shape(current, legacy, copied, gone),
        replay(table, load_calls(id, current, legacy, copied, gone)) is Some,
    ensures
        (load_outcome(current, legacy, copied) matches Err(PasswordError::NotFound))
            <==> (!table.contains_key((SERVICE_NAME@, id)) && !table.contains_key((LEGACY_SERVICE_NAME@, id))),
        (load_outcome(current, legacy, copied) matches Err(PasswordError::NotFound)) ==> copied is None && gone is None
            && replay(table, load_calls(id, current, legacy, copied, gone)) == Some(table),
{
    lemma_replay_load(table, id, current, legacy, copied, gone);
}

/// Forgetting a password takes it from both names: where the store keeps what it is given and
/// both removals succeed, neither name holds it afterwards, and the answer says whether either
/// did.
pub proof fn forgetting_clears_both_names(
    table: PasswordTable,
    id: Seq<char>,
    current: Result<bool, CredentialError>,
    legacy: Option<Result<bool, CredentialError>>,
)
    requires
        legacy is Some <==> current is Ok,
        replay(table, forget_calls(id, current, legacy)) is Some,
        forget_outcome(current, legacy) is Ok,
    ensures
        forget_outcome(current, legacy) == Ok::<bool, PasswordError>(
            table.contains_key((SERVICE_NAME@, id)) || table.contains_key((LEGACY_SERVICE_NAME@, id)),
        ),
        !replay(table, forget_calls(id, current, legacy))->Some_0.contains_key((SERVICE_NAME@, id)),
        !replay(table, forget_calls(id, current, legacy))->Some_0.contains_key((LEGACY_SERVICE_NAME@, id)),
{
    let first = StoreCall::Remove(SERVICE_NAME@, id, current);
    let second = StoreCall::Remove(LEGACY_SERVICE_NAME@, id, legacy->Some_0);
    assert(forget_calls(id, current, legacy) == seq![first] + seq![second]);
    lemma_replay_append(table, seq![first], seq![second]);
    lemma_replay_one(table, first);
    let t1 = table_after(table, first);
    lemma_replay_one(t1, second);
    reveal_strlit("com.multiplex.password");
    reveal_strlit("com.termirust.password");
    assert(SERVICE_NAME@ != LEGACY_SERVICE_NAME@) by {
        assert(SERVICE_NAME@[4] != LEGACY_SERVICE_NAME@[4]);
    }
    assert(t1.contains_key((LEGACY_SERVICE_NAME@, id)) == table.contains_key((LEGACY_SERVICE_NAME@, id)));
}

} // verus!
