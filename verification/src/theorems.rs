//! What holds of the lowering of exits as a whole.

use crate::emitter::StatementState;
use crate::hhbc_ast::{Pseudo, SpecInstruct, SpecOpcodes, SrcLoc, SwitchKind};
use crate::jump_targets::{
    exit_id,
    lemma_exit_id_in_range,
    lemma_exit_id_stable,
    lemma_exit_id_unique,
    ExitKey,
    Region,
    StateId,
};
use crate::label::Label;
use crate::jump_targets::{closest_finally, live_iterators};
use crate::try_finally_rewriter::{
    op,
    spec_emit_exit,
    spec_emit_finally_epilogue,
    spec_handlers,
    spec_iter_free,
    spec_ret,
    spec_verify_return,
    EmitState,
    ascending,
    exit_index,
    exit_key_of,
    insert_exit,
    insert_pos,
    lemma_collect_wf,
    lemma_insert_pos,
    spec_cleanup_try_body,
    spec_collect,
    spec_switch_targets,
    Exits,
};
use vstd::prelude::*;

verus! {

/// A cleaned body holds no return, no `Break` and no `Continue`.
pub proof fn lemma_cleanup_removes_exits<'arena>(body: Seq<SpecInstruct<'arena>>)
    ensures
        forall|k: int|
            0 <= k < spec_cleanup_try_body(body).len() ==> !(#[trigger] spec_cleanup_try_body(
                body,
            )[k]).is_exit(),
{
    let keep = |i: SpecInstruct<'arena>| !i.is_exit();
    assert forall|k: int| 0 <= k < spec_cleanup_try_body(body).len() implies !(
    #[trigger] spec_cleanup_try_body(body)[k]).is_exit() by {
        body.lemma_filter_pred(keep, k);
    }
}

/// Cleaning a body that holds no exit changes nothing.
pub proof fn lemma_cleanup_without_exits<'arena>(body: Seq<SpecInstruct<'arena>>)
    requires
        forall|k: int| 0 <= k < body.len() ==> !(#[trigger] body[k]).is_exit(),
    ensures
        spec_cleanup_try_body(body) == body,
    decreases body.len(),
{
    let keep = |i: SpecInstruct<'arena>| !i.is_exit();
    if body.len() == 0 {
        reveal(Seq::filter);
    } else {
        let front = body.drop_last();
        assert(front.push(body.last()) =~= body);
        assert forall|k: int| 0 <= k < front.len() implies !(#[trigger] front[k]).is_exit() by {
            assert(front[k] == body[k]);
        }
        lemma_cleanup_without_exits(front);
        Seq::lemma_filter_push(front, body.last(), keep);
        assert(keep(body.last()));
    }
}

/// Cleaning is idempotent: cleaning a cleaned body changes nothing.
pub proof fn lemma_cleanup_idempotent<'arena>(body: Seq<SpecInstruct<'arena>>)
    ensures
        spec_cleanup_try_body(spec_cleanup_try_body(body)) == spec_cleanup_try_body(body),
{
    lemma_cleanup_removes_exits(body);
    lemma_cleanup_without_exits(spec_cleanup_try_body(body));
}

/// The scan is a function of the body and the regions: two scans of one
/// body, each with an allocator that has handed out no identifier, find the
/// same exits under the same identifiers.
pub proof fn lemma_collect_deterministic<'arena>(
    regions: Seq<Region>,
    body: Seq<SpecInstruct<'arena>>,
    keys1: Seq<ExitKey>,
    keys2: Seq<ExitKey>,
)
    requires
        keys1.len() == 0,
        keys2.len() == 0,
    ensures
        spec_collect(regions, body, keys1, body.len() as int) == spec_collect(
            regions,
            body,
            keys2,
            body.len() as int,
        ),
{
    assert(keys1 =~= keys2);
}

/// The table of the epilogue's `Switch` is dense. It has one entry for each
/// number from 0 to the greatest exit identifier. The entry at the
/// identifier of an exit is the label of that exit's handler; every other
/// entry is `finally_end`.
pub proof fn lemma_switch_targets_dense<'arena>(
    exits: Exits<'arena>,
    labels: Seq<Label>,
    finally_end: Label,
)
    requires
        ascending(exits),
        exits.len() > 0,
        labels.len() == exits.len(),
    ensures
        spec_switch_targets(exits, labels, finally_end).len() == exits.last().0.0 + 1,
        forall|j: int|
            0 <= j < exits.len() ==> 0 <= (#[trigger] exits[j]).0.0 < spec_switch_targets(
                exits,
                labels,
                finally_end,
            ).len() && spec_switch_targets(exits, labels, finally_end)[exits[j].0.0 as int]
                == labels[j],
        forall|id: int|
            0 <= id < spec_switch_targets(exits, labels, finally_end).len() ==> {
                ||| (#[trigger] spec_switch_targets(exits, labels, finally_end)[id]) == finally_end
                ||| exists|j: int|
                    0 <= j < exits.len() && exits[j].0.0 == id && spec_switch_targets(
                        exits,
                        labels,
                        finally_end,
                    )[id] == labels[j]
            },
{
    let table = spec_switch_targets(exits, labels, finally_end);
    assert forall|j: int| 0 <= j < exits.len() implies 0 <= (#[trigger] exits[j]).0.0
        < table.len() && table[exits[j].0.0 as int] == labels[j] by {
        if j < exits.len() - 1 {
            assert(exits[j].0.0 < exits[exits.len() - 1].0.0);
        }
        let found = exit_index(exits, exits[j].0.0 as int).unwrap();
        if found < j {
            assert(exits[found].0.0 < exits[j].0.0);
        } else if j < found {
            assert(exits[j].0.0 < exits[found].0.0);
        }
    }
    assert forall|id: int| 0 <= id < table.len() implies {
        ||| (#[trigger] table[id]) == finally_end
        ||| exists|j: int| 0 <= j < exits.len() && exits[j].0.0 == id && table[id] == labels[j]
    } by {
        if let Some(j) = exit_index(exits, id) {
            assert(exits[j].0.0 == id && table[id] == labels[j]);
        }
    }
}

/// `i0` is the position of the first instruction of `body` whose exit
/// identifier stands for `k`.
pub open spec fn is_first_exit<'arena>(
    regions: Seq<Region>,
    body: Seq<SpecInstruct<'arena>>,
    k: ExitKey,
    i0: int,
) -> bool {
    &&& 0 <= i0 < body.len()
    &&& exit_key_of(regions, body[i0]) == Some(k)
    &&& forall|i: int| 0 <= i < i0 ==> exit_key_of(regions, #[trigger] body[i]) != Some(k)
}

/// One of the first `n` instructions of `body` is an exit that stands for
/// `k`.
pub open spec fn occurs<'arena>(
    regions: Seq<Region>,
    body: Seq<SpecInstruct<'arena>>,
    k: ExitKey,
    n: int,
) -> bool {
    exists|i: int| 0 <= i < n && i < body.len() && exit_key_of(regions, #[trigger] body[i]) == Some(k)
}

/// Among `exits` is the first exit of `body` that stands for `k`, under the
/// identifier that `k` has with the keys `ks`.
pub open spec fn holds_first_exit<'arena>(
    regions: Seq<Region>,
    body: Seq<SpecInstruct<'arena>>,
    ks: Seq<ExitKey>,
    exits: Exits<'arena>,
    k: ExitKey,
) -> bool {
    exists|j: int, i0: int|
        0 <= j < exits.len() && (#[trigger] exits[j]).0.0 == exit_id(ks, k) && is_first_exit(
            regions,
            body,
            k,
            i0,
        ) && exits[j].1 == #[trigger] body[i0]
}

/// The exit at position `j` has the identifier of a key that one of the
/// first `n` instructions of `body` stands for.
pub open spec fn stems_from_body<'arena>(
    regions: Seq<Region>,
    body: Seq<SpecInstruct<'arena>>,
    ks: Seq<ExitKey>,
    exits: Exits<'arena>,
    j: int,
    n: int,
) -> bool {
    exists|k: ExitKey| #[trigger] occurs(regions, body, k, n) && exits[j].0.0 == exit_id(ks, k)
}

/// An exit whose identifier is among ordered exits leaves them as they are.
pub proof fn lemma_insert_present<'arena>(
    exits: Exits<'arena>,
    id: StateId,
    i: SpecInstruct<'arena>,
    j: int,
)
    requires
        ascending(exits),
        0 <= j < exits.len(),
        exits[j].0 == id,
    ensures
        insert_exit(exits, id, i) == exits,
{
    lemma_insert_pos(exits, id, exits.len() as int);
    let p = insert_pos(exits, id, exits.len() as int);
    assert(j < p);
    if j < p - 1 {
        assert(exits[j].0.0 < exits[p - 1].0.0);
    }
}

/// An exit whose identifier is not among ordered exits is added to them.
pub proof fn lemma_insert_absent<'arena>(exits: Exits<'arena>, id: StateId, i: SpecInstruct<'arena>)
    requires
        ascending(exits),
        forall|j: int| 0 <= j < exits.len() ==> (#[trigger] exits[j]).0 != id,
    ensures
        0 <= insert_pos(exits, id, exits.len() as int) <= exits.len(),
        insert_exit(exits, id, i) == exits.insert(
            insert_pos(exits, id, exits.len() as int),
            (id, i),
        ),
{
    lemma_insert_pos(exits, id, exits.len() as int);
    let p = insert_pos(exits, id, exits.len() as int);
    if p > 0 {
        assert(exits[p - 1].0 != id);
    }
}

/// The first exit for a key among the instructions up to a position where
/// one occurs.
pub proof fn lemma_first_exit_exists<'arena>(
    regions: Seq<Region>,
    body: Seq<SpecInstruct<'arena>>,
    k: ExitKey,
    i: int,
) -> (i0: int)
    requires
        0 <= i < body.len(),
        exit_key_of(regions, body[i]) == Some(k),
    ensures
        is_first_exit(regions, body, k, i0),
        i0 <= i,
    decreases i,
{
    if exists|x: int| 0 <= x < i && exit_key_of(regions, #[trigger] body[x]) == Some(k) {
        let x = choose|x: int| 0 <= x < i && exit_key_of(regions, #[trigger] body[x]) == Some(k);
        lemma_first_exit_exists(regions, body, k, x)
    } else {
        i
    }
}

/// What the scan of the first `n` instructions has found: no more keys
/// than there were with one for each instruction; for each key that an
/// instruction stands for, the first exit for it; and no exit but those.
pub proof fn lemma_collect_invariant<'arena>(
    regions: Seq<Region>,
    body: Seq<SpecInstruct<'arena>>,
    keys: Seq<ExitKey>,
    n: int,
)
    requires
        0 <= n <= body.len(),
        keys.len() + body.len() <= u32::MAX,
    ensures
        spec_collect(regions, body, keys, n).0.len() <= keys.len() + n,
        forall|k: ExitKey| #[trigger]
            occurs(regions, body, k, n) ==> spec_collect(regions, body, keys, n).0.contains(k)
                && holds_first_exit(
                regions,
                body,
                spec_collect(regions, body, keys, n).0,
                spec_collect(regions, body, keys, n).1,
                k,
            ),
        forall|j: int|
            0 <= j < spec_collect(regions, body, keys, n).1.len() ==> #[trigger] stems_from_body(
                regions,
                body,
                spec_collect(regions, body, keys, n).0,
                spec_collect(regions, body, keys, n).1,
                j,
                n,
            ),
    decreases n,
{
    if n > 0 {
        lemma_collect_invariant(regions, body, keys, n - 1);
        lemma_collect_wf(regions, body, keys, n - 1);
        let (ks0, exits0) = spec_collect(regions, body, keys, n - 1);
        let (ks, exits) = spec_collect(regions, body, keys, n);
        match exit_key_of(regions, body[n - 1]) {
            None => {
                assert forall|k: ExitKey| #[trigger] occurs(regions, body, k, n) implies occurs(
                    regions,
                    body,
                    k,
                    n - 1,
                ) by {
                    let i = choose|i: int|
                        0 <= i < n && i < body.len() && exit_key_of(regions, #[trigger] body[i])
                            == Some(k);
                    assert(i < n - 1);
                }
                assert forall|j: int| 0 <= j < exits.len() implies #[trigger] stems_from_body(
                    regions,
                    body,
                    ks,
                    exits,
                    j,
                    n,
                ) by {
                    assert(stems_from_body(regions, body, ks0, exits0, j, n - 1));
                    let k = choose|k: ExitKey| #[trigger]
                        occurs(regions, body, k, n - 1) && exits0[j].0.0 == exit_id(ks0, k);
                    lemma_occurs_later(regions, body, k, n - 1);
                }
            },
            Some(key) => {
                lemma_exit_id_in_range(ks0, key);
                let id = StateId(exit_id(ks0, key) as u32);
                assert(id.0 == exit_id(ks0, key));
                let first = lemma_first_exit_exists(regions, body, key, n - 1);
                // Whether an exit for `key` is there already, and where.
                let seen = occurs(regions, body, key, n - 1);
                if seen {
                    assert(holds_first_exit(regions, body, ks0, exits0, key));
                    let (j0, i0) = choose|j: int, i0: int|
                        0 <= j < exits0.len() && (#[trigger] exits0[j]).0.0 == exit_id(ks0, key)
                            && is_first_exit(regions, body, key, i0) && exits0[j].1
                            == #[trigger] body[i0];
                    lemma_insert_present(exits0, id, body[n - 1], j0);
                    assert(ks == ks0);
                    assert(exits == exits0);
                    assert forall|k: ExitKey| #[trigger]
                        occurs(regions, body, k, n) implies ks.contains(k) && holds_first_exit(
                        regions,
                        body,
                        ks,
                        exits,
                        k,
                    ) by {
                        let i = choose|i: int|
                            0 <= i < n && i < body.len() && exit_key_of(
                                regions,
                                #[trigger] body[i],
                            ) == Some(k);
                        if i == n - 1 {
                            assert(k == key);
                        } else {
                            assert(occurs(regions, body, k, n - 1));
                        }
                    }
                    assert forall|j: int| 0 <= j < exits.len() implies #[trigger] stems_from_body(
                        regions,
                        body,
                        ks,
                        exits,
                        j,
                        n,
                    ) by {
                        assert(stems_from_body(regions, body, ks0, exits0, j, n - 1));
                        let k = choose|k: ExitKey| #[trigger]
                            occurs(regions, body, k, n - 1) && exits0[j].0.0 == exit_id(ks0, k);
                        lemma_occurs_later(regions, body, k, n - 1);
                    }
                } else {
                    assert(first == n - 1) by {
                        if first < n - 1 {
                            assert(exit_key_of(regions, body[first]) == Some(key));
                        }
                    }
                    assert forall|j: int| 0 <= j < exits0.len() implies (#[trigger] exits0[j]).0
                        != id by {
                        assert(stems_from_body(regions, body, ks0, exits0, j, n - 1));
                        let k = choose|k: ExitKey| #[trigger]
                            occurs(regions, body, k, n - 1) && exits0[j].0.0 == exit_id(ks0, k);
                        assert(ks0.contains(k));
                        lemma_exit_id_in_range(ks0, k);
                        if ks0.contains(key) {
                            if exit_id(ks0, k) == exit_id(ks0, key) {
                                lemma_exit_id_unique(ks0, k, key);
                            }
                        }
                    }
                    lemma_insert_absent(exits0, id, body[n - 1]);
                    let p = insert_pos(exits0, id, exits0.len() as int);
                    assert(exits == exits0.insert(p, (id, body[n - 1])));
                    assert(exits[p] == (id, body[n - 1]));
                    assert forall|k: ExitKey| #[trigger]
                        occurs(regions, body, k, n) implies ks.contains(k) && holds_first_exit(
                        regions,
                        body,
                        ks,
                        exits,
                        k,
                    ) by {
                        let i = choose|i: int|
                            0 <= i < n && i < body.len() && exit_key_of(
                                regions,
                                #[trigger] body[i],
                            ) == Some(k);
                        if k == key {
                            assert(exits[p].0.0 == exit_id(ks, key));
                            assert(exits[p].1 == body[first]);
                        } else {
                            assert(i < n - 1);
                            assert(occurs(regions, body, k, n - 1));
                            lemma_exit_id_stable(ks0, k, key);
                            let (j0, i0) = choose|j: int, i0: int|
                                0 <= j < exits0.len() && (#[trigger] exits0[j]).0.0 == exit_id(
                                    ks0,
                                    k,
                                ) && is_first_exit(regions, body, k, i0) && exits0[j].1
                                    == #[trigger] body[i0];
                            let j1 = if j0 < p {
                                j0
                            } else {
                                j0 + 1
                            };
                            assert(exits[j1] == exits0[j0]);
                            assert(exits[j1].0.0 == exit_id(ks, k) && exits[j1].1 == body[i0]);
                        }
                    }
                    assert forall|j: int| 0 <= j < exits.len() implies #[trigger] stems_from_body(
                        regions,
                        body,
                        ks,
                        exits,
                        j,
                        n,
                    ) by {
                        if j == p {
                            assert(occurs(regions, body, key, n)) by {
                                assert(exit_key_of(regions, body[n - 1]) == Some(key));
                            }
                            assert(exits[j].0.0 == exit_id(ks, key));
                        } else {
                            let j0 = if j < p {
                                j
                            } else {
                                j - 1
                            };
                            assert(exits[j] == exits0[j0]);
                            assert(stems_from_body(regions, body, ks0, exits0, j0, n - 1));
                            let k = choose|k: ExitKey| #[trigger]
                                occurs(regions, body, k, n - 1) && exits0[j0].0.0 == exit_id(
                                    ks0,
                                    k,
                                );
                            lemma_occurs_later(regions, body, k, n - 1);
                            lemma_exit_id_stable(ks0, k, key);
                        }
                    }
                }
            },
        }
    } else {
        assert forall|k: ExitKey| !#[trigger] occurs(regions, body, k, n) by {}
    }
}

/// What occurs among the first `n` instructions occurs among the first
/// `n + 1`.
pub proof fn lemma_occurs_later<'arena>(
    regions: Seq<Region>,
    body: Seq<SpecInstruct<'arena>>,
    k: ExitKey,
    n: int,
)
    requires
        occurs(regions, body, k, n),
    ensures
        occurs(regions, body, k, n + 1),
{
    let i = choose|i: int|
        0 <= i < n && i < body.len() && exit_key_of(regions, #[trigger] body[i]) == Some(k);
    assert(0 <= i < n + 1 && i < body.len() && exit_key_of(regions, body[i]) == Some(k));
}

/// The first exit wins, and each exit identifier has one exit: for every
/// exit of the body, the scan holds exactly one exit under the identifier
/// of what it stands for, and that is the first exit of the body that
/// stands for the same.
pub proof fn lemma_collect_first_wins<'arena>(
    regions: Seq<Region>,
    body: Seq<SpecInstruct<'arena>>,
    keys: Seq<ExitKey>,
    i: int,
) -> (found: (int, int))
    requires
        keys.len() + body.len() <= u32::MAX,
        0 <= i < body.len(),
        exit_key_of(regions, body[i]) is Some,
    ensures
        ({
            let k = exit_key_of(regions, body[i]).unwrap();
            let (ks, exits) = spec_collect(regions, body, keys, body.len() as int);
            let (j, i0) = found;
            &&& ks.contains(k)
            &&& 0 <= j < exits.len()
            &&& exits[j].0.0 == exit_id(ks, k)
            &&& forall|other: int|
                0 <= other < exits.len() && other != j ==> (#[trigger] exits[other]).0.0 != exit_id(
                    ks,
                    k,
                )
            &&& is_first_exit(regions, body, k, i0)
            &&& i0 <= i
            &&& exits[j].1 == body[i0]
        }),
{
    let n = body.len() as int;
    let k = exit_key_of(regions, body[i]).unwrap();
    let (ks, exits) = spec_collect(regions, body, keys, n);
    lemma_collect_invariant(regions, body, keys, n);
    lemma_collect_wf(regions, body, keys, n);
    assert(occurs(regions, body, k, n));
    assert(holds_first_exit(regions, body, ks, exits, k));
    let (j, i0) = choose|j: int, i0: int|
        0 <= j < exits.len() && (#[trigger] exits[j]).0.0 == exit_id(ks, k) && is_first_exit(
            regions,
            body,
            k,
            i0,
        ) && exits[j].1 == #[trigger] body[i0];
    assert(i0 <= i) by {
        if i < i0 {
            assert(exit_key_of(regions, body[i]) != Some(k));
        }
    }
    assert forall|other: int| 0 <= other < exits.len() && other != j implies (
    #[trigger] exits[other]).0.0 != exit_id(ks, k) by {
        if other < j {
            assert(exits[other].0.0 < exits[j].0.0);
        } else {
            assert(exits[j].0.0 < exits[other].0.0);
        }
    }
    (j, i0)
}

/// Every label that `instrs` defines has a number below `floor`.
pub open spec fn labels_below<'arena>(instrs: Seq<SpecInstruct<'arena>>, floor: int) -> bool {
    forall|q: int|
        0 <= q < instrs.len() ==> (#[trigger] instrs[q] matches SpecInstruct::Pseudo(
            Pseudo::Label(l),
        ) ==> l.0 < floor)
}

/// The code that the statement state brings along defines no label from
/// `floor` on.
pub open spec fn state_labels_below<'arena>(ss: StatementState<'arena>, floor: int) -> bool {
    &&& labels_below(ss.verify_out@, floor)
    &&& ss.verify_return matches Some(h) ==> labels_below(h.type_structure@, floor)
}

/// `instrs` defines the label `l` at exactly one position.
pub open spec fn defined_once<'arena>(instrs: Seq<SpecInstruct<'arena>>, l: Label) -> bool {
    exists|p: int|
        0 <= p < instrs.len() && #[trigger] instrs[p] == SpecInstruct::<'arena>::Pseudo(
            Pseudo::Label(l),
        ) && forall|q: int|
            0 <= q < instrs.len() && q != p ==> #[trigger] instrs[q] != SpecInstruct::<
                'arena,
            >::Pseudo(Pseudo::Label(l))
}

/// The code that carries an exit on defines no label but, at most, the next
/// fresh one, besides those that the code of the statement state defines.
pub proof fn lemma_exit_code_labels<'arena>(
    st: EmitState<'arena>,
    ss: StatementState<'arena>,
    regions: Seq<Region>,
    pos: SrcLoc,
    i: SpecInstruct<'arena>,
    floor: int,
)
    requires
        floor <= st.label_gen.next < u32::MAX,
        state_labels_below(ss, floor),
    ensures
        st.label_gen.next <= spec_emit_exit(st, ss, regions, pos, i).state.label_gen.next
            <= st.label_gen.next + 1,
        forall|q: int|
            0 <= q < spec_emit_exit(st, ss, regions, pos, i).instrs.len() ==> (
            #[trigger] spec_emit_exit(st, ss, regions, pos, i).instrs[q] matches SpecInstruct::Pseudo(
                Pseudo::Label(l),
            ) ==> l.0 < floor || (l.0 == st.label_gen.next && spec_emit_exit(
                st,
                ss,
                regions,
                pos,
                i,
            ).state.label_gen.next == st.label_gen.next + 1)),
{
    reveal(spec_emit_exit);
    let emitted = spec_emit_exit(st, ss, regions, pos, i);
    match i {
        SpecInstruct::Pseudo(Pseudo::Break(level)) => {},
        SpecInstruct::Pseudo(Pseudo::Continue(level)) => {},
        _ => {
            match closest_finally(regions) {
                Some(_) => {},
                None => {
                    let load: Seq<SpecInstruct<'arena>> = seq![
                        op(SpecOpcodes::CGetL(st.local_gen.retval_local())),
                    ];
                    let (verify, labels) = spec_verify_return(
                        ss.verify_return,
                        Label(st.label_gen.next),
                    );
                    let free = spec_iter_free::<'arena>(live_iterators(regions));
                    assert(emitted.instrs == load + verify + ss.verify_out@ + free + seq![
                        spec_ret(ss.num_out),
                    ]);
                    assert forall|q: int| 0 <= q < verify.len() implies (
                    #[trigger] verify[q] matches SpecInstruct::Pseudo(Pseudo::Label(l)) ==> l.0
                        < floor || (l.0 == st.label_gen.next && labels == 1)) by {
                        if let Some(h) = ss.verify_return {
                            let ts = h.type_structure@;
                            if h.level is Maybe || (h.level is Definitely && !h.nullable) {
                                if q < ts.len() {
                                    assert(verify[q] == ts[q]);
                                }
                            } else if h.level is Definitely {
                                if 3 <= q < 3 + ts.len() {
                                    assert(verify[q] == ts[q - 3]);
                                }
                            }
                        }
                    }
                    assert forall|q: int| 0 <= q < emitted.instrs.len() implies (
                    #[trigger] emitted.instrs[q] matches SpecInstruct::Pseudo(
                        Pseudo::Label(l),
                    ) ==> l.0 < floor || (l.0 == st.label_gen.next
                        && emitted.state.label_gen.next == st.label_gen.next + 1)) by {
                        let a = load.len();
                        let b = a + verify.len();
                        let c = b + ss.verify_out@.len();
                        let d = c + free.len();
                        if q < a {
                        } else if q < b {
                            assert(emitted.instrs[q] == verify[q - a]);
                        } else if q < c {
                            assert(emitted.instrs[q] == ss.verify_out@[q - b]);
                        } else if q < d {
                            assert(emitted.instrs[q] == free[q - c]);
                        } else {
                        }
                    }
                },
            }
        },
    }
}

/// The handlers of an epilogue define their labels once each.
///
/// Let the code that the statement state brings along define labels that
/// were handed out before only. Then each label of a handler is fresh, and
/// the handlers define it at exactly one position; and they define no label
/// that has not been handed out by the time they are emitted.
pub proof fn lemma_handler_labels_defined_once<'arena>(
    st: EmitState<'arena>,
    ss: StatementState<'arena>,
    regions: Seq<Region>,
    pos: SrcLoc,
    exits: Exits<'arena>,
    k: int,
)
    requires
        0 <= k <= exits.len(),
        st.label_gen.next + 2 * (exits.len() - k) <= u32::MAX,
        state_labels_below(ss, st.label_gen.next as int),
    ensures
        ({
            let h = spec_handlers(st, ss, regions, pos, exits, k);
            &&& h.labels.len() == exits.len() - k
            &&& st.label_gen.next <= h.state.label_gen.next <= st.label_gen.next + 2 * (exits.len()
                - k)
            &&& labels_below(h.bodies, h.state.label_gen.next as int)
            &&& forall|j: int|
                0 <= j < h.labels.len() ==> st.label_gen.next <= (#[trigger] h.labels[j]).0
                    < h.state.label_gen.next && defined_once(h.bodies, h.labels[j])
        }),
    decreases exits.len() - k,
{
    let h = spec_handlers(st, ss, regions, pos, exits, k);
    if k < exits.len() {
        lemma_handler_labels_defined_once(st, ss, regions, pos, exits, k + 1);
        let later = spec_handlers(st, ss, regions, pos, exits, k + 1);
        let label = Label(later.state.label_gen.next);
        let before = EmitState {
            label_gen: later.state.label_gen.advance(1),
            local_gen: later.state.local_gen,
            exit_keys: later.state.exit_keys,
        };
        let emitted = spec_emit_exit(before, ss, regions, pos, exits[k].1);
        lemma_exit_code_labels(before, ss, regions, pos, exits[k].1, st.label_gen.next as int);
        let head = seq![SpecInstruct::<'arena>::Pseudo(Pseudo::Label(label))];
        let m = emitted.instrs.len() as int;
        assert(h.bodies == head + emitted.instrs + later.bodies);
        assert forall|q: int| 0 <= q < h.bodies.len() implies (
        #[trigger] h.bodies[q] matches SpecInstruct::Pseudo(Pseudo::Label(l)) ==> l.0
            < h.state.label_gen.next) by {
            if q == 0 {
            } else if q < 1 + m {
                assert(h.bodies[q] == emitted.instrs[q - 1]);
            } else {
                assert(h.bodies[q] == later.bodies[q - 1 - m]);
            }
        }
        assert forall|j: int| 0 <= j < h.labels.len() implies st.label_gen.next <= (
        #[trigger] h.labels[j]).0 < h.state.label_gen.next && defined_once(
            h.bodies,
            h.labels[j],
        ) by {
            let l = h.labels[j];
            let target = SpecInstruct::<'arena>::Pseudo(Pseudo::Label(l));
            if j == 0 {
                assert(l == label);
                assert(h.bodies[0] == target);
                assert forall|q: int| 0 <= q < h.bodies.len() && q != 0 implies #[trigger] h.bodies[q]
                    != target by {
                    if q < 1 + m {
                        assert(h.bodies[q] == emitted.instrs[q - 1]);
                    } else {
                        assert(h.bodies[q] == later.bodies[q - 1 - m]);
                    }
                }
            } else {
                assert(l == later.labels[j - 1]);
                assert(defined_once(later.bodies, l));
                let inner = choose|p: int|
                    0 <= p < later.bodies.len() && #[trigger] later.bodies[p] == target && forall|
                        q: int,
                    |
                        0 <= q < later.bodies.len() && q != p ==> #[trigger] later.bodies[q]
                            != target;
                let p = inner + 1 + m;
                assert(h.bodies[p] == later.bodies[inner]);
                assert forall|q: int| 0 <= q < h.bodies.len() && q != p implies #[trigger] h.bodies[q]
                    != target by {
                    if q == 0 {
                    } else if q < 1 + m {
                        assert(h.bodies[q] == emitted.instrs[q - 1]);
                    } else {
                        assert(h.bodies[q] == later.bodies[q - 1 - m]);
                    }
                }
            }
        }
    }
}

/// The epilogue for several exits dispatches to one handler for each exit.
///
/// The handlers are as many as the exits. The `Switch` table leads from the
/// identifier of each exit to the label of its handler and from every other
/// index to `finally_end`.
pub proof fn lemma_epilogue_one_handler_per_exit<'arena>(
    st: EmitState<'arena>,
    ss: StatementState<'arena>,
    regions: Seq<Region>,
    pos: SrcLoc,
    exits: Exits<'arena>,
    finally_end: Label,
)
    requires
        ascending(exits),
        exits.len() > 0,
    ensures
        ({
            let h = spec_handlers(st, ss, regions, pos, exits, 0);
            let table = spec_switch_targets(exits, h.labels, finally_end);
            &&& h.labels.len() == exits.len()
            &&& table.len() == exits.last().0.0 + 1
            &&& forall|j: int|
                0 <= j < exits.len() ==> table[(#[trigger] exits[j]).0.0 as int] == h.labels[j]
            &&& forall|id: int|
                0 <= id < table.len() && exit_index(exits, id) is None ==> #[trigger] table[id]
                    == finally_end
        }),
{
    lemma_handlers_count(st, ss, regions, pos, exits, 0);
    let h = spec_handlers(st, ss, regions, pos, exits, 0);
    lemma_switch_targets_dense(exits, h.labels, finally_end);
}

/// There is one handler label for each exit.
pub proof fn lemma_handlers_count<'arena>(
    st: EmitState<'arena>,
    ss: StatementState<'arena>,
    regions: Seq<Region>,
    pos: SrcLoc,
    exits: Exits<'arena>,
    k: int,
)
    requires
        0 <= k <= exits.len(),
    ensures
        spec_handlers(st, ss, regions, pos, exits, k).labels.len() == exits.len() - k,
    decreases exits.len() - k,
{
    if k < exits.len() {
        lemma_handlers_count(st, ss, regions, pos, exits, k + 1);
    }
}

/// Every target of the epilogue's `Switch` is `finally_end` or a label that
/// the epilogue defines at exactly one position.
///
/// This holds where the code that the statement state brings along defines
/// labels that were handed out before only, and the label generator has two
/// labels left for each exit.
pub proof fn lemma_epilogue_targets_defined_once<'arena>(
    st: EmitState<'arena>,
    ss: StatementState<'arena>,
    regions: Seq<Region>,
    pos: SrcLoc,
    exits: Exits<'arena>,
    finally_end: Label,
)
    requires
        ascending(exits),
        exits.len() > 1,
        st.label_gen.next + 2 * exits.len() <= u32::MAX,
        state_labels_below(ss, st.label_gen.next as int),
    ensures
        ({
            let epilogue = spec_emit_finally_epilogue(st, ss, regions, pos, exits, finally_end);
            let table = spec_switch_targets(
                exits,
                spec_handlers(st, ss, regions, pos, exits, 0).labels,
                finally_end,
            );
            &&& epilogue.instrs[4] == op(SpecOpcodes::Switch(SwitchKind::Unbounded, 0, table))
            &&& forall|id: int|
                0 <= id < table.len() ==> (#[trigger] table[id]) == finally_end || defined_once(
                    epilogue.instrs,
                    table[id],
                )
        }),
{
    let epilogue = spec_emit_finally_epilogue(st, ss, regions, pos, exits, finally_end);
    let h = spec_handlers(st, ss, regions, pos, exits, 0);
    let table = spec_switch_targets(exits, h.labels, finally_end);
    lemma_handler_labels_defined_once(st, ss, regions, pos, exits, 0);
    lemma_switch_targets_dense(exits, h.labels, finally_end);
    assert forall|id: int| 0 <= id < table.len() implies (#[trigger] table[id]) == finally_end
        || defined_once(epilogue.instrs, table[id]) by {
        if table[id] != finally_end {
            let j = choose|j: int|
                0 <= j < exits.len() && exits[j].0.0 == id && table[id] == h.labels[j];
            let l = h.labels[j];
            let target = SpecInstruct::<'arena>::Pseudo(Pseudo::Label(l));
            assert(defined_once(h.bodies, l));
            let inner = choose|p: int|
                0 <= p < h.bodies.len() && #[trigger] h.bodies[p] == target && forall|q: int|
                    0 <= q < h.bodies.len() && q != p ==> #[trigger] h.bodies[q] != target;
            assert(epilogue.instrs[inner + 5] == h.bodies[inner]);
            assert forall|q: int|
                0 <= q < epilogue.instrs.len() && q != inner + 5 implies #[trigger] epilogue.instrs[q]
                != target by {
                if q >= 5 {
                    assert(epilogue.instrs[q] == h.bodies[q - 5]);
                }
            }
        }
    }
}

/// Every exit of a protected body has exactly one handler.
///
/// Let a body be scanned and an epilogue be emitted for the exits found.
/// Then for each return, and each `Break` and `Continue` that resolves,
/// the exits found hold one exit under its identifier: the first exit of
/// the body that stands for the same. That exit has a handler, and the table
/// of the `Switch` leads from the identifier to the handler's label.
pub proof fn lemma_every_exit_has_one_handler<'arena>(
    scanned: Seq<Region>,
    body: Seq<SpecInstruct<'arena>>,
    keys: Seq<ExitKey>,
    st: EmitState<'arena>,
    ss: StatementState<'arena>,
    regions: Seq<Region>,
    pos: SrcLoc,
    finally_end: Label,
    i: int,
) -> (found: (int, int))
    requires
        keys.len() + body.len() <= u32::MAX,
        0 <= i < body.len(),
        exit_key_of(scanned, body[i]) is Some,
    ensures
        ({
            let k = exit_key_of(scanned, body[i]).unwrap();
            let (ks, exits) = spec_collect(scanned, body, keys, body.len() as int);
            let handlers = spec_handlers(st, ss, regions, pos, exits, 0);
            let table = spec_switch_targets(exits, handlers.labels, finally_end);
            let (j, first) = found;
            &&& 0 <= j < exits.len() == handlers.labels.len()
            &&& exits[j].0.0 == exit_id(ks, k)
            &&& forall|other: int|
                0 <= other < exits.len() && other != j ==> (#[trigger] exits[other]).0.0 != exit_id(
                    ks,
                    k,
                )
            &&& is_first_exit(scanned, body, k, first)
            &&& exits[j].1 == body[first]
            &&& 0 <= exit_id(ks, k) < table.len()
            &&& table[exit_id(ks, k)] == handlers.labels[j]
        }),
{
    let found = lemma_collect_first_wins(scanned, body, keys, i);
    let (ks, exits) = spec_collect(scanned, body, keys, body.len() as int);
    lemma_collect_wf(scanned, body, keys, body.len() as int);
    lemma_epilogue_one_handler_per_exit(st, ss, regions, pos, exits, finally_end);
    let handlers = spec_handlers(st, ss, regions, pos, exits, 0);
    lemma_switch_targets_dense(exits, handlers.labels, finally_end);
    found
}

} // verus!
