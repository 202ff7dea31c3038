use hhbc_emit::iterator::IterId;
use hhbc_emit::jump_targets::{
    ExitKey, Gen, JumpTargets, Region, ResolvedJumpTarget, ResolvedTryFinally, StateId,
};
use hhbc_emit::label::Label;

fn it(idx: u32) -> IterId {
    IterId { idx }
}

#[test]
fn exit_ids_are_dense_and_stable() {
    let mut g = Gen::new();
    assert_eq!(g.get_id_for_label(Label(5)), StateId(0));
    assert_eq!(g.get_id_for_return(), StateId(1));
    assert_eq!(g.get_id_for_label(Label(6)), StateId(2));
    assert_eq!(g.get_id_for_label(Label(5)), StateId(0));
    assert_eq!(g.get_id_for_return(), StateId(1));
    assert_eq!(
        g.exit_keys,
        vec![ExitKey::Label(Label(5)), ExitKey::Return, ExitKey::Label(Label(6))]
    );
    g.release_ids();
    assert_eq!(g.get_id_for_return(), StateId(0));
}

#[test]
fn regions_are_pushed_and_popped() {
    let mut g = Gen::new();
    g.with_function();
    g.with_loop(Label(1), Label(2), vec![it(0)]);
    g.with_switch(Label(3));
    g.with_try_finally(Label(4), vec![]);
    assert_eq!(
        g.jump_targets().as_slice(),
        &[
            Region::Function,
            Region::Loop { label_break: Label(1), label_continue: Label(2), iterators: vec![it(0)] },
            Region::Switch { end_label: Label(3) },
            Region::TryFinally { finally_label: Label(4), iterators: vec![] },
        ]
    );
    g.revert();
    g.revert();
    assert_eq!(g.jump_targets().regions.len(), 2);
    g.revert();
    g.revert();
    g.revert();
    assert_eq!(g.jump_targets, JumpTargets::new());
}

#[test]
fn resolution_counts_loops_and_switches() {
    let mut g = Gen::new();
    g.with_loop(Label(1), Label(2), vec![it(0)]);
    g.with_switch(Label(3));
    g.with_loop(Label(4), Label(5), vec![it(1)]);
    let jt = g.jump_targets();
    assert_eq!(
        jt.get_target_for_level(true, 1),
        ResolvedJumpTarget::ResolvedRegular(Label(4), vec![it(1)])
    );
    assert_eq!(
        jt.get_target_for_level(false, 1),
        ResolvedJumpTarget::ResolvedRegular(Label(5), vec![])
    );
    assert_eq!(
        jt.get_target_for_level(true, 2),
        ResolvedJumpTarget::ResolvedRegular(Label(3), vec![it(1)])
    );
    assert_eq!(
        jt.get_target_for_level(false, 2),
        ResolvedJumpTarget::ResolvedRegular(Label(3), vec![it(1)])
    );
    assert_eq!(
        jt.get_target_for_level(true, 3),
        ResolvedJumpTarget::ResolvedRegular(Label(1), vec![it(1), it(0)])
    );
    assert_eq!(
        jt.get_target_for_level(false, 3),
        ResolvedJumpTarget::ResolvedRegular(Label(2), vec![it(1)])
    );
    assert_eq!(jt.get_target_for_level(true, 4), ResolvedJumpTarget::NotFound);
    assert_eq!(jt.get_target_for_level(true, 0), ResolvedJumpTarget::NotFound);
}

#[test]
fn resolution_stops_at_the_function() {
    let mut g = Gen::new();
    g.with_loop(Label(1), Label(2), vec![it(0)]);
    g.with_try_finally(Label(9), vec![]);
    g.with_function();
    g.with_loop(Label(4), Label(5), vec![it(1)]);
    let jt = g.jump_targets();
    assert_eq!(jt.get_target_for_level(true, 2), ResolvedJumpTarget::NotFound);
    assert_eq!(jt.get_closest_enclosing_finally_label(), None);
    assert_eq!(jt.iterators(), vec![it(1)]);
}

#[test]
fn nearest_finally_decides_the_detour() {
    let mut g = Gen::new();
    g.with_loop(Label(1), Label(2), vec![it(0)]);
    g.with_try_finally(Label(10), vec![]);
    g.with_loop(Label(3), Label(4), vec![it(1)]);
    g.with_try_finally(Label(11), vec![it(7)]);
    g.with_switch(Label(5));
    g.with_loop(Label(6), Label(7), vec![it(2), it(3)]);
    let jt = g.jump_targets();
    assert_eq!(
        jt.get_closest_enclosing_finally_label(),
        Some((Label(11), vec![it(2), it(3), it(7)]))
    );
    assert_eq!(jt.iterators(), vec![it(2), it(3), it(7), it(1), it(0)]);
    assert_eq!(
        jt.get_target_for_level(true, 1),
        ResolvedJumpTarget::ResolvedRegular(Label(6), vec![it(2), it(3)])
    );
    assert_eq!(
        jt.get_target_for_level(true, 2),
        ResolvedJumpTarget::ResolvedRegular(Label(5), vec![it(2), it(3)])
    );
    assert_eq!(
        jt.get_target_for_level(false, 3),
        ResolvedJumpTarget::ResolvedTryFinally(ResolvedTryFinally {
            target_label: Label(4),
            finally_label: Label(11),
            adjusted_level: 1,
            iterators_to_release: vec![it(2), it(3), it(7)],
        })
    );
    assert_eq!(
        jt.get_target_for_level(true, 4),
        ResolvedJumpTarget::ResolvedTryFinally(ResolvedTryFinally {
            target_label: Label(1),
            finally_label: Label(11),
            adjusted_level: 2,
            iterators_to_release: vec![it(2), it(3), it(7)],
        })
    );
    assert_eq!(jt.get_target_for_level(true, 5), ResolvedJumpTarget::NotFound);
}
