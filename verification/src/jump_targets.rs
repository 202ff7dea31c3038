//! The stack of enclosing constructs that a jump may have to leave, and the
//! allocator of exit identifiers.
//!
//! The stack holds one region per loop, switch and protected `try` body that
//! encloses the point of emission, innermost last. A `Function` region marks
//! the bottom of a function: nothing below it is visible to a jump.
//!
//! A region may have loop iterators registered on it. They are live inside
//! the region and have to be released by every jump that leaves it. A jump
//! into the `finally` block of a `TryFinally` region leaves that region; a
//! `break` leaves the loop it names, a `continue` stays inside it.

use crate::iterator::IterId;
use crate::label::Label;
use vstd::prelude::*;

verus! {

/// The level of a `break` or `continue`: how many enclosing loops and
/// switches it leaves, counted from 1.
pub type Level = usize;

/// One enclosing construct.
#[derive(Debug, PartialEq, Eq)]
pub enum Region {
    Loop { label_break: Label, label_continue: Label, iterators: Vec<IterId> },
    Switch { end_label: Label },
    TryFinally { finally_label: Label, iterators: Vec<IterId> },
    Function,
}

impl Region {
    /// The iterators registered on the region, in the order of release.
    pub open spec fn iterators(self) -> Seq<IterId> {
        match self {
            Region::Loop { iterators, .. } => iterators@,
            Region::TryFinally { iterators, .. } => iterators@,
            _ => Seq::empty(),
        }
    }

    /// A region that counts for the level of a `break` or `continue`.
    pub open spec fn is_breakable(self) -> bool {
        self is Loop || self is Switch
    }

    /// The label of the region that a jump goes to: of a loop, where a
    /// `break` (or else a `continue`) that names the loop goes; of a switch,
    /// its end for both; of a `TryFinally` region, its `finally` block. A
    /// `Function` region has none, and the value is of no use.
    pub open spec fn target_label(self, is_break: bool) -> Label {
        match self {
            Region::Loop { label_break, label_continue, .. } => if is_break {
                label_break
            } else {
                label_continue
            },
            Region::Switch { end_label } => end_label,
            Region::TryFinally { finally_label, .. } => finally_label,
            Region::Function => Label(0),
        }
    }
}

/// The index of the region that a `break` or `continue` of the given level
/// names, when it is emitted inside the first `n` regions of `s`: the
/// `level`-th loop or switch counted from the innermost, if that many lie
/// above the nearest `Function` region.
pub open spec fn target_region(s: Seq<Region>, n: int, level: int) -> Option<int>
    decreases n,
{
    if n <= 0 || n > s.len() || level <= 0 {
        None
    } else {
        match s[n - 1] {
            Region::Function => None,
            Region::TryFinally { .. } => target_region(s, n - 1, level),
            _ => if level == 1 {
                Some(n - 1)
            } else {
                target_region(s, n - 1, level - 1)
            },
        }
    }
}

/// The index of the innermost `TryFinally` region among the first `n`
/// regions of `s` that lies above the nearest `Function` region.
pub open spec fn nearest_finally(s: Seq<Region>, n: int) -> Option<int>
    decreases n,
{
    if n <= 0 || n > s.len() {
        None
    } else {
        match s[n - 1] {
            Region::Function => None,
            Region::TryFinally { .. } => Some(n - 1),
            _ => nearest_finally(s, n - 1),
        }
    }
}

/// The index of the first region of the innermost function among the first
/// `n` regions of `s`: one past the nearest `Function` region, or 0.
pub open spec fn scope_start(s: Seq<Region>, n: int) -> int
    decreases n,
{
    if n <= 0 || n > s.len() {
        0
    } else if s[n - 1] is Function {
        n
    } else {
        scope_start(s, n - 1)
    }
}

/// The iterators registered on the regions `lo..hi` of `s`, innermost
/// region first.
pub open spec fn released(s: Seq<Region>, lo: int, hi: int) -> Seq<IterId>
    decreases hi - lo,
{
    if lo >= hi || lo < 0 || hi > s.len() {
        Seq::empty()
    } else {
        released(s, lo + 1, hi) + s[lo].iterators()
    }
}

/// The number of loops and switches among the regions `lo..hi` of `s`.
pub open spec fn breakables(s: Seq<Region>, lo: int, hi: int) -> int
    decreases hi - lo,
{
    if lo >= hi || lo < 0 || hi > s.len() {
        0
    } else {
        breakables(s, lo + 1, hi) + if s[lo].is_breakable() {
            1int
        } else {
            0int
        }
    }
}

/// The innermost `TryFinally` region among the first `n` regions is one of
/// them.
pub proof fn lemma_nearest_finally_bound(s: Seq<Region>, n: int)
    ensures
        nearest_finally(s, n) matches Some(f) ==> 0 <= f < n && s[f] is TryFinally,
    decreases n,
{
    if 0 < n <= s.len() {
        lemma_nearest_finally_bound(s, n - 1);
    }
}

/// The count of loops and switches among some regions is not negative.
pub proof fn lemma_breakables_bound(s: Seq<Region>, lo: int, hi: int)
    ensures
        0 <= breakables(s, lo, hi),
    decreases hi - lo,
{
    if 0 <= lo < hi <= s.len() {
        lemma_breakables_bound(s, lo + 1, hi);
    }
}

/// A jump that names a region among the first `n` has a level above the
/// number of loops and switches between any place above that region and `n`.
pub proof fn lemma_target_region_counts(s: Seq<Region>, n: int, level: int, lo: int)
    requires
        target_region(s, n, level) matches Some(t) && t < lo <= n,
    ensures
        breakables(s, lo, n) < level,
    decreases n - lo,
{
    lemma_target_region_bound(s, n, level);
    if lo < n {
        lemma_breakables_split(s, lo, n);
        match s[n - 1] {
            Region::Function => {},
            Region::TryFinally { .. } => {
                lemma_target_region_counts(s, n - 1, level, lo);
            },
            _ => {
                if level != 1 {
                    lemma_target_region_counts(s, n - 1, level - 1, lo);
                } else {
                }
            },
        }
    }
}

/// The count of loops and switches among `lo..hi` is the count among
/// `lo..hi - 1` and the count of the last region.
pub proof fn lemma_breakables_split(s: Seq<Region>, lo: int, hi: int)
    requires
        0 <= lo < hi <= s.len(),
    ensures
        breakables(s, lo, hi) == breakables(s, lo, hi - 1) + if s[hi - 1].is_breakable() {
            1int
        } else {
            0int
        },
    decreases hi - lo,
{
    if lo + 1 < hi {
        lemma_breakables_split(s, lo + 1, hi);
        assert(breakables(s, lo, hi - 1) == breakables(s, lo + 1, hi - 1) + if s[lo].is_breakable() {
            1int
        } else {
            0int
        });
    } else {
        assert(breakables(s, lo + 1, hi) == 0);
        assert(breakables(s, lo, hi - 1) == 0);
    }
}

/// The region that a jump names among the first `n` regions is one of them,
/// and a loop or a switch.
pub proof fn lemma_target_region_bound(s: Seq<Region>, n: int, level: int)
    ensures
        target_region(s, n, level) matches Some(t) ==> 0 <= t < n <= s.len() && s[t].is_breakable()
            && level >= 1,
    decreases n,
{
    if 0 < n <= s.len() && level > 0 {
        lemma_target_region_bound(s, n - 1, level);
        lemma_target_region_bound(s, n - 1, level - 1);
    }
}

/// Where a `break` or `continue` goes, in contracts.
pub enum SpecResolved {
    /// Fewer loops and switches enclose the jump than its level asks for.
    NotFound,
    /// A `finally` block lies between the jump and its target.
    TryFinally {
        target_label: Label,
        finally_label: Label,
        adjusted_level: int,
        iterators_to_release: Seq<IterId>,
    },
    /// No `finally` block lies between the jump and its target.
    Regular { target_label: Label, iterators_to_release: Seq<IterId> },
}

/// The resolution of a `break` (or else a `continue`) of the given level
/// that is emitted inside all the regions of `s`.
///
/// With a `TryFinally` region between the jump and its target, the jump goes
/// to the innermost such region's `finally` block first. It releases the
/// iterators of the regions it leaves on the way there, and the level that is
/// left for the jump after the block is the level less the loops and
/// switches left already.
pub open spec fn resolve(s: Seq<Region>, is_break: bool, level: int) -> SpecResolved {
    match target_region(s, s.len() as int, level) {
        None => SpecResolved::NotFound,
        Some(t) => {
            let target_label = s[t].target_label(is_break);
            match nearest_finally(s, s.len() as int) {
                Some(f) if f > t => SpecResolved::TryFinally {
                    target_label,
                    finally_label: s[f].target_label(is_break),
                    adjusted_level: level - breakables(s, f + 1, s.len() as int),
                    iterators_to_release: released(s, f, s.len() as int),
                },
                _ => SpecResolved::Regular {
                    target_label,
                    iterators_to_release: released(
                        s,
                        if is_break {
                            t
                        } else {
                            t + 1
                        },
                        s.len() as int,
                    ),
                },
            }
        },
    }
}

/// The label that a `break` or `continue` is headed for in the end, if it
/// resolves.
pub open spec fn resolved_label(s: Seq<Region>, is_break: bool, level: int) -> Option<Label> {
    match resolve(s, is_break, level) {
        SpecResolved::NotFound => None,
        SpecResolved::TryFinally { target_label, .. } => Some(target_label),
        SpecResolved::Regular { target_label, .. } => Some(target_label),
    }
}

/// The nearest enclosing `finally` block and the iterators to release on
/// the way into it, in contracts.
pub open spec fn closest_finally(s: Seq<Region>) -> Option<(Label, Seq<IterId>)> {
    match nearest_finally(s, s.len() as int) {
        None => None,
        Some(f) => Some((s[f].target_label(true), released(s, f, s.len() as int))),
    }
}

/// All the iterators that are live in the innermost function, innermost
/// region first.
pub open spec fn live_iterators(s: Seq<Region>) -> Seq<IterId> {
    released(s, scope_start(s, s.len() as int), s.len() as int)
}

/// The level that is left after a `finally` block does not exceed the level
/// of the jump.
pub proof fn lemma_adjusted_level_bound(regions: Seq<Region>, is_break: bool, level: int)
    ensures
        resolve(regions, is_break, level) matches SpecResolved::TryFinally {
            adjusted_level,
            ..
        } ==> 1 <= adjusted_level <= level,
{
    let n = regions.len() as int;
    if let Some(t) = target_region(regions, n, level) {
        if let Some(f) = nearest_finally(regions, n) {
            if f > t {
                lemma_nearest_finally_bound(regions, n);
                lemma_breakables_bound(regions, f + 1, n);
                lemma_target_region_counts(regions, n, level, f + 1);
            }
        }
    }
}

/// A jump that has to pass through a `finally` block first.
#[derive(Debug, PartialEq, Eq)]
pub struct ResolvedTryFinally {
    /// Where the jump is headed for in the end.
    pub target_label: Label,
    /// The `finally` block to run first.
    pub finally_label: Label,
    /// The level that is left for the jump once the block has run.
    pub adjusted_level: Level,
    /// The iterators to release on the way into the block.
    pub iterators_to_release: Vec<IterId>,
}

/// Where a `break` or `continue` goes.
#[derive(Debug, PartialEq, Eq)]
pub enum ResolvedJumpTarget {
    NotFound,
    ResolvedTryFinally(ResolvedTryFinally),
    ResolvedRegular(Label, Vec<IterId>),
}

impl View for ResolvedJumpTarget {
    type V = SpecResolved;

    open spec fn view(&self) -> SpecResolved {
        match *self {
            ResolvedJumpTarget::NotFound => SpecResolved::NotFound,
            ResolvedJumpTarget::ResolvedTryFinally(r) => SpecResolved::TryFinally {
                target_label: r.target_label,
                finally_label: r.finally_label,
                adjusted_level: r.adjusted_level as int,
                iterators_to_release: r.iterators_to_release@,
            },
            ResolvedJumpTarget::ResolvedRegular(l, iters) => SpecResolved::Regular {
                target_label: l,
                iterators_to_release: iters@,
            },
        }
    }
}

/// Adds a copy of each id of `src` at the end of `dst`.
fn extend_iters(dst: &mut Vec<IterId>, src: &Vec<IterId>)
    ensures
        final(dst)@ == old(dst)@ + src@,
{
    let mut i: usize = 0;
    while i < src.len()
        invariant
            i <= src.len(),
            dst@ == old(dst)@ + src@.take(i as int),
        decreases src.len() - i,
    {
        dst.push(src[i]);
        assert(dst@ =~= old(dst)@ + src@.take(i + 1));
        i += 1;
    }
    assert(src@.take(i as int) =~= src@);
}

/// A copy of `src`.
fn copy_iters(src: &Vec<IterId>) -> (r: Vec<IterId>)
    ensures
        r@ == src@,
{
    let mut r: Vec<IterId> = Vec::new();
    extend_iters(&mut r, src);
    assert(r@ =~= src@);
    r
}

/// The stack of enclosing regions, innermost last.
#[derive(Debug, PartialEq, Eq)]
pub struct JumpTargets {
    pub regions: Vec<Region>,
}

impl JumpTargets {
    /// The stack without regions.
    pub fn new() -> (r: JumpTargets)
        ensures
            r.regions@ == Seq::<Region>::empty(),
    {
        JumpTargets { regions: Vec::new() }
    }

    /// The regions, outermost first.
    pub fn as_slice(&self) -> (r: &[Region])
        ensures
            r@ == self.regions@,
    {
        self.regions.as_slice()
    }

    /// The nearest enclosing `finally` block of the innermost function, with
    /// the iterators that a jump into it has to release.
    pub fn get_closest_enclosing_finally_label(&self) -> (r: Option<(Label, Vec<IterId>)>)
        ensures
            match r {
                Some((l, iters)) => closest_finally(self.regions@) == Some((l, iters@)),
                None => closest_finally(self.regions@) is None,
            },
    {
        let ghost s = self.regions@;
        let mut iters: Vec<IterId> = Vec::new();
        let mut i: usize = self.regions.len();
        while i > 0
            invariant
                i <= self.regions.len(),
                s == self.regions@,
                iters@ == released(s, i as int, s.len() as int),
                nearest_finally(s, s.len() as int) == nearest_finally(s, i as int),
            decreases i,
        {
            i -= 1;
            match &self.regions[i] {
                Region::Function => {
                    return None;
                },
                Region::TryFinally { finally_label, iterators } => {
                    extend_iters(&mut iters, iterators);
                    return Some((*finally_label, iters));
                },
                Region::Loop { iterators, .. } => {
                    extend_iters(&mut iters, iterators);
                },
                Region::Switch { .. } => {
                    assert(iters@ + s[i as int].iterators() =~= iters@);
                },
            }
        }
        None
    }

    /// The iterators that are live in the innermost function, innermost
    /// region first.
    pub fn iterators(&self) -> (r: Vec<IterId>)
        ensures
            r@ == live_iterators(self.regions@),
    {
        let ghost s = self.regions@;
        let mut iters: Vec<IterId> = Vec::new();
        let mut i: usize = self.regions.len();
        while i > 0
            invariant
                i <= self.regions.len(),
                s == self.regions@,
                iters@ == released(s, i as int, s.len() as int),
                scope_start(s, s.len() as int) == scope_start(s, i as int),
            decreases i,
        {
            i -= 1;
            match &self.regions[i] {
                Region::Function => {
                    return iters;
                },
                Region::TryFinally { iterators, .. } => {
                    extend_iters(&mut iters, iterators);
                },
                Region::Loop { iterators, .. } => {
                    extend_iters(&mut iters, iterators);
                },
                Region::Switch { .. } => {
                    assert(iters@ + s[i as int].iterators() =~= iters@);
                },
            }
        }
        iters
    }

    /// Resolves a `break` (or else a `continue`) of the given level against
    /// the stack.
    pub fn get_target_for_level(&self, is_break: bool, level: Level) -> (r: ResolvedJumpTarget)
        ensures
            r@ == resolve(self.regions@, is_break, level as int),
    {
        let ghost s = self.regions@;
        let ghost n = s.len() as int;
        if level == 0 {
            return ResolvedJumpTarget::NotFound;
        }
        let mut acc: Vec<IterId> = Vec::new();
        let mut lvl: usize = level;
        let mut skip: Option<(Label, usize, Vec<IterId>)> = None;
        let ghost mut f: int = 0;
        let mut i: usize = self.regions.len();
        while i > 0
            invariant
                i <= self.regions.len(),
                s == self.regions@,
                n == s.len(),
                1 <= lvl <= level,
                lvl == level - breakables(s, i as int, n),
                acc@ == released(s, i as int, n),
                target_region(s, n, level as int) == target_region(s, i as int, lvl as int),
                match skip {
                    None => nearest_finally(s, n) == nearest_finally(s, i as int),
                    Some((l, k, iters)) => {
                        &&& i <= f < n
                        &&& nearest_finally(s, n) == Some(f)
                        &&& l == s[f].target_label(is_break)
                        &&& k == level - breakables(s, f + 1, n)
                        &&& iters@ == released(s, f, n)
                    },
                },
            decreases i,
        {
            i -= 1;
            match &self.regions[i] {
                Region::Function => {
                    return ResolvedJumpTarget::NotFound;
                },
                Region::TryFinally { finally_label, iterators } => {
                    extend_iters(&mut acc, iterators);
                    if skip.is_none() {
                        skip = Some((*finally_label, lvl, copy_iters(&acc)));
                        proof {
                            f = i as int;
                        }
                    }
                },
                Region::Switch { end_label } => {
                    assert(acc@ + s[i as int].iterators() =~= acc@);
                    if lvl == 1 {
                        proof {
                            lemma_nearest_finally_bound(s, i as int);
                            assert(released(s, i as int, n) =~= acc@);
                        }
                        return Self::found(*end_label, acc, skip);
                    } else {
                        lvl -= 1;
                    }
                },
                Region::Loop { label_break, label_continue, iterators } => {
                    if lvl == 1 {
                        proof {
                            lemma_nearest_finally_bound(s, i as int);
                        }
                        if is_break {
                            extend_iters(&mut acc, iterators);
                            return Self::found(*label_break, acc, skip);
                        } else {
                            return Self::found(*label_continue, acc, skip);
                        }
                    } else {
                        extend_iters(&mut acc, iterators);
                        lvl -= 1;
                    }
                },
            }
        }
        ResolvedJumpTarget::NotFound
    }

    /// The resolution to `label`: through the `finally` block noted on the
    /// way, if there is one.
    fn found(label: Label, iters: Vec<IterId>, skip: Option<(Label, usize, Vec<IterId>)>) -> (r:
        ResolvedJumpTarget)
        ensures
            r@ == (match skip {
                Some((l, k, it)) => SpecResolved::TryFinally {
                    target_label: label,
                    finally_label: l,
                    adjusted_level: k as int,
                    iterators_to_release: it@,
                },
                None => SpecResolved::Regular { target_label: label, iterators_to_release: iters@ },
            }),
    {
        match skip {
            Some((finally_label, adjusted_level, iterators_to_release)) => {
                ResolvedJumpTarget::ResolvedTryFinally(
                    ResolvedTryFinally {
                        target_label: label,
                        finally_label,
                        adjusted_level,
                        iterators_to_release,
                    },
                )
            },
            None => ResolvedJumpTarget::ResolvedRegular(label, iters),
        }
    }
}

/// What an exit identifier stands for: the return of the function, or a
/// jump to a label.
#[derive(Clone, Copy, Debug, PartialEq, Eq, Structural, Hash)]
pub enum ExitKey {
    Return,
    Label(Label),
}

/// An exit identifier: the number that tells the code after a `finally`
/// block which exit was under way when the block was entered.
#[derive(Clone, Copy, Debug, PartialEq, Eq, Structural, Hash)]
pub struct StateId(pub u32);

/// `i` is the position of the first occurrence of `k` in `keys`.
pub open spec fn is_first_index(keys: Seq<ExitKey>, k: ExitKey, i: int) -> bool {
    &&& 0 <= i < keys.len()
    &&& keys[i] == k
    &&& forall|j: int| 0 <= j < i ==> keys[j] != k
}

/// The identifier of `k` once it has been asked for: its position in `keys`
/// if it is there, else the position it gets when it is added.
pub open spec fn exit_id(keys: Seq<ExitKey>, k: ExitKey) -> int {
    if keys.contains(k) {
        choose|i: int| is_first_index(keys, k, i)
    } else {
        keys.len() as int
    }
}

/// The keys after an identifier was asked for `k`.
pub open spec fn with_key(keys: Seq<ExitKey>, k: ExitKey) -> Seq<ExitKey> {
    if keys.contains(k) {
        keys
    } else {
        keys.push(k)
    }
}

/// A key that is present has a first position.
pub proof fn lemma_first_index_exists(keys: Seq<ExitKey>, k: ExitKey)
    requires
        keys.contains(k),
    ensures
        is_first_index(keys, k, exit_id(keys, k)),
    decreases keys.len(),
{
    let i = choose|i: int| 0 <= i < keys.len() && keys[i] == k;
    if exists|j: int| 0 <= j < i && keys[j] == k {
        let j = choose|j: int| 0 <= j < i && keys[j] == k;
        let shorter = keys.take(i);
        assert(shorter[j] == k);
        lemma_first_index_exists(shorter, k);
        let m = exit_id(shorter, k);
        assert(is_first_index(keys, k, m)) by {
            assert(keys[m] == shorter[m]);
            assert forall|x: int| 0 <= x < m implies keys[x] != k by {
                assert(keys[x] == shorter[x]);
            }
        }
    } else {
        assert(is_first_index(keys, k, i));
    }
}

/// The identifier that is handed out for a key is the position of the key
/// among the keys afterwards.
pub proof fn lemma_exit_id_in_range(keys: Seq<ExitKey>, k: ExitKey)
    ensures
        0 <= exit_id(keys, k) < with_key(keys, k).len(),
        with_key(keys, k)[exit_id(keys, k)] == k,
        exit_id(with_key(keys, k), k) == exit_id(keys, k),
{
    if keys.contains(k) {
        lemma_first_index_exists(keys, k);
    } else {
        let after = keys.push(k);
        assert(after[keys.len() as int] == k);
        lemma_first_index_exists(after, k);
    }
}

/// Identifiers are unique: two keys with the same identifier are the same
/// key.
pub proof fn lemma_exit_id_unique(keys: Seq<ExitKey>, k1: ExitKey, k2: ExitKey)
    requires
        keys.contains(k1),
        keys.contains(k2),
        exit_id(keys, k1) == exit_id(keys, k2),
    ensures
        k1 == k2,
{
    lemma_first_index_exists(keys, k1);
    lemma_first_index_exists(keys, k2);
}

/// Identifiers are stable: asking for another key leaves the identifier of
/// a key that has one as it is.
pub proof fn lemma_exit_id_stable(keys: Seq<ExitKey>, k: ExitKey, other: ExitKey)
    requires
        keys.contains(k),
    ensures
        with_key(keys, other).contains(k),
        exit_id(with_key(keys, other), k) == exit_id(keys, k),
{
    lemma_first_index_exists(keys, k);
    let i = exit_id(keys, k);
    let after = with_key(keys, other);
    assert(after[i] == k);
    lemma_first_index_exists(after, k);
    let j = exit_id(after, k);
    if j < i {
        assert(keys[j] == after[j]);
    } else if i < j {
        assert(after[i] == k);
    }
}

/// The allocator of exit identifiers of one function, together with the
/// stack of regions that encloses the point of emission.
///
/// Identifiers are handed out densely from 0, one per key, in the order in
/// which the keys are first asked for.
#[derive(Debug, PartialEq, Eq)]
pub struct Gen {
    /// The keys that have an identifier; the identifier is the position.
    pub exit_keys: Vec<ExitKey>,
    pub jump_targets: JumpTargets,
}

impl Gen {
    /// The allocator of a function of which nothing has been emitted yet.
    pub fn new() -> (g: Gen)
        ensures
            g.exit_keys@ == Seq::<ExitKey>::empty(),
            g.jump_targets.regions@ == Seq::<Region>::empty(),
    {
        Gen { exit_keys: Vec::new(), jump_targets: JumpTargets::new() }
    }

    pub fn jump_targets(&self) -> (r: &JumpTargets)
        ensures
            *r == self.jump_targets,
    {
        &self.jump_targets
    }

    /// True when another identifier can be handed out.
    pub open spec fn has_room(&self) -> bool {
        self.exit_keys@.len() < u32::MAX
    }

    /// The identifier of `k`, allocated if `k` has none yet.
    fn get_id(&mut self, k: ExitKey) -> (id: StateId)
        requires
            old(self).has_room(),
        ensures
            id.0 == exit_id(old(self).exit_keys@, k),
            final(self).exit_keys@ == with_key(old(self).exit_keys@, k),
            final(self).jump_targets == old(self).jump_targets,
    {
        let mut i: usize = 0;
        while i < self.exit_keys.len()
            invariant
                i <= self.exit_keys.len(),
                *self == *old(self),
                self.has_room(),
                forall|j: int| 0 <= j < i ==> self.exit_keys@[j] != k,
            decreases self.exit_keys.len() - i,
        {
            if self.exit_keys[i] == k {
                proof {
                    assert(is_first_index(self.exit_keys@, k, i as int));
                    lemma_first_index_exists(self.exit_keys@, k);
                }
                return StateId(i as u32);
            }
            i += 1;
        }
        self.exit_keys.push(k);
        StateId(i as u32)
    }

    /// The identifier of the return of the function.
    pub fn get_id_for_return(&mut self) -> (id: StateId)
        requires
            old(self).has_room(),
        ensures
            id.0 == exit_id(old(self).exit_keys@, ExitKey::Return),
            final(self).exit_keys@ == with_key(old(self).exit_keys@, ExitKey::Return),
            final(self).jump_targets == old(self).jump_targets,
    {
        self.get_id(ExitKey::Return)
    }

    /// The identifier of a jump to `l`.
    pub fn get_id_for_label(&mut self, l: Label) -> (id: StateId)
        requires
            old(self).has_room(),
        ensures
            id.0 == exit_id(old(self).exit_keys@, ExitKey::Label(l)),
            final(self).exit_keys@ == with_key(old(self).exit_keys@, ExitKey::Label(l)),
            final(self).jump_targets == old(self).jump_targets,
    {
        self.get_id(ExitKey::Label(l))
    }

    /// Forgets all identifiers.
    pub fn release_ids(&mut self)
        ensures
            final(self).exit_keys@ == Seq::<ExitKey>::empty(),
            final(self).jump_targets == old(self).jump_targets,
    {
        self.exit_keys.clear();
    }

    /// Enters a loop.
    pub fn with_loop(&mut self, label_break: Label, label_continue: Label, iterators: Vec<IterId>)
        ensures
            final(self).jump_targets.regions@ == old(self).jump_targets.regions@.push(
                Region::Loop { label_break, label_continue, iterators },
            ),
            final(self).exit_keys == old(self).exit_keys,
    {
        self.jump_targets.regions.push(Region::Loop { label_break, label_continue, iterators });
    }

    /// Enters a switch.
    pub fn with_switch(&mut self, end_label: Label)
        ensures
            final(self).jump_targets.regions@ == old(self).jump_targets.regions@.push(
                Region::Switch { end_label },
            ),
            final(self).exit_keys == old(self).exit_keys,
    {
        self.jump_targets.regions.push(Region::Switch { end_label });
    }

    /// Enters the protected body of a `try` with a `finally` block.
    pub fn with_try_finally(&mut self, finally_label: Label, iterators: Vec<IterId>)
        ensures
            final(self).jump_targets.regions@ == old(self).jump_targets.regions@.push(
                Region::TryFinally { finally_label, iterators },
            ),
            final(self).exit_keys == old(self).exit_keys,
    {
        self.jump_targets.regions.push(Region::TryFinally { finally_label, iterators });
    }

    /// Enters a function.
    pub fn with_function(&mut self)
        ensures
            final(self).jump_targets.regions@ == old(self).jump_targets.regions@.push(
                Region::Function,
            ),
            final(self).exit_keys == old(self).exit_keys,
    {
        self.jump_targets.regions.push(Region::Function);
    }

    /// Leaves the innermost region, if there is one.
    pub fn revert(&mut self)
        ensures
            final(self).jump_targets.regions@ == if old(self).jump_targets.regions@.len() > 0 {
                old(self).jump_targets.regions@.drop_last()
            } else {
                old(self).jump_targets.regions@
            },
            final(self).exit_keys == old(self).exit_keys,
    {
        self.jump_targets.regions.pop();
    }
}

} // verus!
