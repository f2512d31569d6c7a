//! Cuts the instructions of a function into basic blocks. A block begins at
//! the first instruction, behind every instruction that passes control on,
//! and wherever a jump lands.

use crate::common::opcode::Opcode;
use crate::common::types::{Block, BlockView, Inst, Target};
use crate::labels::{ascending, empty, in_order, insert};
use std::collections::{BTreeSet, HashMap};
use vstd::prelude::*;

verus! {

broadcast use vstd::std_specs::hash::group_hash_axioms;

/// The opcodes that test something and skip the next instruction, which is
/// the jump that belongs to them.
pub open spec fn is_test(op: Opcode) -> bool {
    ||| op is LFalseSkip
    ||| op is Test
    ||| op is TestSet
    ||| op is Eq
    ||| op is Lt
    ||| op is Le
    ||| op is EqK
    ||| op is EqI
    ||| op is LtI
    ||| op is LeI
    ||| op is GtI
    ||| op is GeI
}

/// How far an instruction jumps, counted from the instruction behind it;
/// `None` for one that does not jump.
pub open spec fn jump_offset(inst: Inst) -> Option<int> {
    let op = inst.spec_opcode();
    if is_test(op) {
        Some(1)
    } else if op is Jmp {
        Some(inst.spec_sj() as int)
    } else if op is ForPrep {
        Some(inst.spec_bx() + 1)
    } else if op is TForPrep {
        Some(inst.spec_bx() as int)
    } else if op is ForLoop || op is TForLoop {
        Some(-(inst.spec_bx() as int))
    } else {
        None
    }
}

/// Whether a block ends with this instruction: it jumps or it returns.
pub open spec fn ends_block(inst: Inst) -> bool {
    let op = inst.spec_opcode();
    jump_offset(inst) is Some || op is Return || op is Return0 || op is Return1
}

/// Whether the instruction at `pc` makes a block begin at `at`: it ends a
/// block and `at` is the place behind it, or the place it jumps to.
pub open spec fn marks(code: Seq<Inst>, pc: int, at: int) -> bool {
    ends_block(code[pc]) && (at == pc + 1 || jump_offset(code[pc]) == Some(at - pc - 1))
}

/// The places at which the first `upto` instructions make a block begin.
pub open spec fn edges(code: Seq<Inst>, upto: int) -> Set<usize> {
    Set::new(|at: usize| exists|pc: int| 0 <= pc < upto && #[trigger] marks(code, pc, at as int))
}

/// The offsets of the jumps among the first `upto` instructions, by the
/// place of the jump.
pub open spec fn offsets(code: Seq<Inst>, upto: int) -> Map<usize, i32> {
    Map::new(
        |pc: usize| pc < upto && jump_offset(code[pc as int]) is Some,
        |pc: usize| jump_offset(code[pc as int])->0 as i32,
    )
}

/// The places of `labels` that are no greater than `most`.
pub open spec fn upto(labels: Set<usize>, most: usize) -> Set<usize> {
    labels.filter(|at: usize| at <= most)
}

/// The labels with which the blocks of `code` are cut, where `labels` are
/// there already: these, the first place and the edges of `code`, as far as
/// they lie in `code` or at its end.
pub open spec fn labels_for(labels: Set<usize>, code: Seq<Inst>) -> Set<usize> {
    upto(labels.insert(0) + edges(code, code.len() as int), code.len() as usize)
}

/// The offsets with which the targets of the blocks of `code` are found,
/// where `targets` are there already.
pub open spec fn targets_for(targets: Map<usize, i32>, code: Seq<Inst>) -> Map<usize, i32> {
    targets.union_prefer_right(offsets(code, code.len() as int))
}

/// The number of the items of `labels` that are no greater than `dest`.
pub open spec fn rank(labels: Seq<usize>, dest: int) -> nat
    decreases labels.len(),
{
    if labels.len() == 0 {
        0
    } else {
        rank(labels.drop_last(), dest) + if labels.last() <= dest {
            1nat
        } else {
            0nat
        }
    }
}

/// The target of a block whose last instruction leads to `dest`, by
/// `offset`: the label with the ordinal that `dest` has among `labels`, and
/// no target that could be named, with the offset, where `dest` is none of
/// the labels.
pub open spec fn resolve(labels: Seq<usize>, dest: int, offset: i32) -> Target {
    if 0 <= dest <= usize::MAX && labels.contains(dest as usize) {
        Target::Label((rank(labels, dest) - 1) as u32)
    } else {
        Target::Undefined(offset)
    }
}

/// The offset that is kept for the instruction at `pc`; zero where none is.
pub open spec fn offset_at(targets: Map<usize, i32>, pc: int) -> i32 {
    if 0 <= pc <= usize::MAX && targets.contains_key(pc as usize) {
        targets[pc as usize]
    } else {
        0
    }
}

/// The block between the labels `i` and `i + 1`.
pub open spec fn block_at(
    labels: Seq<usize>,
    targets: Map<usize, i32>,
    code: Seq<Inst>,
    i: int,
) -> BlockView {
    let post = labels[i + 1] as int;
    let offset = offset_at(targets, post - 1);
    BlockView {
        code: code.subrange(labels[i] as int, post),
        target: resolve(labels, post + offset, offset),
    }
}

/// The blocks that the labels cut `code` into: one between every label and
/// the next.
pub open spec fn blocks_of(labels: Seq<usize>, targets: Map<usize, i32>, code: Seq<Inst>) -> Seq<
    BlockView,
> {
    Seq::new((labels.len() - 1) as nat, |i: int| block_at(labels, targets, code, i))
}

/// The items of `labels` from zero to `most`, lowest first.
pub open spec fn ordered(labels: Set<usize>, most: nat) -> Seq<usize>
    decreases most,
{
    let before = if most == 0 {
        Seq::empty()
    } else {
        ordered(labels, (most - 1) as nat)
    };
    if most <= usize::MAX && labels.contains(most as usize) {
        before.push(most as usize)
    } else {
        before
    }
}

/// The blocks of `code`, for a splitter that holds `labels` and `targets` already.
pub open spec fn spec_split_from(
    labels: Set<usize>,
    targets: Map<usize, i32>,
    code: Seq<Inst>,
) -> Seq<BlockView> {
    blocks_of(ordered(labels_for(labels, code), code.len()), targets_for(targets, code), code)
}

/// The blocks of `code`.
pub open spec fn spec_split(code: Seq<Inst>) -> Seq<BlockView> {
    spec_split_from(Set::empty(), Map::empty(), code)
}

/// What a list of blocks is.
pub open spec fn block_views(blocks: Seq<Block>) -> Seq<BlockView> {
    Seq::new(blocks.len(), |i: int| blocks[i]@)
}

/// In a list that ascends, the items that are no greater than `dest` stand
/// first, and `rank` is their number.
pub proof fn lemma_rank(labels: Seq<usize>, dest: int)
    requires
        ascending(labels),
    ensures
        rank(labels, dest) <= labels.len(),
        forall|i: int| 0 <= i < rank(labels, dest) ==> labels[i] <= dest,
        forall|i: int| rank(labels, dest) <= i < labels.len() ==> labels[i] > dest,
    decreases labels.len(),
{
    if labels.len() > 0 {
        let front = labels.drop_last();
        lemma_rank(front, dest);
        assert forall|i: int| 0 <= i < rank(labels, dest) implies labels[i] <= dest by {
            if i < front.len() {
                assert(front[i] == labels[i]);
                if i >= rank(front, dest) {
                    assert(labels[i] < labels.last());
                }
            }
        }
        assert forall|i: int| rank(labels, dest) <= i < labels.len() implies labels[i] > dest by {
            if i < front.len() {
                assert(front[i] == labels[i]);
            }
        }
        if labels.last() <= dest && rank(front, dest) < front.len() {
            assert(front[rank(front, dest) as int] > dest);
            assert(labels[rank(front, dest) as int] < labels.last());
        }
    }
}

/// In a list that ascends, the number of items before the first that is
/// greater than `dest` is the rank of `dest`.
pub proof fn lemma_rank_is(labels: Seq<usize>, dest: int, count: nat)
    requires
        ascending(labels),
        count <= labels.len(),
        forall|i: int| 0 <= i < count ==> labels[i] <= dest,
        forall|i: int| count <= i < labels.len() ==> labels[i] > dest,
    ensures
        rank(labels, dest) == count,
{
    lemma_rank(labels, dest);
    let r = rank(labels, dest);
    if r < count {
        assert(labels[r as int] > dest);
    }
    if r > count {
        assert(labels[count as int] <= dest);
    }
}

/// In a list that ascends, the rank of an item is its place and one.
pub proof fn lemma_rank_of_item(labels: Seq<usize>, at: int)
    requires
        ascending(labels),
        0 <= at < labels.len(),
    ensures
        rank(labels, labels[at] as int) == at + 1,
{
    assert forall|i: int| 0 <= i < at + 1 implies labels[i] <= labels[at] by {
        if i < at {
            assert(labels[i] < labels[at]);
        }
    }
    assert forall|i: int| at + 1 <= i < labels.len() implies labels[i] > labels[at] by {
        assert(labels[at] < labels[i]);
    }
    lemma_rank_is(labels, labels[at] as int, (at + 1) as nat);
}

/// A list that ascends and holds zero begins with it.
pub proof fn lemma_begins_with_zero(list: Seq<usize>)
    requires
        ascending(list),
        list.contains(0),
    ensures
        list.len() > 0,
        list[0] == 0,
{
    let z = choose|z: int| 0 <= z < list.len() && list[z] == 0;
    if z > 0 {
        assert(list[0] < list[z]);
    }
}

/// A list that ascends and holds the items of a set begins with the items
/// of the set up to `most`, in their order.
pub proof fn lemma_ordered_prefix(list: Seq<usize>, labels: Set<usize>, most: nat)
    requires
        ascending(list),
        list.to_set() == labels,
    ensures
        ordered(labels, most) == list.take(rank(list, most as int) as int),
    decreases most,
{
    let before: nat = if most == 0 {
        0
    } else {
        rank(list, most - 1)
    };
    lemma_rank(list, most as int);
    if most > 0 {
        lemma_ordered_prefix(list, labels, (most - 1) as nat);
        lemma_rank(list, most - 1);
    } else {
        lemma_rank(list, -1);
        lemma_rank_is(list, -1, 0);
        assert(list.take(0) =~= Seq::<usize>::empty());
    }
    let r = if most == 0 {
        0
    } else {
        before
    };
    assert(ordered(labels, most) == if most <= usize::MAX && labels.contains(most as usize) {
        list.take(r as int).push(most as usize)
    } else {
        list.take(r as int)
    });
    assert forall|i: int| 0 <= i < r implies list[i] <= most - 1 by {}
    assert forall|i: int| r <= i < list.len() implies list[i] > most - 1 by {}
    if most <= usize::MAX && labels.contains(most as usize) {
        assert(list.contains(most as usize));
        let j = choose|j: int| 0 <= j < list.len() && list[j] == most as usize;
        if j > r {
            assert(list[r as int] > most - 1);
            assert(list[r as int] < list[j]);
        }
        assert(j == r);
        assert forall|i: int| r + 1 <= i < list.len() implies list[i] > most by {
            assert(list[r as int] < list[i]);
        }
        lemma_rank_is(list, most as int, (r + 1) as nat);
        assert(list.take(r as int + 1) =~= list.take(r as int).push(most as usize));
    } else {
        assert forall|i: int| r <= i < list.len() implies list[i] > most by {
            assert(list.contains(list[i]));
            assert(labels.contains(list[i]));
        }
        lemma_rank_is(list, most as int, r as nat);
    }
}

/// A list that ascends and holds the items of a set, none of them greater
/// than `most`, is the set in its order.
pub proof fn lemma_ordered(list: Seq<usize>, labels: Set<usize>, most: nat)
    requires
        ascending(list),
        list.to_set() == labels,
        forall|at: usize| labels.contains(at) ==> at <= most,
    ensures
        ordered(labels, most) == list,
{
    lemma_ordered_prefix(list, labels, most);
    assert forall|i: int| 0 <= i < list.len() implies list[i] <= most by {
        assert(list.contains(list[i]));
        assert(labels.contains(list[i]));
    }
    lemma_rank_is(list, most as int, list.len());
    assert(list.take(list.len() as int) =~= list);
}

/// The list of a set in its order ascends, and holds the items of the set
/// up to `most` and nothing else.
pub proof fn lemma_ordered_holds(labels: Set<usize>, most: nat)
    ensures
        ascending(ordered(labels, most)),
        forall|i: int| 0 <= i < ordered(labels, most).len() ==> ordered(labels, most)[i] <= most,
        forall|at: usize|
            ordered(labels, most).contains(at) <==> labels.contains(at) && at <= most,
    decreases most,
{
    let list = ordered(labels, most);
    if most > 0 {
        lemma_ordered_holds(labels, (most - 1) as nat);
    }
    let before = if most == 0 {
        Seq::<usize>::empty()
    } else {
        ordered(labels, (most - 1) as nat)
    };
    assert forall|at: usize| list.contains(at) <==> labels.contains(at) && at <= most by {
        if list.contains(at) {
            let i = choose|i: int| 0 <= i < list.len() && list[i] == at;
            if i < before.len() {
                assert(before[i] == at);
                assert(before.contains(at));
            }
        }
        if labels.contains(at) && at <= most {
            if at == most {
                assert(list[list.len() - 1] == at);
            } else {
                assert(before.contains(at));
                let i = choose|i: int| 0 <= i < before.len() && before[i] == at;
                assert(list[i] == at);
            }
        }
    }
}

/// The places at which the blocks of `code` begin, and behind them the
/// place at which the last block ends.
pub open spec fn cuts(code: Seq<Inst>) -> Seq<usize> {
    ordered(labels_for(Set::empty(), code), code.len())
}

/// How far the instruction before `post` jumps; zero where it does not jump.
pub open spec fn leads_by(code: Seq<Inst>, post: int) -> i32 {
    match jump_offset(code[post - 1]) {
        Some(offset) => offset as i32,
        None => 0,
    }
}

/// The place to which control goes from the instruction before `post`.
pub open spec fn leads_to(code: Seq<Inst>, post: int) -> int {
    post + leads_by(code, post)
}

/// The instructions of a list of blocks, one block after the other.
pub open spec fn all_code(blocks: Seq<BlockView>) -> Seq<Inst>
    decreases blocks.len(),
{
    if blocks.len() == 0 {
        Seq::empty()
    } else {
        all_code(blocks.drop_last()) + blocks.last().code
    }
}

/// How the blocks of `code` lie in it: the first of the cuts is the first
/// place of `code`, the cuts ascend and none lies behind the end of `code`;
/// there is one block between every cut and the next, and it holds the
/// instructions between the two.
pub proof fn lemma_cuts(code: Seq<Inst>)
    requires
        code.len() <= u32::MAX,
    ensures
        cuts(code).len() == spec_split(code).len() + 1,
        cuts(code)[0] == 0,
        ascending(cuts(code)),
        forall|i: int| 0 <= i < cuts(code).len() ==> cuts(code)[i] <= code.len(),
        forall|i: int|
            0 <= i < spec_split(code).len() ==> (#[trigger] spec_split(code)[i]).code
                == code.subrange(cuts(code)[i] as int, cuts(code)[i + 1] as int),
        forall|at: usize|
            cuts(code).contains(at) <==> at <= code.len() && (at == 0 || edges(
                code,
                code.len() as int,
            ).contains(at)),
{
    let labels = labels_for(Set::empty(), code);
    let list = cuts(code);
    lemma_ordered_holds(labels, code.len());
    assert(labels.contains(0));
    lemma_begins_with_zero(list);
    assert forall|at: usize| list.contains(at) <==> at <= code.len() && (at == 0 || edges(
        code,
        code.len() as int,
    ).contains(at)) by {
        let found = Set::<usize>::empty().insert(0) + edges(code, code.len() as int);
        assert(labels == upto(found, code.len() as usize));
        assert(found.contains(at) <==> at == 0 || edges(code, code.len() as int).contains(at));
        assert(labels.contains(at) <==> found.contains(at) && at <= code.len());
    }
}

/// The blocks of `code`, one after the other, are `code`: nothing is left
/// out, nothing comes twice and nothing changes its place. This holds of a
/// list at whose end a block ends: one that is empty, one whose last
/// instruction jumps or returns, and one with a jump to its end.
pub proof fn lemma_split_covers(code: Seq<Inst>)
    requires
        code.len() <= usize::MAX,
        code.len() == 0 || edges(code, code.len() as int).contains(code.len() as usize),
    ensures
        all_code(spec_split(code)) == code,
{
    lemma_joined_from(Set::empty(), Map::empty(), code);
}

/// The blocks of `code`, one after the other, are the first instructions of
/// `code`.
pub proof fn lemma_split_prefix(code: Seq<Inst>)
    ensures
        all_code(spec_split(code)) == code.take(all_code(spec_split(code)).len() as int),
{
    lemma_joined_from(Set::empty(), Map::empty(), code);
}

/// The instructions of the first `count` blocks between cuts that ascend
/// are those between the first cut and the cut `count`.
proof fn lemma_joined_between(
    list: Seq<usize>,
    targets: Map<usize, i32>,
    code: Seq<Inst>,
    count: int,
)
    requires
        ascending(list),
        forall|i: int| 0 <= i < list.len() ==> list[i] <= code.len(),
        0 <= count < list.len(),
    ensures
        all_code(blocks_of(list, targets, code).take(count)) == code.subrange(
            list[0] as int,
            list[count] as int,
        ),
    decreases count,
{
    let blocks = blocks_of(list, targets, code);
    if count == 0 {
        assert(code.subrange(list[0] as int, list[0] as int) =~= Seq::<Inst>::empty());
    } else {
        lemma_joined_between(list, targets, code, count - 1);
        assert(blocks.take(count).drop_last() =~= blocks.take(count - 1));
        assert(blocks.take(count).last() == blocks[count - 1]);
        assert(list[0] <= list[count - 1]) by {
            if count - 1 > 0 {
                assert(list[0] < list[count - 1]);
            }
        }
        assert(list[count - 1] < list[count]);
        assert(code.subrange(list[0] as int, list[count] as int) =~= code.subrange(
            list[0] as int,
            list[count - 1] as int,
        ) + code.subrange(list[count - 1] as int, list[count] as int));
    }
}

/// The blocks, one after the other, are the first instructions of `code`,
/// whatever the splitter holds already; and they are all of `code` where a
/// block ends at the end of `code`.
pub proof fn lemma_joined_from(labels: Set<usize>, targets: Map<usize, i32>, code: Seq<Inst>)
    ensures
        all_code(spec_split_from(labels, targets, code)) == code.take(
            all_code(spec_split_from(labels, targets, code)).len() as int,
        ),
        code.len() <= usize::MAX && labels_for(labels, code).contains(code.len() as usize)
            ==> all_code(spec_split_from(labels, targets, code)) == code,
{
    let found = labels_for(labels, code);
    let list = ordered(found, code.len());
    let blocks = spec_split_from(labels, targets, code);
    lemma_ordered_holds(found, code.len());
    assert(found.contains(0));
    lemma_begins_with_zero(list);
    lemma_joined_between(list, targets_for(targets, code), code, list.len() - 1);
    assert(blocks.take(blocks.len() as int) =~= blocks);
    assert(code.subrange(0, list.last() as int) =~= code.take(list.last() as int));
    if code.len() <= usize::MAX && found.contains(code.len() as usize) {
        assert(list.contains(code.len() as usize));
        let e = choose|e: int| 0 <= e < list.len() && list[e] == code.len();
        if e < list.len() - 1 {
            assert(list[e] < list[list.len() - 1]);
        }
        assert(code.take(code.len() as int) =~= code);
    }
}

/// The first block begins with the first instruction, whatever the
/// splitter holds already: it is not empty, and its instructions are the
/// first ones of `code`.
pub proof fn lemma_first_block_from(labels: Set<usize>, targets: Map<usize, i32>, code: Seq<Inst>)
    requires
        spec_split_from(labels, targets, code).len() > 0,
    ensures
        spec_split_from(labels, targets, code)[0].code.len() > 0,
        spec_split_from(labels, targets, code)[0].code == code.take(
            spec_split_from(labels, targets, code)[0].code.len() as int,
        ),
        spec_split_from(labels, targets, code)[0].code[0] == code[0],
{
    let found = labels_for(labels, code);
    let list = ordered(found, code.len());
    lemma_ordered_holds(found, code.len());
    assert(found.contains(0));
    lemma_begins_with_zero(list);
    assert(list[0] < list[1]);
    assert(list[1] <= code.len());
    assert(code.subrange(0, list[1] as int) =~= code.take(list[1] as int));
}

/// The first block begins with the first instruction.
pub proof fn lemma_first_block(code: Seq<Inst>)
    requires
        spec_split(code).len() > 0,
    ensures
        spec_split(code)[0].code.len() > 0,
        spec_split(code)[0].code == code.take(spec_split(code)[0].code.len() as int),
        spec_split(code)[0].code[0] == code[0],
{
    lemma_first_block_from(Set::empty(), Map::empty(), code);
}

/// The target of the block `i`, whose last instruction leads to the place
/// `dest`. Where `dest` lies in `code` or at its end, a block begins or the
/// last block ends there, and the target is the label with the ordinal of
/// that cut: the ordinal of a block, or the number of the blocks for the end
/// of the last block. Where `dest` lies before the first instruction or
/// behind the end of `code`, the target is `Undefined`, with the offset of
/// the jump.
pub proof fn lemma_target(code: Seq<Inst>, i: int)
    requires
        code.len() <= u32::MAX,
        0 <= i < spec_split(code).len(),
    ensures
        ({
            let post = cuts(code)[i + 1] as int;
            let dest = leads_to(code, post);
            let target = spec_split(code)[i].target;
            &&& 0 <= dest <= code.len() ==> (target matches Target::Label(label) && label
                <= spec_split(code).len() && cuts(code)[label as int] == dest)
            &&& !(0 <= dest <= code.len()) ==> target == Target::Undefined(leads_by(code, post))
            &&& target matches Target::Label(label) ==> (label < spec_split(code).len() <==> dest
                != cuts(code).last())
        }),
{
    lemma_cuts(code);
    let list = cuts(code);
    let post = list[i + 1] as int;
    let targets = targets_for(Map::empty(), code);
    assert(list[0] < list[i + 1]);
    assert(offset_at(targets, post - 1) == leads_by(code, post));
    let dest = leads_to(code, post);
    lemma_ascending_index(list, list.len() - 1);
    assert(spec_split(code)[i].target == resolve(list, dest, leads_by(code, post)));
    if 0 <= dest <= code.len() {
        if jump_offset(code[post - 1]) is Some {
            assert(marks(code, post - 1, dest));
            assert(edges(code, code.len() as int).contains(dest as usize));
        } else {
            assert(list.contains(list[i + 1]));
        }
        assert(list.contains(dest as usize));
    }
    if 0 <= dest <= usize::MAX && list.contains(dest as usize) {
        let at = choose|at: int| 0 <= at < list.len() && list[at] == dest as usize;
        lemma_rank_of_item(list, at);
        if at < list.len() - 1 {
            assert(list[at] < list[list.len() - 1]);
        }
    }
}

/// Every target that is a label is the ordinal of a block. This holds of a
/// list in which no block leads to the end of the last block.
pub proof fn lemma_labels_in_range(code: Seq<Inst>)
    requires
        code.len() <= u32::MAX,
        forall|i: int|
            0 <= i < spec_split(code).len() ==> #[trigger] leads_to(
                code,
                cuts(code)[i + 1] as int,
            ) != cuts(code).last(),
    ensures
        forall|i: int|
            0 <= i < spec_split(code).len() ==> ((#[trigger] spec_split(code)[i]).target
                matches Target::Label(label) ==> label < spec_split(code).len()),
{
    assert forall|i: int| 0 <= i < spec_split(code).len() implies ((#[trigger] spec_split(
        code,
    )[i]).target matches Target::Label(label) ==> label < spec_split(code).len()) by {
        lemma_target(code, i);
        assert(leads_to(code, cuts(code)[i + 1] as int) != cuts(code).last());
    }
}

/// In a list that ascends, no item is below its own position.
pub proof fn lemma_ascending_index(list: Seq<usize>, i: int)
    requires
        ascending(list),
        0 <= i < list.len(),
    ensures
        list[i] >= i,
    decreases i,
{
    if i > 0 {
        lemma_ascending_index(list, i - 1);
        assert(list[i - 1] < list[i]);
    }
}

/// Breaks a list of instructions into basic blocks. `label_set` holds the
/// places at which a block begins, `target_map` the offset of every jump by
/// the place of the jump.
pub struct Splitter {
    label_set: BTreeSet<usize>,
    target_map: HashMap<usize, i32>,
}

impl Splitter {
    /// The places at which a block begins, as far as they are found.
    pub closed spec fn labels(&self) -> Set<usize> {
        self.label_set@
    }

    /// The offsets of the jumps, as far as they are found.
    pub closed spec fn targets(&self) -> Map<usize, i32> {
        self.target_map@
    }

    /// A splitter that has found nothing yet.
    pub fn new() -> (s: Self)
        ensures
            s.labels() == Set::<usize>::empty(),
            s.targets() == Map::<usize, i32>::empty(),
    {
        Self { label_set: empty(), target_map: HashMap::new() }
    }

    /// Cuts `code` into its blocks.
    ///
    /// The blocks follow one another as their instructions do in `code`. The
    /// target of each is `Label` with the ordinal of the block that begins
    /// where the block's last instruction leads to: behind itself if it does
    /// not jump. For the place at which the last block ends, that is the
    /// number of the blocks. A jump to a place before the first instruction
    /// or behind the end of `code` has the target `Undefined`, with its
    /// offset.
    pub fn split(self, code: Vec<Inst>) -> (blocks: Vec<Block>)
        requires
            code.len() <= u32::MAX,
        ensures
            block_views(blocks@) == spec_split_from(self.labels(), self.targets(), code@),
            blocks.len() > 0 ==> blocks@[0].code@.len() > 0 && blocks@[0].code@[0] == code@[0],
            all_code(block_views(blocks@)) == code@.take(
                all_code(block_views(blocks@)).len() as int,
            ),
            code.len() == 0 || ends_block(code@[code.len() - 1]) ==> all_code(
                block_views(blocks@),
            ) == code@,
    {
        let mut this = self;
        this.find_edges(code.as_slice());
        proof {
            assert(this.labels().contains(0));
        }
        let blocks = this.split_at_edges(code);
        proof {
            lemma_joined_from(self.labels(), self.targets(), code@);
            if code.len() > 0 && ends_block(code@[code.len() - 1]) {
                assert(marks(code@, code.len() - 1, code.len() as int));
                assert(edges(code@, code.len() as int).contains(code.len()));
            }
            if blocks.len() > 0 {
                lemma_first_block_from(self.labels(), self.targets(), code@);
                assert(block_views(blocks@)[0] == blocks@[0]@);
            }
        }
        blocks
    }

    /// Keeps the offset of the jump at `pc`, and the place where it lands
    /// as one at which a block begins.
    fn add_target(&mut self, pc: usize, offset: i32)
        ensures
            final(self).labels() == if 0 <= pc + offset + 1 <= usize::MAX {
                old(self).labels().insert((pc + offset + 1) as usize)
            } else {
                old(self).labels()
            },
            final(self).targets() == old(self).targets().insert(pc, offset),
    {
        let dest: i128 = pc as i128 + offset as i128 + 1;
        if 0 <= dest && dest <= usize::MAX as i128 {
            insert(&mut self.label_set, dest as usize);
        }
        self.target_map.insert(pc, offset);
    }

    /// Drops the places behind `most`.
    fn retain_upto(&mut self, most: usize)
        ensures
            final(self).labels() == upto(old(self).labels(), most),
            final(self).targets() == old(self).targets(),
    {
        let all = in_order(&self.label_set);
        let mut kept = empty();
        let mut k: usize = 0;
        while k < all.len()
            invariant
                k <= all.len(),
                forall|at: usize|
                    kept@.contains(at) <==> at <= most && exists|j: int|
                        0 <= j < k && all@[j] == at,
            decreases all.len() - k,
        {
            if all[k] <= most {
                insert(&mut kept, all[k]);
            }
            k += 1;
        }
        proof {
            assert forall|at: usize| kept@.contains(at) <==> upto(self.labels(), most).contains(
                at,
            ) by {
                if self.labels().contains(at) {
                    assert(all@.to_set().contains(at));
                    assert(all@.contains(at));
                }
                if kept@.contains(at) {
                    let j = choose|j: int| 0 <= j < k && all@[j] == at;
                    assert(all@.contains(all@[j]));
                }
            }
            assert(kept@ =~= upto(self.labels(), most));
        }
        self.label_set = kept;
    }

    /// Finds the places at which the blocks of `code` begin, and the offsets
    /// of its jumps.
    fn find_edges(&mut self, code: &[Inst])
        ensures
            final(self).labels() == labels_for(old(self).labels(), code@),
            final(self).targets() == targets_for(old(self).targets(), code@),
    {
        insert(&mut self.label_set, 0);
        let mut pc: usize = 0;
        proof {
            assert(self.labels() =~= old(self).labels().insert(0) + edges(code@, 0));
            assert(self.targets() =~= old(self).targets().union_prefer_right(offsets(code@, 0)));
        }
        while pc < code.len()
            invariant
                pc <= code.len(),
                self.labels() == old(self).labels().insert(0) + edges(code@, pc as int),
                self.targets() == old(self).targets().union_prefer_right(
                    offsets(code@, pc as int),
                ),
            decreases code.len() - pc,
        {
            let inst = code[pc];
            let ghost labels = self.labels();
            let (ends, jump): (bool, Option<i32>) = match inst.opcode() {
                Opcode::LFalseSkip
                | Opcode::Test
                | Opcode::TestSet
                | Opcode::Eq
                | Opcode::Lt
                | Opcode::Le
                | Opcode::EqK
                | Opcode::EqI
                | Opcode::LtI
                | Opcode::LeI
                | Opcode::GtI
                | Opcode::GeI => (true, Some(1)),
                Opcode::Jmp => (true, Some(inst.sj())),
                Opcode::ForPrep => (true, Some(inst.bx() as i32 + 1)),
                Opcode::TForPrep => (true, Some(inst.bx() as i32)),
                Opcode::ForLoop | Opcode::TForLoop => {
                    let sbx = inst.bx() as i32;
                    (true, Some(-sbx))
                },
                Opcode::Return | Opcode::Return0 | Opcode::Return1 => (true, None),
                _ => (false, None),
            };
            assert(ends == ends_block(inst));
            assert(match jump {
                Some(o) => jump_offset(inst) == Some(o as int),
                None => jump_offset(inst) is None,
            });
            if let Some(offset) = jump {
                self.add_target(pc, offset);
            }
            if ends {
                insert(&mut self.label_set, pc + 1);
            }
            proof {
                let next = old(self).labels().insert(0) + edges(code@, pc + 1);
                assert forall|at: usize| self.labels().contains(at) <==> next.contains(at) by {
                    if edges(code@, pc + 1).contains(at) {
                        let w = choose|w: int| 0 <= w < pc + 1 && marks(code@, w, at as int);
                        if w < pc {
                            assert(edges(code@, pc as int).contains(at));
                        }
                    }
                    if edges(code@, pc as int).contains(at) {
                        let w = choose|w: int| 0 <= w < pc && marks(code@, w, at as int);
                        assert(marks(code@, w, at as int));
                    }
                    if self.labels().contains(at) && !labels.contains(at) {
                        assert(marks(code@, pc as int, at as int));
                    }
                }
                assert(self.labels() =~= next);
                assert(self.targets() =~= old(self).targets().union_prefer_right(
                    offsets(code@, pc + 1),
                ));
            }
            pc += 1;
        }
        self.retain_upto(code.len());
    }

    /// The target of a block that ends before `post` with a jump by `offset`.
    fn get_offset_target(labels: &Vec<usize>, post: usize, offset: i32) -> (target: Target)
        requires
            ascending(labels@),
            labels.len() <= u32::MAX + 1,
        ensures
            target == resolve(labels@, post + offset, offset),
    {
        let dest: i128 = post as i128 + offset as i128;
        if dest < 0 {
            return Target::Undefined(offset);
        }
        let mut index: usize = 0;
        while index < labels.len() && labels[index] as i128 <= dest
            invariant
                index <= labels.len(),
                forall|i: int| 0 <= i < index ==> labels@[i] <= dest,
            decreases labels.len() - index,
        {
            index += 1;
        }
        proof {
            assert forall|i: int| index <= i < labels.len() implies labels@[i] > dest by {
                if i > index {
                    assert(labels@[index as int] < labels@[i]);
                }
            }
            lemma_rank_is(labels@, dest as int, index as nat);
            if dest <= usize::MAX && labels@.contains(dest as usize) {
                let at = choose|at: int| 0 <= at < labels.len() && labels@[at] == dest as usize;
                lemma_rank_of_item(labels@, at);
            }
        }
        if index > 0 && labels[index - 1] as i128 == dest {
            proof {
                assert(labels@.contains(labels@[index - 1]));
            }
            Target::Label((index - 1) as u32)
        } else {
            Target::Undefined(offset)
        }
    }

    /// Cuts `code` at the places found.
    fn split_at_edges(&self, code: Vec<Inst>) -> (list: Vec<Block>)
        requires
            self.labels().contains(0),
            forall|at: usize| self.labels().contains(at) ==> at <= code.len(),
            code.len() <= u32::MAX,
        ensures
            block_views(list@) == blocks_of(
                ordered(self.labels(), code.len() as nat),
                self.targets(),
                code@,
            ),
    {
        let labels = in_order(&self.label_set);
        proof {
            lemma_ordered(labels@, self.labels(), code.len() as nat);
            assert(labels@.to_set().contains(0));
            lemma_begins_with_zero(labels@);
            lemma_ascending_index(labels@, labels.len() - 1);
            assert(labels@.contains(labels@[labels.len() - 1]));
            assert(self.labels().contains(labels@[labels.len() - 1]));
        }
        let mut list: Vec<Block> = Vec::new();
        let mut prev: usize = 0;
        let mut i: usize = 1;
        while i < labels.len()
            invariant
                1 <= i <= labels.len(),
                ascending(labels@),
                0 < labels.len() <= u32::MAX + 1,
                labels@[0] == 0,
                forall|j: int| 0 <= j < labels.len() ==> labels@[j] <= code.len(),
                prev == labels@[i - 1],
                list.len() == i - 1,
                forall|j: int|
                    0 <= j < i - 1 ==> (#[trigger] list@[j])@ == block_at(
                        labels@,
                        self.targets(),
                        code@,
                        j,
                    ),
            decreases labels.len() - i,
        {
            proof {
                assert(labels@[0] < labels@[i as int]);
                assert(labels@[i - 1] < labels@[i as int]);
            }
            let pc = labels[i] - 1;
            let offset: i32 = match self.target_map.get(&pc) {
                Some(offset) => *offset,
                None => 0,
            };
            let post = pc + 1;
            let mut block_code: Vec<Inst> = Vec::new();
            let mut at: usize = prev;
            while at < post
                invariant
                    prev <= at <= post <= code.len(),
                    block_code@ == code@.subrange(prev as int, at as int),
                decreases post - at,
            {
                block_code.push(code[at]);
                proof {
                    assert(block_code@ =~= code@.subrange(prev as int, at + 1));
                }
                at += 1;
            }
            let target = Self::get_offset_target(&labels, post, offset);
            prev = post;
            list.push(Block { code: block_code, target });
            i += 1;
        }
        proof {
            assert(block_views(list@) =~= blocks_of(labels@, self.targets(), code@));
        }
        list
    }
}

} // verus!
