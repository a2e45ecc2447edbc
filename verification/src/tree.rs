//! What the steps of an extraction do to a directory tree, and what follows
//! from it: nothing is written outside the output directory, and extracting
//! again changes nothing.
//!
//! The tree is a model. A path is the sequence of names that lead to it from
//! the root, and a step is taken as the host takes it when nothing fails:
//! directories that are missing on the way are created, a file is created or
//! overwritten.

use crate::archive::StoredEntry;
use crate::paths::{
    below, confined, lemma_confined_leads_alike, lemma_confined_stays_below, resolved,
};
use crate::unzipper::{planned, StepView};
use vstd::prelude::*;

verus! {

/// What stands at a path.
pub enum TreeNode {
    Dir,
    File(Seq<u8>),
}

/// `short` is `path` or leads to it.
pub open spec fn leads_to(short: Seq<Seq<char>>, path: Seq<Seq<char>>) -> bool {
    below(path, short)
}

/// The tree once the directory at `path` is created with all that leads to
/// it: what is there stays, what is missing on the way becomes a directory.
pub open spec fn with_dirs(tree: Map<Seq<Seq<char>>, TreeNode>, path: Seq<Seq<char>>) -> Map<
    Seq<Seq<char>>,
    TreeNode,
> {
    Map::new(
        |at: Seq<Seq<char>>| tree.dom().contains(at) || leads_to(at, path),
        |at: Seq<Seq<char>>|
            if tree.dom().contains(at) {
                tree[at]
            } else {
                TreeNode::Dir
            },
    )
}

/// The file that a step writes, and its content, if it writes one.
pub open spec fn written_by(base: Seq<Seq<char>>, step: StepView) -> Option<
    (Seq<Seq<char>>, Seq<u8>),
> {
    match step {
        StepView::WriteFile { place, data, .. } => Some((resolved(base, place), data)),
        _ => None,
    }
}

/// The directory that a step makes sure of, with all that leads to it, if it
/// makes sure of one: the directory of a marker, the parent of a file that
/// has one.
pub open spec fn ensured_by(base: Seq<Seq<char>>, step: StepView) -> Option<Seq<Seq<char>>> {
    match step {
        StepView::Skip => None,
        StepView::MakeDir { place, .. } => Some(resolved(base, place)),
        StepView::WriteFile { place, .. } => if resolved(base, place).len() > 0 {
            Some(resolved(base, place).drop_last())
        } else {
            None
        },
    }
}

/// The tree after one step, taken below the directory `base`.
pub open spec fn after_step(
    tree: Map<Seq<Seq<char>>, TreeNode>,
    base: Seq<Seq<char>>,
    step: StepView,
) -> Map<Seq<Seq<char>>, TreeNode> {
    let ensured = match ensured_by(base, step) {
        Some(path) => with_dirs(tree, path),
        None => tree,
    };
    match written_by(base, step) {
        Some((path, data)) => ensured.insert(path, TreeNode::File(data)),
        None => ensured,
    }
}

/// The tree after the steps, taken in their order below the directory `base`.
pub open spec fn after_steps(
    tree: Map<Seq<Seq<char>>, TreeNode>,
    base: Seq<Seq<char>>,
    steps: Seq<StepView>,
) -> Map<Seq<Seq<char>>, TreeNode>
    decreases steps.len(),
{
    if steps.len() == 0 {
        tree
    } else {
        after_step(after_steps(tree, base, steps.drop_last()), base, steps.last())
    }
}

/// The content that the steps leave at `at`, if one of them writes a file
/// there: that of the last that does.
pub open spec fn last_written(base: Seq<Seq<char>>, steps: Seq<StepView>, at: Seq<Seq<char>>) -> Option<
    Seq<u8>,
>
    decreases steps.len(),
{
    if steps.len() == 0 {
        None
    } else {
        match written_by(base, steps.last()) {
            Some((path, data)) if path == at => Some(data),
            _ => last_written(base, steps.drop_last(), at),
        }
    }
}

/// One of the steps makes sure of a directory at `at`.
pub open spec fn ensured(base: Seq<Seq<char>>, steps: Seq<StepView>, at: Seq<Seq<char>>) -> bool
    decreases steps.len(),
{
    if steps.len() == 0 {
        false
    } else {
        ensured(base, steps.drop_last(), at) || match ensured_by(base, steps.last()) {
            Some(path) => leads_to(at, path),
            None => false,
        }
    }
}

/// A step that writes, if at all, at a place that is confined to the
/// directory it is taken below.
pub open spec fn stays_inside(step: StepView) -> bool {
    match step {
        StepView::Skip => true,
        StepView::MakeDir { place, .. } => confined(place),
        StepView::WriteFile { place, .. } => confined(place),
    }
}

/// The steps that extracting these entries takes, in their order.
pub open spec fn planned_steps(entries: Seq<StoredEntry>) -> Seq<StepView> {
    entries.map_values(|entry: StoredEntry| planned(entry))
}

/// What stands at a path after the steps: the file that was written there
/// last; or else what stood there before; or else a directory, if a step
/// made sure of one; or else nothing.
pub proof fn lemma_after_steps_at(
    tree: Map<Seq<Seq<char>>, TreeNode>,
    base: Seq<Seq<char>>,
    steps: Seq<StepView>,
    at: Seq<Seq<char>>,
)
    ensures
        after_steps(tree, base, steps).dom().contains(at) <==> last_written(base, steps, at)
            is Some || tree.dom().contains(at) || ensured(base, steps, at),
        after_steps(tree, base, steps).dom().contains(at) ==> after_steps(tree, base, steps)[at]
            == match last_written(base, steps, at) {
            Some(data) => TreeNode::File(data),
            None => if tree.dom().contains(at) {
                tree[at]
            } else {
                TreeNode::Dir
            },
        },
    decreases steps.len(),
{
    if steps.len() > 0 {
        lemma_after_steps_at(tree, base, steps.drop_last(), at);
    }
}

/// Extracting into a tree that the same extraction has made changes nothing:
/// the steps leave the same files, with the same content, and the same
/// directories, however often they are taken.
pub proof fn lemma_extracting_again_changes_nothing(
    tree: Map<Seq<Seq<char>>, TreeNode>,
    base: Seq<Seq<char>>,
    steps: Seq<StepView>,
)
    ensures
        after_steps(after_steps(tree, base, steps), base, steps) == after_steps(tree, base, steps),
{
    let once = after_steps(tree, base, steps);
    let twice = after_steps(once, base, steps);
    assert forall|at: Seq<Seq<char>>| twice.dom().contains(at) == once.dom().contains(at) by {
        lemma_after_steps_at(tree, base, steps, at);
        lemma_after_steps_at(once, base, steps, at);
    }
    assert forall|at: Seq<Seq<char>>| twice.dom().contains(at) implies twice[at] == once[at] by {
        lemma_after_steps_at(tree, base, steps, at);
        lemma_after_steps_at(once, base, steps, at);
    }
    assert(twice =~= once);
}

/// An archive that is read to its end twice gives the same steps both times,
/// and so the same tree from the same start: what is extracted depends on
/// nothing but the entries.
pub proof fn lemma_same_archive_same_tree(
    tree: Map<Seq<Seq<char>>, TreeNode>,
    base: Seq<Seq<char>>,
    entries: Seq<StoredEntry>,
    first: Seq<StepView>,
    second: Seq<StepView>,
)
    requires
        first.len() == entries.len(),
        second.len() == entries.len(),
        forall|i: int| 0 <= i < entries.len() ==> #[trigger] first[i] == planned(entries[i]),
        forall|i: int| 0 <= i < entries.len() ==> #[trigger] second[i] == planned(entries[i]),
    ensures
        first == second,
        after_steps(tree, base, first) == after_steps(tree, base, second),
{
    assert(first =~= second);
}

/// The step that extracting an entry takes writes, if at all, at a place
/// that is confined to the output directory, whatever name the entry bears.
pub proof fn lemma_planned_stays_inside(entry: StoredEntry)
    ensures
        stays_inside(planned(entry)),
{
}

/// A step that stays inside writes its file, and makes sure of its
/// directories, at or below the directory it is taken below; the directory
/// it makes sure of for a file may be the parent of that directory, no
/// higher.
pub proof fn lemma_step_stays_below(base: Seq<Seq<char>>, step: StepView)
    requires
        stays_inside(step),
    ensures
        written_by(base, step) matches Some((path, _)) ==> below(path, base),
        ensured_by(base, step) matches Some(path) ==> below(path, base) || path == base.drop_last(),
{
    match step {
        StepView::Skip => {},
        StepView::MakeDir { place, .. } => {
            lemma_confined_stays_below(base, place);
        },
        StepView::WriteFile { place, .. } => {
            lemma_confined_stays_below(base, place);
            let path = resolved(base, place);
            if path.len() > base.len() {
                assert(path.drop_last().take(base.len() as int) == path.take(base.len() as int));
            } else {
                assert(path.take(base.len() as int) == path);
            }
        },
    }
}

/// Steps that stay inside leave alone what is not below the directory they
/// are taken below: no file is created or overwritten there, and what
/// stands there stays as it is. All that can appear outside is a directory
/// on the way to that directory, where it was missing.
pub proof fn lemma_nothing_written_outside(
    tree: Map<Seq<Seq<char>>, TreeNode>,
    base: Seq<Seq<char>>,
    steps: Seq<StepView>,
    at: Seq<Seq<char>>,
)
    requires
        forall|i: int| 0 <= i < steps.len() ==> stays_inside(#[trigger] steps[i]),
        !below(at, base),
    ensures
        tree.dom().contains(at) ==> after_steps(tree, base, steps).dom().contains(at)
            && after_steps(tree, base, steps)[at] == tree[at],
        !tree.dom().contains(at) && after_steps(tree, base, steps).dom().contains(at)
            ==> after_steps(tree, base, steps)[at] == TreeNode::Dir && leads_to(at, base),
    decreases steps.len(),
{
    lemma_after_steps_at(tree, base, steps, at);
    lemma_outside_untouched(base, steps, at);
}

/// Steps that stay inside write no file at a path that is not below the
/// directory they are taken below, and make sure of a directory there only
/// on the way to that directory.
pub proof fn lemma_outside_untouched(
    base: Seq<Seq<char>>,
    steps: Seq<StepView>,
    at: Seq<Seq<char>>,
)
    requires
        forall|i: int| 0 <= i < steps.len() ==> stays_inside(#[trigger] steps[i]),
        !below(at, base),
    ensures
        last_written(base, steps, at) is None,
        ensured(base, steps, at) ==> leads_to(at, base),
    decreases steps.len(),
{
    if steps.len() > 0 {
        let front = steps.drop_last();
        assert forall|i: int| 0 <= i < front.len() implies stays_inside(#[trigger] front[i]) by {
            assert(front[i] == steps[i]);
        }
        lemma_outside_untouched(base, front, at);
        lemma_step_stays_below(base, steps.last());
        if let Some(path) = ensured_by(base, steps.last()) {
            if leads_to(at, path) {
                assert(base.len() > 0) by {
                    if base.len() == 0 {
                        assert(at.take(0) == base);
                    }
                }
                lemma_leads_on(at, base, path);
            }
        }
    }
}

/// Of two paths that lead to the same path, the shorter leads to the longer.
pub proof fn lemma_leads_on(short: Seq<Seq<char>>, long: Seq<Seq<char>>, path: Seq<Seq<char>>)
    requires
        leads_to(short, path),
        leads_to(long, path) || long.drop_last() == path && long.len() > 0,
        !leads_to(long, short),
    ensures
        leads_to(short, long),
{
    if leads_to(long, path) {
        if short.len() <= long.len() {
            assert(path.take(long.len() as int).take(short.len() as int) == path.take(
                short.len() as int,
            ));
        } else {
            assert(path.take(short.len() as int).take(long.len() as int) == path.take(
                long.len() as int,
            ));
        }
    } else {
        assert(long.take(short.len() as int) == long.drop_last().take(short.len() as int));
    }
}

/// Extracting an archive, whatever its entries are named, leaves alone what
/// is not below the output directory: no file is created or overwritten
/// there. All that can appear outside is a directory on the way to the
/// output directory, where it was missing.
pub proof fn lemma_extraction_stays_inside(
    tree: Map<Seq<Seq<char>>, TreeNode>,
    output: Seq<Seq<char>>,
    entries: Seq<StoredEntry>,
    at: Seq<Seq<char>>,
)
    requires
        !below(at, output),
    ensures
        tree.dom().contains(at) ==> after_steps(tree, output, planned_steps(entries)).dom().contains(
            at,
        ) && after_steps(tree, output, planned_steps(entries))[at] == tree[at],
        !tree.dom().contains(at) && after_steps(tree, output, planned_steps(entries)).dom().contains(
            at,
        ) ==> after_steps(tree, output, planned_steps(entries))[at] == TreeNode::Dir && leads_to(
            at,
            output,
        ),
{
    let steps = planned_steps(entries);
    assert forall|i: int| 0 <= i < steps.len() implies stays_inside(#[trigger] steps[i]) by {
        lemma_planned_stays_inside(entries[i]);
    }
    lemma_nothing_written_outside(tree, output, steps, at);
}

/// A path leads to another below one directory exactly if it does below any
/// other.
pub proof fn lemma_leads_alike(
    first: Seq<Seq<char>>,
    second: Seq<Seq<char>>,
    short: Seq<Seq<char>>,
    long: Seq<Seq<char>>,
)
    ensures
        leads_to(first + short, first + long) == leads_to(second + short, second + long),
        (first + short == first + long) == (second + short == second + long),
{
    lemma_below_shifts(first, short, long);
    lemma_below_shifts(second, short, long);
}

/// Below a directory, a path leads to another exactly if it does so without
/// the directory before both.
pub proof fn lemma_below_shifts(base: Seq<Seq<char>>, short: Seq<Seq<char>>, long: Seq<Seq<char>>)
    ensures
        leads_to(base + short, base + long) == leads_to(short, long),
        (base + short == base + long) == (short == long),
{
    if short.len() <= long.len() {
        assert((base + long).take((base + short).len() as int) == base + long.take(
            short.len() as int,
        ));
        assert((base + long.take(short.len() as int)).skip(base.len() as int) == long.take(
            short.len() as int,
        ));
    }
    assert((base + short).skip(base.len() as int) == short);
    assert((base + long).skip(base.len() as int) == long);
}

/// The step writes a file at `at`, taken below `base`.
pub open spec fn writes_at(base: Seq<Seq<char>>, step: StepView, at: Seq<Seq<char>>) -> bool {
    match written_by(base, step) {
        Some((path, _)) => path == at,
        None => false,
    }
}

/// The step makes sure of a directory at `at`, taken below `base`.
pub open spec fn ensures_at(base: Seq<Seq<char>>, step: StepView, at: Seq<Seq<char>>) -> bool {
    match ensured_by(base, step) {
        Some(path) => leads_to(at, path),
        None => false,
    }
}

/// What a step that stays inside writes and makes sure of below one
/// directory, it writes and makes sure of below any other, at the same
/// place below it.
pub proof fn lemma_step_alike(
    first: Seq<Seq<char>>,
    second: Seq<Seq<char>>,
    step: StepView,
    rel: Seq<Seq<char>>,
)
    requires
        stays_inside(step),
    ensures
        writes_at(first, step, first + rel) == writes_at(second, step, second + rel),
        ensures_at(first, step, first + rel) == ensures_at(second, step, second + rel),
{
    let nowhere = Seq::<Seq<char>>::empty();
    match step {
        StepView::Skip => {},
        StepView::MakeDir { place, .. } => {
            lemma_confined_leads_alike(first, place);
            lemma_confined_leads_alike(second, place);
            lemma_leads_alike(first, second, rel, resolved(nowhere, place));
        },
        StepView::WriteFile { place, .. } => {
            lemma_confined_leads_alike(first, place);
            lemma_confined_leads_alike(second, place);
            let alone = resolved(nowhere, place);
            lemma_leads_alike(first, second, rel, alone);
            if alone.len() > 0 {
                assert((first + alone).drop_last() == first + alone.drop_last());
                assert((second + alone).drop_last() == second + alone.drop_last());
                lemma_leads_alike(first, second, rel, alone.drop_last());
            } else {
                assert(first + alone == first);
                assert(second + alone == second);
                if first.len() > 0 {
                    lemma_not_above(first, rel);
                }
                if second.len() > 0 {
                    lemma_not_above(second, rel);
                }
            }
        },
    }
}

/// What lies at or below a directory does not lead to its parent.
pub proof fn lemma_not_above(base: Seq<Seq<char>>, rel: Seq<Seq<char>>)
    requires
        base.len() > 0,
    ensures
        !leads_to(base + rel, base.drop_last()),
{
}

/// What steps that stay inside leave at a place below one directory, they
/// leave at the same place below any other.
pub proof fn lemma_steps_alike(
    first: Seq<Seq<char>>,
    second: Seq<Seq<char>>,
    steps: Seq<StepView>,
    rel: Seq<Seq<char>>,
)
    requires
        forall|i: int| 0 <= i < steps.len() ==> stays_inside(#[trigger] steps[i]),
    ensures
        last_written(first, steps, first + rel) == last_written(second, steps, second + rel),
        ensured(first, steps, first + rel) == ensured(second, steps, second + rel),
    decreases steps.len(),
{
    if steps.len() > 0 {
        let front = steps.drop_last();
        assert forall|i: int| 0 <= i < front.len() implies stays_inside(#[trigger] front[i]) by {
            assert(front[i] == steps[i]);
        }
        lemma_steps_alike(first, second, front, rel);
        assert(stays_inside(steps[steps.len() - 1]));
        lemma_step_alike(first, second, steps.last(), rel);
    }
}

/// An archive extracted into two empty output directories leaves the same
/// tree below both: at every place below the one stands what stands at the
/// same place below the other, a file of the same content or a directory,
/// or nothing. What is extracted depends on nothing but the entries.
pub proof fn lemma_same_tree_below_any_directory(
    first: Seq<Seq<char>>,
    second: Seq<Seq<char>>,
    entries: Seq<StoredEntry>,
    rel: Seq<Seq<char>>,
)
    ensures
        after_steps(Map::empty(), first, planned_steps(entries)).dom().contains(first + rel)
            == after_steps(Map::empty(), second, planned_steps(entries)).dom().contains(
            second + rel,
        ),
        after_steps(Map::empty(), first, planned_steps(entries)).dom().contains(first + rel)
            ==> after_steps(Map::empty(), first, planned_steps(entries))[first + rel]
            == after_steps(Map::empty(), second, planned_steps(entries))[second + rel],
{
    let steps = planned_steps(entries);
    assert forall|i: int| 0 <= i < steps.len() implies stays_inside(#[trigger] steps[i]) by {
        lemma_planned_stays_inside(entries[i]);
    }
    lemma_steps_alike(first, second, steps, rel);
    lemma_after_steps_at(Map::empty(), first, steps, first + rel);
    lemma_after_steps_at(Map::empty(), second, steps, second + rel);
}

} // verus!
