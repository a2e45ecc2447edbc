//! Paths as sequences of components, and the two rules the archive tools rest
//! on: how a path on disk becomes an entry name, and when a relative path is
//! sure to stay below the directory it is joined to.

use vstd::prelude::*;

verus! {

/// One component of a path, as the host's path syntax tells them apart.
#[derive(Debug, PartialEq, Eq)]
pub enum PathPart {
    /// A root directory or a drive prefix, with its text.
    Anchor(String),
    /// The current directory, `.`.
    Current,
    /// The parent directory, `..`.
    Parent,
    /// An ordinary file or directory name.
    Name(String),
    /// A component that cannot be written as text.
    NonText,
}

/// What a `PathPart` is in contracts.
pub enum PartView {
    Anchor(Seq<char>),
    Current,
    Parent,
    Name(Seq<char>),
    NonText,
}

impl View for PathPart {
    type V = PartView;

    open spec fn view(&self) -> PartView {
        match self {
            PathPart::Anchor(text) => PartView::Anchor(text@),
            PathPart::Current => PartView::Current,
            PathPart::Parent => PartView::Parent,
            PathPart::Name(name) => PartView::Name(name@),
            PathPart::NonText => PartView::NonText,
        }
    }
}

impl Clone for PathPart {
    fn clone(&self) -> (copy: Self)
        ensures
            copy@ == self@,
    {
        match self {
            PathPart::Anchor(text) => PathPart::Anchor(text.clone()),
            PathPart::Current => PathPart::Current,
            PathPart::Parent => PathPart::Parent,
            PathPart::Name(name) => PathPart::Name(name.clone()),
            PathPart::NonText => PathPart::NonText,
        }
    }
}

/// The components of a path, each by its view.
pub open spec fn parts_view(parts: Seq<PathPart>) -> Seq<PartView> {
    parts.map_values(|part: PathPart| part@)
}

/// Why a path has no entry name.
#[derive(Debug, Clone, Copy, PartialEq, Eq, Structural)]
pub enum PathError {
    /// The path does not lie below the parent of the root it is named against,
    /// or that root has no parent.
    NotUnderRoot,
    /// What is left of the path holds a component that an entry name cannot
    /// hold: one that is not text, or an anchor.
    Unrepresentable,
    /// The entry name is longer than an archive can hold.
    TooLong,
}

/// Two components are the same component. A component that is not text is
/// the same as nothing, itself included: nothing is known of what it holds.
pub open spec fn same_part(left: PartView, right: PartView) -> bool {
    left == right && left != PartView::NonText
}

/// `path` begins with the components of `prefix`.
pub open spec fn begins_with(path: Seq<PartView>, prefix: Seq<PartView>) -> bool {
    &&& prefix.len() <= path.len()
    &&& forall|k: int| 0 <= k < prefix.len() ==> same_part(#[trigger] path[k], prefix[k])
}

/// The text that a component adds to an entry name, if it can stand in one.
pub open spec fn part_text(part: PartView) -> Option<Seq<char>> {
    match part {
        PartView::Name(name) => Some(name),
        PartView::Current => Some(seq!['.']),
        PartView::Parent => Some(seq!['.', '.']),
        PartView::Anchor(_) | PartView::NonText => None,
    }
}

/// The components joined by `/`, whatever separator the host uses.
pub open spec fn joined(parts: Seq<PartView>) -> Option<Seq<char>>
    decreases parts.len(),
{
    if parts.len() == 0 {
        Some(Seq::empty())
    } else {
        match (joined(parts.drop_last()), part_text(parts.last())) {
            (Some(head), Some(text)) => Some(
                if parts.len() == 1 {
                    text
                } else {
                    head + seq!['/'] + text
                },
            ),
            _ => None,
        }
    }
}

/// The entry name of `path` in an archive of the tree at `root`: what is left
/// of `path` below the parent of `root`, joined by `/`.
pub open spec fn normalized(path: Seq<PartView>, root: Seq<PartView>) -> Result<
    Seq<char>,
    PathError,
> {
    if root.len() == 0 || !begins_with(path, root.drop_last()) {
        Err(PathError::NotUnderRoot)
    } else {
        match joined(path.skip(root.len() - 1)) {
            Some(name) => Ok(name),
            None => Err(PathError::Unrepresentable),
        }
    }
}

/// How many directories below its start a relative path ends, walked
/// component by component; `None` once it leaves its start or meets a
/// component that is no name, `.` or `..`.
pub open spec fn depth(parts: Seq<PartView>) -> Option<nat>
    decreases parts.len(),
{
    if parts.len() == 0 {
        Some(0)
    } else {
        match depth(parts.drop_last()) {
            None => None,
            Some(below) => match parts.last() {
                PartView::Name(_) => Some(below + 1),
                PartView::Current => Some(below),
                PartView::Parent => if below > 0 {
                    Some((below - 1) as nat)
                } else {
                    None
                },
                PartView::Anchor(_) | PartView::NonText => None,
            },
        }
    }
}

/// The relative path never leaves the directory it starts in.
pub open spec fn confined(parts: Seq<PartView>) -> bool {
    depth(parts) is Some
}

/// Where a relative path leads from the directory `base`, given by the names
/// on the way to it: a name goes one down, `..` goes one up, `.` stays. An
/// anchor or a component without text leads nowhere and is passed over.
pub open spec fn resolved(base: Seq<Seq<char>>, parts: Seq<PartView>) -> Seq<Seq<char>>
    decreases parts.len(),
{
    if parts.len() == 0 {
        base
    } else {
        let before = resolved(base, parts.drop_last());
        match parts.last() {
            PartView::Name(name) => before.push(name),
            PartView::Parent => if before.len() > 0 {
                before.drop_last()
            } else {
                before
            },
            _ => before,
        }
    }
}

/// `place` is the directory `base` or lies below it.
pub open spec fn below(place: Seq<Seq<char>>, base: Seq<Seq<char>>) -> bool {
    base.len() <= place.len() && place.take(base.len() as int) == base
}

/// Whether two components are the same, by `same_part`.
pub fn parts_match(left: &PathPart, right: &PathPart) -> (same: bool)
    ensures
        same == same_part(left@, right@),
{
    match (left, right) {
        (PathPart::Anchor(a), PathPart::Anchor(b)) => *a == *b,
        (PathPart::Current, PathPart::Current) => true,
        (PathPart::Parent, PathPart::Parent) => true,
        (PathPart::Name(a), PathPart::Name(b)) => *a == *b,
        _ => false,
    }
}

/// Whether `path` begins with the first `count` components of `root`.
fn begins_with_first(path: &Vec<PathPart>, root: &Vec<PathPart>, count: usize) -> (yes: bool)
    requires
        count <= root.len(),
    ensures
        yes == begins_with(parts_view(path@), parts_view(root@).take(count as int)),
{
    if path.len() < count {
        return false;
    }
    let mut k: usize = 0;
    while k < count
        invariant
            k <= count <= root.len(),
            count <= path.len(),
            forall|j: int|
                0 <= j < k ==> same_part(
                    #[trigger] parts_view(path@)[j],
                    parts_view(root@).take(count as int)[j],
                ),
        decreases count - k,
    {
        if !parts_match(&path[k], &root[k]) {
            assert(!same_part(parts_view(path@)[k as int], parts_view(root@).take(count as int)[k as int]));
            return false;
        }
        k += 1;
    }
    true
}

/// Joins the components of `parts` from index `from` on by `/`.
fn join_from(parts: &Vec<PathPart>, from: usize) -> (name: Option<String>)
    requires
        from <= parts.len(),
    ensures
        match name {
            Some(text) => joined(parts_view(parts@).skip(from as int)) == Some(text@),
            None => joined(parts_view(parts@).skip(from as int)) is None,
        },
{
    let ghost rest = parts_view(parts@).skip(from as int);
    let mut text = String::new();
    let mut k: usize = from;
    while k < parts.len()
        invariant
            from <= k <= parts.len(),
            rest == parts_view(parts@).skip(from as int),
            joined(rest.take(k - from)) == Some(text@),
        decreases parts.len() - k,
    {
        proof {
            reveal_strlit("/");
            reveal_strlit(".");
            reveal_strlit("..");
            assert(rest.take(k - from + 1).drop_last() == rest.take(k - from));
            lemma_joined_none_grows(rest, k - from + 1);
        }
        let piece: &str = match &parts[k] {
            PathPart::Name(name) => name.as_str(),
            PathPart::Current => ".",
            PathPart::Parent => "..",
            PathPart::Anchor(_) | PathPart::NonText => {
                return None;
            },
        };
        if k > from {
            text.append("/");
        }
        text.append(piece);
        k += 1;
    }
    assert(rest.take(k - from) == rest);
    Some(text)
}

/// A sequence has no joined name once one of its beginnings has none.
pub proof fn lemma_joined_none_grows(parts: Seq<PartView>, count: int)
    requires
        0 <= count <= parts.len(),
    ensures
        joined(parts.take(count)) is None ==> joined(parts) is None,
    decreases parts.len() - count,
{
    if count < parts.len() {
        assert(parts.take(count + 1).drop_last() == parts.take(count));
        lemma_joined_none_grows(parts, count + 1);
    } else {
        assert(parts.take(count) == parts);
    }
}

/// The joined name of one component or more is not empty, as long as none
/// of the names among them is.
pub proof fn lemma_joined_not_empty(parts: Seq<PartView>)
    requires
        parts.len() > 0,
        joined(parts) is Some,
        forall|k: int|
            0 <= k < parts.len() ==> (#[trigger] parts[k] matches PartView::Name(name)
                ==> name.len() > 0),
    ensures
        joined(parts)->0.len() > 0,
{
}

/// The entry name of `path` in an archive of the tree at `root`.
///
/// The name is what is left of `path` once the components of the parent of
/// `root` are taken from its front, joined by `/` on every host.
pub fn normalize(path: &Vec<PathPart>, root: &Vec<PathPart>) -> (name: Result<String, PathError>)
    ensures
        match name {
            Ok(text) => normalized(parts_view(path@), parts_view(root@)) == Ok::<
                Seq<char>,
                PathError,
            >(text@),
            Err(error) => normalized(parts_view(path@), parts_view(root@)) == Err::<
                Seq<char>,
                PathError,
            >(error),
        },
{
    if root.len() == 0 {
        return Err(PathError::NotUnderRoot);
    }
    let kept: usize = root.len() - 1;
    if !begins_with_first(path, root, kept) {
        return Err(PathError::NotUnderRoot);
    }
    match join_from(path, kept) {
        Some(text) => Ok(text),
        None => Err(PathError::Unrepresentable),
    }
}

/// Whether a relative path never leaves the directory it starts in.
pub fn is_confined(parts: &Vec<PathPart>) -> (yes: bool)
    ensures
        yes == confined(parts_view(parts@)),
{
    let ghost all = parts_view(parts@);
    let mut below: usize = 0;
    let mut k: usize = 0;
    while k < parts.len()
        invariant
            k <= parts.len(),
            all == parts_view(parts@),
            below <= k,
            depth(all.take(k as int)) == Some(below as nat),
        decreases parts.len() - k,
    {
        proof {
            assert(all.take(k + 1).drop_last() == all.take(k as int));
            lemma_depth_none_grows(all, k + 1);
        }
        match &parts[k] {
            PathPart::Name(_) => {
                below += 1;
            },
            PathPart::Current => {},
            PathPart::Parent => {
                if below == 0 {
                    return false;
                }
                below -= 1;
            },
            PathPart::Anchor(_) | PathPart::NonText => {
                return false;
            },
        }
        k += 1;
    }
    assert(all.take(k as int) == all);
    true
}

/// A path that has left its start, or met a component it cannot pass, at
/// one point stays unconfined whatever follows.
pub proof fn lemma_depth_none_grows(parts: Seq<PartView>, count: int)
    requires
        0 <= count <= parts.len(),
    ensures
        depth(parts.take(count)) is None ==> depth(parts) is None,
    decreases parts.len() - count,
{
    if count < parts.len() {
        assert(parts.take(count + 1).drop_last() == parts.take(count));
        lemma_depth_none_grows(parts, count + 1);
    } else {
        assert(parts.take(count) == parts);
    }
}

/// A confined path, joined to any directory, leads to that directory or below
/// it, and ends as many directories below it as its depth says.
pub proof fn lemma_confined_stays_below(base: Seq<Seq<char>>, parts: Seq<PartView>)
    requires
        confined(parts),
    ensures
        below(resolved(base, parts), base),
        resolved(base, parts).len() == base.len() + depth(parts)->0,
    decreases parts.len(),
{
    if parts.len() > 0 {
        let front = parts.drop_last();
        lemma_confined_stays_below(base, front);
        let before = resolved(base, front);
        match parts.last() {
            PartView::Name(name) => {
                assert(before.push(name).take(base.len() as int) == before.take(base.len() as int));
            },
            PartView::Parent => {
                assert(before.drop_last().take(base.len() as int) == before.take(
                    base.len() as int,
                ));
            },
            _ => {},
        }
    } else {
        assert(base.take(base.len() as int) == base);
    }
}

/// Where a confined path leads from a directory is that directory's path
/// and, behind it, where the confined path leads from nowhere: the same
/// names below every directory.
pub proof fn lemma_confined_leads_alike(base: Seq<Seq<char>>, parts: Seq<PartView>)
    requires
        confined(parts),
    ensures
        resolved(base, parts) == base + resolved(Seq::empty(), parts),
    decreases parts.len(),
{
    let nowhere = Seq::<Seq<char>>::empty();
    if parts.len() > 0 {
        let front = parts.drop_last();
        lemma_confined_leads_alike(base, front);
        lemma_confined_stays_below(nowhere, front);
        lemma_confined_stays_below(base, front);
        let alone = resolved(nowhere, front);
        match parts.last() {
            PartView::Name(name) => {
                assert((base + alone).push(name) == base + alone.push(name));
            },
            PartView::Parent => {
                assert((base + alone).drop_last() == base + alone.drop_last());
            },
            _ => {},
        }
    } else {
        assert(base + nowhere == base);
    }
}

/// Every beginning of a confined path is confined: on the way to its end the
/// path never leaves the directory it starts in.
pub proof fn lemma_confined_all_the_way(parts: Seq<PartView>, count: int)
    requires
        confined(parts),
        0 <= count <= parts.len(),
    ensures
        confined(parts.take(count)),
{
    lemma_depth_none_grows(parts, count);
}

} // verus!
