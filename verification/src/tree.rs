//! The tree of nodes: paths, the chain of ancestors, and walks down a path.

use vstd::prelude::*;
use vstd::string::StringExecFns;

use crate::error::{invalid, ProtonError};
use crate::ids::{uid_text, NodeUid};
use crate::node::Node;
use crate::text::{chars_of, owned, same_text, texts};

verus! {

// ---------------------------------------------------------------------------
// Paths
// ---------------------------------------------------------------------------

/// The pieces between the slashes of a path: those that are closed by a slash, and
/// the one behind the last slash.
pub open spec fn slash_pieces(path: Seq<char>) -> (Seq<Seq<char>>, Seq<char>)
    decreases path.len(),
{
    if path.len() == 0 {
        (Seq::empty(), Seq::empty())
    } else {
        let (closed, last) = slash_pieces(path.drop_last());
        if path.last() == '/' {
            (closed.push(last), Seq::empty())
        } else {
            (closed, last.push(path.last()))
        }
    }
}

/// The pieces that are not empty.
pub open spec fn non_empty(pieces: Seq<Seq<char>>) -> Seq<Seq<char>> {
    pieces.filter(|piece: Seq<char>| piece.len() > 0)
}

/// The segments of a path: its pieces that are not empty.
pub open spec fn segments(path: Seq<char>) -> Seq<Seq<char>> {
    let (closed, last) = slash_pieces(path);
    non_empty(closed.push(last))
}

/// The names, each behind a slash.
pub open spec fn slashed(names: Seq<Seq<char>>) -> Seq<char>
    decreases names.len(),
{
    if names.len() == 0 {
        Seq::empty()
    } else {
        slashed(names.drop_last()) + seq!['/'] + names.last()
    }
}

/// The path made of names. That of no names is a bare slash.
pub open spec fn joined_path(names: Seq<Seq<char>>) -> Seq<char> {
    if slashed(names).len() == 0 {
        seq!['/']
    } else {
        slashed(names)
    }
}

/// Splits a path into its segments. Slashes at either end and in a row count for
/// nothing.
pub fn path_segments(path: &str) -> (r: Vec<String>)
    ensures
        texts(r@) == segments(path@),
{
    let chars: Vec<char> = chars_of(path);
    let mut out: Vec<String> = Vec::new();
    let mut current: String = String::new();
    let mut is_open: bool = false;
    let ghost keep = |piece: Seq<char>| piece.len() > 0;
    let mut i: usize = 0;
    proof {
        reveal(Seq::filter);
        assert(chars@.take(0) =~= Seq::<char>::empty());
        assert(texts(out@) =~= Seq::<Seq<char>>::empty());
    }
    while i < chars.len()
        invariant
            chars@ == path@,
            i <= chars@.len(),
            keep == |piece: Seq<char>| piece.len() > 0,
            current@ == slash_pieces(chars@.take(i as int)).1,
            is_open == (current@.len() > 0),
            texts(out@) == slash_pieces(chars@.take(i as int)).0.filter(keep),
        decreases chars@.len() - i,
    {
        let c: char = chars[i];
        let ghost before = chars@.take(i as int);
        let ghost after = chars@.take(i + 1);
        proof {
            assert(after.drop_last() =~= before);
            slash_pieces(before).0.lemma_filter_push(current@, keep);
        }
        if c == '/' {
            if is_open {
                let ghost pushed = current@;
                let ghost kept = texts(out@);
                out.push(current);
                assert(texts(out@) =~= kept.push(pushed));
            }
            current = String::new();
            is_open = false;
        } else {
            current.push(c);
            is_open = true;
        }
        i += 1;
    }
    assert(chars@.take(i as int) =~= path@);
    proof {
        slash_pieces(path@).0.lemma_filter_push(current@, keep);
    }
    if is_open {
        let ghost pushed = current@;
        let ghost kept = texts(out@);
        out.push(current);
        assert(texts(out@) =~= kept.push(pushed));
    }
    out
}

/// Joins names into an absolute path.
pub fn join_node_path(names: &Vec<String>) -> (path: String)
    ensures
        path@ == joined_path(texts(names@)),
{
    let mut path: String = String::new();
    let mut i: usize = 0;
    assert(texts(names@).take(0) =~= Seq::<Seq<char>>::empty());
    while i < names.len()
        invariant
            i <= names@.len(),
            path@ == slashed(texts(names@).take(i as int)),
        decreases names@.len() - i,
    {
        path.push('/');
        path.append(names[i].as_str());
        i += 1;
        let ghost taken = texts(names@).take(i as int);
        assert(taken.drop_last() =~= texts(names@).take(i - 1));
        assert(path@ =~= slashed(taken));
    }
    assert(texts(names@).take(i as int) =~= texts(names@));
    if path.as_str().is_empty() {
        path.push('/');
        assert(path@ =~= seq!['/']);
    }
    path
}

/// Whether a name can be a segment: it is not empty and holds no slash.
pub open spec fn is_segment(name: Seq<char>) -> bool {
    name.len() > 0 && !name.contains('/')
}

proof fn lemma_pieces_of_extended(path: Seq<char>, more: Seq<char>)
    requires
        !more.contains('/'),
    ensures
        slash_pieces(path + more).0 == slash_pieces(path).0,
        slash_pieces(path + more).1 == slash_pieces(path).1 + more,
    decreases more.len(),
{
    if more.len() == 0 {
        assert(path + more =~= path);
        assert(slash_pieces(path).1 + more =~= slash_pieces(path).1);
    } else {
        let shorter = more.drop_last();
        assert((path + more).drop_last() =~= path + shorter);
        assert(more[more.len() - 1] != '/');
        assert forall|i: int| 0 <= i < shorter.len() implies shorter[i] != '/' by {
            assert(more[i] != '/');
        }
        lemma_pieces_of_extended(path, shorter);
        assert(slash_pieces(path + more).1 =~= slash_pieces(path).1 + more);
    }
}

proof fn lemma_pieces_of_slashed(names: Seq<Seq<char>>)
    requires
        forall|i: int| 0 <= i < names.len() ==> is_segment(#[trigger] names[i]),
        names.len() > 0,
    ensures
        slash_pieces(slashed(names)).0 == seq![Seq::<char>::empty()] + names.drop_last(),
        slash_pieces(slashed(names)).1 == names.last(),
    decreases names.len(),
{
    let fewer = names.drop_last();
    let before = slashed(fewer) + seq!['/'];
    assert(before.drop_last() =~= slashed(fewer));
    assert forall|i: int| 0 <= i < fewer.len() implies is_segment(#[trigger] fewer[i]) by {
        assert(fewer[i] == names[i]);
    }
    if fewer.len() > 0 {
        lemma_pieces_of_slashed(fewer);
        assert(slash_pieces(before).0 =~= seq![Seq::<char>::empty()] + fewer) by {
            assert(fewer =~= fewer.drop_last().push(fewer.last()));
        }
    } else {
        assert(slashed(fewer) =~= Seq::<char>::empty());
        assert(before.last() == '/');
        assert(slash_pieces(slashed(fewer)) == (Seq::<Seq<char>>::empty(), Seq::<char>::empty()));
        assert(slash_pieces(before).0 =~= seq![Seq::<char>::empty()] + fewer);
    }
    assert(is_segment(names.last()));
    lemma_pieces_of_extended(before, names.last());
    assert(slash_pieces(before).1 + names.last() =~= names.last());
}

/// Splitting a path that was joined out of names gives the names back, as long as
/// each can be a segment.
pub proof fn law_joined_paths_split_back(names: Seq<Seq<char>>)
    requires
        forall|i: int| 0 <= i < names.len() ==> is_segment(#[trigger] names[i]),
    ensures
        segments(joined_path(names)) == names,
{
    reveal(Seq::filter);
    let keep = |piece: Seq<char>| piece.len() > 0;
    if names.len() == 0 {
        let root = seq!['/'];
        assert(root.drop_last() =~= Seq::<char>::empty());
        assert(root.last() == '/');
        assert(slash_pieces(root.drop_last()) == (
            Seq::<Seq<char>>::empty(),
            Seq::<char>::empty(),
        ));
        let pieces = slash_pieces(root).0.push(slash_pieces(root).1);
        assert(pieces =~= seq![Seq::<char>::empty(), Seq::<char>::empty()]);
        assert(pieces.drop_last() =~= seq![Seq::<char>::empty()]);
        assert(pieces.drop_last().drop_last() =~= Seq::<Seq<char>>::empty());
        assert(segments(root) =~= names) by {
            reveal_with_fuel(Seq::filter, 3);
        }
    } else {
        lemma_pieces_of_slashed(names);
        assert(is_segment(names.last()));
        assert(slashed(names).len() > 0);
        let pieces = slash_pieces(slashed(names)).0.push(names.last());
        let first = seq![Seq::<char>::empty()];
        assert(pieces =~= first + names) by {
            assert(names =~= names.drop_last().push(names.last()));
        }
        Seq::filter_distributes_over_add(first, names, keep);
        assert(first.drop_last() =~= Seq::<Seq<char>>::empty());
        assert(first.filter(keep) =~= Seq::<Seq<char>>::empty()) by {
            reveal_with_fuel(Seq::filter, 2);
        }
        lemma_filter_keeps_all(names);
        assert(segments(joined_path(names)) =~= names);
    }
}

proof fn lemma_filter_keeps_all(names: Seq<Seq<char>>)
    requires
        forall|i: int| 0 <= i < names.len() ==> is_segment(#[trigger] names[i]),
    ensures
        names.filter(|piece: Seq<char>| piece.len() > 0) == names,
    decreases names.len(),
{
    reveal(Seq::filter);
    if names.len() > 0 {
        let fewer = names.drop_last();
        assert forall|i: int| 0 <= i < fewer.len() implies is_segment(#[trigger] fewer[i]) by {
            assert(fewer[i] == names[i]);
        }
        lemma_filter_keeps_all(fewer);
        assert(is_segment(names.last()));
        assert(names =~= fewer.push(names.last()));
    }
}

/// A slash at the end of a path counts for nothing; nor does one at its start or
/// behind another slash.
pub proof fn law_extra_slashes_count_for_nothing(before: Seq<char>, after: Seq<char>)
    ensures
        segments(before.push('/')) == segments(before),
        before.len() == 0 || before.last() == '/' ==> segments(before.push('/') + after)
            == segments(before + after),
{
    reveal(Seq::filter);
    let keep = |piece: Seq<char>| piece.len() > 0;
    let more = before.push('/');
    assert(more.drop_last() =~= before);
    let (closed, last) = slash_pieces(before);
    closed.lemma_filter_push(last, keep);
    closed.push(last).lemma_filter_push(Seq::empty(), keep);
    if before.len() == 0 || before.last() == '/' {
        assert(last =~= Seq::<char>::empty());
        lemma_equal_pieces_extend(before, more, after);
        let (c1, l1) = slash_pieces(before + after);
        let (c2, l2) = slash_pieces(more + after);
        c1.lemma_filter_push(l1, keep);
        c2.lemma_filter_push(l2, keep);
    }
}

/// Paths that agree in their non-empty closed pieces and in their last piece still
/// do when both are extended alike.
proof fn lemma_equal_pieces_extend(left: Seq<char>, right: Seq<char>, more: Seq<char>)
    requires
        non_empty(slash_pieces(left).0) == non_empty(slash_pieces(right).0),
        slash_pieces(left).1 == slash_pieces(right).1,
    ensures
        non_empty(slash_pieces(left + more).0) == non_empty(slash_pieces(right + more).0),
        slash_pieces(left + more).1 == slash_pieces(right + more).1,
    decreases more.len(),
{
    let keep = |piece: Seq<char>| piece.len() > 0;
    if more.len() == 0 {
        assert(left + more =~= left);
        assert(right + more =~= right);
    } else {
        let shorter = more.drop_last();
        assert((left + more).drop_last() =~= left + shorter);
        assert((right + more).drop_last() =~= right + shorter);
        lemma_equal_pieces_extend(left, right, shorter);
        let (c1, l1) = slash_pieces(left + shorter);
        let (c2, l2) = slash_pieces(right + shorter);
        c1.lemma_filter_push(l1, keep);
        c2.lemma_filter_push(l2, keep);
    }
}

proof fn lemma_pieces_behind_a_slash(before: Seq<char>, after: Seq<char>)
    ensures
        slash_pieces(before.push('/') + after).0 == slash_pieces(before).0.push(
            slash_pieces(before).1,
        ) + slash_pieces(after).0,
        slash_pieces(before.push('/') + after).1 == slash_pieces(after).1,
    decreases after.len(),
{
    let path = before.push('/') + after;
    let closed = slash_pieces(before).0.push(slash_pieces(before).1);
    if after.len() == 0 {
        assert(path =~= before.push('/'));
        assert(path.drop_last() =~= before);
        assert(closed + slash_pieces(after).0 =~= closed);
    } else {
        let shorter = after.drop_last();
        lemma_pieces_behind_a_slash(before, shorter);
        assert(path.drop_last() =~= before.push('/') + shorter);
        assert(path.last() == after.last());
        assert(slash_pieces(path).0 =~= closed + slash_pieces(after).0);
    }
}

/// A path is its segments with slashes between: without a slash it is one segment, or
/// none where it is empty, and two paths with a slash between have the segments of the
/// one and then those of the other.
pub proof fn law_slashes_part_the_segments(before: Seq<char>, after: Seq<char>)
    ensures
        segments(before.push('/') + after) == segments(before) + segments(after),
        !before.contains('/') && before.len() > 0 ==> segments(before) == seq![before],
        before.len() == 0 ==> segments(before) == Seq::<Seq<char>>::empty(),
{
    reveal(Seq::filter);
    let keep = |piece: Seq<char>| piece.len() > 0;
    lemma_pieces_behind_a_slash(before, after);
    let (c1, l1) = slash_pieces(before);
    let (c2, l2) = slash_pieces(after);
    let path = before.push('/') + after;
    assert(slash_pieces(path).0.push(slash_pieces(path).1) =~= c1.push(l1) + c2.push(l2));
    Seq::filter_distributes_over_add(c1.push(l1), c2.push(l2), keep);
    if !before.contains('/') {
        let none = Seq::<char>::empty();
        lemma_pieces_of_extended(none, before);
        assert(none + before =~= before);
        Seq::<Seq<char>>::empty().lemma_filter_push(before, keep);
        assert(Seq::<Seq<char>>::empty().filter(keep) =~= Seq::<Seq<char>>::empty());
        assert(segments(before) =~= if before.len() > 0 {
            seq![before]
        } else {
            Seq::<Seq<char>>::empty()
        });
    }
}

/// A joined path is the names, each with a slash in front; that of no names is a slash.
pub proof fn law_joined_paths_have_a_slash_before_each_name(names: Seq<Seq<char>>)
    ensures
        names.len() == 0 ==> joined_path(names) == seq!['/'],
        names.len() > 0 ==> joined_path(names) == names.map_values(
            |name: Seq<char>| seq!['/'] + name,
        ).flatten(),
{
    lemma_slashed_is_flat(names);
    if names.len() > 0 {
        assert(slashed(names).len() > 0);
    }
}

proof fn lemma_slashed_is_flat(names: Seq<Seq<char>>)
    ensures
        slashed(names) == names.map_values(|name: Seq<char>| seq!['/'] + name).flatten(),
    decreases names.len(),
{
    let lead = |name: Seq<char>| seq!['/'] + name;
    let led = names.map_values(lead);
    if names.len() > 0 {
        lemma_slashed_is_flat(names.drop_last());
        let fewer = names.drop_last().map_values(lead);
        assert(led =~= fewer.push(seq!['/'] + names.last()));
        fewer.lemma_flatten_push(seq!['/'] + names.last());
        assert(slashed(names) =~= fewer.flatten() + (seq!['/'] + names.last()));
    } else {
        assert(led =~= Seq::<Seq<char>>::empty());
    }
}

// ---------------------------------------------------------------------------
// The chain of ancestors
// ---------------------------------------------------------------------------

/// What is said of a node that is its own ancestor.
pub open spec fn loop_message(uid: (Seq<char>, Seq<char>)) -> Seq<char> {
    "Folder structure loop detected at "@ + uid_text(uid)
}

/// What is said of a node whose parent is not there.
pub open spec fn broken_message(uid: (Seq<char>, Seq<char>)) -> Seq<char> {
    "Node hierarchy is broken: parent "@ + uid_text(uid) + " does not exist"@
}

/// The nodes that the uids name.
pub open spec fn uid_views(uids: Seq<NodeUid>) -> Seq<(Seq<char>, Seq<char>)> {
    Seq::new(uids.len(), |i: int| uids[i]@)
}

/// Whether the list names the node.
pub fn names_node(uids: &Vec<NodeUid>, uid: &NodeUid) -> (r: bool)
    ensures
        r == uid_views(uids@).contains(uid@),
        r <==> exists|i: int| 0 <= i < uids@.len() && (#[trigger] uids@[i])@ == uid@,
{
    let mut i: usize = 0;
    while i < uids.len()
        invariant
            i <= uids@.len(),
            forall|j: int| 0 <= j < i ==> (#[trigger] uids@[j])@ != uid@,
        decreases uids@.len() - i,
    {
        if uids[i].same_as(uid) {
            assert(uid_views(uids@)[i as int] == uid@);
            return true;
        }
        i += 1;
    }
    false
}

/// What a walk to the root does next.
#[derive(Debug, PartialEq, Eq)]
pub enum AncestorStep {
    /// Fetch this parent.
    Fetch(NodeUid),
    /// The root is reached.
    Done,
}

/// A walk from a node to its root: the nodes found so far, the first one first,
/// and every node that was asked for.
#[derive(Debug, PartialEq, Eq)]
pub struct AncestorWalk {
    chain: Vec<Node>,
    visited: Vec<NodeUid>,
}

impl AncestorWalk {
    /// The nodes found so far, the one the walk started from first.
    pub closed spec fn chain(self) -> Seq<Node> {
        self.chain@
    }

    /// The nodes asked for, in order.
    pub closed spec fn visited(self) -> Seq<(Seq<char>, Seq<char>)> {
        uid_views(self.visited@)
    }

    /// No node was asked for twice, and each node found names as its parent the
    /// node asked for next.
    pub open spec fn well_formed(self) -> bool {
        &&& self.chain().len() > 0
        &&& self.visited().no_duplicates()
        &&& self.chain().len() <= self.visited().len() <= self.chain().len() + 1
        &&& forall|i: int|
            0 <= i < self.visited().len() - 1 ==> (#[trigger] self.chain()[i]).parent_uid is Some
                && self.chain()[i].parent_uid->0@ == self.visited()[i + 1]
    }

    /// Whether every node asked for was found.
    pub open spec fn is_settled(self) -> bool {
        self.chain().len() == self.visited().len()
    }

    /// The walk from a node.
    pub fn start(uid: &NodeUid, node: Node) -> (walk: AncestorWalk)
        ensures
            walk.well_formed(),
            walk.is_settled(),
            walk.chain() == seq![node],
            walk.visited() == seq![uid@],
    {
        let mut chain: Vec<Node> = Vec::new();
        chain.push(node);
        let mut visited: Vec<NodeUid> = Vec::new();
        visited.push(uid.clone());
        let walk = AncestorWalk { chain, visited };
        assert(walk.visited() =~= seq![uid@]);
        assert(walk.chain() =~= seq![node]);
        walk
    }

    /// The parent to fetch next. A parent that was met before closes a loop and
    /// ends the walk.
    pub fn next(&mut self) -> (r: Result<AncestorStep, ProtonError>)
        requires
            old(self).well_formed(),
            old(self).is_settled(),
        ensures
            final(self).well_formed(),
            final(self).chain() == old(self).chain(),
            match old(self).chain().last().parent_uid {
                None => r == Ok::<AncestorStep, ProtonError>(AncestorStep::Done) && *final(self)
                    == *old(self),
                Some(parent) => if old(self).visited().contains(parent@) {
                    r is Err && invalid(r->Err_0, loop_message(parent@)) && *final(self)
                        == *old(self)
                } else {
                    r is Ok && r->Ok_0 == AncestorStep::Fetch(parent) && final(self).visited()
                        == old(self).visited().push(parent@)
                },
            },
            old(self).chain().last().parent_uid is None <==> r == Ok::<AncestorStep, ProtonError>(
                AncestorStep::Done,
            ),
            r is Err ==> {
                let parent = old(self).chain().last().parent_uid->0;
                &&& old(self).visited().contains(parent@)
                &&& r->Err_0 is InvalidOperation
                &&& r->Err_0->InvalidOperation_0@ == "Folder structure loop detected at "@
                    + parent.volume_id@ + seq!['~'] + parent.link_id@
            },
    {
        let last: &Node = &self.chain[self.chain.len() - 1];
        match &last.parent_uid {
            None => Ok(AncestorStep::Done),
            Some(parent) => {
                if names_node(&self.visited, parent) {
                    let mut message: String = owned("Folder structure loop detected at ");
                    message.append(parent.to_text().as_str());
                    return Err(ProtonError::invalid_operation(message.as_str()));
                }
                let parent: NodeUid = parent.clone();
                let ghost before = *self;
                self.visited.push(parent.clone());
                proof {
                    assert(self.visited() =~= before.visited().push(parent@));
                    assert(self.visited().no_duplicates());
                }
                Ok(AncestorStep::Fetch(parent))
            },
        }
    }

    /// Takes in the parent that was fetched. One that does not exist breaks the
    /// hierarchy.
    pub fn found(&mut self, parent_uid: &NodeUid, parent: Option<Node>) -> (r: Result<
        (),
        ProtonError,
    >)
        requires
            old(self).well_formed(),
            !old(self).is_settled(),
        ensures
            final(self).visited() == old(self).visited(),
            match parent {
                Some(node) => r is Ok && final(self).chain() == old(self).chain().push(node)
                    && final(self).well_formed() && final(self).is_settled(),
                None => r is Err && invalid(r->Err_0, broken_message(parent_uid@)) && *final(self)
                    == *old(self),
            },
            r is Err <==> parent is None,
            r is Err ==> r->Err_0 is InvalidOperation && r->Err_0->InvalidOperation_0@
                == "Node hierarchy is broken: parent "@ + parent_uid.volume_id@ + seq!['~']
                + parent_uid.link_id@ + " does not exist"@,
    {
        match parent {
            Some(node) => {
                let ghost before = *self;
                self.chain.push(node);
                proof {
                    assert(self.chain() =~= before.chain().push(node));
                    assert forall|i: int| 0 <= i < self.visited().len() - 1 implies (
                    #[trigger] self.chain()[i]).parent_uid is Some
                        && self.chain()[i].parent_uid->0@ == self.visited()[i + 1] by {
                        assert(self.chain()[i] == before.chain()[i]);
                    }
                }
                Ok(())
            },
            None => {
                let mut message: String = owned("Node hierarchy is broken: parent ");
                message.append(parent_uid.to_text().as_str());
                message.append(" does not exist");
                Err(ProtonError::invalid_operation(message.as_str()))
            },
        }
    }

    /// The nodes found, the root first.
    pub fn finish(self) -> (r: Vec<Node>)
        ensures
            r@ == self.chain().reverse(),
    {
        let mut rest: Vec<Node> = self.chain;
        let mut out: Vec<Node> = Vec::new();
        let ghost all = rest@;
        while rest.len() > 0
            invariant
                rest@.len() + out@.len() == all.len(),
                rest@ == all.take(rest@.len() as int),
                out@ == all.reverse().take(out@.len() as int),
            decreases rest@.len(),
        {
            match rest.pop() {
                Some(node) => out.push(node),
                None => {},
            }
            assert(out@ =~= all.reverse().take(out@.len() as int));
            assert(rest@ =~= all.take(rest@.len() as int));
        }
        assert(out@ =~= all.reverse());
        out
    }
}

/// The names of nodes.
pub open spec fn node_names(nodes: Seq<Node>) -> Seq<Seq<char>> {
    Seq::new(nodes.len(), |i: int| nodes[i].name@)
}

/// The names below the root.
pub open spec fn names_below_root(nodes: Seq<Node>) -> Seq<Seq<char>> {
    if nodes.len() == 0 {
        Seq::empty()
    } else {
        node_names(nodes).skip(1)
    }
}

/// The path of the last node of a hierarchy, whose first node is the root. The
/// root has no name in it.
pub fn hierarchy_path(hierarchy: &Vec<Node>) -> (path: String)
    ensures
        path@ == joined_path(names_below_root(hierarchy@)),
{
    let mut names: Vec<String> = Vec::new();
    let mut i: usize = 1;
    while i < hierarchy.len()
        invariant
            1 <= i,
            i <= hierarchy@.len() || (i == 1 && hierarchy@.len() == 0),
            names@.len() == i - 1,
            forall|j: int| 0 <= j < i - 1 ==> (#[trigger] names@[j])@ == hierarchy@[j + 1].name@,
        decreases hierarchy@.len() - i,
    {
        names.push(hierarchy[i].name.clone());
        i += 1;
    }
    assert(texts(names@) =~= names_below_root(hierarchy@));
    join_node_path(&names)
}

// ---------------------------------------------------------------------------
// Down a path
// ---------------------------------------------------------------------------

/// Whether child `i` is the first of that name.
pub open spec fn first_named(children: Seq<Node>, name: Seq<char>, i: int) -> bool {
    &&& 0 <= i < children.len()
    &&& children[i].name@ == name
    &&& forall|j: int| 0 <= j < i ==> (#[trigger] children[j]).name@ != name
}

/// Where the first child of a name stands.
pub open spec fn first_position(children: Seq<Node>, name: Seq<char>) -> int {
    choose|i: int| first_named(children, name, i)
}

/// Whether some child has the name.
pub open spec fn has_named(children: Seq<Node>, name: Seq<char>) -> bool {
    exists|i: int| 0 <= i < children.len() && (#[trigger] children[i]).name@ == name
}

fn position_named(children: &Vec<Node>, name: &str) -> (r: Option<usize>)
    ensures
        match r {
            Some(i) => first_named(children@, name@, i as int) && i == first_position(
                children@,
                name@,
            ) && has_named(children@, name@),
            None => !has_named(children@, name@),
        },
{
    let mut i: usize = 0;
    while i < children.len()
        invariant
            i <= children@.len(),
            forall|j: int| 0 <= j < i ==> (#[trigger] children@[j]).name@ != name@,
        decreases children@.len() - i,
    {
        if same_text(children[i].name.as_str(), name) {
            proof {
                let k = first_position(children@, name@);
                assert(first_named(children@, name@, i as int));
                if k < i {
                    assert(children@[k].name@ != name@);
                } else if i < k {
                    assert(children@[i as int].name@ != name@);
                }
            }
            return Some(i);
        }
        i += 1;
    }
    None
}

/// The child of a name. Names are matched exactly; of several children with the
/// name, the first one is taken.
pub fn find_child_by_name(children: &Vec<Node>, name: &str) -> (r: Option<NodeUid>)
    ensures
        match r {
            Some(uid) => has_named(children@, name@) && uid == children@[first_position(
                children@,
                name@,
            )].uid,
            None => !has_named(children@, name@),
        },
        r is None <==> forall|i: int|
            0 <= i < children@.len() ==> (#[trigger] children@[i]).name@ != name@,
        r is Some ==> exists|i: int|
            #![trigger children@[i]]
            0 <= i < children@.len() && children@[i].name@ == name@ && r->0 == children@[i].uid && (
            forall|j: int| 0 <= j < i ==> (#[trigger] children@[j]).name@ != name@),
{
    match position_named(children, name) {
        Some(i) => Some(children[i].uid.clone()),
        None => None,
    }
}

/// What is said of a path that leads through a file.
pub open spec fn file_in_the_way(name: Seq<char>, uid: (Seq<char>, Seq<char>)) -> Seq<char> {
    "Cannot create folder path: "@ + name + " exists as a file ("@ + uid_text(uid) + ")"@
}

/// The folder of a name. A file of that name is an error.
pub fn find_existing_folder(children: &Vec<Node>, name: &str) -> (r: Result<
    Option<NodeUid>,
    ProtonError,
>)
    ensures
        match r {
            Ok(Some(uid)) => {
                let child = children@[first_position(children@, name@)];
                has_named(children@, name@) && child.kind is Folder && uid == child.uid
            },
            Ok(None) => !has_named(children@, name@),
            Err(e) => {
                let child = children@[first_position(children@, name@)];
                has_named(children@, name@) && child.kind is File && invalid(
                    e,
                    file_in_the_way(name@, child.uid@),
                )
            },
        },
        r == Ok::<Option<NodeUid>, ProtonError>(None) <==> forall|i: int|
            0 <= i < children@.len() ==> (#[trigger] children@[i]).name@ != name@,
        r is Ok && r->Ok_0 is Some ==> exists|i: int|
            #![trigger children@[i]]
            0 <= i < children@.len() && children@[i].name@ == name@ && children@[i].kind is Folder
                && r->Ok_0->0 == children@[i].uid && (forall|j: int|
                0 <= j < i ==> (#[trigger] children@[j]).name@ != name@),
        r is Err ==> exists|i: int|
            #![trigger children@[i]]
            0 <= i < children@.len() && children@[i].name@ == name@ && children@[i].kind is File
                && r->Err_0 is InvalidOperation && r->Err_0->InvalidOperation_0@
                == "Cannot create folder path: "@ + name@ + " exists as a file ("@
                + children@[i].uid.volume_id@ + seq!['~'] + children@[i].uid.link_id@ + ")"@ && (
            forall|j: int| 0 <= j < i ==> (#[trigger] children@[j]).name@ != name@),
{
    match position_named(children, name) {
        Some(i) => {
            let child: &Node = &children[i];
            if child.is_folder() {
                Ok(Some(child.uid.clone()))
            } else {
                let mut message: String = owned("Cannot create folder path: ");
                message.append(name);
                message.append(" exists as a file (");
                message.append(child.uid.to_text().as_str());
                message.append(")");
                Err(ProtonError::invalid_operation(message.as_str()))
            }
        },
        None => Ok(None),
    }
}

/// A walk down a path: the segments, how many of them are behind, and the node
/// that has been reached.
#[derive(Debug, PartialEq, Eq)]
pub struct PathWalk {
    pub segments: Vec<String>,
    pub behind: usize,
    pub current: NodeUid,
}

/// What a walk down a path does next.
#[derive(Debug, PartialEq, Eq)]
pub enum PathStep {
    /// List the children of a node and look for a name among them.
    Look { parent: NodeUid, name: String },
    /// The node at the end of the path is reached.
    Reached(NodeUid),
    /// The path leads nowhere.
    Missing,
}

impl PathWalk {
    pub open spec fn well_formed(self) -> bool {
        self.behind <= self.segments@.len()
    }

    /// The step for where the walk stands.
    pub open spec fn is_step(self, step: PathStep) -> bool {
        if self.behind < self.segments@.len() {
            step == (PathStep::Look {
                parent: self.current,
                name: self.segments@[self.behind as int],
            })
        } else {
            step == PathStep::Reached(self.current)
        }
    }

    /// A walk down `path` that starts at `root`.
    pub fn start(root: &NodeUid, path: &str) -> (walk: PathWalk)
        ensures
            walk.well_formed(),
            texts(walk.segments@) == segments(path@),
            walk.behind == 0,
            walk.current == *root,
    {
        PathWalk { segments: path_segments(path), behind: 0, current: root.clone() }
    }

    /// What to do next.
    pub fn next(&self) -> (step: PathStep)
        requires
            self.well_formed(),
        ensures
            self.is_step(step),
            self.behind < self.segments@.len() ==> step == (PathStep::Look {
                parent: self.current,
                name: self.segments@[self.behind as int],
            }),
            self.behind == self.segments@.len() ==> step == PathStep::Reached(self.current),
    {
        if self.behind < self.segments.len() {
            PathStep::Look {
                parent: self.current.clone(),
                name: self.segments[self.behind].clone(),
            }
        } else {
            PathStep::Reached(self.current.clone())
        }
    }

    /// Goes on to the child of the wanted name. The walk ends where there is none.
    pub fn looked(&mut self, children: &Vec<Node>) -> (step: PathStep)
        requires
            old(self).well_formed(),
            old(self).behind < old(self).segments@.len(),
        ensures
            final(self).well_formed(),
            final(self).segments == old(self).segments,
            ({
                let name = old(self).segments@[old(self).behind as int]@;
                if has_named(children@, name) {
                    &&& final(self).current == children@[first_position(children@, name)].uid
                    &&& final(self).behind == old(self).behind + 1
                    &&& final(self).is_step(step)
                } else {
                    *final(self) == *old(self) && step == PathStep::Missing
                }
            }),
            final(self).current != old(self).current || final(self).behind != old(self).behind ==> exists|
                i: int,
            |
                #![trigger children@[i]]
                0 <= i < children@.len() && children@[i].name@
                    == old(self).segments@[old(self).behind as int]@ && final(self).current
                    == children@[i].uid && (forall|j: int|
                    0 <= j < i ==> (#[trigger] children@[j]).name@
                        != old(self).segments@[old(self).behind as int]@),
            step == PathStep::Missing <==> forall|i: int|
                0 <= i < children@.len() ==> (#[trigger] children@[i]).name@
                    != old(self).segments@[old(self).behind as int]@,
            step != PathStep::Missing && final(self).behind < final(self).segments@.len() ==> step == (
            PathStep::Look {
                parent: final(self).current,
                name: final(self).segments@[final(self).behind as int],
            }),
            step != PathStep::Missing && final(self).behind == final(self).segments@.len() ==> step
                == PathStep::Reached(final(self).current),
    {
        match find_child_by_name(children, self.segments[self.behind].as_str()) {
            Some(uid) => {
                assert(self.behind < self.segments.len());
                self.current = uid;
                self.behind = self.behind + 1;
                self.next()
            },
            None => PathStep::Missing,
        }
    }
}

/// The making of the folders along a path: the walk, and why the last attempt to
/// make a folder failed.
#[derive(Debug, PartialEq, Eq)]
pub struct FolderPath {
    pub walk: PathWalk,
    pub failed: Option<ProtonError>,
}

/// What the making of a path does next.
#[derive(Debug, PartialEq, Eq)]
pub enum FolderStep {
    /// Look for a folder of this name.
    Look { parent: NodeUid, name: String },
    /// Make a folder of this name.
    Make { parent: NodeUid, name: String },
    /// All folders are there; this is the deepest one.
    Done(NodeUid),
    /// A folder could not be made.
    Failed(ProtonError),
}

impl FolderPath {
    /// The step for where the walk stands.
    pub open spec fn is_step(self, step: FolderStep) -> bool {
        if self.walk.behind < self.walk.segments@.len() {
            step == (FolderStep::Look {
                parent: self.walk.current,
                name: self.walk.segments@[self.walk.behind as int],
            })
        } else {
            step == FolderStep::Done(self.walk.current)
        }
    }

    pub fn start(root: &NodeUid, path: &str) -> (making: FolderPath)
        ensures
            making.walk.well_formed(),
            texts(making.walk.segments@) == segments(path@),
            making.walk.behind == 0,
            making.walk.current == *root,
            making.failed is None,
    {
        FolderPath { walk: PathWalk::start(root, path), failed: None }
    }

    /// What to do next.
    pub fn next(&self) -> (step: FolderStep)
        requires
            self.walk.well_formed(),
        ensures
            self.is_step(step),
    {
        if self.walk.behind < self.walk.segments.len() {
            FolderStep::Look {
                parent: self.walk.current.clone(),
                name: self.walk.segments[self.walk.behind].clone(),
            }
        } else {
            FolderStep::Done(self.walk.current.clone())
        }
    }

    /// Takes in what the search for the next folder found. A folder that is there
    /// is used. One that is not is made, unless making it has just failed: then
    /// nobody else made it either, and the failure stands.
    pub fn looked(&mut self, found: Option<NodeUid>) -> (step: FolderStep)
        requires
            old(self).walk.well_formed(),
            old(self).walk.behind < old(self).walk.segments@.len(),
        ensures
            final(self).walk.well_formed(),
            final(self).walk.segments == old(self).walk.segments,
            final(self).failed is None,
            match found {
                Some(uid) => final(self).walk.current == uid && final(self).walk.behind
                    == old(self).walk.behind + 1 && final(self).is_step(step),
                None => final(self).walk == old(self).walk && match old(self).failed {
                    Some(e) => step == FolderStep::Failed(e),
                    None => step == (FolderStep::Make {
                        parent: old(self).walk.current,
                        name: old(self).walk.segments@[old(self).walk.behind as int],
                    }),
                },
            },
    {
        let failed: Option<ProtonError> = self.failed.take();
        match found {
            Some(uid) => {
                assert(self.walk.behind < self.walk.segments.len());
                self.walk.current = uid;
                self.walk.behind = self.walk.behind + 1;
                self.next()
            },
            None => match failed {
                Some(e) => FolderStep::Failed(e),
                None => FolderStep::Make {
                    parent: self.walk.current.clone(),
                    name: self.walk.segments[self.walk.behind].clone(),
                },
            },
        }
    }

    /// Takes in what came of making the folder. A failure may mean that somebody
    /// else was faster, so the folder is looked for again.
    pub fn made(&mut self, created: Result<NodeUid, ProtonError>) -> (step: FolderStep)
        requires
            old(self).walk.well_formed(),
            old(self).walk.behind < old(self).walk.segments@.len(),
            old(self).failed is None,
        ensures
            final(self).walk.well_formed(),
            final(self).walk.segments == old(self).walk.segments,
            final(self).is_step(step),
            match created {
                Ok(uid) => final(self).walk.current == uid && final(self).walk.behind
                    == old(self).walk.behind + 1 && final(self).failed is None,
                Err(e) => final(self).walk == old(self).walk && final(self).failed == Some(e),
            },
    {
        match created {
            Ok(uid) => {
                assert(self.walk.behind < self.walk.segments.len());
                self.walk.current = uid;
                self.walk.behind = self.walk.behind + 1;
            },
            Err(e) => {
                self.failed = Some(e);
            },
        }
        self.next()
    }
}

/// The node that a walk down the names ends at, when the children of each node are
/// as `listing` says.
pub open spec fn resolved(
    listing: spec_fn((Seq<char>, Seq<char>)) -> Seq<Node>,
    from: (Seq<char>, Seq<char>),
    names: Seq<Seq<char>>,
) -> Option<(Seq<char>, Seq<char>)>
    decreases names.len(),
{
    if names.len() == 0 {
        Some(from)
    } else if has_named(listing(from), names[0]) {
        let i = first_position(listing(from), names[0]);
        resolved(listing, listing(from)[i].uid@, names.drop_first())
    } else {
        None
    }
}

/// Whether `child` is what looking for its name among the children of `parent`
/// finds.
pub open spec fn is_found_under(
    listing: spec_fn((Seq<char>, Seq<char>)) -> Seq<Node>,
    parent: Node,
    child: Node,
) -> bool {
    let children = listing(parent.uid@);
    has_named(children, child.name@) && children[first_position(children, child.name@)].uid@
        == child.uid@
}

/// The path of a node leads back to it from the root of its hierarchy, as long as
/// every name on the way can be a segment and no sibling of the same name is listed
/// before it.
pub proof fn law_path_leads_back(
    listing: spec_fn((Seq<char>, Seq<char>)) -> Seq<Node>,
    hierarchy: Seq<Node>,
)
    requires
        hierarchy.len() > 0,
        forall|i: int| 1 <= i < hierarchy.len() ==> is_segment((#[trigger] hierarchy[i]).name@),
        forall|i: int|
            1 <= i < hierarchy.len() ==> is_found_under(
                listing,
                hierarchy[i - 1],
                #[trigger] hierarchy[i],
            ),
    ensures
        resolved(
            listing,
            hierarchy[0].uid@,
            segments(joined_path(names_below_root(hierarchy))),
        ) == Some(hierarchy.last().uid@),
{
    let names = names_below_root(hierarchy);
    assert forall|i: int| 0 <= i < names.len() implies is_segment(#[trigger] names[i]) by {
        assert(names[i] == hierarchy[i + 1].name@);
    }
    law_joined_paths_split_back(names);
    lemma_walk_reaches(listing, hierarchy);
}

proof fn lemma_walk_reaches(
    listing: spec_fn((Seq<char>, Seq<char>)) -> Seq<Node>,
    hierarchy: Seq<Node>,
)
    requires
        hierarchy.len() > 0,
        forall|i: int|
            1 <= i < hierarchy.len() ==> is_found_under(
                listing,
                hierarchy[i - 1],
                #[trigger] hierarchy[i],
            ),
    ensures
        resolved(listing, hierarchy[0].uid@, names_below_root(hierarchy)) == Some(
            hierarchy.last().uid@,
        ),
    decreases hierarchy.len(),
{
    let names = names_below_root(hierarchy);
    if hierarchy.len() > 1 {
        let rest = hierarchy.drop_first();
        let children = listing(hierarchy[0].uid@);
        let child = hierarchy[1];
        assert(is_found_under(listing, hierarchy[0], child));
        assert(names[0] == child.name@);
        assert forall|j: int| 1 <= j < rest.len() implies is_found_under(
            listing,
            rest[j - 1],
            #[trigger] rest[j],
        ) by {
            assert(rest[j] == hierarchy[j + 1]);
            assert(is_found_under(listing, hierarchy[j], hierarchy[j + 1]));
        }
        lemma_walk_reaches(listing, rest);
        assert(names.drop_first() =~= names_below_root(rest));
        assert(rest.last() == hierarchy.last());
    }
}

/// The first child of a name is the one that a name leads to.
pub proof fn law_the_first_child_of_a_name_is_meant(
    children: Seq<Node>,
    name: Seq<char>,
    i: int,
)
    ensures
        has_named(children, name) <==> exists|j: int|
            0 <= j < children.len() && (#[trigger] children[j]).name@ == name,
        0 <= i < children.len() && children[i].name@ == name && (forall|j: int|
            0 <= j < i ==> (#[trigger] children[j]).name@ != name) ==> first_position(
            children,
            name,
        ) == i,
        names_below_root(children).len() == (if children.len() == 0 {
            0
        } else {
            children.len() - 1
        }),
        0 <= i < children.len() - 1 ==> names_below_root(children)[i] == children[i + 1].name@,
{
    if 0 <= i < children.len() && children[i].name@ == name && (forall|j: int|
        0 <= j < i ==> (#[trigger] children[j]).name@ != name) {
        assert(first_named(children, name, i));
        let k = first_position(children, name);
        assert(first_named(children, name, k));
        if k < i {
            assert(children[k].name@ != name);
        } else if i < k {
            assert(children[i].name@ != name);
        }
    }
}

/// A step asks for the next segment under what was reached, or says what was reached.
pub proof fn law_steps_follow_the_segments(
    walk: PathWalk,
    step: PathStep,
    making: FolderPath,
    made: FolderStep,
)
    ensures
        walk.is_step(step) && walk.behind < walk.segments@.len() ==> step == (PathStep::Look {
            parent: walk.current,
            name: walk.segments@[walk.behind as int],
        }),
        walk.is_step(step) && walk.behind >= walk.segments@.len() ==> step == PathStep::Reached(
            walk.current,
        ),
        making.is_step(made) && making.walk.behind < making.walk.segments@.len() ==> made == (
        FolderStep::Look {
            parent: making.walk.current,
            name: making.walk.segments@[making.walk.behind as int],
        }),
        making.is_step(made) && making.walk.behind >= making.walk.segments@.len() ==> made
            == FolderStep::Done(making.walk.current),
{
}

} // verus!
