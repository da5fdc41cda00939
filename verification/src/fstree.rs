//! The model of a filesystem subtree, and the recursive tree copier over it.
//!
//! A node is a regular file with its bytes or a directory with its entries in
//! enumeration order. The copier computes, from the source node and the state
//! of the destination path, the node that the destination path holds
//! afterwards: a directory source nests under an existing destination
//! directory by its own base name, merges with a directory already standing
//! there, and fails where a node of the other kind is in the way.

use vstd::prelude::*;

use crate::UtilError;

verus! {

/// A filesystem node: a regular file with its contents, or a directory with
/// its named entries in enumeration order.
#[derive(PartialEq, Eq, Debug)]
pub enum FsTree {
    File { data: Vec<u8> },
    Dir { entries: Vec<(String, FsTree)> },
}

/// The mathematical shape of a node: file bytes, or a sequence of
/// name-to-node pairs.
#[verifier::ext_equal]
pub enum NodeV {
    File { data: Seq<u8> },
    Dir { entries: Seq<(Seq<char>, NodeV)> },
}

impl FsTree {
    /// The mathematical value of this node.
    pub open spec fn model(self) -> NodeV
        decreases self,
    {
        match self {
            FsTree::File { data } => NodeV::File { data: data@ },
            FsTree::Dir { entries } => NodeV::Dir { entries: model_entries(entries@) },
        }
    }
}

/// The mathematical value of a run of entries, in order.
pub open spec fn model_entries(es: Seq<(String, FsTree)>) -> Seq<(Seq<char>, NodeV)>
    decreases es,
{
    if es.len() == 0 {
        Seq::empty()
    } else {
        model_entries(es.drop_last()).push((es.last().0@, es.last().1.model()))
    }
}

/// `model_entries` maps each entry to its name and model, keeping order.
pub proof fn lemma_model_entries(es: Seq<(String, FsTree)>)
    ensures
        model_entries(es).len() == es.len(),
        forall|i: int|
            0 <= i < es.len() ==> #[trigger] model_entries(es)[i] == (
            es[i].0@,
            es[i].1.model(),
            ),
    decreases es,
{
    if es.len() > 0 {
        lemma_model_entries(es.drop_last());
    }
}

/// The node a directory's entries hold under `name`: the first entry so
/// named, if any.
pub open spec fn lookup(es: Seq<(Seq<char>, NodeV)>, name: Seq<char>) -> Option<NodeV>
    decreases es.len(),
{
    if es.len() == 0 {
        None
    } else if es[0].0 == name {
        Some(es[0].1)
    } else {
        lookup(es.drop_first(), name)
    }
}

/// The entries after `name` is bound to `v`: the first entry so named is
/// replaced in place, or a new entry is appended.
pub open spec fn store(es: Seq<(Seq<char>, NodeV)>, name: Seq<char>, v: NodeV) -> Seq<
    (Seq<char>, NodeV),
>
    decreases es.len(),
{
    if es.len() == 0 {
        seq![(name, v)]
    } else if es[0].0 == name {
        seq![(name, v)] + es.drop_first()
    } else {
        seq![es[0]] + store(es.drop_first(), name, v)
    }
}

/// A well-formed node: every directory's entry names are distinct, at every
/// depth.
pub open spec fn wf(t: NodeV) -> bool
    decreases t,
{
    match t {
        NodeV::File { .. } => true,
        NodeV::Dir { entries } => {
            &&& forall|i: int, j: int|
                0 <= i < j < entries.len() ==> (#[trigger] entries[i]).0 != (
                #[trigger] entries[j]).0
            &&& forall|i: int| 0 <= i < entries.len() ==> wf((#[trigger] entries[i]).1)
        },
    }
}

/// What copying the node `src`, whose base name is `name`, onto the
/// destination state `dst` leaves at the destination path. `dst` is the node
/// now standing at that path, or `None` where the path is absent; the result
/// is the node the path holds afterwards, or `None` where the copy fails
/// against the filesystem (a node of the other kind stands in the way).
pub open spec fn spec_copy(name: Seq<char>, src: NodeV, dst: Option<NodeV>) -> Option<NodeV>
    decreases src,
{
    match src {
        NodeV::File { data } => {
            match dst {
                Some(NodeV::Dir { entries }) => {
                    match lookup(entries, name) {
                        Some(NodeV::Dir { .. }) => None,
                        _ => Some(
                            NodeV::Dir { entries: store(entries, name, NodeV::File { data }) },
                        ),
                    }
                },
                _ => Some(NodeV::File { data }),
            }
        },
        NodeV::Dir { entries } => {
            match dst {
                Some(NodeV::File { .. }) => None,
                Some(NodeV::Dir { entries: dest_entries }) => {
                    match lookup(dest_entries, name) {
                        Some(NodeV::File { .. }) => None,
                        Some(NodeV::Dir { entries: sub }) => {
                            match spec_copy_entries(entries, NodeV::Dir { entries: sub }) {
                                Some(eff) => Some(
                                    NodeV::Dir { entries: store(dest_entries, name, eff) },
                                ),
                                None => None,
                            }
                        },
                        None => {
                            match spec_copy_entries(entries, NodeV::Dir { entries: Seq::empty() }) {
                                Some(eff) => Some(
                                    NodeV::Dir { entries: store(dest_entries, name, eff) },
                                ),
                                None => None,
                            }
                        },
                    }
                },
                None => spec_copy_entries(entries, NodeV::Dir { entries: Seq::empty() }),
            }
        },
    }
}

/// Copies a source directory's entries, in order, into the directory `acc`:
/// each entry is copied with `acc` as its destination directory, so it lands
/// under its own name, merging with or failing against what stands there.
pub open spec fn spec_copy_entries(src_entries: Seq<(Seq<char>, NodeV)>, acc: NodeV) -> Option<
    NodeV,
>
    decreases src_entries,
{
    if src_entries.len() == 0 {
        Some(acc)
    } else {
        match spec_copy(src_entries[0].0, src_entries[0].1, Some(acc)) {
            Some(acc2) => spec_copy_entries(src_entries.drop_first(), acc2),
            None => None,
        }
    }
}

/// Where the first entry named `name` stands at `i`, `lookup` yields it.
proof fn lemma_lookup_at(es: Seq<(Seq<char>, NodeV)>, name: Seq<char>, i: int)
    requires
        0 <= i < es.len(),
        es[i].0 == name,
        forall|j: int| 0 <= j < i ==> (#[trigger] es[j]).0 != name,
    ensures
        lookup(es, name) == Some(es[i].1),
    decreases i,
{
    if i > 0 {
        lemma_lookup_at(es.drop_first(), name, i - 1);
    }
}

/// Where no entry is named `name`, `lookup` yields nothing.
proof fn lemma_lookup_absent(es: Seq<(Seq<char>, NodeV)>, name: Seq<char>)
    requires
        forall|j: int| 0 <= j < es.len() ==> (#[trigger] es[j]).0 != name,
    ensures
        lookup(es, name) is None,
    decreases es.len(),
{
    if es.len() > 0 {
        lemma_lookup_absent(es.drop_first(), name);
    }
}

/// Where the first entry named `name` stands at `i`, `store` replaces it in
/// place.
proof fn lemma_store_at(es: Seq<(Seq<char>, NodeV)>, name: Seq<char>, v: NodeV, i: int)
    requires
        0 <= i < es.len(),
        es[i].0 == name,
        forall|j: int| 0 <= j < i ==> (#[trigger] es[j]).0 != name,
    ensures
        store(es, name, v) =~= es.update(i, (name, v)),
    decreases i,
{
    if i == 0 {
        assert(seq![(name, v)] + es.drop_first() =~= es.update(0, (name, v)));
    } else {
        lemma_store_at(es.drop_first(), name, v, i - 1);
        assert(seq![es[0]] + store(es.drop_first(), name, v) =~= es.update(i, (name, v)));
    }
}

/// Where no entry is named `name`, `store` appends.
proof fn lemma_store_absent(es: Seq<(Seq<char>, NodeV)>, name: Seq<char>, v: NodeV)
    requires
        forall|j: int| 0 <= j < es.len() ==> (#[trigger] es[j]).0 != name,
    ensures
        store(es, name, v) =~= es.push((name, v)),
    decreases es.len(),
{
    if es.len() == 0 {
        assert(store(es, name, v) =~= es.push((name, v)));
    } else {
        lemma_store_absent(es.drop_first(), name, v);
        assert(seq![es[0]] + store(es.drop_first(), name, v) =~= es.push((name, v)));
    }
}

/// What `lookup` finds after an entry is appended.
proof fn lemma_lookup_push(es: Seq<(Seq<char>, NodeV)>, m: Seq<char>, v: NodeV, name: Seq<char>)
    ensures
        lookup(es.push((m, v)), name) == (if lookup(es, name) is Some {
            lookup(es, name)
        } else if m == name {
            Some(v)
        } else {
            None::<NodeV>
        }),
    decreases es.len(),
{
    if es.len() == 0 {
        assert(es.push((m, v)).drop_first() =~= Seq::<(Seq<char>, NodeV)>::empty());
    } else {
        assert(es.push((m, v)).drop_first() =~= es.drop_first().push((m, v)));
        lemma_lookup_push(es.drop_first(), m, v, name);
    }
}

/// Copies a byte vector.
fn clone_bytes(data: &Vec<u8>) -> (r: Vec<u8>)
    ensures
        r@ == data@,
{
    let mut out: Vec<u8> = Vec::new();
    let mut i: usize = 0;
    while i < data.len()
        invariant
            i <= data.len(),
            out@ =~= data@.take(i as int),
        decreases data.len() - i,
    {
        out.push(data[i]);
        proof {
            assert(data@.take(i as int).push(data@[i as int]) =~= data@.take(i + 1));
        }
        i += 1;
    }
    proof {
        assert(data@.take(data@.len() as int) =~= data@);
    }
    out
}

/// Copies a run of entries; the copies have the same mathematical value.
fn clone_entries_vec(entries: &Vec<(String, FsTree)>) -> (r: Vec<(String, FsTree)>)
    ensures
        r@.len() == entries@.len(),
        model_entries(r@) == model_entries(entries@),
    decreases entries,
{
    let mut out: Vec<(String, FsTree)> = Vec::new();
    let mut i: usize = 0;
    while i < entries.len()
        invariant
            i <= entries.len(),
            out@.len() == i,
            forall|k: int|
                0 <= k < i ==> (#[trigger] out@[k]).0@ == entries@[k].0@ && out@[k].1.model()
                    == entries@[k].1.model(),
        decreases entries.len() - i,
    {
        proof {
            assert(decreases_to!(*entries => entries@[i as int].1));
        }
        let name_c = entries[i].0.clone();
        let tree_c = clone_tree(&entries[i].1);
        out.push((name_c, tree_c));
        i += 1;
    }
    proof {
        lemma_model_entries(out@);
        lemma_model_entries(entries@);
        assert(model_entries(out@) =~= model_entries(entries@));
    }
    out
}

/// Copies a node; the copy has the same mathematical value.
pub fn clone_tree(t: &FsTree) -> (r: FsTree)
    ensures
        r.model() == t.model(),
    decreases t,
{
    match t {
        FsTree::File { data } => FsTree::File { data: clone_bytes(data) },
        FsTree::Dir { entries } => {
            proof {
                assert(decreases_to!(t => t->entries));
                assert(t->entries == *entries);
            }
            FsTree::Dir { entries: clone_entries_vec(entries) }
        },
    }
}

/// Finds the first entry named `name`, if any.
fn find_entry(entries: &Vec<(String, FsTree)>, name: &String) -> (r: Option<usize>)
    ensures
        match r {
            Some(i) => i < entries.len() && entries@[i as int].0@ == name@ && (forall|j: int|
                0 <= j < i ==> (#[trigger] entries@[j]).0@ != name@),
            None => forall|j: int|
                0 <= j < entries@.len() ==> (#[trigger] entries@[j]).0@ != name@,
        },
{
    let mut i: usize = 0;
    while i < entries.len()
        invariant
            i <= entries.len(),
            forall|j: int| 0 <= j < i ==> (#[trigger] entries@[j]).0@ != name@,
        decreases entries.len() - i,
    {
        if entries[i].0.eq(name) {
            return Some(i);
        }
        i += 1;
    }
    None
}

/// A copy of `entries` with `name` bound to `tree`: the first entry so named
/// is replaced in place, or a new entry is appended.
fn store_entry(entries: &Vec<(String, FsTree)>, name: &String, tree: FsTree) -> (r: Vec<(String, FsTree)>)
    ensures
        model_entries(r@) == store(model_entries(entries@), name@, tree.model()),
{
    let ghost target = store(model_entries(entries@), name@, tree.model());
    match find_entry(entries, name) {
        Some(idx) => {
            proof {
                lemma_model_entries(entries@);
                lemma_store_at(model_entries(entries@), name@, tree.model(), idx as int);
            }
            let mut out: Vec<(String, FsTree)> = Vec::new();
            let mut j: usize = 0;
            while j < idx
                invariant
                    j <= idx,
                    idx < entries.len(),
                    out@.len() == j,
                    forall|k: int|
                        0 <= k < j ==> (#[trigger] out@[k]).0@ == entries@[k].0@
                            && out@[k].1.model() == entries@[k].1.model(),
                decreases idx - j,
            {
                let name_c = entries[j].0.clone();
                let tree_c = clone_tree(&entries[j].1);
                out.push((name_c, tree_c));
                j += 1;
            }
            out.push((name.clone(), tree));
            let mut j: usize = idx + 1;
            while j < entries.len()
                invariant
                    idx < j,
                    j <= entries.len(),
                    out@.len() == j,
                    forall|k: int|
                        0 <= k < j && k != idx ==> (#[trigger] out@[k]).0@ == entries@[k].0@
                            && out@[k].1.model() == entries@[k].1.model(),
                    out@[idx as int].0@ == name@,
                    out@[idx as int].1.model() == tree.model(),
                decreases entries.len() - j,
            {
                let name_c = entries[j].0.clone();
                let tree_c = clone_tree(&entries[j].1);
                out.push((name_c, tree_c));
                j += 1;
            }
            proof {
                lemma_model_entries(out@);
                assert(model_entries(out@) =~= target);
            }
            out
        },
        None => {
            proof {
                lemma_model_entries(entries@);
                lemma_store_absent(model_entries(entries@), name@, tree.model());
            }
            let mut out: Vec<(String, FsTree)> = Vec::new();
            let mut j: usize = 0;
            while j < entries.len()
                invariant
                    j <= entries.len(),
                    out@.len() == j,
                    forall|k: int|
                        0 <= k < j ==> (#[trigger] out@[k]).0@ == entries@[k].0@
                            && out@[k].1.model() == entries@[k].1.model(),
                decreases entries.len() - j,
            {
                let name_c = entries[j].0.clone();
                let tree_c = clone_tree(&entries[j].1);
                out.push((name_c, tree_c));
                j += 1;
            }
            out.push((name.clone(), tree));
            proof {
                lemma_model_entries(out@);
                assert(model_entries(out@) =~= target);
            }
            out
        },
    }
}

} // verus!



verus! {

/// The model of an optional destination node.
pub open spec fn model_of(dst: Option<&FsTree>) -> Option<NodeV> {
    match dst {
        Some(t) => Some(t.model()),
        None => None,
    }
}

/// What remains to finish a directory copy once its entries are folded:
/// `des` is the destination directory's entries (or `None` where the
/// destination path was absent), and `folded` the outcome of the fold.
spec fn finish_dir_copy(
    des: Option<Seq<(Seq<char>, NodeV)>>,
    name: Seq<char>,
    folded: Option<NodeV>,
) -> Option<NodeV> {
    match folded {
        None => None,
        Some(eff) => match des {
            None => Some(eff),
            Some(d) => Some(NodeV::Dir { entries: store(d, name, eff) }),
        },
    }
}

/// Copies the node `src`, whose base name is `name`, onto the destination
/// state `dst`, returning the node the destination path holds afterwards.
/// The result is exactly what [`spec_copy`] says: `Err` — always an I/O
/// error — is returned precisely where the copy fails against the
/// filesystem, a node of the other kind standing in the way.
pub fn copy_tree(name: &String, src: &FsTree, dst: Option<&FsTree>) -> (r: Result<
    FsTree,
    UtilError,
>)
    ensures
        (match r {
            Ok(t) => spec_copy(name@, src.model(), model_of(dst)) == Some(t.model()),
            Err(e) => spec_copy(name@, src.model(), model_of(dst)) is None && e == UtilError::Io,
        }),
    decreases src,
{
    match src {
        FsTree::File { data } => {
            match dst {
                Some(d) => {
                    match d {
                        FsTree::Dir { entries } => {
                            proof {
                                lemma_model_entries(entries@);
                            }
                            match find_entry(entries, name) {
                                Some(i) => {
                                    proof {
                                        lemma_lookup_at(
                                            model_entries(entries@),
                                            name@,
                                            i as int,
                                        );
                                    }
                                    match &entries[i].1 {
                                        FsTree::Dir { .. } => Err(UtilError::Io),
                                        FsTree::File { .. } => {
                                            let new_entries = store_entry(
                                                entries,
                                                name,
                                                FsTree::File { data: clone_bytes(data) },
                                            );
                                            Ok(FsTree::Dir { entries: new_entries })
                                        },
                                    }
                                },
                                None => {
                                    proof {
                                        lemma_lookup_absent(model_entries(entries@), name@);
                                    }
                                    let new_entries = store_entry(
                                        entries,
                                        name,
                                        FsTree::File { data: clone_bytes(data) },
                                    );
                                    Ok(FsTree::Dir { entries: new_entries })
                                },
                            }
                        },
                        FsTree::File { .. } => Ok(FsTree::File { data: clone_bytes(data) }),
                    }
                },
                None => Ok(FsTree::File { data: clone_bytes(data) }),
            }
        },
        FsTree::Dir { entries: src_entries } => {
            let ghost full = model_entries(src_entries@);
            let mut acc_entries: Vec<(String, FsTree)> = Vec::new();
            let ghost des: Option<Seq<(Seq<char>, NodeV)>>;
            match dst {
                None => {
                    proof {
                        des = None;
                    }
                },
                Some(d) => {
                    match d {
                        FsTree::File { .. } => {
                            return Err(UtilError::Io);
                        },
                        FsTree::Dir { entries: dest_entries } => {
                            proof {
                                des = Some(model_entries(dest_entries@));
                                lemma_model_entries(dest_entries@);
                            }
                            match find_entry(dest_entries, name) {
                                None => {
                                    proof {
                                        lemma_lookup_absent(model_entries(dest_entries@), name@);
                                    }
                                },
                                Some(i) => {
                                    proof {
                                        lemma_lookup_at(
                                            model_entries(dest_entries@),
                                            name@,
                                            i as int,
                                        );
                                    }
                                    match &dest_entries[i].1 {
                                        FsTree::File { .. } => {
                                            return Err(UtilError::Io);
                                        },
                                        FsTree::Dir { entries: sub } => {
                                            acc_entries = clone_entries_vec(sub);
                                        },
                                    }
                                },
                            }
                        },
                    }
                },
            }
            let mut acc = FsTree::Dir { entries: acc_entries };
            let mut i: usize = 0;
            proof {
                assert(src.model()->entries == full);
                assert(full.skip(0) =~= full);
            }
            while i < src_entries.len()
                invariant
                    src is Dir,
                    src->entries == *src_entries,
                    full == model_entries(src_entries@),
                    i <= src_entries.len(),
                    (match dst {
                        None => des is None,
                        Some(d) => d.model() is Dir && des == Some(d.model()->entries),
                    }),
                    spec_copy(name@, src.model(), model_of(dst)) == finish_dir_copy(
                        des,
                        name@,
                        spec_copy_entries(full.skip(i as int), acc.model()),
                    ),
                decreases src_entries.len() - i,
            {
                proof {
                    lemma_model_entries(src_entries@);
                    assert(decreases_to!(src => src->entries@[i as int].1));
                    assert(full.skip(i as int).drop_first() =~= full.skip(i + 1));
                }
                match copy_tree(&src_entries[i].0, &src_entries[i].1, Some(&acc)) {
                    Ok(acc2) => {
                        acc = acc2;
                    },
                    Err(_) => {
                        return Err(UtilError::Io);
                    },
                }
                i += 1;
            }
            proof {
                lemma_model_entries(src_entries@);
                assert(full.skip(src_entries@.len() as int)
                    =~= Seq::<(Seq<char>, NodeV)>::empty());
            }
            match dst {
                None => Ok(acc),
                Some(d) => {
                    match d {
                        FsTree::Dir { entries: dest_entries } => {
                            let new_entries = store_entry(dest_entries, name, acc);
                            Ok(FsTree::Dir { entries: new_entries })
                        },
                        FsTree::File { .. } => {
                            proof {
                                assert(false);
                            }
                            Err(UtilError::Io)
                        },
                    }
                },
            }
        },
    }
}

} // verus!

verus! {

/// Where `lookup` finds nothing, no entry bears the name.
proof fn lemma_lookup_none_names(es: Seq<(Seq<char>, NodeV)>, name: Seq<char>)
    requires
        lookup(es, name) is None,
    ensures
        forall|j: int| 0 <= j < es.len() ==> (#[trigger] es[j]).0 != name,
    decreases es.len(),
{
    if es.len() > 0 {
        lemma_lookup_none_names(es.drop_first(), name);
        assert forall|j: int| 0 <= j < es.len() implies (#[trigger] es[j]).0 != name by {
            if j > 0 {
                assert(es.drop_first()[j - 1] == es[j]);
            }
        }
    }
}

/// Folding entries with fresh names into a directory appends them one by
/// one, each reproduced exactly.
proof fn lemma_copy_entries_disjoint(es: Seq<(Seq<char>, NodeV)>, acc: Seq<(Seq<char>, NodeV)>)
    requires
        forall|i: int, j: int|
            0 <= i < j < es.len() ==> (#[trigger] es[i]).0 != (#[trigger] es[j]).0,
        forall|i: int| 0 <= i < es.len() ==> wf((#[trigger] es[i]).1),
        forall|i: int| 0 <= i < es.len() ==> lookup(acc, (#[trigger] es[i]).0) is None,
    ensures
        spec_copy_entries(es, NodeV::Dir { entries: acc }) == Some(
            NodeV::Dir { entries: acc + es },
        ),
    decreases es,
{
    if es.len() == 0 {
        assert(acc + es =~= acc);
    } else {
        let e = es[0];
        assert(e == (e.0, e.1));
        lemma_lookup_none_names(acc, e.0);
        let acc2: Seq<(Seq<char>, NodeV)> = acc.push(e);
        match e.1 {
            NodeV::File { data } => {
                lemma_store_absent(acc, e.0, e.1);
                assert(spec_copy(e.0, e.1, Some(NodeV::Dir { entries: acc })) == Some(
                    NodeV::Dir { entries: acc2 },
                ));
            },
            NodeV::Dir { entries: sub } => {
                assert(wf(e.1));
                lemma_copy_entries_disjoint(sub, Seq::empty());
                assert(Seq::empty() + sub =~= sub);
                assert(e.1 =~= NodeV::Dir { entries: sub });
                lemma_store_absent(acc, e.0, e.1);
                assert(spec_copy(e.0, e.1, Some(NodeV::Dir { entries: acc })) == Some(
                    NodeV::Dir { entries: acc2 },
                ));
            },
        }
        assert forall|i: int|
            0 <= i < es.drop_first().len() implies lookup(
            acc2,
            (#[trigger] es.drop_first()[i]).0,
        ) is None by {
            let nm = es.drop_first()[i].0;
            assert(es.drop_first()[i] == es[i + 1]);
            assert(lookup(acc, nm) is None);
            assert(e.0 != nm);
            lemma_lookup_push(acc, e.0, e.1, nm);
        }
        lemma_copy_entries_disjoint(es.drop_first(), acc2);
        assert(acc2 + es.drop_first() =~= acc + es);
    }
}

/// Copying a tree whose directories have distinct entry names into an
/// absent destination reproduces the tree exactly; and since the result is
/// a function of the source alone, doing so twice in a row — removing the
/// result in between — leaves the same tree both times.
pub proof fn lemma_copy_fresh(name: Seq<char>, src: NodeV)
    requires
        wf(src),
    ensures
        spec_copy(name, src, None) == Some(src),
{
    match src {
        NodeV::File { .. } => {},
        NodeV::Dir { entries } => {
            lemma_copy_entries_disjoint(entries, Seq::empty());
            assert(Seq::empty() + entries =~= entries);
            assert(src =~= NodeV::Dir { entries });
        },
    }
}

/// Copying into an existing directory that has no entry of the source's
/// base name nests the source under that name: the destination keeps its
/// entries and gains the source, reproduced exactly, as a new child.
pub proof fn lemma_copy_nests(name: Seq<char>, src: NodeV, dst: NodeV)
    requires
        wf(src),
        dst is Dir,
        lookup(dst->entries, name) is None,
    ensures
        spec_copy(name, src, Some(dst)) == Some(
            NodeV::Dir { entries: dst->entries.push((name, src)) },
        ),
        lookup(dst->entries.push((name, src)), name) == Some(src),
{
    lemma_lookup_none_names(dst->entries, name);
    match src {
        NodeV::File { .. } => {
            lemma_store_absent(dst->entries, name, src);
        },
        NodeV::Dir { entries } => {
            lemma_copy_entries_disjoint(entries, Seq::empty());
            assert(Seq::empty() + entries =~= entries);
            assert(src =~= NodeV::Dir { entries });
            lemma_store_absent(dst->entries, name, src);
        },
    }
    lemma_lookup_push(dst->entries, name, src, name);
}

} // verus!
