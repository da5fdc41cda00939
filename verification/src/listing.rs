//! The recursive tree lister.
//!
//! For each directory, a header line naming it, then one line per direct
//! entry — entries whose names begin with the hidden marker `.` suppressed
//! unless hidden entries are asked for, in which case the two synthetic
//! self and parent entries come first — and then, depth-first and in order,
//! the listing of each directory-typed entry.

use vstd::prelude::*;
use vstd::string::StrSliceExecFns;
use vstd::string::StringExecFns;

use crate::fstree::FsTree;
use crate::fstree::NodeV;
use crate::fstree::lemma_model_entries;
use crate::fstree::model_entries;

verus! {

/// A hidden entry: its name begins with the marker `.`.
pub open spec fn hidden_name(s: Seq<char>) -> bool {
    s.len() > 0 && s[0] == '.'
}

/// The names that remain when hidden ones are suppressed, in order.
pub open spec fn visible_names(names: Seq<Seq<char>>) -> Seq<Seq<char>>
    decreases names.len(),
{
    if names.len() == 0 {
        Seq::empty()
    } else {
        let rest = visible_names(names.drop_last());
        if hidden_name(names.last()) {
            rest
        } else {
            rest.push(names.last())
        }
    }
}

/// One directory's listed lines: with hidden entries shown, the synthetic
/// self and parent entries and then every name; otherwise the names that
/// are not hidden.
pub open spec fn spec_list_entries(names: Seq<Seq<char>>, show_hidden: bool) -> Seq<Seq<char>> {
    if show_hidden {
        seq![seq!['.'], seq!['.', '.']] + names
    } else {
        visible_names(names)
    }
}

/// Whether this name begins with the hidden marker.
pub fn is_hidden_name(s: &String) -> (r: bool)
    ensures
        r == hidden_name(s@),
{
    let n = s.as_str().unicode_len();
    if n == 0 {
        false
    } else {
        s.as_str().get_char(0) == '.'
    }
}

/// Lists one directory's entry names, per [`spec_list_entries`]: hidden
/// names suppressed, or every name behind the two synthetic entries.
pub fn list_entries(names: &Vec<String>, show_hidden: bool) -> (r: Vec<String>)
    ensures
        r.deep_view() == spec_list_entries(names.deep_view(), show_hidden),
{
    let ghost target = spec_list_entries(names.deep_view(), show_hidden);
    let mut out: Vec<String> = Vec::new();
    if show_hidden {
        proof {
            reveal_strlit(".");
            reveal_strlit("..");
        }
        out.push(String::from_str("."));
        out.push(String::from_str(".."));
        let mut i: usize = 0;
        while i < names.len()
            invariant
                i <= names.len(),
                out@.len() == i + 2,
                out.deep_view() =~~= (seq![seq!['.'], seq!['.', '.']] + names.deep_view().take(
                    i as int,
                )),
            decreases names.len() - i,
        {
            let ghost out0 = out.deep_view();
            out.push(names[i].clone());
            proof {
                let rhs = seq![seq!['.'], seq!['.', '.']] + names.deep_view().take(i + 1);
                assert(out.deep_view().len() == out0.len() + 1);
                assert(out.deep_view()[out0.len() as int] == names.deep_view()[i as int]);
                assert forall|k: int| 0 <= k < out.deep_view().len() implies out.deep_view()[k]
                    == rhs[k] by {
                    if k < out0.len() {
                        assert(out.deep_view()[k] == out0[k]);
                    }
                }
                assert(out.deep_view() =~= rhs);
            }
            i += 1;
        }
        proof {
            assert(names.deep_view().take(names@.len() as int) =~= names.deep_view());
            assert(out.deep_view() =~~= target);
        }
    } else {
        let mut i: usize = 0;
        while i < names.len()
            invariant
                i <= names.len(),
                out.deep_view() =~~= visible_names(names.deep_view().take(i as int)),
            decreases names.len() - i,
        {
            proof {
                assert(names.deep_view().take(i + 1).drop_last() =~= names.deep_view().take(
                    i as int,
                ));
                assert(names.deep_view().take(i + 1).last() == names.deep_view()[i as int]);
            }
            if !is_hidden_name(&names[i]) {
                out.push(names[i].clone());
            }
            proof {
                assert(out.deep_view() =~~= visible_names(names.deep_view().take(i + 1)));
            }
            i += 1;
        }
        proof {
            assert(names.deep_view().take(names@.len() as int) =~= names.deep_view());
            assert(out.deep_view() =~~= target);
        }
    }
    out
}

/// No name that survives the hidden-name filter is hidden.
proof fn lemma_visible_names_hidden(names: Seq<Seq<char>>)
    ensures
        forall|i: int|
            0 <= i < visible_names(names).len() ==> !hidden_name(
                #[trigger] visible_names(names)[i],
            ),
    decreases names.len(),
{
    if names.len() > 0 {
        lemma_visible_names_hidden(names.drop_last());
        let rest = visible_names(names.drop_last());
        assert forall|i: int|
            0 <= i < visible_names(names).len() implies !hidden_name(
            visible_names(names)[i],
        ) by {
            if !hidden_name(names.last()) && i == rest.len() {
                assert(visible_names(names)[i] == names.last());
            } else {
                assert(visible_names(names)[i] == rest[i]);
            }
        }
    }
}

/// With hidden entries suppressed no listed name is hidden; with them
/// shown, the listing is exactly the two synthetic entries and then every
/// name, in that order.
pub proof fn lemma_list_entries_hidden(names: Seq<Seq<char>>)
    ensures
        forall|i: int|
            0 <= i < spec_list_entries(names, false).len() ==> !hidden_name(
                #[trigger] spec_list_entries(names, false)[i],
            ),
        spec_list_entries(names, true) =~= seq![seq!['.'], seq!['.', '.']] + names,
{
    lemma_visible_names_hidden(names);
}

} // verus!

verus! {

/// The character views of a run of strings.
pub open spec fn views_of(s: Seq<String>) -> Seq<Seq<char>> {
    s.map_values(|x: String| x@)
}

/// A string vector's deep view is the views of its elements.
proof fn lemma_views_of(v: Vec<String>)
    ensures
        v.deep_view() == views_of(v@),
{
    assert(v.deep_view() =~= views_of(v@));
}

/// Views distribute over concatenation.
proof fn lemma_views_of_concat(a: Seq<String>, b: Seq<String>)
    ensures
        views_of(a + b) == views_of(a) + views_of(b),
{
    assert(views_of(a + b) =~= views_of(a) + views_of(b));
}

/// The names of a directory's entries, in order.
pub open spec fn entry_names(entries: Seq<(Seq<char>, NodeV)>) -> Seq<Seq<char>> {
    entries.map_values(|e: (Seq<char>, NodeV)| e.0)
}

/// The lines of the whole walk rooted at `path`: the directory's header —
/// its path with a colon appended — then its listing, then, depth-first and
/// in order, the walk of each directory-typed entry under `path/<name>`.
/// A file at the root produces nothing.
pub open spec fn spec_list_tree(path: Seq<char>, t: NodeV, show_hidden: bool) -> Seq<Seq<char>>
    decreases t,
{
    match t {
        NodeV::File { .. } => Seq::empty(),
        NodeV::Dir { entries } => seq![path + seq![':']] + spec_list_entries(
            entry_names(entries),
            show_hidden,
        ) + spec_list_children(path, entries, show_hidden),
    }
}

/// The concatenated walks of the directory-typed entries, in order.
pub open spec fn spec_list_children(
    path: Seq<char>,
    entries: Seq<(Seq<char>, NodeV)>,
    show_hidden: bool,
) -> Seq<Seq<char>>
    decreases entries,
{
    if entries.len() == 0 {
        Seq::empty()
    } else {
        let head = if entries[0].1 is Dir {
            spec_list_tree(path + seq!['/'] + entries[0].0, entries[0].1, show_hidden)
        } else {
            Seq::empty()
        };
        head + spec_list_children(path, entries.drop_first(), show_hidden)
    }
}

/// Walks the tree `t`, rooted at `path`, and returns its listed lines per
/// [`spec_list_tree`]: a header and a listing for every directory,
/// depth-first and in enumeration order, and nothing for a file.
pub fn list_tree(path: &String, t: &FsTree, show_hidden: bool) -> (r: Vec<String>)
    ensures
        r.deep_view() == spec_list_tree(path@, t.model(), show_hidden),
    decreases t,
{
    match t {
        FsTree::File { .. } => Vec::new(),
        FsTree::Dir { entries } => {
            let ghost m = model_entries(entries@);
            proof {
                lemma_model_entries(entries@);
                reveal_strlit(":");
            }
            let mut header = path.clone();
            header.append(":");
            proof {
                assert(header@ =~= path@ + seq![':']);
            }
            let mut names: Vec<String> = Vec::new();
            let mut i: usize = 0;
            while i < entries.len()
                invariant
                    i <= entries.len(),
                    names@.len() == i,
                    forall|k: int| 0 <= k < i ==> (#[trigger] names@[k])@ == entries@[k].0@,
                decreases entries.len() - i,
            {
                names.push(entries[i].0.clone());
                i += 1;
            }
            proof {
                lemma_views_of(names);
                assert(names.deep_view() =~= entry_names(m));
            }
            let mut out: Vec<String> = Vec::new();
            out.push(header);
            let mut lines = list_entries(&names, show_hidden);
            proof {
                lemma_views_of(lines);
            }
            let ghost out1 = out@;
            let ghost lines0 = lines@;
            out.append(&mut lines);
            proof {
                lemma_views_of(out);
                lemma_views_of_concat(out1, lines0);
                assert(out.deep_view() =~= (seq![path@ + seq![':']] + spec_list_entries(
                    entry_names(m),
                    show_hidden,
                )));
                assert(m.skip(0) =~= m);
            }
            let mut i: usize = 0;
            while i < entries.len()
                invariant
                    t is Dir,
                    t->entries == *entries,
                    m == model_entries(entries@),
                    i <= entries.len(),
                    spec_list_tree(path@, t.model(), show_hidden) == out.deep_view()
                        + spec_list_children(path@, m.skip(i as int), show_hidden),
                decreases entries.len() - i,
            {
                proof {
                    lemma_model_entries(entries@);
                    assert(decreases_to!(t => t->entries@[i as int].1));
                    assert(m.skip(i as int).drop_first() =~= m.skip(i + 1));
                    reveal_strlit("/");
                }
                match &entries[i].1 {
                    FsTree::Dir { .. } => {
                        let mut child_path = path.clone();
                        child_path.append("/");
                        child_path.append(entries[i].0.as_str());
                        proof {
                            assert(child_path@ =~= path@ + seq!['/'] + m[i as int].0);
                        }
                        let ghost out0 = out@;
                        let mut rec = list_tree(&child_path, &entries[i].1, show_hidden);
                        proof {
                            lemma_views_of(out);
                            lemma_views_of(rec);
                        }
                        out.append(&mut rec);
                        proof {
                            lemma_views_of(out);
                            lemma_views_of_concat(out0, rec@);
                        }
                    },
                    FsTree::File { .. } => {
                    },
                }
                i += 1;
            }
            proof {
                assert(m.skip(entries@.len() as int) =~= Seq::<(Seq<char>, NodeV)>::empty());
                assert(out.deep_view() + Seq::<Seq<char>>::empty() =~= out.deep_view());
            }
            out
        },
    }
}

} // verus!
